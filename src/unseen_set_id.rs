use vstd::prelude::*;

verus! {

/// Identifies the candidate list that a game draws from.
#[derive(Clone, Copy, Debug, PartialEq, Eq, Structural)]
pub enum UnseenSetID {
    /// Can be used for tests.
    Unspecified,
    /// A French dictionary.
    DictionaryFr01,
    /// The 999 most used French words of Wiktionary's frequency list.
    Top999WiktionaryFr,
}

/// The number of each identifier.
pub open spec fn unique_number_of(id: UnseenSetID) -> u64 {
    match id {
        UnseenSetID::Unspecified => 7359453237177161485,
        UnseenSetID::DictionaryFr01 => 16775286842649692529,
        UnseenSetID::Top999WiktionaryFr => 4682054772874934823,
    }
}

impl UnseenSetID {
    /// A number unique to each identifier.
    pub fn unique_number(&self) -> (r: u64)
        ensures
            r == unique_number_of(*self),
    {
        match self {
            UnseenSetID::Unspecified => 7359453237177161485,
            UnseenSetID::DictionaryFr01 => 16775286842649692529,
            UnseenSetID::Top999WiktionaryFr => 4682054772874934823,
        }
    }

    /// The identifier that envelopes made before it was recorded stand for.
    pub fn legacy_default() -> (r: UnseenSetID)
        ensures
            r == UnseenSetID::DictionaryFr01,
    {
        UnseenSetID::DictionaryFr01
    }
}

} // verus!
