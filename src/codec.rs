use vstd::prelude::*;

use crate::game::{finished_spec, game_wf, texts, SeenThreshold, THRESHOLD_MAX};
use crate::game_over::{rebuilt, GameOver, GameOverView};
use crate::pool::MAX_CANDIDATES;
use crate::rng::{hash_bytes, KNOMUL, KSINK};
use crate::unseen_set_id::UnseenSetID;

verus! {

// -------------------------------------------------------------------------------------------------
// Base64 armour
// -------------------------------------------------------------------------------------------------

/// The standard, padded base64 text of `bytes`.
pub uninterp spec fn base64_of(bytes: Seq<u8>) -> Seq<char>;

#[verifier::external_type_specification]
#[verifier::external_body]
pub struct ExDecodeError(base64::DecodeError);

/// Relies on `base64::encode`: the standard alphabet with padding; the text
/// depends on the bytes alone.
#[verifier::external_body]
fn base64_encode(bytes: &Vec<u8>) -> (r: String)
    ensures
        r@ == base64_of(bytes@),
{
    base64::encode(bytes)
}

/// Relies on `base64::decode`: on the text that `base64::encode` made of some
/// bytes it gives back those bytes.
#[verifier::external_body]
fn base64_decode(text: &str) -> (r: Result<Vec<u8>, base64::DecodeError>)
    ensures
        forall|b: Seq<u8>| #[trigger] base64_of(b) == text@ ==> r is Ok && r->Ok_0@ == b,
{
    base64::decode(text)
}

// -------------------------------------------------------------------------------------------------
// Little-endian words
// -------------------------------------------------------------------------------------------------

/// The eight little-endian bytes of `x`.
pub open spec fn le64(x: u64) -> Seq<u8> {
    seq![
        (x & 0xff) as u8,
        ((x >> 8u64) & 0xff) as u8,
        ((x >> 16u64) & 0xff) as u8,
        ((x >> 24u64) & 0xff) as u8,
        ((x >> 32u64) & 0xff) as u8,
        ((x >> 40u64) & 0xff) as u8,
        ((x >> 48u64) & 0xff) as u8,
        ((x >> 56u64) & 0xff) as u8,
    ]
}

/// The word of eight little-endian bytes.
pub open spec fn word_of(b0: u8, b1: u8, b2: u8, b3: u8, b4: u8, b5: u8, b6: u8, b7: u8) -> u64 {
    (b0 as u64) | ((b1 as u64) << 8u64) | ((b2 as u64) << 16u64) | ((b3 as u64) << 24u64) | ((b4 as u64)
        << 32u64) | ((b5 as u64) << 40u64) | ((b6 as u64) << 48u64) | ((b7 as u64) << 56u64)
}

/// The little-endian word at `at`.
pub open spec fn read64(b: Seq<u8>, at: int) -> u64 {
    word_of(b[at], b[at + 1], b[at + 2], b[at + 3], b[at + 4], b[at + 5], b[at + 6], b[at + 7])
}

proof fn lemma_word_of_le64(x: u64)
    ensures
        word_of(
            (x & 0xff) as u8,
            ((x >> 8u64) & 0xff) as u8,
            ((x >> 16u64) & 0xff) as u8,
            ((x >> 24u64) & 0xff) as u8,
            ((x >> 32u64) & 0xff) as u8,
            ((x >> 40u64) & 0xff) as u8,
            ((x >> 48u64) & 0xff) as u8,
            ((x >> 56u64) & 0xff) as u8,
        ) == x,
{
    assert((((x & 0xff) as u8) as u64) | (((((x >> 8u64) & 0xff) as u8) as u64) << 8u64) | (((((x
        >> 16u64) & 0xff) as u8) as u64) << 16u64) | (((((x >> 24u64) & 0xff) as u8) as u64)
        << 24u64) | (((((x >> 32u64) & 0xff) as u8) as u64) << 32u64) | (((((x >> 40u64) & 0xff)
        as u8) as u64) << 40u64) | (((((x >> 48u64) & 0xff) as u8) as u64) << 48u64) | (((((x
        >> 56u64) & 0xff) as u8) as u64) << 56u64) == x) by (bit_vector);
}

/// Reading back the word written at `at` gives the word.
proof fn lemma_read_le64(prefix: Seq<u8>, x: u64, rest: Seq<u8>)
    ensures
        read64(prefix + le64(x) + rest, prefix.len() as int) == x,
{
    let b = prefix + le64(x) + rest;
    let at = prefix.len() as int;
    assert(b[at] == le64(x)[0]);
    assert(b[at + 1] == le64(x)[1]);
    assert(b[at + 2] == le64(x)[2]);
    assert(b[at + 3] == le64(x)[3]);
    assert(b[at + 4] == le64(x)[4]);
    assert(b[at + 5] == le64(x)[5]);
    assert(b[at + 6] == le64(x)[6]);
    assert(b[at + 7] == le64(x)[7]);
    lemma_word_of_le64(x);
}

fn push_le64(out: &mut Vec<u8>, x: u64)
    ensures
        final(out)@ == old(out)@ + le64(x),
{
    out.push((x & 0xff) as u8);
    out.push(((x >> 8) & 0xff) as u8);
    out.push(((x >> 16) & 0xff) as u8);
    out.push(((x >> 24) & 0xff) as u8);
    out.push(((x >> 32) & 0xff) as u8);
    out.push(((x >> 40) & 0xff) as u8);
    out.push(((x >> 48) & 0xff) as u8);
    out.push(((x >> 56) & 0xff) as u8);
    assert(out@ =~= old(out)@ + le64(x));
}

fn read_le64(b: &Vec<u8>, at: usize) -> (r: u64)
    requires
        at + 8 <= b@.len(),
    ensures
        r == read64(b@, at as int),
{
    let _n = b.len();
    (b[at] as u64) | ((b[at + 1] as u64) << 8) | ((b[at + 2] as u64) << 16) | ((b[at + 3] as u64)
        << 24) | ((b[at + 4] as u64) << 32) | ((b[at + 5] as u64) << 40) | ((b[at + 6] as u64)
        << 48) | ((b[at + 7] as u64) << 56)
}

// -------------------------------------------------------------------------------------------------
// Records
// -------------------------------------------------------------------------------------------------

/// What an encoding keeps of a finished game.
pub struct Summary {
    pub seed: u64,
    pub threshold: u32,
    pub incorrect: Seq<Option<usize>>,
    pub checksum: u64,
}

/// The summary of a played game.
pub open spec fn summary_of(g: GameOverView) -> Summary {
    Summary {
        seed: g.game.seed,
        threshold: g.game.threshold,
        incorrect: g.game.incorrect,
        checksum: g.game.checksum,
    }
}

/// Threshold that the legacy version implies.
pub const LEGACY_THRESHOLD: u32 = 400_000_000;

/// Length of a legacy record: the seed and three positions.
pub const V00_RECORD_LEN: usize = 32;

/// Length of a current record: seed, threshold, three flagged positions, checksum.
pub const V01_RECORD_LEN: usize = 51;

/// The legacy record: the seed and the three positions, as little-endian words.
pub open spec fn v00_record(seed: u64, ic: Seq<Option<usize>>) -> Seq<u8> {
    le64(seed) + le64(ic[0]->Some_0 as u64) + le64(ic[1]->Some_0 as u64) + le64(ic[2]->Some_0 as u64)
}

/// A flag byte and a word for an optional position.
pub open spec fn slot_record(p: Option<usize>) -> Seq<u8> {
    match p {
        None => seq![0u8] + le64(0),
        Some(p) => seq![1u8] + le64(p as u64),
    }
}

/// The current record.
pub open spec fn v01_record(s: Summary) -> Seq<u8> {
    le64(s.seed) + le64(s.threshold as u64) + slot_record(s.incorrect[0]) + slot_record(
        s.incorrect[1],
    ) + slot_record(s.incorrect[2]) + le64(s.checksum)
}

/// A position read back from a word, where it fits.
pub open spec fn position_of(w: u64) -> Option<usize> {
    if w <= usize::MAX {
        Some(w as usize)
    } else {
        None
    }
}

/// The flagged position at `at`: `Some(None)` for an empty slot, `None` where malformed.
pub open spec fn read_slot(b: Seq<u8>, at: int) -> Option<Option<usize>> {
    if b[at] == 0 {
        Some(None)
    } else if b[at] == 1 {
        match position_of(read64(b, at + 1)) {
            Some(p) => Some(Some(p)),
            None => None,
        }
    } else {
        None
    }
}

/// The summary in a legacy record, where it is well formed.
pub open spec fn parse_v00(b: Seq<u8>) -> Option<Summary> {
    if b.len() != V00_RECORD_LEN {
        None
    } else {
        match (position_of(read64(b, 8)), position_of(read64(b, 16)), position_of(read64(b, 24))) {
            (Some(p0), Some(p1), Some(p2)) => Some(
                Summary {
                    seed: read64(b, 0),
                    threshold: LEGACY_THRESHOLD,
                    incorrect: seq![Some(p0), Some(p1), Some(p2)],
                    checksum: 0,
                },
            ),
            _ => None,
        }
    }
}

/// The summary in a current record, where it is well formed.
pub open spec fn parse_v01(b: Seq<u8>) -> Option<Summary> {
    if b.len() != V01_RECORD_LEN || read64(b, 8) > THRESHOLD_MAX as u64 {
        None
    } else {
        match (read_slot(b, 16), read_slot(b, 25), read_slot(b, 34)) {
            (Some(p0), Some(p1), Some(p2)) => Some(
                Summary {
                    seed: read64(b, 0),
                    threshold: read64(b, 8) as u32,
                    incorrect: seq![p0, p1, p2],
                    checksum: read64(b, 43),
                },
            ),
            _ => None,
        }
    }
}


fn to_position(w: u64) -> (r: Option<usize>)
    ensures
        r == position_of(w),
{
    if w <= usize::MAX as u64 {
        Some(w as usize)
    } else {
        None
    }
}

fn push_slot(out: &mut Vec<u8>, p: Option<usize>)
    ensures
        final(out)@ == old(out)@ + slot_record(p),
{
    match p {
        None => {
            out.push(0u8);
            push_le64(out, 0);
        },
        Some(p) => {
            out.push(1u8);
            push_le64(out, p as u64);
        },
    }
    assert(final(out)@ =~= old(out)@ + slot_record(p));
}

fn read_slot_exec(b: &Vec<u8>, at: usize) -> (r: Option<Option<usize>>)
    requires
        at + 9 <= b@.len(),
    ensures
        r == read_slot(b@, at as int),
{
    let _n = b.len();
    if b[at] == 0 {
        Some(None)
    } else if b[at] == 1 {
        match to_position(read_le64(b, at + 1)) {
            Some(p) => Some(Some(p)),
            None => None,
        }
    } else {
        None
    }
}

/// The positions of a finished game: all three slots are filled.
pub open spec fn all_filled(ic: Seq<Option<usize>>) -> bool {
    ic[0] is Some && ic[1] is Some && ic[2] is Some
}

fn v00_record_exec(seed: u64, ic: [Option<usize>; 3]) -> (r: Vec<u8>)
    requires
        all_filled(ic@),
    ensures
        r@ == v00_record(seed, ic@),
{
    let mut out: Vec<u8> = Vec::new();
    push_le64(&mut out, seed);
    push_le64(&mut out, ic[0].unwrap() as u64);
    push_le64(&mut out, ic[1].unwrap() as u64);
    push_le64(&mut out, ic[2].unwrap() as u64);
    assert(out@ =~= le64(seed) + le64(ic@[0]->Some_0 as u64) + le64(ic@[1]->Some_0 as u64) + le64(
        ic@[2]->Some_0 as u64,
    ));
    out
}

fn v01_record_exec(seed: u64, threshold: u32, ic: [Option<usize>; 3], checksum: u64) -> (r: Vec<u8>)
    ensures
        r@ == v01_record(Summary { seed, threshold, incorrect: ic@, checksum }),
{
    let mut out: Vec<u8> = Vec::new();
    push_le64(&mut out, seed);
    push_le64(&mut out, threshold as u64);
    push_slot(&mut out, ic[0]);
    push_slot(&mut out, ic[1]);
    push_slot(&mut out, ic[2]);
    push_le64(&mut out, checksum);
    out
}

fn parse_v00_exec(b: &Vec<u8>) -> (r: Option<(u64, [Option<usize>; 3])>)
    ensures
        match r {
            None => parse_v00(b@) is None,
            Some((seed, ic)) => parse_v00(b@) == Some(
                Summary { seed, threshold: LEGACY_THRESHOLD, incorrect: ic@, checksum: 0 },
            ),
        },
{
    if b.len() != V00_RECORD_LEN {
        return None;
    }
    let seed = read_le64(b, 0);
    match (to_position(read_le64(b, 8)), to_position(read_le64(b, 16)), to_position(read_le64(b, 24))) {
        (Some(p0), Some(p1), Some(p2)) => {
            let ic: [Option<usize>; 3] = [Some(p0), Some(p1), Some(p2)];
            assert(ic@ =~= seq![Some(p0), Some(p1), Some(p2)]);
            Some((seed, ic))
        },
        _ => None,
    }
}

fn parse_v01_exec(b: &Vec<u8>) -> (r: Option<(u64, u32, [Option<usize>; 3], u64)>)
    ensures
        match r {
            None => parse_v01(b@) is None,
            Some((seed, threshold, ic, checksum)) => parse_v01(b@) == Some(
                Summary { seed, threshold, incorrect: ic@, checksum },
            ),
        },
{
    if b.len() != V01_RECORD_LEN {
        return None;
    }
    let threshold = read_le64(b, 8);
    if threshold > THRESHOLD_MAX as u64 {
        return None;
    }
    let seed = read_le64(b, 0);
    let checksum = read_le64(b, 43);
    match (read_slot_exec(b, 16), read_slot_exec(b, 25), read_slot_exec(b, 34)) {
        (Some(p0), Some(p1), Some(p2)) => {
            let ic: [Option<usize>; 3] = [p0, p1, p2];
            assert(ic@ =~= seq![p0, p1, p2]);
            Some((seed, threshold as u32, ic, checksum))
        },
        _ => None,
    }
}

/// The legacy record reads back as the seed and positions it was written from.
pub proof fn lemma_v00_record_round_trip(s: Summary)
    requires
        s.incorrect.len() == 3,
        all_filled(s.incorrect),
    ensures
        parse_v00(v00_record(s.seed, s.incorrect)) == Some(
            Summary { seed: s.seed, threshold: LEGACY_THRESHOLD, incorrect: s.incorrect, checksum: 0 },
        ),
{
    let w0 = le64(s.seed);
    let w1 = le64(s.incorrect[0]->Some_0 as u64);
    let w2 = le64(s.incorrect[1]->Some_0 as u64);
    let w3 = le64(s.incorrect[2]->Some_0 as u64);
    let b = v00_record(s.seed, s.incorrect);
    assert(b =~= Seq::<u8>::empty() + w0 + (w1 + w2 + w3));
    lemma_read_le64(Seq::<u8>::empty(), s.seed, w1 + w2 + w3);
    assert(b =~= w0 + w1 + (w2 + w3));
    lemma_read_le64(w0, s.incorrect[0]->Some_0 as u64, w2 + w3);
    assert(b =~= (w0 + w1) + w2 + w3);
    lemma_read_le64(w0 + w1, s.incorrect[1]->Some_0 as u64, w3);
    assert(b =~= (w0 + w1 + w2) + w3 + Seq::<u8>::empty());
    lemma_read_le64(w0 + w1 + w2, s.incorrect[2]->Some_0 as u64, Seq::<u8>::empty());
    assert(seq![s.incorrect[0], s.incorrect[1], s.incorrect[2]] =~= s.incorrect);
}

proof fn lemma_read_at(b: Seq<u8>, at: int, x: u64)
    requires
        0 <= at,
        at + 8 <= b.len(),
        b.subrange(at, at + 8) == le64(x),
    ensures
        read64(b, at) == x,
{
    let w = b.subrange(at, at + 8);
    assert(b[at] == w[0]);
    assert(b[at + 1] == w[1]);
    assert(b[at + 2] == w[2]);
    assert(b[at + 3] == w[3]);
    assert(b[at + 4] == w[4]);
    assert(b[at + 5] == w[5]);
    assert(b[at + 6] == w[6]);
    assert(b[at + 7] == w[7]);
    lemma_word_of_le64(x);
}

proof fn lemma_slot_at(b: Seq<u8>, at: int, p: Option<usize>)
    requires
        0 <= at,
        at + 9 <= b.len(),
        b.subrange(at, at + 9) == slot_record(p),
    ensures
        read_slot(b, at) == Some(p),
{
    assert(b[at] == b.subrange(at, at + 9)[0]);
    if let Some(q) = p {
        assert(b.subrange(at + 1, at + 9) =~= b.subrange(at, at + 9).subrange(1, 9));
        assert(slot_record(p).subrange(1, 9) =~= le64(q as u64));
        lemma_read_at(b, at + 1, q as u64);
    }
}

/// The current record reads back as the summary it was written from.
pub proof fn lemma_v01_record_round_trip(s: Summary)
    requires
        s.incorrect.len() == 3,
        s.threshold <= THRESHOLD_MAX,
    ensures
        parse_v01(v01_record(s)) == Some(s),
{
    let w0 = le64(s.seed);
    let w1 = le64(s.threshold as u64);
    let a = slot_record(s.incorrect[0]);
    let c = slot_record(s.incorrect[1]);
    let d = slot_record(s.incorrect[2]);
    let w5 = le64(s.checksum);
    let b = v01_record(s);
    assert(b.len() == 51);
    assert(b.subrange(0, 8) =~= w0);
    assert(b.subrange(8, 16) =~= w1);
    assert(b.subrange(16, 25) =~= a);
    assert(b.subrange(25, 34) =~= c);
    assert(b.subrange(34, 43) =~= d);
    assert(b.subrange(43, 51) =~= w5);
    lemma_read_at(b, 0, s.seed);
    lemma_read_at(b, 8, s.threshold as u64);
    lemma_slot_at(b, 16, s.incorrect[0]);
    lemma_slot_at(b, 25, s.incorrect[1]);
    lemma_slot_at(b, 34, s.incorrect[2]);
    lemma_read_at(b, 43, s.checksum);
    assert(seq![s.incorrect[0], s.incorrect[1], s.incorrect[2]] =~= s.incorrect);
}


// -------------------------------------------------------------------------------------------------
// Versions
// -------------------------------------------------------------------------------------------------

/// Seed of the legacy version's checksum (`KNOMUL`).
pub const V00_SEED: u64 = 4997987866499591411;

/// Seed of the current version's checksum (`KSINK`).
pub const V01_SEED: u64 = 9375103332589136009;

/// The known encodings.
#[derive(Clone, Copy, Debug, PartialEq, Eq, Structural)]
pub enum GameOverCoderVersion {
    /// The legacy encoding: seed and three positions; threshold implied.
    Version00Coding,
    /// The current encoding: seed, threshold, positions and element checksum.
    GameOverCoderV01,
}

/// The tag of a version.
pub open spec fn version_tag(v: GameOverCoderVersion) -> Seq<char> {
    match v {
        GameOverCoderVersion::Version00Coding => "00"@,
        GameOverCoderVersion::GameOverCoderV01 => "goc-v01"@,
    }
}

/// The version that a tag names, if any.
pub open spec fn version_of_tag(t: Seq<char>) -> Option<GameOverCoderVersion> {
    if t == "00"@ {
        Some(GameOverCoderVersion::Version00Coding)
    } else if t == "goc-v01"@ {
        Some(GameOverCoderVersion::GameOverCoderV01)
    } else {
        None
    }
}

/// The checksum that a version puts on the bytes of `data`.
pub open spec fn envelope_checksum(v: GameOverCoderVersion, data: Seq<char>) -> u64 {
    match v {
        GameOverCoderVersion::Version00Coding => hash_bytes(false, V00_SEED, vstd::utf8::encode_utf8(data)),
        GameOverCoderVersion::GameOverCoderV01 => hash_bytes(true, V01_SEED, vstd::utf8::encode_utf8(data)),
    }
}

/// The tag is not one of a known version.
#[derive(Clone, Debug, PartialEq, Eq)]
pub enum GameOverCoderVersionError {
    UnrecognisedVersion(String),
}

proof fn lemma_tags_differ()
    ensures
        "00"@ != "goc-v01"@,
        version_of_tag(version_tag(GameOverCoderVersion::Version00Coding)) == Some(
            GameOverCoderVersion::Version00Coding,
        ),
        version_of_tag(version_tag(GameOverCoderVersion::GameOverCoderV01)) == Some(
            GameOverCoderVersion::GameOverCoderV01,
        ),
{
    reveal_strlit("00");
    reveal_strlit("goc-v01");
    assert("00"@.len() != "goc-v01"@.len());
}

impl GameOverCoderVersion {
    /// The version that `s` names.
    pub fn from_tag(s: &String) -> (r: Result<GameOverCoderVersion, GameOverCoderVersionError>)
        ensures
            version_of_tag(s@) matches Some(v) ==> r == Ok::<
                GameOverCoderVersion,
                GameOverCoderVersionError,
            >(v),
            version_of_tag(s@) is None ==> (r matches Err(
                GameOverCoderVersionError::UnrecognisedVersion(t),
            ) && t@ == s@),
    {
        let t00: String = "00".to_owned();
        let t01: String = "goc-v01".to_owned();
        if *s == t00 {
            Ok(GameOverCoderVersion::Version00Coding)
        } else if *s == t01 {
            Ok(GameOverCoderVersion::GameOverCoderV01)
        } else {
            Err(GameOverCoderVersionError::UnrecognisedVersion(s.clone()))
        }
    }

    /// The tag of the version.
    pub fn tag(&self) -> (r: &'static str)
        ensures
            r@ == version_tag(*self),
    {
        match self {
            GameOverCoderVersion::Version00Coding => "00",
            GameOverCoderVersion::GameOverCoderV01 => "goc-v01",
        }
    }
}

fn checksum_of(v: GameOverCoderVersion, data: &String) -> (r: u64)
    ensures
        r == envelope_checksum(v, data@),
{
    match v {
        GameOverCoderVersion::Version00Coding => KNOMUL::hash(V00_SEED, data.as_str().as_bytes()),
        GameOverCoderVersion::GameOverCoderV01 => KSINK::hash(V01_SEED, data.as_str().as_bytes()),
    }
}

// -------------------------------------------------------------------------------------------------
// Envelope
// -------------------------------------------------------------------------------------------------

/// The model of an envelope.
pub struct SealedView {
    pub version: Seq<char>,
    pub checksum: u64,
    pub data: Seq<char>,
    pub unseen_set_id: UnseenSetID,
}

/// The identifier that an envelope without one stands for.
pub fn default_unseen_set_id() -> (r: UnseenSetID)
    ensures
        r == UnseenSetID::DictionaryFr01,
{
    UnseenSetID::legacy_default()
}

/// An encoded game with its version tag, checksum and candidate list identifier;
/// nothing in it is trusted before `EncodedGameOver::from_sealed` checks it.
pub struct SealedEncodedGameOver {
    version: String,
    checksum: u64,
    data: String,
    unseen_set_id: UnseenSetID,
}

impl View for SealedEncodedGameOver {
    type V = SealedView;

    closed spec fn view(&self) -> SealedView {
        SealedView {
            version: self.version@,
            checksum: self.checksum,
            data: self.data@,
            unseen_set_id: self.unseen_set_id,
        }
    }
}

/// The record that version `v` writes for the summary `s`.
pub open spec fn record_of(v: GameOverCoderVersion, s: Summary) -> Seq<u8> {
    match v {
        GameOverCoderVersion::Version00Coding => v00_record(s.seed, s.incorrect),
        GameOverCoderVersion::GameOverCoderV01 => v01_record(s),
    }
}

/// The envelope that version `v` makes of the played game `g`.
pub open spec fn sealed_spec(v: GameOverCoderVersion, g: GameOverView) -> SealedView {
    let data = base64_of(record_of(v, summary_of(g)));
    SealedView {
        version: version_tag(v),
        checksum: envelope_checksum(v, data),
        data,
        unseen_set_id: g.unseen_set_id,
    }
}

/// Why an envelope is refused before its data is read.
pub enum EnvelopeFault {
    UnknownVersion,
    BadChecksum,
}

/// The check of an envelope: its version, then its checksum, in that order.
pub open spec fn envelope_check(s: SealedView) -> Result<GameOverCoderVersion, EnvelopeFault> {
    match version_of_tag(s.version) {
        None => Err(EnvelopeFault::UnknownVersion),
        Some(v) => if s.checksum != envelope_checksum(v, s.data) {
            Err(EnvelopeFault::BadChecksum)
        } else {
            Ok(v)
        },
    }
}

impl SealedEncodedGameOver {
    /// An envelope from its parts, as read from a token; a missing identifier
    /// stands for the legacy default.
    pub fn from_parts(
        version: String,
        checksum: u64,
        data: String,
        unseen_set_id: Option<UnseenSetID>,
    ) -> (r: SealedEncodedGameOver)
        ensures
            r@.version == version@,
            r@.checksum == checksum,
            r@.data == data@,
            r@.unseen_set_id == (match unseen_set_id {
                Some(id) => id,
                None => UnseenSetID::DictionaryFr01,
            }),
    {
        let unseen_set_id = match unseen_set_id {
            Some(id) => id,
            None => default_unseen_set_id(),
        };
        SealedEncodedGameOver { version, checksum, data, unseen_set_id }
    }

    /// Encodes `game_over` with `version`.
    pub fn new(version: GameOverCoderVersion, game_over: &GameOver) -> (r: SealedEncodedGameOver)
        requires
            game_over.wf(),
            version == GameOverCoderVersion::Version00Coding ==> all_filled(game_over@.game.incorrect),
        ensures
            r@ == sealed_spec(version, game_over@),
    {
        match version {
            GameOverCoderVersion::Version00Coding => Version00Coding::encode(game_over),
            GameOverCoderVersion::GameOverCoderV01 => GameOverCoderV01::encode(game_over),
        }
    }

    /// The version tag.
    pub fn version(&self) -> (r: &String)
        ensures
            r@ == self@.version,
    {
        &self.version
    }

    /// The checksum.
    pub fn checksum(&self) -> (r: u64)
        ensures
            r == self@.checksum,
    {
        self.checksum
    }

    /// The encoded data.
    pub fn data(&self) -> (r: &String)
        ensures
            r@ == self@.data,
    {
        &self.data
    }

    /// The candidate list identifier.
    pub fn unseen_set_id(&self) -> (r: UnseenSetID)
        ensures
            r == self@.unseen_set_id,
    {
        self.unseen_set_id
    }
}

/// Why an envelope was refused.
#[derive(Clone, Debug, PartialEq, Eq)]
pub enum SealedEncodedError {
    InvalidChecksum,
    UnrecognisedVersion(String),
}

/// Compares `checksum` with the one that `version` puts on `data`.
pub fn ok_checksum(version: GameOverCoderVersion, checksum: u64, data: &String) -> (r: Result<(), SealedEncodedError>)
    ensures
        r is Ok <==> checksum == envelope_checksum(version, data@),
        r is Err ==> r == Err::<(), SealedEncodedError>(SealedEncodedError::InvalidChecksum),
{
    if checksum == checksum_of(version, data) {
        Ok(())
    } else {
        Err(SealedEncodedError::InvalidChecksum)
    }
}

/// An envelope whose version is known and whose checksum matches its data.
pub struct EncodedGameOver {
    sealed: SealedEncodedGameOver,
    version: GameOverCoderVersion,
}

impl View for EncodedGameOver {
    type V = (SealedView, GameOverCoderVersion);

    closed spec fn view(&self) -> (SealedView, GameOverCoderVersion) {
        (self.sealed@, self.version)
    }
}

impl EncodedGameOver {
    /// Checks the version, then the checksum, of `s`.
    pub fn from_sealed(s: SealedEncodedGameOver) -> (r: Result<EncodedGameOver, SealedEncodedError>)
        ensures
            envelope_check(s@) matches Ok(v) ==> (r matches Ok(e) && e@ == (s@, v)),
            envelope_check(s@) matches Err(EnvelopeFault::UnknownVersion) ==> (r matches Err(
                SealedEncodedError::UnrecognisedVersion(t),
            ) && t@ == s@.version),
            envelope_check(s@) matches Err(EnvelopeFault::BadChecksum) ==> r == Err::<
                EncodedGameOver,
                SealedEncodedError,
            >(SealedEncodedError::InvalidChecksum),
    {
        match GameOverCoderVersion::from_tag(&s.version) {
            Err(GameOverCoderVersionError::UnrecognisedVersion(t)) => Err(
                SealedEncodedError::UnrecognisedVersion(t),
            ),
            Ok(version) => match ok_checksum(version, s.checksum, &s.data) {
                Ok(()) => Ok(EncodedGameOver { sealed: s, version }),
                Err(e) => Err(e),
            },
        }
    }

    /// The encoded data.
    pub fn data(&self) -> (r: &String)
        ensures
            r@ == self@.0.data,
    {
        &self.sealed.data
    }

    /// The candidate list identifier.
    pub fn unseen_set_id(&self) -> (r: UnseenSetID)
        ensures
            r == self@.0.unseen_set_id,
    {
        self.sealed.unseen_set_id
    }

    /// The version of the encoding.
    pub fn version(&self) -> (r: GameOverCoderVersion)
        ensures
            r == self@.1,
    {
        self.version
    }
}

// -------------------------------------------------------------------------------------------------
// Decoding
// -------------------------------------------------------------------------------------------------

/// Why an encoded game could not be restored.
#[derive(Clone, Debug, PartialEq, Eq)]
pub enum CoderError {
    /// The version tag is not known.
    UnrecognisedVersion(String),
    /// The checksum does not match the data.
    InvalidChecksum,
    /// The data is not a record of its version.
    MalformedData,
    /// The replayed elements do not match: the candidates are not the ones encoded with.
    BadElementChecksum,
}

/// The parse of version `v`.
pub open spec fn parse_of(v: GameOverCoderVersion, b: Seq<u8>) -> Option<Summary> {
    match v {
        GameOverCoderVersion::Version00Coding => parse_v00(b),
        GameOverCoderVersion::GameOverCoderV01 => parse_v01(b),
    }
}

/// The game restored by version `v` from the parsed summary `p`, the envelope's
/// identifier `id` and the candidates.
pub open spec fn restore(
    v: GameOverCoderVersion,
    p: Option<Summary>,
    id: UnseenSetID,
    candidates: Seq<Seq<char>>,
) -> Result<GameOverView, CoderError> {
    match p {
        None => Err(CoderError::MalformedData),
        Some(s) => {
            let g = rebuilt(s.seed, s.threshold, candidates, s.incorrect);
            match v {
                GameOverCoderVersion::Version00Coding => Ok(
                    GameOverView { game: g, unseen_set_id: UnseenSetID::DictionaryFr01 },
                ),
                GameOverCoderVersion::GameOverCoderV01 => if g.checksum != s.checksum {
                    Err(CoderError::BadElementChecksum)
                } else {
                    Ok(GameOverView { game: g, unseen_set_id: id })
                },
            }
        },
    }
}

/// The model of a decoding result.
pub open spec fn outcome(r: Result<GameOver, CoderError>) -> Result<GameOverView, CoderError> {
    match r {
        Ok(g) => Ok(g@),
        Err(e) => Err(e),
    }
}

fn restore_exec(
    version: GameOverCoderVersion,
    data: &String,
    unseen_set_id: UnseenSetID,
    unseen: Vec<String>,
) -> (r: Result<GameOver, CoderError>)
    requires
        unseen@.len() <= MAX_CANDIDATES,
    ensures
        r matches Ok(g) ==> g.wf(),
        forall|b: Seq<u8>| #[trigger] base64_of(b) == data@ ==> outcome(r) == restore(
            version,
            parse_of(version, b),
            unseen_set_id,
            texts(unseen@),
        ),
{
    let bytes = match base64_decode(data.as_str()) {
        Ok(b) => b,
        Err(_) => {
            return Err(CoderError::MalformedData);
        },
    };
    match version {
        GameOverCoderVersion::Version00Coding => match parse_v00_exec(&bytes) {
            None => Err(CoderError::MalformedData),
            Some((seed, ic)) => {
                let threshold = match SeenThreshold::new(LEGACY_THRESHOLD) {
                    Ok(t) => t,
                    Err(_) => {
                        return Err(CoderError::MalformedData);
                    },
                };
                Ok(GameOver::new(seed, default_unseen_set_id(), unseen, threshold, ic))
            },
        },
        GameOverCoderVersion::GameOverCoderV01 => match parse_v01_exec(&bytes) {
            None => Err(CoderError::MalformedData),
            Some((seed, parts, ic, checksum)) => {
                let threshold = match SeenThreshold::new(parts) {
                    Ok(t) => t,
                    Err(_) => {
                        return Err(CoderError::MalformedData);
                    },
                };
                let game_over = GameOver::new(seed, unseen_set_id, unseen, threshold, ic);
                if game_over.element_checksum() != checksum {
                    Err(CoderError::BadElementChecksum)
                } else {
                    Ok(game_over)
                }
            },
        },
    }
}

/// Restores a game from an envelope and the candidates: the version is checked
/// first, then the checksum, then the data is read and the game replayed, and
/// last the replayed element checksum is compared with the recorded one.
pub fn decode(s: SealedEncodedGameOver, unseen: Vec<String>) -> (r: Result<GameOver, CoderError>)
    requires
        unseen@.len() <= MAX_CANDIDATES,
    ensures
        r matches Ok(g) ==> g.wf(),
        envelope_check(s@) matches Err(EnvelopeFault::UnknownVersion) ==> (r matches Err(
            CoderError::UnrecognisedVersion(t),
        ) && t@ == s@.version),
        envelope_check(s@) matches Err(EnvelopeFault::BadChecksum) ==> r == Err::<
            GameOver,
            CoderError,
        >(CoderError::InvalidChecksum),
        envelope_check(s@) matches Ok(v) ==> forall|b: Seq<u8>| #[trigger] base64_of(b) == s@.data
            ==> outcome(r) == restore(v, parse_of(v, b), s@.unseen_set_id, texts(unseen@)),
{
    match EncodedGameOver::from_sealed(s) {
        Err(SealedEncodedError::UnrecognisedVersion(t)) => Err(CoderError::UnrecognisedVersion(t)),
        Err(SealedEncodedError::InvalidChecksum) => Err(CoderError::InvalidChecksum),
        Ok(e) => restore_exec(e.version, &e.sealed.data, e.sealed.unseen_set_id, unseen),
    }
}

// -------------------------------------------------------------------------------------------------
// Coders
// -------------------------------------------------------------------------------------------------

/// The legacy encoding.
pub struct Version00Coding;

impl Version00Coding {
    /// Version tag.
    pub fn id() -> (r: &'static str)
        ensures
            r@ == version_tag(GameOverCoderVersion::Version00Coding),
    {
        "00"
    }

    /// Seed of the checksum of the encoded data.
    pub fn hash_seed() -> (r: u64)
        ensures
            r == V00_SEED,
    {
        V00_SEED
    }

    /// The checksum of `data`.
    pub fn checksum(data: &[u8]) -> (r: u64)
        ensures
            r == hash_bytes(false, V00_SEED, data@),
    {
        KNOMUL::hash(V00_SEED, data)
    }

    /// Encodes a finished game.
    pub fn encode(game_over: &GameOver) -> (r: SealedEncodedGameOver)
        requires
            game_over.wf(),
            all_filled(game_over@.game.incorrect),
        ensures
            r@ == sealed_spec(GameOverCoderVersion::Version00Coding, game_over@),
    {
        let record = v00_record_exec(game_over.seed(), game_over.incorrect_commits());
        let data = base64_encode(&record);
        let checksum = checksum_of(GameOverCoderVersion::Version00Coding, &data);
        SealedEncodedGameOver {
            version: Self::id().to_owned(),
            checksum,
            data,
            unseen_set_id: game_over.unseen_set_id(),
        }
    }

    /// Restores the game of a checked legacy envelope.
    pub fn decode(encoded: &EncodedGameOver, unseen: Vec<String>) -> (r: Result<GameOver, CoderError>)
        requires
            unseen@.len() <= MAX_CANDIDATES,
        ensures
            r matches Ok(g) ==> g.wf(),
            forall|b: Seq<u8>| #[trigger] base64_of(b) == encoded@.0.data ==> outcome(r) == restore(
                GameOverCoderVersion::Version00Coding,
                parse_v00(b),
                encoded@.0.unseen_set_id,
                texts(unseen@),
            ),
    {
        restore_exec(
            GameOverCoderVersion::Version00Coding,
            encoded.data(),
            encoded.unseen_set_id(),
            unseen,
        )
    }
}

/// The current encoding.
pub struct GameOverCoderV01;

impl GameOverCoderV01 {
    /// Version of the encoding.
    pub fn version() -> (r: GameOverCoderVersion)
        ensures
            r == GameOverCoderVersion::GameOverCoderV01,
    {
        GameOverCoderVersion::GameOverCoderV01
    }

    /// The checksum of `data`.
    pub fn checksum(data: &[u8]) -> (r: u64)
        ensures
            r == hash_bytes(true, V01_SEED, data@),
    {
        KSINK::hash(V01_SEED, data)
    }

    /// Encodes a game.
    pub fn encode(game_over: &GameOver) -> (r: SealedEncodedGameOver)
        requires
            game_over.wf(),
        ensures
            r@ == sealed_spec(GameOverCoderVersion::GameOverCoderV01, game_over@),
    {
        let record = v01_record_exec(
            game_over.seed(),
            game_over.seen_threshold().parts(),
            game_over.incorrect_commits(),
            game_over.element_checksum(),
        );
        let data = base64_encode(&record);
        let checksum = checksum_of(GameOverCoderVersion::GameOverCoderV01, &data);
        SealedEncodedGameOver {
            version: GameOverCoderVersion::GameOverCoderV01.tag().to_owned(),
            checksum,
            data,
            unseen_set_id: game_over.unseen_set_id(),
        }
    }

    /// Restores the game of a checked current envelope.
    pub fn decode(encoded: &EncodedGameOver, unseen: Vec<String>) -> (r: Result<GameOver, CoderError>)
        requires
            unseen@.len() <= MAX_CANDIDATES,
        ensures
            r matches Ok(g) ==> g.wf(),
            forall|b: Seq<u8>| #[trigger] base64_of(b) == encoded@.0.data ==> outcome(r) == restore(
                GameOverCoderVersion::GameOverCoderV01,
                parse_v01(b),
                encoded@.0.unseen_set_id,
                texts(unseen@),
            ),
    {
        restore_exec(
            GameOverCoderVersion::GameOverCoderV01,
            encoded.data(),
            encoded.unseen_set_id(),
            unseen,
        )
    }
}


// -------------------------------------------------------------------------------------------------
// Laws
// -------------------------------------------------------------------------------------------------

/// The summary that version `v` keeps of `s`: all of it for the current version;
/// the seed and positions, with the implied threshold, for the legacy one.
pub open spec fn kept(v: GameOverCoderVersion, s: Summary) -> Summary {
    match v {
        GameOverCoderVersion::Version00Coding => Summary {
            seed: s.seed,
            threshold: LEGACY_THRESHOLD,
            incorrect: s.incorrect,
            checksum: 0,
        },
        GameOverCoderVersion::GameOverCoderV01 => s,
    }
}

/// Round trip: the envelope that a version makes of a game passes its own check,
/// and its data reads back as the summary of the game that the version keeps; so
/// `decode` restores the game from exactly that summary.
pub proof fn lemma_encode_decode_round_trip(v: GameOverCoderVersion, g: GameOverView)
    requires
        game_wf(g.game),
        v == GameOverCoderVersion::Version00Coding ==> all_filled(g.game.incorrect),
    ensures
        envelope_check(sealed_spec(v, g)) == Ok::<GameOverCoderVersion, EnvelopeFault>(v),
        parse_of(v, record_of(v, summary_of(g))) == Some(kept(v, summary_of(g))),
        sealed_spec(v, g).data == base64_of(record_of(v, summary_of(g))),
        sealed_spec(v, g).unseen_set_id == g.unseen_set_id,
{
    lemma_tags_differ();
    match v {
        GameOverCoderVersion::Version00Coding => {
            lemma_v00_record_round_trip(summary_of(g));
        },
        GameOverCoderVersion::GameOverCoderV01 => {
            lemma_v01_record_round_trip(summary_of(g));
        },
    }
}

/// Tamper detection: an envelope that passes its check is refused as having an
/// invalid checksum once its checksum is replaced by another, or once its data is
/// replaced by data on which the version's checksum differs.
pub proof fn lemma_tampering_is_detected(s: SealedView, checksum: u64, data: Seq<char>)
    requires
        envelope_check(s) is Ok,
    ensures
        checksum != s.checksum ==> envelope_check(SealedView { checksum, ..s }) == Err::<
            GameOverCoderVersion,
            EnvelopeFault,
        >(EnvelopeFault::BadChecksum),
        envelope_checksum(envelope_check(s)->Ok_0, data) != s.checksum ==> envelope_check(
            SealedView { data, ..s },
        ) == Err::<GameOverCoderVersion, EnvelopeFault>(EnvelopeFault::BadChecksum),
{
}

/// Priority: an envelope with an unknown version tag is refused for its version,
/// whatever its checksum and data.
pub proof fn lemma_unknown_version_comes_first(s: SealedView, checksum: u64, data: Seq<char>)
    requires
        version_of_tag(s.version) is None,
    ensures
        envelope_check(SealedView { checksum, data, ..s }) == Err::<
            GameOverCoderVersion,
            EnvelopeFault,
        >(EnvelopeFault::UnknownVersion),
{
}

/// Wrong candidates: where replaying a summary over other candidates folds an
/// element checksum other than the recorded one, the current version refuses it.
pub proof fn lemma_wrong_candidates_are_detected(
    s: Summary,
    id: UnseenSetID,
    candidates: Seq<Seq<char>>,
)
    requires
        rebuilt(s.seed, s.threshold, candidates, s.incorrect).checksum != s.checksum,
    ensures
        restore(GameOverCoderVersion::GameOverCoderV01, Some(s), id, candidates) == Err::<
            GameOverView,
            CoderError,
        >(CoderError::BadElementChecksum),
{
}


/// Round trip of a played game: a finished game, rebuilt from a seed, a threshold,
/// candidates and recorded positions, passes the check of its current-version
/// envelope, and decoding that envelope with the same candidates restores exactly
/// that game.
pub proof fn lemma_played_game_round_trip(
    seed: u64,
    threshold: u32,
    candidates: Seq<Seq<char>>,
    ic: Seq<Option<usize>>,
    id: UnseenSetID,
)
    requires
        ic.len() == 3,
        threshold <= THRESHOLD_MAX,
        finished_spec(rebuilt(seed, threshold, candidates, ic)),
    ensures
        ({
            let g = GameOverView { game: rebuilt(seed, threshold, candidates, ic), unseen_set_id: id };
            let v = GameOverCoderVersion::GameOverCoderV01;
            &&& envelope_check(sealed_spec(v, g)) == Ok::<GameOverCoderVersion, EnvelopeFault>(v)
            &&& sealed_spec(v, g).data == base64_of(record_of(v, summary_of(g)))
            &&& restore(
                v,
                parse_of(v, record_of(v, summary_of(g))),
                sealed_spec(v, g).unseen_set_id,
                candidates,
            ) == Ok::<GameOverView, CoderError>(g)
        }),
{
    let game = rebuilt(seed, threshold, candidates, ic);
    let g = GameOverView { game, unseen_set_id: id };
    lemma_tags_differ();
    crate::game_over::lemma_rebuilt_settings(seed, threshold, candidates, ic);
    crate::game_over::lemma_rebuild_is_stable(seed, threshold, candidates, ic);
    crate::game_over::lemma_rebuilt_slots(seed, threshold, candidates, ic);
    lemma_v01_record_round_trip(summary_of(g));
}

} // verus!
