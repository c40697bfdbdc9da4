use vstd::prelude::*;

use crate::pool::{fresh_pool, poll_spec, pool_wf, text_of, PoolView, Unseen, MAX_CANDIDATES};
use crate::rng::{bounded_draw, hash_bytes, seeded, Konadare192PxPlusPlus, RngState, KSINK};

verus! {

/// Start value of the element checksum.
pub const DEFAULT_ELEMENT_CHECKSUM: u64 = 2636128771936786712;

/// The seen threshold is a ratio in parts of `THRESHOLD_MAX`.
pub const THRESHOLD_MAX: u32 = 1_000_000_000;

/// Lives at the start of a game: the number of incorrect commits that end it.
pub const INITIAL_LIVES_AMOUNT: usize = 3;

/// The positions of the incorrect commits, filled from the left.
pub type IncorrectCommits = [Option<usize>; 3];

/// The bytes that the element checksum folds for an element.
pub open spec fn bytes_of(e: Seq<char>) -> Seq<u8> {
    vstd::utf8::encode_utf8(e)
}

/// The element checksum after revealing `e`.
pub open spec fn fold_element(checksum: u64, e: Seq<char>) -> u64 {
    hash_bytes(true, checksum, bytes_of(e))
}

/// The characters of each string.
pub open spec fn texts(v: Seq<String>) -> Seq<Seq<char>> {
    v.map_values(|s: String| s@)
}

// -------------------------------------------------------------------------------------------------
// SeenThreshold
// -------------------------------------------------------------------------------------------------

/// How often an already seen element is shown again: a ratio in `[0, 1]`, held
/// in parts of `THRESHOLD_MAX`.
#[derive(Clone, Copy, Debug, PartialEq, Eq, Structural)]
pub struct SeenThreshold(u32);

impl SeenThreshold {
    /// The ratio is at most one.
    #[verifier::type_invariant]
    spec fn in_range(&self) -> bool {
        self.0 <= THRESHOLD_MAX
    }
}

/// The threshold is not in `[0, 1]`.
#[derive(Clone, Copy, Debug, PartialEq, Eq, Structural)]
pub enum SeenThresholdError {
    ValueOutOfRange,
}

impl SeenThreshold {
    /// The threshold of `parts` parts of `THRESHOLD_MAX`.
    pub fn new(parts: u32) -> (r: Result<SeenThreshold, SeenThresholdError>)
        ensures
            parts <= THRESHOLD_MAX ==> (r matches Ok(t) && t.spec_parts() == parts),
            parts > THRESHOLD_MAX ==> r == Err::<SeenThreshold, SeenThresholdError>(
                SeenThresholdError::ValueOutOfRange,
            ),
    {
        if parts > THRESHOLD_MAX {
            Err(SeenThresholdError::ValueOutOfRange)
        } else {
            Ok(SeenThreshold(parts))
        }
    }

    /// The threshold in parts of `THRESHOLD_MAX`.
    pub closed spec fn spec_parts(&self) -> u32 {
        self.0
    }

    /// The threshold in parts of `THRESHOLD_MAX`.
    pub fn parts(&self) -> (r: u32)
        ensures
            r == self.spec_parts(),
            r <= THRESHOLD_MAX,
    {
        proof {
            use_type_invariant(self);
        }
        self.0
    }
}

// -------------------------------------------------------------------------------------------------
// GameError
// -------------------------------------------------------------------------------------------------

/// Why a step of the game was refused.
#[derive(Clone, Copy, Debug, PartialEq, Eq, Structural)]
pub enum GameError {
    /// Every candidate has been shown.
    UnseenEmpty,
    /// There is no revealed element to commit.
    EmptyCommit,
    /// The revealed element has not been committed yet.
    NextCalledWithUncommitedResult,
    /// Three incorrect commits have been made.
    GameOver,
}

// -------------------------------------------------------------------------------------------------
// Model
// -------------------------------------------------------------------------------------------------

/// The model of a `Game`.
pub struct GameView {
    pub seed: u64,
    pub pool: PoolView,
    pub seen: Seq<Seq<char>>,
    pub current: Option<Seq<char>>,
    pub previous: Option<Seq<char>>,
    pub incorrect: Seq<Option<usize>>,
    pub rng: RngState,
    pub threshold: u32,
    pub count: nat,
    pub checksum: u64,
}

/// The game right after `new(seed, threshold, candidates)`.
pub open spec fn fresh_game(seed: u64, threshold: u32, candidates: Seq<Seq<char>>) -> GameView {
    GameView {
        seed,
        pool: fresh_pool(candidates),
        seen: Seq::empty(),
        current: None,
        previous: None,
        incorrect: seq![None, None, None],
        rng: seeded(seed),
        threshold,
        count: 0,
        checksum: DEFAULT_ELEMENT_CHECKSUM,
    }
}

/// Number of filled slots.
pub open spec fn filled(ic: Seq<Option<usize>>) -> nat {
    (if ic[0] is Some { 1nat } else { 0nat }) + (if ic[1] is Some { 1nat } else { 0nat }) + (if ic[2]
        is Some { 1nat } else { 0nat })
}

/// Number of empty slots: the lives left.
pub open spec fn lives_of(ic: Seq<Option<usize>>) -> nat {
    (if ic[0] is None { 1nat } else { 0nat }) + (if ic[1] is None { 1nat } else { 0nat }) + (if ic[2]
        is None { 1nat } else { 0nat })
}

/// The third slot is filled.
pub open spec fn finished_spec(g: GameView) -> bool {
    g.incorrect[2] is Some
}

/// `x` in the first empty slot; unchanged when all are filled.
pub open spec fn push_incorrect(ic: Seq<Option<usize>>, x: usize) -> Seq<Option<usize>> {
    if ic[0] is None {
        ic.update(0, Some(x))
    } else if ic[1] is None {
        ic.update(1, Some(x))
    } else if ic[2] is None {
        ic.update(2, Some(x))
    } else {
        ic
    }
}

/// The game is consistent.
pub open spec fn game_wf(g: GameView) -> bool {
    &&& pool_wf(g.pool)
    &&& g.incorrect.len() == 3
    &&& (g.incorrect[1] is Some ==> g.incorrect[0] is Some)
    &&& (g.incorrect[2] is Some ==> g.incorrect[1] is Some)
    &&& filled(g.incorrect) <= g.count
    &&& g.seen.no_duplicates()
    &&& g.threshold <= THRESHOLD_MAX
    &&& (g.previous matches Some(p) ==> g.seen.contains(p))
    &&& g.seen.len() <= g.pool.polled.len()
    &&& (g.current matches Some(c) && !g.seen.contains(c) ==> g.seen.len() < g.pool.polled.len())
}

/// The game after `reset`: as `new` built it, with the same seed, threshold and candidates.
pub open spec fn reset_of(g: GameView) -> GameView {
    fresh_game(g.seed, g.threshold, g.pool.data)
}

/// The first index from `k` on whose element is not `prev` (`0` when there is none).
pub open spec fn first_other(seen: Seq<Seq<char>>, prev: Option<Seq<char>>, k: nat) -> nat
    decreases seen.len() - k,
{
    if k >= seen.len() {
        0
    } else if Some(seen[k as int]) != prev {
        k
    } else {
        first_other(seen, prev, k + 1)
    }
}

/// Upper bound on the redraws of a seen element; past it the first element that
/// differs from the previous one is taken.
pub const MAX_SEEN_REDRAWS: u64 = 0xffff_ffff_ffff_ffff;

/// Draws an index into `seen` until its element differs from `prev`, with at most
/// `fuel` redraws: the index and the generator after it.
pub open spec fn pick_from(rng: RngState, seen: Seq<Seq<char>>, prev: Option<Seq<char>>, fuel: nat) -> (
    nat,
    RngState,
)
    decreases fuel,
{
    let (i, r1) = bounded_draw(rng, seen.len() as u32);
    if Some(seen[i as int]) != prev {
        (i as nat, r1)
    } else if fuel == 0 {
        (first_other(seen, prev, 0), r1)
    } else {
        pick_from(r1, seen, prev, (fuel - 1) as nat)
    }
}

/// The index of the seen element that is revealed again.
pub open spec fn seen_pick(rng: RngState, seen: Seq<Seq<char>>, prev: Option<Seq<char>>) -> (
    nat,
    RngState,
) {
    pick_from(rng, seen, prev, MAX_SEEN_REDRAWS as nat)
}

/// `e` becomes the revealed element and is folded into the checksum.
pub open spec fn show(g: GameView, e: Seq<char>) -> GameView {
    GameView { current: Some(e), checksum: fold_element(g.checksum, e), ..g }
}

/// Reveals an element that was not shown before, or fails when none is left.
pub open spec fn reveal_unseen(g: GameView) -> (Result<Seq<char>, GameError>, GameView) {
    let (e, pool1, rng1) = poll_spec(g.pool, g.rng);
    match e {
        None => (Err(GameError::UnseenEmpty), g),
        Some(e) => (Ok(e), show(GameView { pool: pool1, rng: rng1, ..g }, e)),
    }
}

/// Reveals an element that was shown before, other than the previous one.
pub open spec fn reveal_seen(g: GameView) -> (Result<Seq<char>, GameError>, GameView) {
    let (i, rng1) = seen_pick(g.rng, g.seen, g.previous);
    let e = g.seen[i as int];
    (Ok(e), show(GameView { rng: rng1, ..g }, e))
}

/// What `next` returns and the game after it. A refused call changes nothing.
pub open spec fn next_spec(g: GameView) -> (Result<Seq<char>, GameError>, GameView) {
    if finished_spec(g) {
        (Err(GameError::GameOver), g)
    } else if g.current is Some {
        (Err(GameError::NextCalledWithUncommitedResult), g)
    } else if g.seen.len() < 2 {
        reveal_unseen(g)
    } else {
        let (x, rng1) = bounded_draw(g.rng, THRESHOLD_MAX);
        let g1 = GameView { rng: rng1, ..g };
        if x > g.threshold {
            let (r, g2) = reveal_unseen(g1);
            if r is Err {
                (r, g)
            } else {
                (r, g2)
            }
        } else {
            reveal_seen(g1)
        }
    }
}

/// What `commit_seen` (`claim_seen`) or `commit_unseen` returns and the game after it.
pub open spec fn commit_spec(g: GameView, claim_seen: bool) -> (Result<bool, GameError>, GameView) {
    if finished_spec(g) {
        (Err(GameError::GameOver), g)
    } else {
        match g.current {
            None => (Err(GameError::EmptyCommit), g),
            Some(x) => {
                let first = !g.seen.contains(x);
                let correct = first != claim_seen;
                (
                    Ok(correct),
                    GameView {
                        seen: if first {
                            g.seen.push(x)
                        } else {
                            g.seen
                        },
                        current: None,
                        previous: Some(x),
                        incorrect: if correct {
                            g.incorrect
                        } else {
                            push_incorrect(g.incorrect, g.count as usize)
                        },
                        count: g.count + 1,
                        ..g
                    },
                )
            },
        }
    }
}

/// The characters of a revealed element, or the error.
pub open spec fn result_text(r: Result<String, GameError>) -> Result<Seq<char>, GameError> {
    match r {
        Ok(s) => Ok(s@),
        Err(e) => Err(e),
    }
}

// -------------------------------------------------------------------------------------------------
// Game
// -------------------------------------------------------------------------------------------------

/// A game: elements are revealed one at a time and the player commits each as
/// seen or unseen; three incorrect commits end it.
pub struct Game {
    seed: u64,
    unseen: Unseen,
    seen: Vec<String>,
    current: Option<String>,
    previuos: Option<String>,
    incorrect_commits: IncorrectCommits,
    rng: Konadare192PxPlusPlus,
    seen_threshold: u32,
    count: usize,
    element_checksum: u64,
}

impl View for Game {
    type V = GameView;

    closed spec fn view(&self) -> GameView {
        GameView {
            seed: self.seed,
            pool: self.unseen@,
            seen: texts(self.seen@),
            current: text_of(self.current),
            previous: text_of(self.previuos),
            incorrect: self.incorrect_commits@,
            rng: self.rng@,
            threshold: self.seen_threshold,
            count: self.count as nat,
            checksum: self.element_checksum,
        }
    }
}

pub(crate) fn contains_text(v: &Vec<String>, x: &String) -> (r: bool)
    ensures
        r == texts(v@).contains(x@),
{
    let mut i: usize = 0;
    while i < v.len()
        invariant
            i <= v@.len(),
            forall|k: int| 0 <= k < i ==> v@[k]@ != x@,
        decreases v@.len() - i,
    {
        if v[i] == *x {
            assert(texts(v@)[i as int] == x@);
            return true;
        }
        i = i + 1;
    }
    proof {
        if texts(v@).contains(x@) {
            let k = choose|k: int| 0 <= k < texts(v@).len() && texts(v@)[k] == x@;
            assert(v@[k]@ == x@);
        }
    }
    false
}

fn first_other_index(seen: &Vec<String>, prev: &Option<String>) -> (r: usize)
    ensures
        r as nat == first_other(texts(seen@), text_of(*prev), 0),
        seen@.len() > 0 ==> r < seen@.len(),
{
    let ghost s = texts(seen@);
    let ghost p = text_of(*prev);
    let mut k: usize = 0;
    while k < seen.len()
        invariant
            k <= seen@.len(),
            s == texts(seen@),
            p == text_of(*prev),
            first_other(s, p, 0) == first_other(s, p, k as nat),
        decreases seen@.len() - k,
    {
        let differs = match prev {
            None => true,
            Some(x) => !(*x == seen[k]),
        };
        if differs {
            assert(Some(s[k as int]) != p);
            return k;
        }
        assert(Some(s[k as int]) == p);
        k = k + 1;
    }
    0
}

fn checksum_with(checksum: u64, e: &String) -> (r: u64)
    ensures
        r == fold_element(checksum, e@),
{
    KSINK::hash(checksum, e.as_str().as_bytes())
}

impl Game {
    /// The game is consistent.
    pub open spec fn wf(&self) -> bool {
        game_wf(self@)
    }

    /// Creates a new game over the candidates `unseen`.
    pub fn new(seed: u64, seen_threshold: SeenThreshold, unseen: Vec<String>) -> (r: Game)
        requires
            unseen@.len() <= MAX_CANDIDATES,
        ensures
            r@ == fresh_game(seed, seen_threshold.spec_parts(), texts(unseen@)),
            r.wf(),
    {
        proof {
            use_type_invariant(&seen_threshold);
        }
        let r = Game {
            seed,
            unseen: Unseen::new(unseen),
            seen: Vec::new(),
            current: None,
            previuos: None,
            incorrect_commits: [None, None, None],
            rng: Konadare192PxPlusPlus::from_seed(seed),
            seen_threshold: seen_threshold.0,
            count: 0,
            element_checksum: DEFAULT_ELEMENT_CHECKSUM,
        };
        assert(r@.seen =~= Seq::<Seq<char>>::empty());
        assert(r@.incorrect =~= seq![None, None, None]);
        r
    }

    /// Resets the game to its state after `new`: given the same commits it now
    /// reveals the same elements again.
    pub fn reset(&mut self)
        requires
            old(self).wf(),
        ensures
            final(self)@ == reset_of(old(self)@),
            final(self).wf(),
    {
        self.unseen.reset();
        self.seen = Vec::new();
        self.current = None;
        self.previuos = None;
        self.incorrect_commits = [None, None, None];
        self.rng = Konadare192PxPlusPlus::from_seed(self.seed);
        self.count = 0;
        self.element_checksum = DEFAULT_ELEMENT_CHECKSUM;
        assert(self@.seen =~= Seq::<Seq<char>>::empty());
        assert(self@.incorrect =~= seq![None, None, None]);
    }

    /// How many lives the game has left.
    pub fn lives(&self) -> (r: usize)
        ensures
            r == lives_of(self@.incorrect),
    {
        let mut n: usize = 0;
        if self.incorrect_commits[0].is_none() {
            n = n + 1;
        }
        if self.incorrect_commits[1].is_none() {
            n = n + 1;
        }
        if self.incorrect_commits[2].is_none() {
            n = n + 1;
        }
        n
    }

    /// The score: the number of correct commits.
    pub fn score(&self) -> (r: usize)
        requires
            self.wf(),
        ensures
            r == self@.count - filled(self@.incorrect),
    {
        let lives = self.lives();
        self.count - (INITIAL_LIVES_AMOUNT - lives)
    }

    /// The positions of the incorrect commits.
    pub fn incorrect_commits(&self) -> (r: IncorrectCommits)
        ensures
            r@ == self@.incorrect,
    {
        self.incorrect_commits
    }

    /// The seed of the game.
    pub fn seed(&self) -> (r: u64)
        ensures
            r == self@.seed,
    {
        self.seed
    }

    /// The seen threshold of the game.
    pub fn seen_threshold(&self) -> (r: SeenThreshold)
        requires
            self.wf(),
        ensures
            r.spec_parts() == self@.threshold,
    {
        SeenThreshold(self.seen_threshold)
    }

    /// The number of commits made.
    pub fn commit_count(&self) -> (r: usize)
        ensures
            r == self@.count,
    {
        self.count
    }

    /// True once three incorrect commits have been made.
    pub fn finished(&self) -> (r: bool)
        ensures
            r == finished_spec(self@),
    {
        self.incorrect_commits[2].is_some()
    }

    /// Fails with `GameOver` once the game is finished.
    fn game_over(&self) -> (r: Result<(), GameError>)
        ensures
            finished_spec(self@) ==> r == Err::<(), GameError>(GameError::GameOver),
            !finished_spec(self@) ==> r is Ok,
    {
        if self.finished() {
            Err(GameError::GameOver)
        } else {
            Ok(())
        }
    }

    /// The checksum of the revealed elements.
    pub fn element_checksum(&self) -> (r: u64)
        ensures
            r == self@.checksum,
    {
        self.element_checksum
    }

    /// Reveals the next element.
    pub fn next(&mut self) -> (r: Result<String, GameError>)
        requires
            old(self).wf(),
        ensures
            final(self).wf(),
            (result_text(r), final(self)@) == next_spec(old(self)@),
    {
        if let Err(e) = self.game_over() {
            return Err(e);
        }
        if self.current.is_some() {
            return Err(GameError::NextCalledWithUncommitedResult);
        }
        if self.seen.len() < 2 {
            return self.next_unseen();
        }
        let saved = self.rng;
        let x = self.rng.next_with_upper_bound(THRESHOLD_MAX);
        if x > self.seen_threshold {
            let r = self.next_unseen();
            if r.is_err() {
                self.rng = saved;
            }
            r
        } else {
            self.next_seen()
        }
    }

    fn next_unseen(&mut self) -> (r: Result<String, GameError>)
        requires
            old(self).wf(),
            old(self)@.current is None,
        ensures
            final(self).wf(),
            (result_text(r), final(self)@) == reveal_unseen(old(self)@),
    {
        match self.unseen.poll(&mut self.rng) {
            None => Err(GameError::UnseenEmpty),
            Some(x) => {
                self.element_checksum = checksum_with(self.element_checksum, &x);
                self.current = Some(x.clone());
                Ok(x)
            },
        }
    }

    fn next_seen(&mut self) -> (r: Result<String, GameError>)
        requires
            old(self).wf(),
            old(self)@.current is None,
            old(self)@.seen.len() >= 2,
        ensures
            final(self).wf(),
            (result_text(r), final(self)@) == reveal_seen(old(self)@),
    {
        let ghost g = self@;
        let n = self.seen.len();
        let mut fuel: u64 = MAX_SEEN_REDRAWS;
        let mut i: usize = 0;
        loop
            invariant_except_break
                seen_pick(g.rng, g.seen, g.previous) == pick_from(self@.rng, g.seen, g.previous, fuel as nat),
            invariant
                self@ == (GameView { rng: self@.rng, ..g }),
                n == g.seen.len(),
                2 <= n <= MAX_CANDIDATES,
                game_wf(g),
            ensures
                self@ == (GameView { rng: self@.rng, ..g }),
                seen_pick(g.rng, g.seen, g.previous) == (i as nat, self@.rng),
                i < n,
            decreases fuel,
        {
            i = self.rng.next_with_upper_bound(n as u32) as usize;
            let differs = match &self.previuos {
                None => true,
                Some(p) => !(*p == self.seen[i]),
            };
            if differs {
                break;
            }
            if fuel == 0 {
                i = first_other_index(&self.seen, &self.previuos);
                break;
            }
            fuel = fuel - 1;
        }
        let x = self.seen[i].clone();
        assert(g.seen[i as int] == x@);
        assert(g.seen.contains(x@));
        self.element_checksum = checksum_with(self.element_checksum, &x);
        self.current = Some(x.clone());
        Ok(x)
    }

    /// A copy of the candidates that the game draws from.
    pub fn candidates(&self) -> (r: Vec<String>)
        ensures
            texts(r@) == self@.pool.data,
    {
        self.unseen.candidates()
    }

    fn push_incorrect_commit(&mut self, x: usize) -> (r: Option<usize>)
        ensures
            final(self)@ == (GameView { incorrect: push_incorrect(old(self)@.incorrect, x), ..old(self)@ }),
            r == (if push_incorrect(old(self)@.incorrect, x) == old(self)@.incorrect { None } else { Some(x) }),
    {
        let ic = self.incorrect_commits;
        if ic[0].is_none() {
            self.incorrect_commits = [Some(x), ic[1], ic[2]];
        } else if ic[1].is_none() {
            self.incorrect_commits = [ic[0], Some(x), ic[2]];
        } else if ic[2].is_none() {
            self.incorrect_commits = [ic[0], ic[1], Some(x)];
        } else {
            return None;
        }
        assert(self@.incorrect =~= push_incorrect(old(self)@.incorrect, x));
        assert(self@.incorrect[0] != old(self)@.incorrect[0] || self@.incorrect[1] != old(self)@.incorrect[1] || self@.incorrect[2] != old(self)@.incorrect[2]);
        Some(x)
    }

    /// Commits the revealed element as unseen. Returns whether that was correct,
    /// i.e. whether the element had not been shown before.
    pub fn commit_unseen(&mut self) -> (r: Result<bool, GameError>)
        requires
            old(self).wf(),
            old(self)@.count < usize::MAX,
        ensures
            final(self).wf(),
            (r, final(self)@) == commit_spec(old(self)@, false),
    {
        self.commit(false)
    }

    /// Commits the revealed element as seen. Returns whether that was correct,
    /// i.e. whether the element had been shown before.
    pub fn commit_seen(&mut self) -> (r: Result<bool, GameError>)
        requires
            old(self).wf(),
            old(self)@.count < usize::MAX,
        ensures
            final(self).wf(),
            (r, final(self)@) == commit_spec(old(self)@, true),
    {
        self.commit(true)
    }

    fn commit(&mut self, seen: bool) -> (r: Result<bool, GameError>)
        requires
            old(self).wf(),
            old(self)@.count < usize::MAX,
        ensures
            final(self).wf(),
            (r, final(self)@) == commit_spec(old(self)@, seen),
    {
        if let Err(e) = self.game_over() {
            return Err(e);
        }
        let ghost g = self@;
        match self.current.take() {
            None => Err(GameError::EmptyCommit),
            Some(x) => {
                let first = !contains_text(&self.seen, &x);
                if first {
                    self.seen.push(x.clone());
                    assert(texts(self.seen@) =~= g.seen.push(x@));
                }
                let r = first != seen;
                self.previuos = Some(x);
                if !r {
                    self.push_incorrect_commit(self.count);
                }
                self.count = self.count + 1;
                proof {
                    let w = commit_spec(g, seen).1;
                    assert(self@.seen == w.seen);
                    assert(self@.incorrect == w.incorrect);
                    assert(self@ == w);
                    if first {
                        assert forall|a: int, b: int|
                            0 <= a < w.seen.len() && 0 <= b < w.seen.len() && a != b implies w.seen[a]
                            != w.seen[b] by {
                            if a == g.seen.len() as int {
                                if g.seen[b] == x@ {
                                    assert(g.seen.contains(x@));
                                }
                            } else if b == g.seen.len() as int {
                                if g.seen[a] == x@ {
                                    assert(g.seen.contains(x@));
                                }
                            }
                        }
                    }
                    assert(w.seen.contains(x@)) by {
                        if !first {
                        } else {
                            assert(w.seen[g.seen.len() as int] == x@);
                        }
                    }
                }
                Ok(r)
            },
        }
    }
}

// -------------------------------------------------------------------------------------------------
// Laws
// -------------------------------------------------------------------------------------------------

/// Lives and incorrect commits share the three slots: `lives + filled == 3`, and
/// the game is finished exactly when no life is left.
pub proof fn lemma_lives_and_strikes(g: GameView)
    requires
        game_wf(g),
    ensures
        lives_of(g.incorrect) + filled(g.incorrect) == INITIAL_LIVES_AMOUNT,
        finished_spec(g) <==> lives_of(g.incorrect) == 0,
{
}

proof fn lemma_first_other_differs(seen: Seq<Seq<char>>, prev: Option<Seq<char>>, k: nat, w: nat)
    requires
        k <= w < seen.len(),
        Some(seen[w as int]) != prev,
    ensures
        first_other(seen, prev, k) < seen.len(),
        Some(seen[first_other(seen, prev, k) as int]) != prev,
    decreases w - k,
{
    if Some(seen[k as int]) == prev {
        lemma_first_other_differs(seen, prev, k + 1, w);
    }
}

proof fn lemma_pick_differs(rng: RngState, seen: Seq<Seq<char>>, prev: Option<Seq<char>>, fuel: nat, w: nat)
    requires
        w < seen.len() <= MAX_CANDIDATES,
        Some(seen[w as int]) != prev,
    ensures
        pick_from(rng, seen, prev, fuel).0 < seen.len(),
        Some(seen[pick_from(rng, seen, prev, fuel).0 as int]) != prev,
    decreases fuel,
{
    crate::rng::lemma_draw_from_in_range(rng, seen.len() as u32, crate::rng::MAX_REDRAWS as nat);
    let (i, r1) = bounded_draw(rng, seen.len() as u32);
    if Some(seen[i as int]) != prev {
    } else if fuel == 0 {
        lemma_first_other_differs(seen, prev, 0, w);
    } else {
        lemma_pick_differs(r1, seen, prev, (fuel - 1) as nat, w);
    }
}

/// A seen element revealed again is never the previous one, once two distinct
/// elements have been seen.
pub proof fn lemma_seen_reveal_is_not_previous(g: GameView)
    requires
        game_wf(g),
        g.seen.len() >= 2,
    ensures
        reveal_seen(g).0 matches Ok(e) && Some(e) != g.previous,
        reveal_seen(g).1.current == Some(reveal_seen(g).0->Ok_0),
{
    let w: nat = if Some(g.seen[0]) != g.previous { 0 } else { 1 };
    assert(Some(g.seen[w as int]) != g.previous);
    lemma_pick_differs(g.rng, g.seen, g.previous, MAX_SEEN_REDRAWS as nat, w);
}

/// Plays `choices` from `g`: for each, `next` then a commit that claims seen when
/// the choice is `true`; the results of the reveals, in order.
pub open spec fn play(g: GameView, choices: Seq<bool>) -> Seq<Result<Seq<char>, GameError>>
    decreases choices.len(),
{
    if choices.len() == 0 {
        Seq::empty()
    } else {
        let (r, g1) = next_spec(g);
        let g2 = commit_spec(g1, choices[0]).1;
        seq![r] + play(g2, choices.drop_first())
    }
}

/// Determinism: from whatever state, a game that is reset replays, for any
/// commits, exactly the elements that the game built by `new` with its seed,
/// threshold and candidates reveals.
pub proof fn lemma_reset_replays(g: GameView, choices: Seq<bool>)
    ensures
        play(reset_of(g), choices) == play(fresh_game(g.seed, g.threshold, g.pool.data), choices),
{
}

} // verus!
