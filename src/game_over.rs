use vstd::prelude::*;

use crate::game::{
    commit_spec, contains_text, fresh_game, game_wf, next_spec, texts, finished_spec, filled, lives_of, Game,
    GameView, IncorrectCommits, SeenThreshold,
};
use crate::pool::MAX_CANDIDATES;
use crate::unseen_set_id::UnseenSetID;

verus! {

// -------------------------------------------------------------------------------------------------
// Commit
// -------------------------------------------------------------------------------------------------

/// Whether an element had been shown before.
#[derive(Clone, Copy, Debug, PartialEq, Eq, Structural)]
pub enum SeenUnseen {
    Seen,
    Unseen,
}

/// `Seen` for `true`.
pub open spec fn seen_unseen_of(seen: bool) -> SeenUnseen {
    if seen {
        SeenUnseen::Seen
    } else {
        SeenUnseen::Unseen
    }
}

/// The model of a commit: the element, whether it had actually been seen, and the guess.
pub struct CommitView {
    pub element: Seq<char>,
    pub actual: SeenUnseen,
    pub guess: SeenUnseen,
}

/// One commit of a played game.
pub struct Commit {
    element: String,
    actual: SeenUnseen,
    guess: SeenUnseen,
}

impl View for Commit {
    type V = CommitView;

    closed spec fn view(&self) -> CommitView {
        CommitView { element: self.element@, actual: self.actual, guess: self.guess }
    }
}

impl Commit {
    /// The element revealed for the commit.
    pub fn element(&self) -> (r: &String)
        ensures
            r@ == self@.element,
    {
        &self.element
    }

    /// Whether the element had actually been seen.
    pub fn actual(&self) -> (r: SeenUnseen)
        ensures
            r == self@.actual,
    {
        self.actual
    }

    /// What was guessed.
    pub fn guess(&self) -> (r: SeenUnseen)
        ensures
            r == self@.guess,
    {
        self.guess
    }

    /// The guess matches what actually was.
    pub fn correct(&self) -> (r: bool)
        ensures
            r == (self@.actual == self@.guess),
    {
        self.actual == self.guess
    }
}

// -------------------------------------------------------------------------------------------------
// Replay
// -------------------------------------------------------------------------------------------------

/// The model of a replay: the game being driven, the position of the next commit,
/// the recorded incorrect positions and the elements seen so far.
pub struct ReplayView {
    pub game: GameView,
    pub index: nat,
    pub incorrect: Seq<Option<usize>>,
    pub seen: Seq<Seq<char>>,
}

/// How many more commits can still reach a recorded incorrect position.
pub open spec fn ahead(p: Option<usize>, index: nat) -> nat {
    match p {
        Some(p) => if p >= index {
            (p - index + 1) as nat
        } else {
            0
        },
        None => 0,
    }
}

/// The largest of `ahead` over the three recorded positions.
pub open spec fn remaining(ic: Seq<Option<usize>>, index: nat) -> nat {
    let a = ahead(ic[0], index);
    let b = ahead(ic[1], index);
    let c = ahead(ic[2], index);
    let m = if a >= b {
        a
    } else {
        b
    };
    if m >= c {
        m
    } else {
        c
    }
}

/// The commit at `index` was recorded as incorrect.
pub open spec fn recorded_incorrect(ic: Seq<Option<usize>>, index: nat) -> bool {
    ic[0] == Some(index as usize) || ic[1] == Some(index as usize) || ic[2] == Some(index as usize)
}

/// One step of a replay: reveal the next element, commit the truth, or its opposite
/// at a recorded incorrect position. It ends when the game is finished, when a
/// reveal fails, or when no recorded position is left ahead.
#[verifier::opaque]
pub open spec fn replay_step(v: ReplayView) -> (Option<CommitView>, ReplayView) {
    if finished_spec(v.game) || remaining(v.incorrect, v.index) == 0 || v.index >= usize::MAX {
        (None, v)
    } else {
        let (r, g1) = next_spec(v.game);
        match r {
            Err(_) => (None, v),
            Ok(e) => {
                let actual = v.seen.contains(e);
                let guess = actual != recorded_incorrect(v.incorrect, v.index);
                let g2 = commit_spec(g1, guess).1;
                (
                    Some(
                        CommitView {
                            element: e,
                            actual: seen_unseen_of(actual),
                            guess: seen_unseen_of(guess),
                        },
                    ),
                    ReplayView {
                        game: g2,
                        index: v.index + 1,
                        incorrect: v.incorrect,
                        seen: if actual {
                            v.seen
                        } else {
                            v.seen.push(e)
                        },
                    },
                )
            },
        }
    }
}

/// The commits of a replay from `v` to its end.
pub open spec fn replay_commits(v: ReplayView) -> Seq<CommitView>
    decreases remaining(v.incorrect, v.index) via replay_commits_decreases
{
    let (c, w) = replay_step(v);
    match c {
        None => Seq::empty(),
        Some(c) => seq![c] + replay_commits(w),
    }
}

/// The game at the end of a replay from `v`.
pub open spec fn replay_end(v: ReplayView) -> GameView
    decreases remaining(v.incorrect, v.index) via replay_end_decreases
{
    let (c, w) = replay_step(v);
    match c {
        None => v.game,
        Some(_) => replay_end(w),
    }
}

#[via_fn]
proof fn replay_commits_decreases(v: ReplayView) {
    reveal(replay_step);
}

#[via_fn]
proof fn replay_end_decreases(v: ReplayView) {
    reveal(replay_step);
}

/// The replay from the start of the game `g` with recorded incorrect positions `ic`.
pub open spec fn replay_start(g: GameView, ic: Seq<Option<usize>>) -> ReplayView {
    ReplayView { game: g, index: 0, incorrect: ic, seen: Seq::empty() }
}

/// The replay is consistent: the game is, it has made `index` commits, and the
/// replay's own record of seen elements agrees with the game's.
pub open spec fn replay_wf(v: ReplayView) -> bool {
    &&& game_wf(v.game)
    &&& v.game.count == v.index
    &&& v.seen == v.game.seen
    &&& v.incorrect.len() == 3
}

/// Iterates over the commits of a played game by replaying it.
pub struct GameOverIterator {
    game: Game,
    index: usize,
    incorrect_commits: IncorrectCommits,
    seen: Vec<String>,
}

impl View for GameOverIterator {
    type V = ReplayView;

    closed spec fn view(&self) -> ReplayView {
        ReplayView {
            game: self.game@,
            index: self.index as nat,
            incorrect: self.incorrect_commits@,
            seen: texts(self.seen@),
        }
    }
}

fn ahead_exec(p: Option<usize>, index: usize) -> (r: bool)
    ensures
        r == (ahead(p, index as nat) > 0),
{
    match p {
        Some(p) => p >= index,
        None => false,
    }
}

impl GameOverIterator {
    /// The replay is consistent.
    pub open spec fn wf(&self) -> bool {
        replay_wf(self@)
    }

    /// The next commit of the replay.
    pub fn next(&mut self) -> (r: Option<Commit>)
        requires
            old(self).wf(),
        ensures
            final(self).wf(),
            (commit_text(r), final(self)@) == replay_step(old(self)@),
    {
        proof {
            reveal(replay_step);
        }
        let ic = self.incorrect_commits;
        if self.game.finished() || !(ahead_exec(ic[0], self.index) || ahead_exec(ic[1], self.index)
            || ahead_exec(ic[2], self.index)) || self.index == usize::MAX {
            return None;
        }
        let ghost v = self@;
        let element = match self.game.next() {
            Ok(e) => e,
            Err(_) => {
                return None;
            },
        };
        let actual = contains_text(&self.seen, &element);
        let wrong = ic[0] == Some(self.index) || ic[1] == Some(self.index) || ic[2] == Some(
            self.index,
        );
        let guess = actual != wrong;
        let ghost g1 = self.game@;
        let _ = if guess {
            self.game.commit_seen()
        } else {
            self.game.commit_unseen()
        };
        if !actual {
            self.seen.push(element.clone());
            assert(texts(self.seen@) =~= v.seen.push(element@));
        }
        self.index = self.index + 1;
        proof {
            assert(g1.current == Some(element@));
            assert(!g1.seen.contains(element@) == !actual);
        }
        Some(
            Commit {
                element,
                actual: if actual {
                    SeenUnseen::Seen
                } else {
                    SeenUnseen::Unseen
                },
                guess: if guess {
                    SeenUnseen::Seen
                } else {
                    SeenUnseen::Unseen
                },
            },
        )
    }
}

/// The model of an optional commit.
pub open spec fn commit_text(r: Option<Commit>) -> Option<CommitView> {
    match r {
        Some(c) => Some(c@),
        None => None,
    }
}


// -------------------------------------------------------------------------------------------------
// GameOver
// -------------------------------------------------------------------------------------------------

/// The model of a played game.
pub struct GameOverView {
    pub game: GameView,
    pub unseen_set_id: UnseenSetID,
}

/// The game rebuilt from its seed, threshold and candidates by replaying the
/// recorded incorrect positions `ic`.
pub open spec fn rebuilt(seed: u64, threshold: u32, candidates: Seq<Seq<char>>, ic: Seq<Option<usize>>) -> GameView {
    replay_end(replay_start(fresh_game(seed, threshold, candidates), ic))
}

/// An already played game.
pub struct GameOver {
    game: Game,
    unseen_set_id: UnseenSetID,
}

impl View for GameOver {
    type V = GameOverView;

    closed spec fn view(&self) -> GameOverView {
        GameOverView { game: self.game@, unseen_set_id: self.unseen_set_id }
    }
}

proof fn lemma_remaining_decreases(v: ReplayView)
    requires
        replay_step(v).0 is Some,
    ensures
        remaining(replay_step(v).1.incorrect, replay_step(v).1.index) < remaining(v.incorrect, v.index),
{
    reveal(replay_step);
}

proof fn lemma_replay_unfold(v: ReplayView)
    ensures
        replay_step(v).0 is None ==> replay_step(v).1 == v && replay_end(v) == v.game
            && replay_commits(v) == Seq::<CommitView>::empty(),
        replay_step(v).0 matches Some(c) ==> replay_end(v) == replay_end(replay_step(v).1)
            && replay_commits(v) == seq![c] + replay_commits(replay_step(v).1),
        replay_step(v).0 is Some ==> replay_step(v).1.index == v.index + 1
            && replay_step(v).1.incorrect == v.incorrect,
{
    reveal(replay_step);
}

impl GameOver {
    /// The game is consistent.
    pub open spec fn wf(&self) -> bool {
        game_wf(self@.game)
    }

    /// Rebuilds a played game: a new game over `unseen`, driven by committing the
    /// truth except at the positions in `incorrect_commits`.
    pub fn new(
        seed: u64,
        unseen_set_id: UnseenSetID,
        unseen: Vec<String>,
        seen_threshold: SeenThreshold,
        incorrect_commits: IncorrectCommits,
    ) -> (r: GameOver)
        requires
            unseen@.len() <= MAX_CANDIDATES,
        ensures
            r.wf(),
            r@.game == rebuilt(seed, seen_threshold.spec_parts(), texts(unseen@), incorrect_commits@),
            r@.unseen_set_id == unseen_set_id,
    {
        let game = Game::new(seed, seen_threshold, unseen);
        let mut iterator = GameOverIterator {
            game,
            index: 0,
            incorrect_commits,
            seen: Vec::new(),
        };
        assert(iterator@.seen =~= Seq::<Seq<char>>::empty());
        let ghost start = iterator@;
        loop
            invariant
                iterator.wf(),
                replay_end(start) == replay_end(iterator@),
            ensures
                iterator.wf(),
                replay_end(start) == iterator@.game,
            decreases remaining(iterator@.incorrect, iterator@.index),
        {
            let ghost before = iterator@;
            let c = iterator.next();
            proof {
                lemma_replay_unfold(before);
            }
            match c {
                None => {
                    break;
                },
                Some(_) => {
                    proof {
                        lemma_remaining_decreases(before);
                    }
                },
            }
        }
        GameOver { game: iterator.game, unseen_set_id }
    }

    /// Wraps a game that is over.
    pub fn from_game(game: Game, unseen_set_id: UnseenSetID) -> (r: GameOver)
        ensures
            r@ == (GameOverView { game: game@, unseen_set_id }),
    {
        GameOver { game, unseen_set_id }
    }

    /// The seed of the game.
    pub fn seed(&self) -> (r: u64)
        ensures
            r == self@.game.seed,
    {
        self.game.seed()
    }

    /// The candidate list the game was played over.
    pub fn unseen_set_id(&self) -> (r: UnseenSetID)
        ensures
            r == self@.unseen_set_id,
    {
        self.unseen_set_id
    }

    /// The seen threshold of the game.
    pub fn seen_threshold(&self) -> (r: SeenThreshold)
        requires
            self.wf(),
        ensures
            r.spec_parts() == self@.game.threshold,
    {
        self.game.seen_threshold()
    }

    /// The positions of the incorrect commits.
    pub fn incorrect_commits(&self) -> (r: IncorrectCommits)
        ensures
            r@ == self@.game.incorrect,
    {
        self.game.incorrect_commits()
    }

    /// The checksum of the revealed elements.
    pub fn element_checksum(&self) -> (r: u64)
        ensures
            r == self@.game.checksum,
    {
        self.game.element_checksum()
    }

    /// Final score of the game.
    pub fn score(&self) -> (r: usize)
        requires
            self.wf(),
        ensures
            r == self@.game.count - filled(self@.game.incorrect),
    {
        self.game.score()
    }

    /// Lives left when the game finished.
    pub fn lives(&self) -> (r: usize)
        ensures
            r == lives_of(self@.game.incorrect),
    {
        self.game.lives()
    }

    /// A replay of the commits of the game; each call starts anew.
    pub fn iter(&self) -> (r: GameOverIterator)
        requires
            self.wf(),
        ensures
            r.wf(),
            r@ == replay_start(
                fresh_game(self@.game.seed, self@.game.threshold, self@.game.pool.data),
                self@.game.incorrect,
            ),
    {
        let game = Game::new(self.game.seed(), self.game.seen_threshold(), self.game.candidates());
        let r = GameOverIterator {
            game,
            index: 0,
            incorrect_commits: self.game.incorrect_commits(),
            seen: Vec::new(),
        };
        assert(r@.seen =~= Seq::<Seq<char>>::empty());
        r
    }

    /// A replay of the commits of the game, consuming it.
    pub fn into_iter(self) -> (r: GameOverIterator)
        requires
            self.wf(),
        ensures
            r.wf(),
            r@ == replay_start(
                fresh_game(self@.game.seed, self@.game.threshold, self@.game.pool.data),
                self@.game.incorrect,
            ),
    {
        let mut game = self.game;
        let incorrect_commits = game.incorrect_commits();
        game.reset();
        let r = GameOverIterator { game, index: 0, incorrect_commits, seen: Vec::new() };
        assert(r@.seen =~= Seq::<Seq<char>>::empty());
        r
    }

    /// All commits of the game, in order.
    pub fn commits(&self) -> (r: Vec<Commit>)
        requires
            self.wf(),
        ensures
            r@.map_values(|c: Commit| c@) == replay_commits(
                replay_start(
                    fresh_game(self@.game.seed, self@.game.threshold, self@.game.pool.data),
                    self@.game.incorrect,
                ),
            ),
    {
        let mut it = self.iter();
        let ghost start = it@;
        let mut r: Vec<Commit> = Vec::new();
        loop
            invariant
                it.wf(),
                r@.map_values(|c: Commit| c@) + replay_commits(it@) == replay_commits(start),
            ensures
                r@.map_values(|c: Commit| c@) == replay_commits(start),
            decreases remaining(it@.incorrect, it@.index),
        {
            let ghost before = it@;
            let next = it.next();
            proof {
                lemma_replay_unfold(before);
            }
            match next {
                None => {
                    assert(r@.map_values(|c: Commit| c@) + replay_commits(before) =~= r@.map_values(|c: Commit| c@));
                    break;
                },
                Some(c) => {
                    proof {
                        lemma_remaining_decreases(before);
                    }
                    let ghost old_r = r@;
                    r.push(c);
                    assert(r@.map_values(|c: Commit| c@) =~= old_r.map_values(|c: Commit| c@).push(c@));
                    assert(replay_commits(before) == seq![c@] + replay_commits(it@));
                    assert(r@.map_values(|c: Commit| c@) + replay_commits(it@) =~= old_r.map_values(|c: Commit| c@) + replay_commits(before));
                },
            }
        }
        r
    }
}


// -------------------------------------------------------------------------------------------------
// Replaying a replayed game
// -------------------------------------------------------------------------------------------------

/// The number of commits a replay from `v` makes.
pub open spec fn replay_len(v: ReplayView) -> nat {
    replay_commits(v).len()
}

proof fn lemma_step_facts(v: ReplayView)
    requires
        v.seen == v.game.seen,
        v.game.count == v.index,
        replay_step(v).0 is Some,
    ensures
        ({
            let w = replay_step(v).1;
            &&& w.index == v.index + 1
            &&& w.incorrect == v.incorrect
            &&& w.seen == w.game.seen
            &&& w.game.count == w.index
            &&& !finished_spec(v.game)
            &&& remaining(v.incorrect, v.index) > 0
            &&& v.index < usize::MAX
            &&& w.game.seed == v.game.seed
            &&& w.game.threshold == v.game.threshold
            &&& w.game.incorrect == (if recorded_incorrect(v.incorrect, v.index) {
                crate::game::push_incorrect(v.game.incorrect, v.index as usize)
            } else {
                v.game.incorrect
            })
        }),
{
    reveal(replay_step);
}

/// Two replays in the same position whose recorded positions agree on every commit
/// still to come step alike.
proof fn lemma_same_step(v: ReplayView, ic2: Seq<Option<usize>>)
    requires
        replay_step(v).0 is Some,
        recorded_incorrect(ic2, v.index) == recorded_incorrect(v.incorrect, v.index),
        remaining(ic2, v.index) > 0,
    ensures
        replay_step(ReplayView { incorrect: ic2, ..v }).0 == replay_step(v).0,
        replay_step(ReplayView { incorrect: ic2, ..v }).1 == (ReplayView {
            incorrect: ic2,
            ..replay_step(v).1
        }),
{
    reveal(replay_step);
}

proof fn lemma_stop_when_finished(v: ReplayView)
    requires
        finished_spec(v.game),
    ensures
        replay_step(v).0 is None,
        replay_end(v) == v.game,
        replay_len(v) == 0,
{
    reveal(replay_step);
    lemma_replay_unfold(v);
}

/// The positions `ic2` agree with those of the replay `v` on every commit it still
/// makes, and leave a position ahead at each of them.
pub open spec fn agrees_ahead(v: ReplayView, ic2: Seq<Option<usize>>) -> bool {
    forall|i: nat|
        #![trigger agrees_at(v.incorrect, ic2, i)]
        v.index <= i < v.index + replay_len(v) ==> agrees_at(v.incorrect, ic2, i)
}

/// The two recorded positions agree at `i`, and `ic2` has a position ahead of it.
pub open spec fn agrees_at(ic: Seq<Option<usize>>, ic2: Seq<Option<usize>>, i: nat) -> bool {
    &&& recorded_incorrect(ic2, i) == recorded_incorrect(ic, i)
    &&& remaining(ic2, i) > 0
}

/// A replay with other recorded positions that agree on every commit it makes,
/// and do not stop it early, ends where the first one ends, once it ends finished.
proof fn lemma_replay_agrees(v: ReplayView, ic2: Seq<Option<usize>>)
    requires
        finished_spec(replay_end(v)),
        agrees_ahead(v, ic2),
    ensures
        replay_end(ReplayView { incorrect: ic2, ..v }) == replay_end(v),
    decreases remaining(v.incorrect, v.index),
{
    lemma_replay_unfold(v);
    let v2 = ReplayView { incorrect: ic2, ..v };
    match replay_step(v).0 {
        None => {
            assert(finished_spec(v.game));
            lemma_stop_when_finished(v2);
        },
        Some(c) => {
            let w = replay_step(v).1;
            assert(replay_len(v) == 1 + replay_len(w));
            assert(v.index <= v.index < v.index + replay_len(v));
            assert(agrees_at(v.incorrect, ic2, v.index));
            lemma_same_step(v, ic2);
            lemma_remaining_decreases(v);
            lemma_replay_unfold(v2);
            assert forall|i: nat|
                #![trigger agrees_at(w.incorrect, ic2, i)]
                w.index <= i < w.index + replay_len(w) implies agrees_at(w.incorrect, ic2, i) by {
                assert(v.index <= i < v.index + replay_len(v));
                assert(agrees_ahead(v, ic2));
            }
            assert(agrees_ahead(w, ic2));
            lemma_replay_agrees(w, ic2);
        },
    }
}


/// Every recorded position of `ic` lies before `n`.
pub open spec fn all_before(ic: Seq<Option<usize>>, n: nat) -> bool {
    forall|k: int| 0 <= k < 3 ==> (#[trigger] ic[k] matches Some(p) ==> p < n)
}

/// What a replay writes into the game: from its position on, the game records as
/// incorrect exactly the commits recorded in the replay; it keeps what it had
/// recorded before; and where it makes a commit, the last one is recorded.
proof fn lemma_replay_records(v: ReplayView)
    requires
        v.seen == v.game.seen,
        v.game.count == v.index,
        v.game.incorrect.len() == 3,
        all_before(v.game.incorrect, v.index),
        finished_spec(replay_end(v)),
    ensures
        forall|i: nat|
            v.index <= i < v.index + replay_len(v) ==> #[trigger] recorded_incorrect(
                replay_end(v).incorrect,
                i,
            ) == recorded_incorrect(v.incorrect, i),
        forall|i: nat|
            i < v.index ==> #[trigger] recorded_incorrect(replay_end(v).incorrect, i)
                == recorded_incorrect(v.game.incorrect, i),
        replay_len(v) > 0 ==> recorded_incorrect(
            replay_end(v).incorrect,
            (v.index + replay_len(v) - 1) as nat,
        ),
        all_before(replay_end(v).incorrect, v.index + replay_len(v)),
        replay_end(v).incorrect.len() == 3,
        replay_len(v) > 0 ==> v.index + replay_len(v) <= usize::MAX,
    decreases remaining(v.incorrect, v.index),
{
    lemma_replay_unfold(v);
    match replay_step(v).0 {
        None => {},
        Some(c) => {
            let w = replay_step(v).1;
            lemma_step_facts(v);
            lemma_remaining_decreases(v);
            let pushed = recorded_incorrect(v.incorrect, v.index);
            assert(w.game.incorrect.len() == 3);
            assert(all_before(w.game.incorrect, w.index)) by {
                assert forall|k: int| 0 <= k < 3 implies (#[trigger] w.game.incorrect[k] matches Some(
                    p,
                ) ==> p < w.index) by {
                    if w.game.incorrect[k] != v.game.incorrect[k] {
                        assert(w.game.incorrect[k] == Some(v.index as usize));
                    }
                }
            }
            lemma_replay_records(w);
            let g = replay_end(v);
            assert(g == replay_end(w));
            assert(replay_len(v) == 1 + replay_len(w));
            // At the step itself.
            assert(recorded_incorrect(w.game.incorrect, v.index) == pushed) by {
                if !pushed {
                    assert(w.game.incorrect == v.game.incorrect);
                    assert(all_before(v.game.incorrect, v.index));
                    assert(v.game.incorrect[0] != Some(v.index as usize));
                    assert(v.game.incorrect[1] != Some(v.index as usize));
                    assert(v.game.incorrect[2] != Some(v.index as usize));
                }
            }
            assert forall|i: nat|
                v.index <= i < v.index + replay_len(v) implies #[trigger] recorded_incorrect(
                g.incorrect,
                i,
            ) == recorded_incorrect(v.incorrect, i) by {
                if i == v.index {
                    assert(i < w.index);
                } else {
                    assert(w.index <= i < w.index + replay_len(w));
                }
            }
            assert forall|i: nat| i < v.index implies #[trigger] recorded_incorrect(g.incorrect, i)
                == recorded_incorrect(v.game.incorrect, i) by {
                assert(i < w.index);
                assert(recorded_incorrect(g.incorrect, i) == recorded_incorrect(w.game.incorrect, i));
                if pushed {
                    assert(Some(v.index as usize) != Some(i as usize));
                }
            }
            if replay_len(w) == 0 {
                lemma_replay_unfold(w);
                assert(g == w.game);
                assert(finished_spec(w.game));
                if !pushed {
                    assert(w.game.incorrect == v.game.incorrect);
                }
                assert(recorded_incorrect(g.incorrect, v.index));
            }
        },
    }
}

/// Replaying a finished rebuilt game's own record of incorrect commits rebuilds
/// the same game.
pub proof fn lemma_rebuild_is_stable(
    seed: u64,
    threshold: u32,
    candidates: Seq<Seq<char>>,
    ic: Seq<Option<usize>>,
)
    requires
        ic.len() == 3,
        finished_spec(rebuilt(seed, threshold, candidates, ic)),
    ensures
        rebuilt(seed, threshold, candidates, rebuilt(seed, threshold, candidates, ic).incorrect)
            == rebuilt(seed, threshold, candidates, ic),
{
    let v = replay_start(fresh_game(seed, threshold, candidates), ic);
    let g = replay_end(v);
    let ic2 = g.incorrect;
    assert(v.seen == v.game.seen);
    assert(v.game.incorrect =~= seq![None, None, None]);
    assert(all_before(v.game.incorrect, 0));
    lemma_replay_records(v);
    if replay_len(v) == 0 {
        lemma_replay_unfold(v);
        lemma_replay_unfold(v);
        assert(!finished_spec(v.game));
        assert(replay_step(v).0 is None);
        assert(g == v.game);
    }
    let n = replay_len(v);
    assert(n > 0);
    assert forall|i: nat|
        #![trigger agrees_at(v.incorrect, ic2, i)]
        v.index <= i < v.index + replay_len(v) implies agrees_at(v.incorrect, ic2, i) by {
        assert(recorded_incorrect(ic2, i) == recorded_incorrect(v.incorrect, i));
        let last = (n - 1) as nat;
        assert(recorded_incorrect(ic2, last));
        assert((last as usize) as nat == last);
        if ic2[0] == Some(last as usize) {
            assert(ahead(ic2[0], i) > 0);
        } else if ic2[1] == Some(last as usize) {
            assert(ahead(ic2[1], i) > 0);
        } else {
            assert(ahead(ic2[2], i) > 0);
        }
    }
    lemma_replay_agrees(v, ic2);
    assert(ReplayView { incorrect: ic2, ..v } == replay_start(
        fresh_game(seed, threshold, candidates),
        ic2,
    ));
}


/// A replay keeps the seed and threshold of the game.
proof fn lemma_replay_keeps_settings(v: ReplayView)
    requires
        v.seen == v.game.seen,
        v.game.count == v.index,
    ensures
        replay_end(v).seed == v.game.seed,
        replay_end(v).threshold == v.game.threshold,
    decreases remaining(v.incorrect, v.index),
{
    lemma_replay_unfold(v);
    if replay_step(v).0 is Some {
        lemma_step_facts(v);
        lemma_remaining_decreases(v);
        lemma_replay_keeps_settings(replay_step(v).1);
    }
}

/// A rebuilt game keeps the seed and threshold it was built with, and three slots.
pub proof fn lemma_rebuilt_settings(
    seed: u64,
    threshold: u32,
    candidates: Seq<Seq<char>>,
    ic: Seq<Option<usize>>,
)
    ensures
        rebuilt(seed, threshold, candidates, ic).seed == seed,
        rebuilt(seed, threshold, candidates, ic).threshold == threshold,
{
    let v = replay_start(fresh_game(seed, threshold, candidates), ic);
    assert(v.seen == v.game.seen);
    lemma_replay_keeps_settings(v);
}


/// A finished rebuilt game has three slots.
pub proof fn lemma_rebuilt_slots(
    seed: u64,
    threshold: u32,
    candidates: Seq<Seq<char>>,
    ic: Seq<Option<usize>>,
)
    requires
        finished_spec(rebuilt(seed, threshold, candidates, ic)),
    ensures
        rebuilt(seed, threshold, candidates, ic).incorrect.len() == 3,
{
    let v = replay_start(fresh_game(seed, threshold, candidates), ic);
    assert(v.seen == v.game.seen);
    assert(v.game.incorrect =~= seq![None, None, None]);
    assert(all_before(v.game.incorrect, 0));
    lemma_replay_records(v);
}

} // verus!
