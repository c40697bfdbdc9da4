//! A deterministic "seen / unseen" recall game: a mixing primitive and a
//! counter based generator, a sampler without replacement, the game engine,
//! the replay of a finished game and a versioned, checksummed encoding of it.

pub mod codec;
pub mod game;
pub mod game_over;
pub mod pool;
pub mod rng;
pub mod unseen_set_id;

pub use codec::{
    decode, default_unseen_set_id, ok_checksum, CoderError, EncodedGameOver, GameOverCoderV01,
    GameOverCoderVersion, GameOverCoderVersionError, SealedEncodedError, SealedEncodedGameOver,
    Version00Coding,
};
pub use game::{
    Game, GameError, IncorrectCommits, SeenThreshold, SeenThresholdError, INITIAL_LIVES_AMOUNT,
    THRESHOLD_MAX,
};
pub use game_over::{Commit, GameOver, GameOverIterator, SeenUnseen};
pub use pool::{Unseen, MAX_CANDIDATES};
pub use rng::{Konadare192PxPlusPlus, KNOMUL, KSINK, PRNG};
pub use unseen_set_id::UnseenSetID;
