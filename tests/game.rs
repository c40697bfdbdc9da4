use std::collections::{HashSet, LinkedList};

use seen_unseen::{Game, GameError, SeenThreshold, SeenThresholdError, KSINK, THRESHOLD_MAX};

fn ratio(x: f64) -> SeenThreshold {
    SeenThreshold::new((THRESHOLD_MAX as f64 * x) as u32).unwrap()
}

fn units(r: std::ops::Range<u8>) -> Vec<String> {
    r.map(|x| (x as char).to_string()).collect()
}

#[test]
fn test_commit_errors_when_empty() {
    let mut game = Game::new(10539, ratio(0.4), units(0..1));
    assert_eq!(game.commit_seen(), Err(GameError::EmptyCommit));
    assert_eq!(game.commit_unseen(), Err(GameError::EmptyCommit));
}

#[test]
fn test_next_throws_errors_with_uncommited_results() {
    let mut game = Game::new(11484, ratio(0.0), units(0..2));
    assert!(matches!(game.next(), Ok(_)));
    assert_eq!(game.next(), Err(GameError::NextCalledWithUncommitedResult));

    let mut game = Game::new(11898, ratio(1.0), units(0..2));
    assert!(matches!(game.next(), Ok(_)));
    assert_eq!(game.next(), Err(GameError::NextCalledWithUncommitedResult));
}

#[test]
fn test_three_strikes_guessing_seen_causes_game_over() {
    let mut game = Game::new(12584, ratio(0.0), units(0..4));
    for _ in 0..3 {
        assert!(matches!(game.next(), Ok(_)));
        assert!(matches!(game.commit_seen(), Ok(false)));
    }
    assert!(game.finished());
    assert_eq!(game.lives(), 0);
    assert_eq!(game.next(), Err(GameError::GameOver));
    assert_eq!(game.commit_seen(), Err(GameError::GameOver));
    assert_eq!(game.commit_unseen(), Err(GameError::GameOver));
}

#[test]
fn test_three_strikes_guessing_unseen_causes_game_over() {
    let mut game = Game::new(12554, ratio(1.0), units(0..4));

    // The first two reveals are always unseen.
    assert!(matches!(game.next(), Ok(_)));
    assert!(matches!(game.commit_unseen(), Ok(true)));
    assert!(matches!(game.next(), Ok(_)));
    assert!(matches!(game.commit_unseen(), Ok(true)));

    for _ in 0..3 {
        assert!(matches!(game.next(), Ok(_)));
        assert!(matches!(game.commit_unseen(), Ok(false)));
    }
    assert_eq!(game.next(), Err(GameError::GameOver));
    assert_eq!(game.commit_seen(), Err(GameError::GameOver));
    assert_eq!(game.commit_unseen(), Err(GameError::GameOver));
}

#[test]
fn test_next_unseen_returns_unique_and_errors_when_empty() {
    let n = 16;
    let mut game = Game::new(6237, ratio(0.0), units(0..n));
    let mut s = HashSet::new();

    for _ in 0..n {
        if !s.insert(game.next().unwrap().clone()) {
            panic!("`next_unseen` generated already generated value")
        }
        assert!(game.commit_unseen().unwrap());
    }

    assert_eq!(game.next(), Err(GameError::UnseenEmpty));
}

#[test]
fn test_next_seen_returns_error_when_too_few_elements() {
    let mut game = Game::new(8833, ratio(1.0), units(0..0));
    assert!(matches!(game.next(), Err(_)));

    let mut game = Game::new(19119, ratio(1.0), units(0..1));
    assert!(matches!(game.next(), Ok(_)));
    assert!(matches!(game.next(), Err(_)));
}

#[test]
fn test_next_generates_equal_output_for_equal_input() {
    let mut game1 = Game::new(10335, ratio(0.5), units(0..16));
    let mut game2 = Game::new(10335, ratio(0.5), units(0..16));

    for y in [true, true, true, false, false, false, true, true, true] {
        assert_eq!(game1.next(), game2.next());
        if y {
            assert_eq!(game1.commit_seen(), game2.commit_seen());
        } else {
            assert_eq!(game1.commit_unseen(), game2.commit_unseen());
        }
    }
}

#[test]
fn test_next_never_generates_same_twice_in_a_row() {
    let mut game = Game::new(10335, ratio(1.0), units(0..4));
    let mut previous = game.next().unwrap().clone();
    for _ in 0..16 {
        game.commit_seen().unwrap();
        let x = game.next().unwrap().clone();
        assert_ne!(previous, x);
        previous = x;
    }
}

#[test]
fn test_score_increases_on_correct_commit() {
    let mut game = Game::new(11976, ratio(0.5), units(0..8));
    for (score, guess_seen) in
        [(1, false), (2, false), (2, true), (3, false), (4, true), (4, false)]
    {
        game.next().unwrap();

        if guess_seen {
            game.commit_seen().unwrap();
        } else {
            game.commit_unseen().unwrap();
        }

        assert_eq!(game.score(), score);
    }
}

#[test]
fn test_life_decrease_on_incorrect_commit() {
    let mut game = Game::new(211391, ratio(0.5), units(0..8));
    for (lives, guess_seen) in [
        (3, false),
        (3, false),
        (3, true),
        (3, false),
        (2, true),
        (2, true),
        (2, false),
        (1, true),
        (1, false),
        (0, false),
    ] {
        game.next().unwrap();

        if guess_seen {
            game.commit_seen().unwrap();
        } else {
            game.commit_unseen().unwrap();
        }
        assert_eq!(game.lives(), lives);
    }

    assert!(game.finished());
}

#[test]
fn test_indices_are_same_as_incorrect_commits() {
    let mut game = Game::new(877326994, ratio(0.5), units(0..16));
    let guess_seen = [2, 3, 5, 6, 11];
    let wrongs = [3, 8, 11];

    for i in 0..12 {
        game.next().unwrap();

        if guess_seen.contains(&i) {
            assert!(game.commit_seen().unwrap() == !wrongs.contains(&i));
        } else {
            assert!(game.commit_unseen().unwrap() == !wrongs.contains(&i));
        }
    }

    assert_eq!(
        wrongs.iter().map(|x| Some(x.clone())).collect::<Vec<Option<usize>>>(),
        game.incorrect_commits()
    );
}

#[test]
fn after_reseting_a_game_it_produces_same_output_given_same_input() {
    let mut game = Game::new(6314949274223572360, ratio(0.4), units(0..32));
    let guess_seen = [4, 5, 8, 12, 17, 18, 19, 20, 21, 22, 24, 25];

    let mut elements = LinkedList::new();
    let mut i = 0;
    while !game.finished() {
        elements.push_back(game.next().unwrap().clone());
        if guess_seen.contains(&i) {
            game.commit_seen().unwrap();
        } else {
            game.commit_unseen().unwrap();
        }
        i += 1;
    }

    let incorrect = game.incorrect_commits().clone();

    game.reset();
    let mut i = 0;
    while !game.finished() {
        assert_eq!(game.next().unwrap(), elements.pop_front().unwrap());
        if guess_seen.contains(&i) {
            game.commit_seen().unwrap();
        } else {
            game.commit_unseen().unwrap();
        }
        i += 1;
    }

    assert!(elements.is_empty());
    assert_eq!(game.incorrect_commits(), incorrect);
}

#[test]
fn reset_of_a_game_produces_same_output_given_same_input() {
    let mut game = Game::new(6314949274223572360, ratio(0.4), units(0..32));
    let guess_seen = [4, 5, 8, 12, 17, 18, 19, 20, 21, 22, 24, 25];

    let mut elements = LinkedList::new();
    let mut i = 0;
    while !game.finished() {
        elements.push_back(game.next().unwrap().clone());
        if guess_seen.contains(&i) {
            game.commit_seen().unwrap();
        } else {
            game.commit_unseen().unwrap();
        }
        i += 1;
    }

    let incorrect = game.incorrect_commits().clone();
    let checksum = game.element_checksum();

    game.reset();
    assert_eq!(game.lives(), 3);
    assert_eq!(game.score(), 0);
    let mut i = 0;
    while !game.finished() {
        assert_eq!(game.next().unwrap(), elements.pop_front().unwrap());
        if guess_seen.contains(&i) {
            game.commit_seen().unwrap();
        } else {
            game.commit_unseen().unwrap();
        }
        i += 1;
    }

    assert!(elements.is_empty());
    assert_eq!(game.incorrect_commits(), incorrect);
    assert_eq!(game.element_checksum(), checksum);
}

#[test]
fn element_checksum_outputs_as_expected() {
    let mut game = Game::new(
        9004491465204253423,
        ratio(0.3),
        vec![
            "4hYKvDtHGSo=",
            "/QaJrz+CL/Q=",
            "d6z9AveYhgY=",
            "3t69Oqkp/DM=",
            "1/sKN1Lxhb8=",
            "MXe8R8hcGds=",
            "ZOIvjnNgSgo=",
            "XF1nMT3+sNI=",
            "l5a/lq691wc=",
            "5ogqZBBRKAc=",
            "PMVOmOlhnRc=",
            "7jAprh4MM34=",
            "M1q/CZxTsMU=",
            "vGMrB1HuhnM=",
            "SPYz7ePBqJU=",
            "8O/quTDz7zw=",
        ]
        .into_iter()
        .map(String::from)
        .collect(),
    );

    let mut s = 2636128771936786712u64;
    assert_eq!(s, game.element_checksum());

    let mut m = 0;

    while !game.finished() {
        s = KSINK::hash(s, game.next().unwrap().as_bytes());
        assert_eq!(s, game.element_checksum());

        m += 1;
        m %= 3;
        if m == 0 {
            game.commit_seen().unwrap();
        } else {
            game.commit_unseen().unwrap();
        }
    }
}

#[test]
fn threshold_out_of_range_is_refused() {
    assert_eq!(SeenThreshold::new(THRESHOLD_MAX + 1), Err(SeenThresholdError::ValueOutOfRange));
    assert_eq!(SeenThreshold::new(THRESHOLD_MAX).unwrap().parts(), THRESHOLD_MAX);
    assert_eq!(SeenThreshold::new(0).unwrap().parts(), 0);
}

#[test]
fn lives_and_strikes_always_sum_to_three() {
    let mut game = Game::new(424242, ratio(0.5), units(0..32));
    let mut i = 0;
    while !game.finished() {
        game.next().unwrap();
        if i % 3 == 0 {
            game.commit_seen().unwrap();
        } else {
            game.commit_unseen().unwrap();
        }
        let filled = game.incorrect_commits().iter().filter(|x| x.is_some()).count();
        assert_eq!(game.lives() + filled, 3);
        assert_eq!(game.finished(), game.lives() == 0);
        i += 1;
    }
    assert_eq!(game.score() + 3, game.commit_count());
}

#[test]
fn failed_calls_change_nothing() {
    let mut game = Game::new(77, ratio(0.5), units(0..8));
    assert_eq!(game.commit_seen(), Err(GameError::EmptyCommit));
    let first = game.next().unwrap();
    let checksum = game.element_checksum();
    assert_eq!(game.next(), Err(GameError::NextCalledWithUncommitedResult));
    assert_eq!(game.element_checksum(), checksum);
    assert_eq!(game.commit_unseen(), Ok(true));
    assert_eq!(game.commit_count(), 1);
    let mut fresh = Game::new(77, ratio(0.5), units(0..8));
    assert_eq!(fresh.next().unwrap(), first);
}

#[test]
fn seed_and_threshold_are_kept() {
    let game = Game::new(31337, ratio(0.25), units(0..3));
    assert_eq!(game.seed(), 31337);
    assert_eq!(game.seen_threshold().parts(), 250_000_000);
    assert_eq!(game.incorrect_commits(), [None, None, None]);
    assert_eq!(game.candidates(), units(0..3));
}
