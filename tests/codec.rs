use seen_unseen::{
    decode, CoderError, EncodedGameOver, GameOver, GameOverCoderV01, GameOverCoderVersion,
    Konadare192PxPlusPlus, SealedEncodedError, SealedEncodedGameOver, SeenThreshold, UnseenSetID,
    Version00Coding, KNOMUL, THRESHOLD_MAX,
};

fn ratio(x: f64) -> SeenThreshold {
    SeenThreshold::new((THRESHOLD_MAX as f64 * x) as u32).unwrap()
}

fn units(r: std::ops::Range<u8>) -> Vec<String> {
    r.map(|x| (x as char).to_string()).collect()
}

fn same_commits(a: &GameOver, b: &GameOver) -> usize {
    let (x, y) = (a.commits(), b.commits());
    assert_eq!(x.len(), y.len());
    for (c0, c1) in x.iter().zip(y.iter()) {
        assert_eq!(c0.element(), c1.element());
        assert_eq!(c0.actual(), c1.actual());
        assert_eq!(c0.guess(), c1.guess());
    }
    x.len()
}

fn generate_game_over(
    s: u64,
    unseen_set_id: Option<UnseenSetID>,
    seen_threshold: Option<SeenThreshold>,
) -> (GameOver, Vec<String>) {
    let mut rng = Konadare192PxPlusPlus::from_seed(s);

    let mut incorrect = [
        Some(rng.next_with_upper_bound(256) as usize),
        Some(rng.next_with_upper_bound(256) as usize),
        Some(rng.next_with_upper_bound(256) as usize),
    ];
    incorrect.sort();

    let seed = rng.next();

    let unseen: Vec<String> = (0..(256 + rng.next_with_upper_bound(64)))
        .map(|_| {
            base64::encode(
                (0..(8 + rng.next_with_upper_bound(32)))
                    .map(|_| rng.next_with_upper_bound(256).try_into().unwrap())
                    .collect::<Vec<u8>>()
                    .as_slice(),
            )
        })
        .collect();

    let threshold = seen_threshold.unwrap_or_else(|| {
        ratio(rng.next() as f64 / ((1u64 << 63) | ((1u64 << 63) - 1)) as f64)
    });
    (
        GameOver::new(
            seed,
            unseen_set_id.unwrap_or(UnseenSetID::Unspecified),
            unseen.clone(),
            threshold,
            incorrect,
        ),
        unseen,
    )
}

fn assert_same_game(decoded: &GameOver, game_over: &GameOver) {
    assert_eq!(decoded.seed(), game_over.seed());
    assert_eq!(decoded.seen_threshold(), game_over.seen_threshold());
    assert_eq!(decoded.incorrect_commits(), game_over.incorrect_commits());
    assert_eq!(decoded.element_checksum(), game_over.element_checksum());
    assert_eq!(decoded.unseen_set_id(), game_over.unseen_set_id());
    assert_eq!(decoded.score(), game_over.score());
    assert_eq!(decoded.lives(), game_over.lives());
    same_commits(decoded, game_over);
}

fn swapped_data(s: &SealedEncodedGameOver, k0: u64, k1: u64) -> String {
    let n = s.data().len();
    let (i, j) = (
        KNOMUL::permute_index(s.checksum(), k0) as usize % n,
        KNOMUL::permute_index(s.checksum(), k1) as usize % n,
    );
    let mut b: Vec<u8> = s.data().as_bytes().to_vec();
    b.swap(i, j);
    String::from_utf8(b).unwrap()
}

#[test]
fn test_encode_decode_same_as_id() {
    let unseen = units(0..64);

    let game_over = GameOver::new(
        2313308731114687875,
        UnseenSetID::Unspecified,
        unseen.clone(),
        ratio(0.4),
        [Some(1), Some(24), Some(30)],
    );
    let encoded = Version00Coding::encode(&game_over);
    let decoded =
        Version00Coding::decode(&EncodedGameOver::from_sealed(encoded).unwrap(), unseen).unwrap();

    assert_eq!(same_commits(&game_over, &decoded), 31);
}

#[test]
fn modifying_checksum_throws_invalid_checksum_error() {
    let game_over = GameOver::new(
        2313308731114687875,
        UnseenSetID::Unspecified,
        units(0..64),
        ratio(0.4),
        [Some(16), Some(30), Some(34)],
    );
    let encoded = Version00Coding::encode(&game_over);

    // xor the checksum with a pseudo random value.
    let checksum = encoded.checksum() ^ KNOMUL::permute_index(encoded.checksum(), 12228011056065030022);
    let encoded = SealedEncodedGameOver::from_parts(
        encoded.version().clone(),
        checksum,
        encoded.data().clone(),
        Some(encoded.unseen_set_id()),
    );

    assert_eq!(
        EncodedGameOver::from_sealed(encoded).err(),
        Some(SealedEncodedError::InvalidChecksum)
    );
}

#[test]
fn modifying_data_throws_invalid_checksum_error() {
    let game_over = GameOver::new(
        2313308731114687875,
        UnseenSetID::Unspecified,
        units(0..64),
        ratio(0.4),
        [Some(21), Some(46), Some(47)],
    );
    let encoded = Version00Coding::encode(&game_over);

    // Swap two letters in the base64 encoded data.
    let data = swapped_data(&encoded, 15986057670448281097, 15772190296526768807);
    assert_ne!(&data, encoded.data());
    let encoded = SealedEncodedGameOver::from_parts(
        encoded.version().clone(),
        encoded.checksum(),
        data,
        Some(encoded.unseen_set_id()),
    );

    assert_eq!(
        EncodedGameOver::from_sealed(encoded).err(),
        Some(SealedEncodedError::InvalidChecksum)
    );
}

#[test]
fn invalid_version_throws_unrecognised_version_error() {
    let game_over = GameOver::new(
        2313308731114687875,
        UnseenSetID::Unspecified,
        units(0..64),
        ratio(0.4),
        [Some(22), Some(42), Some(49)],
    );
    let encoded = Version00Coding::encode(&game_over);

    // The checksum and the data are modified too: the version error comes first.
    let checksum = KNOMUL::permute_index(encoded.checksum(), 10041457562034272223);
    let moved = SealedEncodedGameOver::from_parts(
        encoded.version().clone(),
        checksum,
        encoded.data().clone(),
        None,
    );
    let data = swapped_data(&moved, 6813646448085885511, 16217660822986183576);
    let encoded = SealedEncodedGameOver::from_parts("bad-version".into(), checksum, data, None);

    assert_eq!(
        EncodedGameOver::from_sealed(encoded).err(),
        Some(SealedEncodedError::UnrecognisedVersion("bad-version".into()))
    );
}

#[test]
fn test_encode_decode_equals_id() {
    let unseen = units(0..64);
    let game_over = GameOver::new(
        9940370477626720397,
        UnseenSetID::Unspecified,
        unseen.clone(),
        ratio(0.4),
        [Some(9), Some(15), Some(35)],
    );
    let encoded = SealedEncodedGameOver::new(GameOverCoderVersion::GameOverCoderV01, &game_over);
    let decoded = decode(encoded, unseen).unwrap();

    assert_eq!(decoded.element_checksum(), game_over.element_checksum());
    assert_eq!(decoded.score(), game_over.score());
    assert_eq!(decoded.lives(), game_over.lives());
    same_commits(&decoded, &game_over);
}

#[test]
fn game_over_coding_v01_encode_decode_equals_id() {
    let unseen = units(0..64);
    let game_over = GameOver::new(
        9940370477626720397,
        UnseenSetID::Unspecified,
        unseen.clone(),
        ratio(0.4),
        [Some(9), Some(15), Some(35)],
    );
    let encoded = GameOverCoderV01::encode(&game_over);
    let decoded =
        GameOverCoderV01::decode(&EncodedGameOver::from_sealed(encoded).unwrap(), unseen).unwrap();

    assert_eq!(decoded.element_checksum(), game_over.element_checksum());
    assert_eq!(decoded.score(), game_over.score());
    assert_eq!(decoded.lives(), game_over.lives());
    same_commits(&decoded, &game_over);
}

#[test]
fn test_detect_use_of_wrong_set_when_decoding() {
    let e = SealedEncodedGameOver::new(
        GameOverCoderVersion::GameOverCoderV01,
        &GameOver::new(
            622451429113938556,
            UnseenSetID::Unspecified,
            // The unseen set used when encoding...
            units(0..64),
            ratio(0.4),
            [Some(30), Some(31), Some(54)],
        ),
    );

    assert!(decode(e, units(64..128)).is_err());
}

#[test]
fn game_over_coding_v01_detect_use_of_wrong_set_when_decoding() {
    let game_over = GameOver::new(
        622451429113938556,
        UnseenSetID::Unspecified,
        units(0..64),
        ratio(0.4),
        [Some(30), Some(31), Some(54)],
    );
    let encoded = GameOverCoderV01::encode(&game_over);
    assert_eq!(
        GameOverCoderV01::decode(&EncodedGameOver::from_sealed(encoded).unwrap(), units(64..128))
            .err(),
        Some(CoderError::BadElementChecksum)
    );
}

#[test]
fn game_over_coding_v01_detect_use_of_wrong_set_when_encoding() {
    // A game rebuilt over one set does not carry the element checksum of another.
    let over_set = GameOver::new(
        13206503794884972104,
        UnseenSetID::Unspecified,
        units(0..64),
        ratio(0.4),
        [Some(4), Some(33), Some(45)],
    );
    let encoded = GameOverCoderV01::encode(&over_set);
    assert_eq!(decode(encoded, units(64..128)).err(), Some(CoderError::BadElementChecksum));
}

#[test]
fn game_over_coding_v01_decode_detect_bad_element_checksum() {
    let game_over = GameOver::new(
        3419954961163653668,
        UnseenSetID::Unspecified,
        units(0..64),
        ratio(0.5),
        [Some(3), Some(10), Some(20)],
    );
    let encoded = SealedEncodedGameOver::new(GameOverCoderVersion::GameOverCoderV01, &game_over);
    // The same number of candidates, each spelled differently.
    let other: Vec<String> = units(0..64).into_iter().map(|x| format!("{}!", x)).collect();
    assert_eq!(decode(encoded, other).err(), Some(CoderError::BadElementChecksum));
}

#[test]
fn test_encode_decode_same_as_id_random_game() {
    let (game_over, unseen) = generate_game_over(
        542338303675782954,
        Some(UnseenSetID::DictionaryFr01),
        Some(ratio(0.4)),
    );
    let encoded = SealedEncodedGameOver::new(GameOverCoderVersion::Version00Coding, &game_over);
    let decoded = decode(encoded, unseen).unwrap();
    assert_same_game(&decoded, &game_over);
}

#[test]
fn version00coding_encode_decode_same_as_id() {
    let (game_over, unseen) = generate_game_over(
        542338303675782954,
        Some(UnseenSetID::DictionaryFr01),
        Some(ratio(0.4)),
    );
    let encoded = SealedEncodedGameOver::new(GameOverCoderVersion::Version00Coding, &game_over);
    let decoded = decode(encoded, unseen).unwrap();
    assert_same_game(&decoded, &game_over);
}

#[test]
fn game_over_coder_v01_encode_decode_same_as_id() {
    let (game_over, unseen) = generate_game_over(9239737542598549709, None, None);
    let encoded = SealedEncodedGameOver::new(GameOverCoderVersion::GameOverCoderV01, &game_over);
    let decoded = decode(encoded, unseen).unwrap();
    assert_same_game(&decoded, &game_over);
}

#[test]
fn encode_decode_is_equal_to_id_for_game_over() {
    let unseen = units(0..64);

    let game_over = GameOver::new(
        7789954068733337566,
        UnseenSetID::DictionaryFr01,
        unseen.clone(),
        ratio(0.4),
        [Some(36), Some(40), Some(57)],
    );
    let encoded = Version00Coding::encode(&game_over);
    let decoded =
        Version00Coding::decode(&EncodedGameOver::from_sealed(encoded).unwrap(), unseen).unwrap();

    assert_eq!(same_commits(&game_over, &decoded), 58);
}

#[test]
fn test_detect_use_of_wrong_set_when_encoding() {
    let game_over = GameOver::new(
        13206503794884972104,
        UnseenSetID::Unspecified,
        units(0..64),
        ratio(0.4),
        [Some(4), Some(33), Some(45)],
    );
    let encoded = GameOverCoderV01::encode(&game_over);
    assert!(matches!(decode(encoded, units(64..128)), Err(CoderError::BadElementChecksum)));
}

#[test]
fn test_decode_detect_bad_element_checksum() {
    let game_over = GameOver::new(
        9940370477626720397,
        UnseenSetID::Unspecified,
        units(0..64),
        ratio(0.4),
        [Some(9), Some(15), Some(35)],
    );
    let encoded = GameOverCoderV01::encode(&game_over);
    let mut other = units(0..64);
    other.reverse();
    assert_eq!(decode(encoded, other).err(), Some(CoderError::BadElementChecksum));
}

#[test]
fn corrupting_one_byte_of_data_gives_invalid_checksum() {
    let game_over = GameOver::new(
        1234567,
        UnseenSetID::Top999WiktionaryFr,
        units(0..64),
        ratio(0.6),
        [Some(2), Some(5), Some(9)],
    );
    let encoded = GameOverCoderV01::encode(&game_over);
    let mut b = encoded.data().as_bytes().to_vec();
    b[3] = if b[3] == b'A' { b'B' } else { b'A' };
    let tampered = SealedEncodedGameOver::from_parts(
        encoded.version().clone(),
        encoded.checksum(),
        String::from_utf8(b).unwrap(),
        Some(encoded.unseen_set_id()),
    );
    assert_eq!(decode(tampered, units(0..64)).err(), Some(CoderError::InvalidChecksum));
}

#[test]
fn unknown_version_is_reported_before_anything_else() {
    let s = SealedEncodedGameOver::from_parts("v99".into(), 0, "%%%".into(), None);
    assert_eq!(
        decode(s, units(0..4)).err(),
        Some(CoderError::UnrecognisedVersion("v99".to_string()))
    );
}

#[test]
fn data_that_is_not_a_record_is_malformed() {
    let data = base64::encode([1u8, 2, 3]);
    let checksum = GameOverCoderV01::checksum(data.as_bytes());
    let s = SealedEncodedGameOver::from_parts("goc-v01".into(), checksum, data, None);
    assert_eq!(decode(s, units(0..4)).err(), Some(CoderError::MalformedData));
    let data = "not base64!".to_string();
    let checksum = Version00Coding::checksum(data.as_bytes());
    let s = SealedEncodedGameOver::from_parts("00".into(), checksum, data, None);
    assert_eq!(decode(s, units(0..4)).err(), Some(CoderError::MalformedData));
}

#[test]
fn envelope_fields_follow_the_version() {
    let game_over = GameOver::new(
        99,
        UnseenSetID::Top999WiktionaryFr,
        units(0..32),
        ratio(0.5),
        [Some(1), Some(2), Some(3)],
    );
    let v00 = Version00Coding::encode(&game_over);
    assert_eq!(v00.version(), "00");
    assert_eq!(Version00Coding::id(), "00");
    assert_eq!(Version00Coding::hash_seed(), 4997987866499591411);
    assert_eq!(v00.checksum(), Version00Coding::checksum(v00.data().as_bytes()));
    assert_eq!(base64::decode(v00.data()).unwrap().len(), 32);
    let v01 = GameOverCoderV01::encode(&game_over);
    assert_eq!(v01.version(), "goc-v01");
    assert_eq!(v01.checksum(), GameOverCoderV01::checksum(v01.data().as_bytes()));
    assert_eq!(v01.unseen_set_id(), UnseenSetID::Top999WiktionaryFr);
    let record = base64::decode(v01.data()).unwrap();
    assert_eq!(record.len(), 51);
    assert_eq!(&record[0..8], &99u64.to_le_bytes());
    assert_eq!(&record[8..16], &500_000_000u64.to_le_bytes());
    assert_eq!(record[16], 1);
    assert_eq!(&record[17..25], &1u64.to_le_bytes());
}

#[test]
fn legacy_decoding_implies_threshold_and_identifier() {
    let game_over = GameOver::new(
        7789954068733337566,
        UnseenSetID::Unspecified,
        units(0..64),
        ratio(0.4),
        [Some(36), Some(40), Some(57)],
    );
    let decoded = decode(Version00Coding::encode(&game_over), units(0..64)).unwrap();
    assert_eq!(decoded.seen_threshold().parts(), 400_000_000);
    assert_eq!(decoded.unseen_set_id(), UnseenSetID::DictionaryFr01);
    assert_eq!(decoded.element_checksum(), game_over.element_checksum());
}

#[test]
fn missing_identifier_defaults_to_legacy_one() {
    let s = SealedEncodedGameOver::from_parts("00".into(), 1, "x".into(), None);
    assert_eq!(s.unseen_set_id(), UnseenSetID::DictionaryFr01);
    assert_eq!(UnseenSetID::Unspecified.unique_number(), 7359453237177161485);
    assert_eq!(UnseenSetID::DictionaryFr01.unique_number(), 16775286842649692529);
    assert_eq!(UnseenSetID::Top999WiktionaryFr.unique_number(), 4682054772874934823);
}

#[test]
fn version_tags_round_trip() {
    assert_eq!(
        GameOverCoderVersion::from_tag(&"goc-v01".to_string()),
        Ok(GameOverCoderVersion::GameOverCoderV01)
    );
    assert_eq!(GameOverCoderVersion::from_tag(&"00".to_string()), Ok(GameOverCoderVersion::Version00Coding));
    assert!(GameOverCoderVersion::from_tag(&"01".to_string()).is_err());
    assert_eq!(GameOverCoderVersion::GameOverCoderV01.tag(), "goc-v01");
}
