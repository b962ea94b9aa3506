use pubky_app_specs::encoding::{decode_timestamp, encode_timestamp};
use pubky_app_specs::ids::{create_hash_id, IdClock};

#[test]
fn timestamp_text_matches_crockford() {
    for t in [0u64, 1, 31, 1_627_849_723_000_000, u64::MAX] {
        let expected = base32::encode(base32::Alphabet::Crockford, &t.to_be_bytes());
        assert_eq!(encode_timestamp(t), expected);
    }
    assert_eq!(encode_timestamp(0), "0000000000000");
    assert_eq!(encode_timestamp(1), "0000000000002");
}

#[test]
fn timestamp_text_sorts_as_time() {
    let a = encode_timestamp(1_700_000_000_000_000);
    let b = encode_timestamp(1_700_000_000_000_001);
    let c = encode_timestamp(1_800_000_000_000_000);
    assert!(a < b && b < c);
    assert_eq!(a.len(), 13);
}

#[test]
fn timestamp_text_round_trip() {
    for t in [0u64, 7, 1_727_740_800_000_000, u64::MAX] {
        assert_eq!(decode_timestamp(&encode_timestamp(t)), Some(t));
        assert_eq!(decode_timestamp(&encode_timestamp(t).to_lowercase()), Some(t));
    }
}

#[test]
fn timestamp_decode_refuses_bad_text() {
    assert_eq!(decode_timestamp("INVALIDID"), None);
    assert_eq!(decode_timestamp("00321FCW75ZFU"), None);
    assert_eq!(decode_timestamp("00321FCW75ZF"), None);
    assert_eq!(decode_timestamp("00321FCW75ZFY"), Some(1_724_848_602_185_471));
}

#[test]
fn hash_id_matches_blake3_half() {
    let digest = blake3::hash("héllo".as_bytes());
    let expected = base32::encode(base32::Alphabet::Crockford, &digest.as_bytes()[..16]);
    assert_eq!(create_hash_id("héllo"), expected);
    assert_ne!(create_hash_id("hello"), expected);
}

#[test]
fn clock_never_repeats_an_instant() {
    let mut clock = IdClock::new();
    assert_eq!(clock.advance(100), Some(100));
    assert_eq!(clock.advance(100), Some(101));
    assert_eq!(clock.advance(50), Some(102));
    assert_eq!(clock.advance(200), Some(200));
    let a = clock.create_id().unwrap();
    let b = clock.create_id().unwrap();
    assert!(a < b);
}

#[test]
fn clock_at_the_last_instant_gives_none() {
    let mut clock = IdClock::new();
    assert_eq!(clock.advance(u64::MAX), Some(u64::MAX));
    assert_eq!(clock.advance(5), None);
}
