//! Row keys, dates and journal frames.

use strata_db::catalog::ids::{DatasetId, ProjectId, TableId, TruncationId};
use strata_db::journal::{read_frame, write_frame, FRAME_HEADER_LEN};
use strata_db::storage::decimal::Decimal;
use strata_db::storage::row::{RowKey, PREFIX_BYTES};
use strata_db::storage::temporal::{format_date, parse_date};
use strata_db::storage::text::{char_is_space, trim};
use strata_db::storage::types::Uuid;

fn id(n: u128) -> Uuid {
    Uuid { value: n }
}

#[test]
fn encode_decode_roundtrip() {
    let original = RowKey::new(
        ProjectId(id(1)),
        DatasetId(id(2)),
        TableId(id(3)),
        TruncationId(3),
        b"some-user-key".to_vec(),
    );
    let encoded = original.encode();
    assert_eq!(encoded.len(), PREFIX_BYTES + b"some-user-key".len());
    let decoded = RowKey::decode(&encoded).unwrap();
    assert_eq!(decoded, original);
}

#[test]
fn truncation_id_sorts_incarnations_in_creation_order() {
    let (p, d, t) = (ProjectId(id(7)), DatasetId(id(8)), TableId(id(9)));
    let older = RowKey::new(p, d, t, TruncationId(0), b"k".to_vec()).encode();
    let newer = RowKey::new(p, d, t, TruncationId(1), b"k".to_vec()).encode();
    assert!(older < newer, "higher truncation ids must sort after lower");
}

#[test]
fn decode_rejects_short_input() {
    let short = vec![0u8; PREFIX_BYTES - 1];
    assert!(RowKey::decode(&short).is_err());
}

#[test]
fn table_prefix_starts_every_key_of_the_table() {
    let (p, d, t) = (ProjectId(id(7)), DatasetId(id(8)), TableId(id(9)));
    let key = RowKey::new(p, d, t, TruncationId(5), b"k".to_vec()).encode();
    let prefix = RowKey::table_prefix(p, d, t, TruncationId(5));
    assert_eq!(prefix.len(), PREFIX_BYTES);
    assert!(key.starts_with(&prefix));
    let other = RowKey::table_prefix(p, d, t, TruncationId(6));
    assert!(!key.starts_with(&other));
}

#[test]
fn epoch_is_zero() {
    assert_eq!(parse_date("1970-01-01").unwrap(), 0);
    assert_eq!(format_date(0), "1970-01-01");
}

#[test]
fn known_anchor_date() {
    // 30 years (7 leap days) from the epoch to 2000-01-01.
    assert_eq!(parse_date("2000-01-01").unwrap(), 10957);
    assert_eq!(format_date(10957), "2000-01-01");
}

#[test]
fn parse_and_format_roundtrip() {
    for s in ["1970-01-01", "2000-01-01", "2026-06-13", "2024-02-29"] {
        assert_eq!(format_date(parse_date(s).unwrap()), s);
    }
}

#[test]
fn parse_rejects_invalid() {
    for s in [
        "2026-13-01", // month out of range
        "2026-00-10", // month zero
        "2026-06-31", // June has 30 days
        "2023-02-29", // not a leap year
        "2026/06/13", // wrong separator
        "2026-06",    // too few parts
        "garbage",
    ] {
        assert!(parse_date(s).is_err(), "expected {s:?} to be rejected");
    }
}

#[test]
fn leap_day_validity() {
    assert!(parse_date("2024-02-29").is_ok());
    assert!(parse_date("2000-02-29").is_ok()); // divisible by 400
    assert!(parse_date("1900-02-29").is_err()); // divisible by 100, not 400
}

#[test]
fn frames_come_back_one_after_the_other() {
    let mut log = Vec::new();
    write_frame(&mut log, b"first");
    write_frame(&mut log, b"");
    write_frame(&mut log, b"third");
    let (a, next) = read_frame(&log, 0).unwrap();
    assert_eq!(a, b"first");
    assert_eq!(next, FRAME_HEADER_LEN + 5);
    let (b, next) = read_frame(&log, next).unwrap();
    assert_eq!(b, b"");
    let (c, end) = read_frame(&log, next).unwrap();
    assert_eq!(c, b"third");
    assert_eq!(end, log.len());
    assert!(read_frame(&log, end).is_none());
}

#[test]
fn a_frame_carries_the_checksum_of_its_payload() {
    let mut log = Vec::new();
    write_frame(&mut log, b"123456789");
    // The check value of CRC-32 (ISO-HDLC).
    assert_eq!(&log[..4], &9u32.to_be_bytes());
    assert_eq!(&log[4..8], &0xcbf4_3926u32.to_be_bytes());
}

#[test]
fn torn_and_corrupt_frames_are_discarded() {
    let mut log = Vec::new();
    write_frame(&mut log, b"payload");
    for n in 0..log.len() {
        assert!(read_frame(&log[..n], 0).is_none());
    }
    let last = log.len() - 1;
    log[last] ^= 1;
    assert!(read_frame(&log, 0).is_none());
}

#[test]
fn white_space_is_that_of_unicode() {
    for c in '\0'..=char::MAX {
        assert_eq!(char_is_space(c), c.is_whitespace(), "{c:?}");
    }
    assert_eq!(trim("\u{2003}\t x y \u{a0}\n"), "x y");
}

#[test]
fn decimals_with_too_many_places_are_cut_down() {
    for coefficient in [0u128, 4, 5, 49, 50, 94, 95, 1005, 12344, 12345, (1 << 96) - 1] {
        for scale in 0..=31u8 {
            for sign in [0u8, 0x80] {
                let mut bytes = [0u8; 16];
                bytes[2] = scale;
                bytes[3] = sign;
                bytes[4..].copy_from_slice(&coefficient.to_le_bytes()[..12]);
                let (negative, kept, places) = Decimal::deserialize(&bytes).parts();
                assert_eq!(negative, sign != 0);
                if scale <= 28 {
                    assert_eq!((kept, places), (coefficient, u32::from(scale)));
                } else {
                    let cut = 10u128.pow(u32::from(scale) - 28);
                    let carry = u128::from(coefficient % cut >= 5);
                    assert_eq!((kept, places), (coefficient / cut + carry, 28));
                }
            }
        }
    }
}
