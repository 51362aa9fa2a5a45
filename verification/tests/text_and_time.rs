use pim_daemon::calendar::{days_to_ymd, system_time_to_iso8601, MAX_CIVIL_DAYS, MIN_CIVIL_DAYS};
use pim_daemon::decimal::decimal_string;
use pim_daemon::hex::bytes_to_hex;
use pim_daemon::node_id::{parse_node_id_hex, NodeId};
use pim_daemon::text::{str_eq, take_chars};

#[test]
fn calendar_handles_leap_days_and_century_rules() {
    assert_eq!(days_to_ymd(59), (1970, 3, 1));
    assert_eq!(days_to_ymd(11_016), (2000, 2, 29));
    assert_eq!(days_to_ymd(11_017), (2000, 3, 1));
    assert_eq!(days_to_ymd(47_541), (2100, 3, 1));
    assert_eq!(days_to_ymd(-1), (1969, 12, 31));
    assert_eq!(days_to_ymd(-719_468), (0, 3, 1));
}

#[test]
fn calendar_extremes() {
    assert_eq!(days_to_ymd(MAX_CIVIL_DAYS), (i32::MAX, 12, 31));
    assert_eq!(days_to_ymd(MIN_CIVIL_DAYS), (-2_147_483_600, 3, 1));
}

#[test]
fn iso_timestamps() {
    assert_eq!(system_time_to_iso8601(0), "1970-01-01T00:00:00Z");
    assert_eq!(system_time_to_iso8601(951_782_400), "2000-02-29T00:00:00Z");
    assert_eq!(system_time_to_iso8601(86_399), "1970-01-01T23:59:59Z");
}

#[test]
fn decimal_text() {
    assert_eq!(decimal_string(0), "0");
    assert_eq!(decimal_string(1_234_567), "1234567");
    assert_eq!(decimal_string(u128::MAX), u128::MAX.to_string());
}

#[test]
fn node_id_hex_round_trip() {
    let id = NodeId::from_bytes([0x0f, 0xa0, 1, 2, 3, 4, 5, 6, 7, 8, 9, 10, 11, 12, 13, 0xff]);
    let hex = id.to_hex();
    assert_eq!(hex, "0fa00102030405060708090a0b0c0dff");
    assert_eq!(NodeId::from_hex(&hex), Some(id));
    assert_eq!(NodeId::from_hex(&hex.to_uppercase()), Some(id));
    assert_eq!(NodeId::from_hex("00"), None);
    assert_eq!(parse_node_id_hex(&hex), Some(id.as_bytes()));
    assert_eq!(parse_node_id_hex(&"zz".repeat(16)), None);
    assert_eq!(parse_node_id_hex(&"+f".repeat(16)), None);
    assert_eq!(NodeId::from_hex(&"+f".repeat(16)), None);
    let off_boundary = "0".to_string() + "é" + &"0".repeat(29);
    assert_eq!(off_boundary.len(), 32);
    assert_eq!(parse_node_id_hex(&off_boundary), None);
    assert_eq!(NodeId::from_hex(&off_boundary), None);
    assert_eq!(bytes_to_hex(&[0xde, 0xad]), "dead");
}

#[test]
fn node_id_keys_follow_bytes() {
    let a = NodeId::from_bytes([0; 16]);
    let mut b_bytes = [0u8; 16];
    b_bytes[15] = 1;
    let b = NodeId::from_bytes(b_bytes);
    assert_eq!(a.key_value(), 0);
    assert_eq!(b.key_value(), 1);
}

#[test]
fn small_text_helpers() {
    assert!(str_eq("abc", "abc"));
    assert!(!str_eq("abc", "abd"));
    assert_eq!(take_chars("héllo", 2), "hé");
}
