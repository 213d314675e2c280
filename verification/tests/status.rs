use tello::status::data::StatusData;
use tello::status::manager::Manager;

fn parse(line: &str) -> StatusData {
    StatusData::from_str(line).unwrap()
}

#[test]
fn parses_typical_line_and_ignores_tail() {
    let d = parse("x:100;y:-5;bat:80;mpry:1,2,3\r\nignored-tail");
    assert_eq!(d.x, 100);
    assert_eq!(d.y, -5);
    assert_eq!(d.bat, 80);
    assert_eq!(d.mpry, (1, 2, 3));
    // untouched fields keep their defaults
    assert_eq!(d.z, 0);
    assert_eq!(d.mid, 0);
}

#[test]
fn tail_content_is_irrelevant() {
    let a = parse("x:100;y:-5;bat:80;mpry:1,2,3\r\nignored-tail");
    let b = parse("x:100;y:-5;bat:80;mpry:1,2,3\r\nx:1;y:2;bat:3");
    assert_eq!(a, b);
}

#[test]
fn malformed_number_defaults_without_error() {
    let d = parse("bat:notanumber;z:7");
    assert_eq!(d.bat, 0);
    assert_eq!(d.z, 7);
}

#[test]
fn mpry_wrong_arity_is_skipped() {
    let d = parse("mpry:1,2");
    assert_eq!(d.mpry, (0, 0, 0));
    let d = parse("x:4;mpry:1,2,3,4");
    assert_eq!(d.mpry, (0, 0, 0));
    assert_eq!(d.x, 4);
}

#[test]
fn mpry_members_parse_independently() {
    let d = parse("mpry:a,2,3");
    assert_eq!(d.mpry, (0, 2, 3));
    let d = parse("mpry:-1,+2,");
    assert_eq!(d.mpry, (-1, 2, 0));
}

#[test]
fn empty_line_yields_defaults() {
    let d = parse("");
    assert_eq!(d, StatusData::default());
    assert_eq!(d.bat, 0);
    assert_eq!(d.baro, "".to_string());
}

#[test]
fn keys_are_trimmed_values_are_not() {
    let d = parse(" x :5");
    assert_eq!(d.x, 5);
    // a space inside the value spoils the numeral, which degrades to zero
    let d = parse("x: 5");
    assert_eq!(d.x, 0);
}

#[test]
fn line_is_trimmed_before_splitting() {
    let d = parse("  x:1;y:2  ");
    assert_eq!(d.x, 1);
    assert_eq!(d.y, 2);
}

#[test]
fn pair_with_extra_colon_is_skipped() {
    let d = parse("x:1:2;y:3");
    assert_eq!(d.x, 0);
    assert_eq!(d.y, 3);
}

#[test]
fn empty_pairs_and_unknown_keys_are_ignored() {
    let d = parse("x:1;;unknown:9;y:2;");
    assert_eq!(d.x, 1);
    assert_eq!(d.y, 2);
}

#[test]
fn all_integer_fields_parse() {
    let d = parse(
        "mid:1;x:2;y:3;z:4;pitch:5;roll:6;yaw:7;vgx:8;vgy:9;vgz:10;templ:11;temph:12;tof:13;h:14;bat:15;time:16",
    );
    assert_eq!(d.mid, 1);
    assert_eq!(d.x, 2);
    assert_eq!(d.y, 3);
    assert_eq!(d.z, 4);
    assert_eq!(d.pitch, 5);
    assert_eq!(d.roll, 6);
    assert_eq!(d.yaw, 7);
    assert_eq!(d.vgx, 8);
    assert_eq!(d.vgy, 9);
    assert_eq!(d.vgz, 10);
    assert_eq!(d.templ, 11);
    assert_eq!(d.temph, 12);
    assert_eq!(d.tof, 13);
    assert_eq!(d.h, 14);
    assert_eq!(d.bat, 15);
    assert_eq!(d.time, 16);
}

#[test]
fn fractional_fields_keep_raw_text() {
    let d = parse("baro:12.34;agx:-0.5;agy:+1.0;agz:nope");
    assert_eq!(d.baro, "12.34".to_string());
    assert_eq!(d.agx, "-0.5".to_string());
    assert_eq!(d.agy, "+1.0".to_string());
    assert_eq!(d.agz, "nope".to_string());
}

#[test]
fn integer_bounds() {
    let d = parse("x:2147483647;y:-2147483648;bat:4294967295");
    assert_eq!(d.x, i32::MAX);
    assert_eq!(d.y, i32::MIN);
    assert_eq!(d.bat, u32::MAX);
    // one past either bound degrades to zero
    let d = parse("x:2147483648;y:-2147483649;bat:4294967296;z:-1");
    assert_eq!(d.x, 0);
    assert_eq!(d.y, 0);
    assert_eq!(d.bat, 0);
    assert_eq!(d.z, -1);
}

#[test]
fn parse_is_structurally_infallible() {
    // the error type exists for the interface; no input produces it
    assert!(StatusData::from_str(";;;:::,,,").is_ok());
    assert!(StatusData::from_str("\r\n").is_ok());
    assert!(StatusData::from_str("::").is_ok());
    assert_eq!(
        tello::status::data::TelloStatusParseError().message(),
        "status parse failed; but this cannot happen.".to_string()
    );
}

#[test]
fn manager_starts_with_defaults() {
    let mut m = Manager::new();
    assert_eq!(m.get_data(), StatusData::default());
}

#[test]
fn manager_returns_latest_of_two_published() {
    let mut m = Manager::new();
    let s1 = parse("x:1");
    let s2 = parse("x:2");
    m.publish(s1);
    m.publish(s2);
    // two snapshots arrived since the last read: only the second is seen
    assert_eq!(m.get_data().x, 2);
}

#[test]
fn manager_absorbs_batches_latest_wins() {
    let mut m = Manager::new();
    m.absorb(vec![parse("x:1"), parse("x:2"), parse("x:3")]);
    assert_eq!(m.get_data().x, 3);
    // an empty drain keeps the cached snapshot
    m.absorb(vec![]);
    assert_eq!(m.get_data().x, 3);
    assert_eq!(m.get_data().x, 3);
}
