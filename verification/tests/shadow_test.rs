use umanux::user::shadow_fields::{date_since_epoch, day_start_of, duration_for_days};
use umanux::{Shadow, UserLibError};

fn chars(s: &str) -> Vec<char> {
    s.chars().collect()
}

#[test]
fn test_parse_and_back_identity() {
    let line = "test:$6$u0Hh.9WKRF1Aeu4g$XqoDyL6Re/4ZLNQCGAXlNacxCxbdigexEqzFzkOVPV5Z1H23hlenjW8ZLgq6GQtFURYwenIFpo1c.r4aW9l5S/:18260:0:99999:7:::";
    let line2: Shadow = line.parse().unwrap();
    assert_eq!(line2.to_string(), line);
}

#[test]
fn shadow_fields_are_read() {
    let shadow: Shadow = "test:pw:18260:0:99999:7:30:-2:12".parse().unwrap();
    assert_eq!(shadow.get_username(), "test");
    assert_eq!(shadow.get_password(), "pw");
    assert_eq!(shadow.get_last_change(), Some(18260 * 86400));
    assert_eq!(shadow.to_string(), "test:pw:18260:0:99999:7:30:-2:12");
    let empty: Shadow = "test::::::::".parse().unwrap();
    assert_eq!(empty.get_last_change(), None);
    assert_eq!(empty.to_string(), "test::::::::");
}

#[test]
fn shadow_date_before_the_epoch() {
    let shadow: Shadow = "test:pw:-1::::::".parse().unwrap();
    assert_eq!(shadow.get_last_change(), Some(-86400));
    assert_eq!(shadow.to_string(), "test:pw:-1::::::");
}

#[test]
fn shadow_line_with_a_malformed_field_is_refused() {
    let parse = |line: &str| line.parse::<Shadow>().err().unwrap();
    assert_eq!(parse("test:pw:1"), UserLibError::from("Failed to parse: not enough elements"));
    assert_eq!(parse("Test:pw:1::::::"), "Invalid username".into());
    assert_eq!(parse("test:pw:x::::::"), "Invalid date".into());
    assert_eq!(parse("test:pw:1:2:3.5::::"), "Invalid date".into());
    assert_eq!(parse("test:pw:1:2:3:x:::"), "Invalid duration".into());
    assert_eq!(parse("test:pw:1:2:3:4:5:6:-7"), "Invalid number".into());
}

#[test]
fn shadow_date_outside_the_calendar_is_refused() {
    // the last and the first day that a date can hold
    assert!("test:pw:95026236::::::".parse::<Shadow>().is_ok());
    assert!("test:pw:-96465292::::::".parse::<Shadow>().is_ok());
    assert_eq!(
        "test:pw:95026237::::::".parse::<Shadow>().err().unwrap(),
        "Invalid date".into()
    );
    assert_eq!(
        "test:pw:-96465293::::::".parse::<Shadow>().err().unwrap(),
        "Invalid date".into()
    );
    assert_eq!(
        date_since_epoch(&chars("95026236")),
        Some(Some(95_026_236 * 86_400))
    );
    assert_eq!(
        date_since_epoch(&chars("-96465292")),
        Some(Some(-96_465_292 * 86_400))
    );
    assert_eq!(date_since_epoch(&chars("95026237")), None);
    assert_eq!(date_since_epoch(&chars("-96465293")), None);
    assert_eq!(
        "test:pw:100000000000::::::".parse::<Shadow>().err().unwrap(),
        "Invalid date".into()
    );
    assert_eq!(
        "test:pw:-100000000000::::::".parse::<Shadow>().err().unwrap(),
        "Invalid date".into()
    );
    assert_eq!(
        "test:pw:9223372036854775807::::::".parse::<Shadow>().err().unwrap(),
        "Invalid date".into()
    );
}

#[test]
fn shadow_duration_outside_the_range_is_refused() {
    // A duration is at most i64::MAX milliseconds long: 106751991167 days and a bit.
    let longest: Shadow = "test:pw::::106751991167:-106751991167::".parse().unwrap();
    assert_eq!(longest.to_string(), "test:pw::::106751991167:-106751991167::");
    assert_eq!(
        "test:pw::::106751991168:::".parse::<Shadow>().err().unwrap(),
        "Invalid duration".into()
    );
    assert_eq!(
        "test:pw:::::-106751991168::".parse::<Shadow>().err().unwrap(),
        "Invalid duration".into()
    );
}

#[test]
fn shadow_remove_in_takes_the_source_line_out() {
    let shadow: Shadow = "b:!!:0:0:99999:7:::".parse().unwrap();
    assert_eq!(
        shadow.remove_in("a:!!:0:0:99999:7:::\nb:!!:0:0:99999:7:::\n"),
        "a:!!:0:0:99999:7:::"
    );
}

#[test]
fn date_fields_count_days() {
    assert_eq!(day_start_of(&chars("")), Some(None));
    assert_eq!(day_start_of(&chars("0")), Some(Some(0)));
    assert_eq!(day_start_of(&chars("18260")), Some(Some(1_577_664_000)));
    assert_eq!(day_start_of(&chars("-1")), Some(Some(-86_400)));
    assert_eq!(day_start_of(&chars("x")), None);
    assert_eq!(
        day_start_of(&chars("106751991167300")),
        Some(Some(9_223_372_036_854_720_000))
    );
    assert_eq!(day_start_of(&chars("106751991167301")), None);
    assert_eq!(date_since_epoch(&chars("")), Some(None));
    assert_eq!(date_since_epoch(&chars("18260")), Some(Some(1_577_664_000)));
    assert_eq!(date_since_epoch(&chars("x")), None);
    assert_eq!(date_since_epoch(&chars("106751991167300")), None);
}

#[test]
fn duration_fields_count_days() {
    assert_eq!(duration_for_days(&chars("")), Some(None));
    assert_eq!(duration_for_days(&chars("7")), Some(Some(7)));
    assert_eq!(duration_for_days(&chars("-7")), Some(Some(-7)));
    assert_eq!(duration_for_days(&chars("seven")), None);
    assert_eq!(duration_for_days(&chars("106751991168")), None);
}
