use mysql_value::Value::{Bytes, Date, Int, Time, UInt, NULL};
use mysql_value::{from_value, from_value_opt, tm_from_value, tm_to_value, Duration, TmFields, ToValue, Value};

#[test]
fn integers_round_trip() {
    assert_eq!(from_value::<i8>(&(-128i8).to_value()), -128);
    assert_eq!(from_value::<u8>(&255u8.to_value()), 255);
    assert_eq!(from_value::<i16>(&i16::MIN.to_value()), i16::MIN);
    assert_eq!(from_value::<u16>(&u16::MAX.to_value()), u16::MAX);
    assert_eq!(from_value::<i32>(&i32::MIN.to_value()), i32::MIN);
    assert_eq!(from_value::<u32>(&u32::MAX.to_value()), u32::MAX);
    assert_eq!(from_value::<isize>(&isize::MIN.to_value()), isize::MIN);
    assert_eq!(from_value::<i64>(&i64::MIN.to_value()), i64::MIN);
    assert_eq!(from_value::<u64>(&u64::MAX.to_value()), u64::MAX);
    assert_eq!(from_value::<usize>(&usize::MAX.to_value()), usize::MAX);
}

#[test]
fn integer_conversions() {
    assert_eq!(from_value_opt::<u8>(&Int(-1)), None);
    assert_eq!(from_value_opt::<u8>(&Bytes(b"+7".to_vec())), Some(7));
    assert_eq!(from_value_opt::<u8>(&Bytes(b"-7".to_vec())), None);
    assert_eq!(from_value_opt::<i8>(&Bytes(b"-".to_vec())), None);
    assert_eq!(from_value_opt::<i8>(&Bytes(b"".to_vec())), None);
    assert_eq!(from_value_opt::<i8>(&Bytes(b"1 ".to_vec())), None);
    assert_eq!(from_value_opt::<i64>(&UInt(1 << 63)), None);
    assert_eq!(from_value_opt::<i64>(&Bytes(b"-9223372036854775808".to_vec())), Some(i64::MIN));
    assert_eq!(from_value_opt::<u64>(&Bytes(b"18446744073709551616".to_vec())), None);
    assert_eq!(from_value_opt::<u64>(&Bytes(b"99999999999999999999999".to_vec())), None);
    assert_eq!(from_value_opt::<u64>(&Int(-1)), None);
    assert_eq!(from_value_opt::<usize>(&Int(5)), Some(5));
    assert_eq!(from_value_opt::<usize>(&Int(-5)), None);
    assert_eq!(from_value_opt::<i32>(&Date(1, 1, 1, 0, 0, 0, 0)), None);
    assert_eq!(5usize.to_value(), Int(5));
    assert_eq!(usize::MAX.to_value(), UInt(usize::MAX as u64));
}

#[test]
fn other_conversions() {
    assert_eq!(true.to_value(), Int(1));
    assert_eq!(from_value_opt::<bool>(&Int(2)), None);
    assert_eq!(from_value_opt::<bool>(&Bytes(b"10".to_vec())), None);
    assert_eq!("h\u{e9}".to_value(), Bytes(vec![b'h', 0xC3, 0xA9]));
    assert_eq!(String::from("h\u{e9}").to_value(), Bytes(vec![b'h', 0xC3, 0xA9]));
    assert_eq!(from_value::<String>(&"h\u{e9}".to_value()), "h\u{e9}".to_string());
    assert_eq!(from_value_opt::<String>(&Bytes(vec![0xFF])), None);
    assert_eq!((&b"ab"[..]).to_value(), Bytes(b"ab".to_vec()));
    assert_eq!(b"ab".to_vec().to_value(), Bytes(b"ab".to_vec()));
    assert_eq!(None::<i8>.to_value(), NULL);
    assert_eq!(Some(3i8).to_value(), Int(3));
    assert_eq!(Int(3).to_value(), Int(3));
    assert_eq!(from_value::<Value>(&UInt(3)), UInt(3));
    assert_eq!(from_value_opt::<Option<i8>>(&Int(300)), None);
    assert_eq!(from_value_opt::<Option<i8>>(&NULL), Some(None));
}

#[test]
fn sql_text_escapes_and_hex() {
    assert_eq!(
        Bytes(b"a\0b\nc\rd\"e\x1af\\".to_vec()).into_str(),
        Some("'a\\\0b\\\nc\\\rd\\\"e\\\x1af\\\\'".to_string())
    );
    assert_eq!(Bytes(vec![0xC3, 0xA9]).into_str(), Some("'\u{e9}'".to_string()));
    assert_eq!(Bytes(vec![0xC3]).into_str(), Some("0xC3".to_string()));
    assert_eq!(Int(i64::MIN).into_str(), Some("-9223372036854775808".to_string()));
    assert_eq!(Int(0).into_str(), Some("0".to_string()));
    assert_eq!(Date(12, 3, 4, 0, 0, 0, 0).into_str(), Some("'0012-03-04'".to_string()));
    assert_eq!(Date(0, 0, 0, 1, 0, 0, 0).into_str(), Some("'0000-00-00 01:00:00'".to_string()));
    assert_eq!(Time(false, 0, 1, 2, 3, 0).into_str(), Some("'001:02:03'".to_string()));
    assert_eq!(Time(true, 0, 0, 0, 0, 0).into_str(), Some("''".to_string()));
}

#[test]
fn durations_to_values() {
    assert_eq!(Duration::microseconds(1_500_000).to_value(), Time(false, 0, 0, 0, 1, 500000));
    assert_eq!(Duration::milliseconds(-500).to_value(), Time(true, 0, 0, 0, 0, 500000));
    assert_eq!(
        Duration::milliseconds(90061001).to_value(),
        Time(false, 1, 1, 1, 1, 1000)
    );
    assert_eq!(Duration::new(5, 6).unwrap().subsec_nanos(), 6);
    assert_eq!(Duration::new(-5, 6), None);
    assert_eq!(Duration::new(0, -6).unwrap().num_seconds(), 0);
}

#[test]
fn durations_from_values() {
    assert_eq!(
        from_value::<Duration>(&Time(true, 5, 0, 30, 30, 500000)),
        Duration::milliseconds(-433830500)
    );
    assert_eq!(from_value::<Duration>(&Bytes(b"001:02:03".to_vec())), Duration::milliseconds(3723000));
    assert_eq!(
        from_value::<Duration>(&Bytes(b"001:02:03.".to_vec())),
        Duration::milliseconds(3723000)
    );
    assert_eq!(
        from_value::<Duration>(&Bytes(b"001:02:03.000025".to_vec())),
        Duration::microseconds(3723000025)
    );
    assert_eq!(from_value::<Duration>(&Bytes(b"010:20:30".to_vec())), Duration::milliseconds(37230000));
    // The two-digit hour form reads every digit as 63 (hours, minutes and
    // seconds of 693 each), whatever the digits.
    assert_eq!(from_value::<Duration>(&Bytes(b"01:02:03".to_vec())), Duration::milliseconds(2537073000));
    assert_eq!(from_value::<Duration>(&Bytes(b"10:20:30".to_vec())), Duration::milliseconds(2537073000));
    assert_eq!(
        from_value::<Duration>(&Bytes(b"-00:00:00.5".to_vec())),
        Duration::milliseconds(-2537073500)
    );
    assert_eq!(from_value_opt::<Duration>(&Bytes(b"10:60:30".to_vec())), None);
    assert_eq!(from_value_opt::<Duration>(&Bytes(vec![])), None);
    assert_eq!(from_value_opt::<Duration>(&Bytes(b"001:02:03.1.2".to_vec())), None);
    assert_eq!(from_value_opt::<Duration>(&Bytes(b"001:02:03.1234567".to_vec())), None);
    assert_eq!(from_value_opt::<Duration>(&Bytes(b"901:02:03".to_vec())), None);
    assert_eq!(from_value_opt::<Duration>(&Bytes(b"001:62:03".to_vec())), None);
    assert_eq!(from_value_opt::<Duration>(&Int(3)), None);
}

#[test]
fn durations_round_trip() {
    for us in [0i64, 1, -1, -500_000, 999_999, 1_000_000, -1_000_000, -86_400_000_001, 123_456_789_012] {
        let d = Duration::microseconds(us);
        assert_eq!(from_value::<Duration>(&d.to_value()), d);
    }
    let t = Time(true, 2, 3, 4, 5, 6);
    assert_eq!(from_value::<Duration>(&t).to_value(), t);
}

#[test]
fn tm_fields_to_date() {
    let t = TmFields {
        tm_sec: 13,
        tm_min: 57,
        tm_hour: 22,
        tm_mday: 1,
        tm_mon: 6,
        tm_year: 114,
        tm_wday: 2,
        tm_yday: 181,
        tm_isdst: 0,
        tm_utcoff: 0,
        tm_nsec: 5000,
    };
    assert_eq!(tm_to_value(&t), Date(2014, 7, 1, 22, 57, 13, 5));
    let d = Date(2014, 7, 1, 22, 57, 13, 5);
    assert_eq!(tm_to_value(&tm_from_value(&d, 3600, 0).unwrap()), d);
}

#[test]
fn integer_text_reads_back() {
    for x in [0i64, 7, -7, 1234567890, i64::MIN, i64::MAX] {
        let text = Int(x).into_str().unwrap();
        assert_eq!(from_value::<i64>(&Bytes(text.into_bytes())), x);
    }
    for y in [0u64, 10, u64::MAX] {
        let text = UInt(y).into_str().unwrap();
        assert_eq!(from_value::<u64>(&Bytes(text.into_bytes())), y);
    }
}

#[test]
fn date_text_forms() {
    let d = tm_from_value(&Bytes(b"2014-7-1".to_vec()), 0, 0).unwrap();
    assert_eq!((d.tm_year, d.tm_mon, d.tm_mday, d.tm_hour), (114, 6, 1, 0));
    let d = tm_from_value(&Bytes(b"2014-07-01 9:05:60xyz".to_vec()), 0, 0).unwrap();
    assert_eq!((d.tm_hour, d.tm_min, d.tm_sec), (9, 5, 60));
    let d = tm_from_value(&Bytes(b"2014-07-01T22:57:13".to_vec()), 0, 0).unwrap();
    assert_eq!((d.tm_hour, d.tm_min, d.tm_sec), (0, 0, 0));
    assert_eq!(tm_from_value(&Bytes(b"14-07-01".to_vec()), 0, 0), None);
    assert_eq!(tm_from_value(&Bytes(b"2014-07-32".to_vec()), 0, 0), None);
    assert_eq!(tm_from_value(&Bytes(b"2014-07-01 24:00:00".to_vec()), 0, 0).unwrap().tm_hour, 0);
    assert_eq!(tm_from_value(&Bytes(vec![0xFF]), 0, 0), None);
}
