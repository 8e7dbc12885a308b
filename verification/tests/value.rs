use mysql_value::Value::{Bytes, Date, Float, Int, Time, UInt, NULL};
use mysql_value::{from_value, from_value_opt, tm_from_value, FloatBits, Duration, TmFields, ToValue};

fn timespec_of(t: TmFields) -> time::Timespec {
    time::Tm {
        tm_sec: t.tm_sec,
        tm_min: t.tm_min,
        tm_hour: t.tm_hour,
        tm_mday: t.tm_mday,
        tm_mon: t.tm_mon,
        tm_year: t.tm_year,
        tm_wday: t.tm_wday,
        tm_yday: t.tm_yday,
        tm_isdst: t.tm_isdst,
        tm_utcoff: t.tm_utcoff,
        tm_nsec: t.tm_nsec,
    }
    .to_timespec()
}

fn timespec_from_value(v: &mysql_value::Value) -> Option<time::Timespec> {
    let now = time::now();
    tm_from_value(v, now.tm_utcoff, now.tm_isdst).map(timespec_of)
}

#[test]
fn test_value_into_str() {
    let v = NULL;
    assert_eq!(v.into_str(), Some("NULL".to_string()));
    let v = Bytes(b"hello".to_vec());
    assert_eq!(v.into_str(), Some("'hello'".to_string()));
    let v = Bytes(b"h\x5c'e'l'l'o".to_vec());
    assert_eq!(v.into_str(), Some("'h\x5c\x5c\x5c'e\x5c'l\x5c'l\x5c'o'".to_string()));
    let v = Bytes(vec![0, 1, 2, 3, 4, 255]);
    assert_eq!(v.into_str(), Some("0x0001020304FF".to_string()));
    let v = Int(-65536);
    assert_eq!(v.into_str(), Some("-65536".to_string()));
    let v = UInt(4294967296);
    assert_eq!(v.into_str(), Some("4294967296".to_string()));
    // The decimal text of a float is written outside the library.
    let v = Float(FloatBits(686.868f64.to_bits()));
    assert_eq!(v.into_str(), None);
    assert_eq!(format!("{}", f64::from_bits(686.868f64.to_bits())), "686.868".to_string());
    let v = Date(0, 0, 0, 0, 0, 0, 0);
    assert_eq!(v.into_str(), Some("''".to_string()));
    let v = Date(2014, 2, 20, 0, 0, 0, 0);
    assert_eq!(v.into_str(), Some("'2014-02-20'".to_string()));
    let v = Date(2014, 2, 20, 22, 0, 0, 0);
    assert_eq!(v.into_str(), Some("'2014-02-20 22:00:00'".to_string()));
    let v = Date(2014, 2, 20, 22, 0, 0, 1);
    assert_eq!(v.into_str(), Some("'2014-02-20 22:00:00.000001'".to_string()));
    let v = Time(false, 0, 0, 0, 0, 0);
    assert_eq!(v.into_str(), Some("''".to_string()));
    let v = Time(true, 34, 3, 2, 1, 0);
    assert_eq!(v.into_str(), Some("'-819:02:01'".to_string()));
    let v = Time(false, 10, 100, 20, 30, 40);
    assert_eq!(v.into_str(), Some("'340:20:30.000040'".to_string()));
}

#[test]
fn test_from_value() {
    assert_eq!(-100i8, from_value::<i8>(&Int(-100i64)));
    assert_eq!(100i8, from_value::<i8>(&UInt(100u64)));
    assert_eq!(100i8, from_value::<i8>(&Bytes(b"100".to_vec())));
    assert_eq!(Some(100i8), from_value::<Option<i8>>(&Bytes(b"100".to_vec())));
    assert_eq!(None, from_value::<Option<i8>>(&NULL));
    assert_eq!(b"test".to_vec(), from_value::<Vec<u8>>(&Bytes(b"test".to_vec())));
    assert_eq!("test".to_string(), from_value::<String>(&Bytes(b"test".to_vec())));
    assert_eq!(true, from_value::<bool>(&Int(1)));
    assert_eq!(false, from_value::<bool>(&Int(0)));
    assert_eq!(true, from_value::<bool>(&Bytes(b"1".to_vec())));
    assert_eq!(false, from_value::<bool>(&Bytes(b"0".to_vec())));
    assert_eq!(
        Some(time::Timespec { sec: 1404255433 - time::now().tm_utcoff as i64, nsec: 0 }),
        timespec_from_value(&Bytes(b"2014-07-01 22:57:13".to_vec()))
    );
    assert_eq!(
        Some(time::Timespec { sec: 1404255433 - time::now().tm_utcoff as i64, nsec: 1000 }),
        timespec_from_value(&Date(2014, 7, 1, 22, 57, 13, 1))
    );
    assert_eq!(
        Some(time::Timespec { sec: 1404172800 - time::now().tm_utcoff as i64, nsec: 0 }),
        timespec_from_value(&Bytes(b"2014-07-01".to_vec()))
    );
    assert_eq!(
        Duration::milliseconds(-433830500),
        from_value::<Duration>(&Bytes(b"-120:30:30.5".to_vec()))
    );
}

#[test]
fn test_to_value() {
    assert_eq!(Duration::milliseconds(-433830500).to_value(), Time(true, 5, 0, 30, 30, 500000));
}

// `from_value` fails exactly where `from_value_opt` gives `None` (its
// precondition); a panic cannot be observed here.
#[test]
fn test_from_value_fail_i8_1() {
    assert_eq!(from_value_opt::<i8>(&Int(500i64)), None);
}

#[test]
fn test_from_value_fail_i8_2() {
    assert_eq!(from_value_opt::<i8>(&Bytes(b"500".to_vec())), None);
}

#[test]
#[allow(non_snake_case)]
fn test_from_value_fail_Timespec() {
    let now = time::now();
    assert_eq!(tm_from_value(&Bytes(b"2014-50-01".to_vec()), now.tm_utcoff, now.tm_isdst), None);
}
