use mysql_value::binary::{
    MYSQL_TYPE_DATETIME, MYSQL_TYPE_DOUBLE, MYSQL_TYPE_FLOAT, MYSQL_TYPE_LONG,
    MYSQL_TYPE_LONGLONG, MYSQL_TYPE_NULL, MYSQL_TYPE_SHORT, MYSQL_TYPE_STRING, MYSQL_TYPE_TIME,
    MYSQL_TYPE_TINY,
};
use mysql_value::float::widen_f32;
use mysql_value::Value;
use mysql_value::Value::{Bytes, Date, Float, Int, Time, UInt, NULL};
use mysql_value::{Column, FloatBits, UNSIGNED_FLAG};

fn col(t: u8) -> Column {
    Column { column_type: t, flags: 0 }
}

fn ucol(t: u8) -> Column {
    Column { column_type: t, flags: UNSIGNED_FLAG }
}

#[test]
fn to_bin_of_each_kind() {
    assert_eq!(NULL.to_bin(), Vec::<u8>::new());
    assert_eq!(Bytes(b"abc".to_vec()).to_bin(), vec![3, b'a', b'b', b'c']);
    assert_eq!(Int(-2).to_bin(), vec![0xFE, 0xFF, 0xFF, 0xFF, 0xFF, 0xFF, 0xFF, 0xFF]);
    assert_eq!(UInt(0x0102030405060708).to_bin(), vec![8, 7, 6, 5, 4, 3, 2, 1]);
    assert_eq!(Float(FloatBits(1.5f64.to_bits())).to_bin(), 1.5f64.to_le_bytes().to_vec());
    assert_eq!(Date(0, 0, 0, 0, 0, 0, 0).to_bin(), vec![0]);
    assert_eq!(Date(2014, 2, 20, 0, 0, 0, 0).to_bin(), vec![4, 0xDE, 0x07, 2, 20]);
    assert_eq!(Date(2014, 2, 20, 22, 1, 2, 0).to_bin(), vec![7, 0xDE, 0x07, 2, 20, 22, 1, 2]);
    assert_eq!(
        Date(2014, 2, 20, 22, 1, 2, 3).to_bin(),
        vec![11, 0xDE, 0x07, 2, 20, 22, 1, 2, 3, 0, 0, 0]
    );
    assert_eq!(Time(true, 0, 0, 0, 0, 0).to_bin(), vec![0]);
    assert_eq!(Time(true, 1, 2, 3, 4, 0).to_bin(), vec![8, 1, 1, 0, 0, 0, 2, 3, 4]);
    assert_eq!(
        Time(false, 1, 2, 3, 4, 5).to_bin(),
        vec![12, 0, 1, 0, 0, 0, 2, 3, 4, 5, 0, 0, 0]
    );
}

#[test]
fn to_bin_length_prefixes() {
    let b = vec![7u8; 251];
    let e = Bytes(b.clone()).to_bin();
    assert_eq!(&e[..3], &[0xFC, 251, 0]);
    assert_eq!(&e[3..], &b[..]);
    let b = vec![1u8; 0x10000];
    let e = Bytes(b.clone()).to_bin();
    assert_eq!(&e[..4], &[0xFD, 0, 0, 1]);
    assert_eq!(e.len(), 4 + 0x10000);
    let b = vec![2u8; 250];
    assert_eq!(Bytes(b).to_bin()[0], 250);
}

#[test]
fn from_payload_reads_text_rows() {
    let mut pld = vec![0xFB];
    pld.extend(Bytes(b"abc".to_vec()).to_bin());
    pld.extend(Bytes(vec![]).to_bin());
    pld.push(0xFB);
    let row = Value::from_payload(&pld, 4).unwrap();
    assert_eq!(row, vec![NULL, Bytes(b"abc".to_vec()), Bytes(vec![]), NULL]);
    assert_eq!(Value::from_payload(&[], 0), Some(vec![]));
}

#[test]
fn from_payload_reads_back_long_strings() {
    let a = vec![5u8; 300];
    let b = vec![6u8; 70000];
    let mut pld = Bytes(a.clone()).to_bin();
    pld.extend(Bytes(b.clone()).to_bin());
    assert_eq!(Value::from_payload(&pld, 2), Some(vec![Bytes(a), Bytes(b)]));
}

#[test]
fn from_payload_errors() {
    assert_eq!(Value::from_payload(&[3, b'a'], 1), None);
    assert_eq!(Value::from_payload(&[0xFF], 1), None);
    assert_eq!(Value::from_payload(&[0xFC, 1], 1), None);
}

#[test]
fn from_bin_payload_reads_binary_rows() {
    let columns = vec![
        col(MYSQL_TYPE_LONGLONG),
        col(MYSQL_TYPE_STRING),
        col(MYSQL_TYPE_TINY),
        ucol(MYSQL_TYPE_TINY),
        col(MYSQL_TYPE_SHORT),
        col(MYSQL_TYPE_LONG),
        col(MYSQL_TYPE_DATETIME),
        col(MYSQL_TYPE_TIME),
        ucol(MYSQL_TYPE_LONGLONG),
        col(MYSQL_TYPE_DOUBLE),
    ];
    // ten columns: bitmap of (10 + 9) / 8 = 2 bytes; column 1 is NULL (bit 3)
    let mut pld = vec![0x00, 0b0000_1000, 0x00];
    pld.extend(Int(-5).to_bin());
    pld.push(0xFF);
    pld.push(0xFF);
    pld.extend(vec![0xFE, 0xFF]);
    pld.extend(vec![0xFE, 0xFF, 0xFF, 0xFF]);
    pld.extend(Date(2014, 2, 20, 22, 1, 2, 3).to_bin());
    pld.extend(Time(true, 1, 2, 3, 4, 0).to_bin());
    pld.extend(UInt(u64::MAX).to_bin());
    pld.extend(Float(FloatBits(2.25f64.to_bits())).to_bin());
    let row = Value::from_bin_payload(&pld, &columns).unwrap();
    assert_eq!(
        row,
        vec![
            Int(-5),
            NULL,
            Int(-1),
            Int(255),
            Int(-2),
            Int(-2),
            Date(2014, 2, 20, 22, 1, 2, 3),
            Time(true, 1, 2, 3, 4, 0),
            UInt(u64::MAX),
            Float(FloatBits(2.25f64.to_bits())),
        ]
    );
}

#[test]
fn from_bin_payload_float_and_null_columns() {
    let columns = vec![col(MYSQL_TYPE_FLOAT), col(MYSQL_TYPE_NULL)];
    let mut pld = vec![0x00, 0x00];
    pld.extend(1.5f32.to_le_bytes());
    let row = Value::from_bin_payload(&pld, &columns).unwrap();
    assert_eq!(row, vec![Float(FloatBits(1.5f64.to_bits())), NULL]);
}

#[test]
fn from_bin_payload_errors() {
    let columns = vec![col(MYSQL_TYPE_LONGLONG)];
    assert_eq!(Value::from_bin_payload(&[0, 0, 1, 2], &columns), None);
    let columns = vec![col(MYSQL_TYPE_DATETIME)];
    assert_eq!(Value::from_bin_payload(&[0, 0, 5, 1, 2, 3, 4, 5], &columns), None);
}

#[test]
fn binary_values_read_back() {
    let cases = vec![
        (Int(i64::MIN), col(MYSQL_TYPE_LONGLONG)),
        (UInt(12345678901234), ucol(MYSQL_TYPE_LONGLONG)),
        (Bytes(vec![9u8; 300]), col(MYSQL_TYPE_STRING)),
        (Float(FloatBits((-0.0f64).to_bits())), col(MYSQL_TYPE_DOUBLE)),
        (Date(0, 0, 0, 0, 0, 0, 0), col(MYSQL_TYPE_DATETIME)),
        (Date(1999, 12, 31, 0, 0, 0, 0), col(MYSQL_TYPE_DATETIME)),
        (Date(1999, 12, 31, 23, 59, 59, 999999), col(MYSQL_TYPE_DATETIME)),
        (Time(false, 0, 0, 0, 0, 0), col(MYSQL_TYPE_TIME)),
        (Time(true, 34, 22, 59, 59, 1), col(MYSQL_TYPE_TIME)),
    ];
    for (v, c) in cases {
        let mut pld = vec![0x00, 0x00];
        pld.extend(v.to_bin());
        assert_eq!(Value::from_bin_payload(&pld, &[c]), Some(vec![v]));
    }
}

#[test]
fn widen_f32_matches_the_cast() {
    for x in [0.0f32, -0.0, 1.0, -2.5, f32::MAX, f32::MIN_POSITIVE, 1.0e-45, 3.0e-40, f32::INFINITY, f32::NEG_INFINITY] {
        assert_eq!(widen_f32(x.to_bits()), (x as f64).to_bits());
    }
    assert!(f64::from_bits(widen_f32(f32::NAN.to_bits())).is_nan());
}

#[test]
fn to_bin_payload_splits_values() {
    let params = vec![col(MYSQL_TYPE_LONGLONG); 3];
    let values = vec![Int(1), NULL, Bytes(vec![0u8; 40])];
    let (bitmap, data, large) = Value::to_bin_payload(&params, &values, 1 + 24 + 20);
    assert_eq!(bitmap, vec![0b010]);
    assert_eq!(data, Int(1).to_bin());
    assert_eq!(large, Some(vec![2]));
    let (bitmap, data, large) = Value::to_bin_payload(&params, &values, 1000);
    assert_eq!(bitmap, vec![0b010]);
    let mut expected = Int(1).to_bin();
    expected.extend(Bytes(vec![0u8; 40]).to_bin());
    assert_eq!(data, expected);
    assert_eq!(large, None);
}

#[test]
fn getters() {
    let d = Date(2014, 2, 20, 22, 1, 2, 3);
    assert!(d.is_date() && !d.is_time());
    assert_eq!((d.get_year(), d.get_month(), d.get_day()), (2014, 2, 20));
    assert_eq!((d.get_hour(), d.get_min(), d.get_sec(), d.get_usec()), (22, 1, 2, 3));
    let t = Time(true, 4, 5, 6, 7, 8);
    assert!(t.is_neg());
    assert_eq!((t.get_days(), t.get_hour(), t.get_min(), t.get_sec(), t.get_usec()), (4, 5, 6, 7, 8));
    assert_eq!(Int(3).get_int(), 3);
    assert_eq!(UInt(3).get_int_or(9), 9);
    assert_eq!(UInt(3).get_uint(), 3);
    assert_eq!(Int(3).get_uint_or(9), 9);
    assert!(Bytes(vec![1]).is_bytes() && Int(1).is_int() && UInt(1).is_uint() && Float(FloatBits(0)).is_float());
    assert_eq!(Bytes(vec![1, 2]).bytes_ref(), &[1, 2]);
    assert_eq!(Bytes(vec![1, 2]).unwrap_bytes(), vec![1, 2]);
    assert_eq!(NULL.unwrap_bytes_or(vec![7]), vec![7]);
}

#[test]
fn floats_compare_as_doubles() {
    let f = |x: f64| Float(FloatBits(x.to_bits()));
    assert!(f(f64::NAN) != f(f64::NAN));
    assert_eq!(f(0.0), f(-0.0));
    assert!(f(-1.0) < f(1.0));
    assert!(f(-2.0) < f(-1.0));
    assert!(f(1.0) < f(f64::INFINITY));
    assert!(f(f64::NEG_INFINITY) < f(-1.0e300));
    assert_eq!(f(f64::NAN).partial_cmp(&f(1.0)), None);
    assert_eq!(FloatBits(1.5f64.to_bits()), FloatBits(1.5f64.to_bits()));
}
