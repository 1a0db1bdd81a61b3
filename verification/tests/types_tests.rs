use x328_proto::types::{param, Error, Parameter, ValueFormat};
use x328_proto::{Address, Value};

#[test]
fn test_valid_addresses() {
    for n in 0..=99 {
        let a = Address::new(n).unwrap();
        assert_eq!(a.0 as i32, n);
        let bytes = a.to_bytes();
        assert_eq!(bytes[0], bytes[1]);
        assert_eq!(bytes[2], bytes[3]);
    }
}

#[test]
fn test_address() {
    let a05 = Address::new(5).unwrap();
    assert_eq!(a05.to_bytes().as_slice(), b"0055");

    assert!(Address::new(100).is_err());
    assert!(Address::new(-1).is_err());
}

#[test]
fn test_parameter() {
    assert_eq!(Parameter::new(10).unwrap(), Parameter(10));

    let p10 = Parameter::new(10).unwrap();
    assert_eq!(p10.0 as usize, 10);

    assert_eq!(p10.to_bytes().as_slice(), b"0010");
}

#[test]
fn test_parameter_next_prev() {
    let p0 = Parameter(0);
    assert_eq!(p0.prev(), None);
    assert_eq!(p0.next(), Some(Parameter(1)));
    let p10 = Parameter(10);
    assert_eq!(p10.prev(), Some(Parameter(9)));
    assert_eq!(p10.next(), Some(Parameter(11)));
    let p9999 = Parameter(9999);
    assert_eq!(p9999.prev(), Some(Parameter(9998)));
    assert_eq!(p9999.next(), None);
}

#[test]
fn test_parameter_ordering() {
    let p9999 = param(9999);
    assert_eq!(p9999.0 as usize, 9999);
    assert!(p9999.0 < 10_000);
    assert!(p9999.0 > 9998);
}

#[test]
fn value_formatting() {
    assert_eq!(Value::new(56).unwrap().to_bytes().as_slice(), b"+56");
    assert_eq!(Value::new(0).unwrap().to_bytes().as_slice(), b"+0");
    assert_eq!(Value::new(-9999).unwrap().to_bytes().as_slice(), b"-9999");
    assert_eq!(Value::new(999999).unwrap().to_bytes().as_slice(), b"999999");
    assert_eq!(Value::new(99999).unwrap().to_bytes().as_slice(), b"+99999");
    assert_eq!(Value::new(-10000).unwrap().to_bytes().as_slice(), b"-10000");
    let wide = Value::new_fmt(12, ValueFormat::Wide).unwrap();
    assert_eq!(wide.to_bytes().as_slice(), b"+00012");
    let wide_neg = Value::new_fmt(-3, ValueFormat::Wide).unwrap();
    assert_eq!(wide_neg.to_bytes().as_slice(), b"-00003");
}

#[test]
fn value_ranges() {
    assert_eq!(Value::new(-100000), Err(Error::InvalidValue));
    assert_eq!(Value::new(1000000), Err(Error::InvalidValue));
    assert!(Value::new(-99999).is_ok());
    assert!(Value::new(999999).is_ok());
    assert_eq!(Value::new_fmt(-10000, ValueFormat::Normal), Err(Error::InvalidValue));
    assert_eq!(Value::new_fmt(100000, ValueFormat::Wide), Err(Error::InvalidValue));
    assert_eq!(Value::new_fmt(-100000, ValueFormat::Wide), Err(Error::InvalidValue));
    assert!(Value::new_fmt(-10000, ValueFormat::Wide).is_ok());
}

#[test]
fn value_try_into_u16() {
    assert_eq!(Value::new(12345).unwrap().try_into_u16(), Some(12345));
    assert_eq!(Value::new(65535).unwrap().try_into_u16(), Some(65535));
    assert_eq!(Value::new(65536).unwrap().try_into_u16(), None);
    assert_eq!(Value::new(-1).unwrap().try_into_u16(), None);
}

#[test]
fn value_from_ints() {
    let v: Value = 12345_u16.into();
    assert_eq!(v, Value::new(12345).unwrap());
    let w: Value = (-12345_i16).into();
    assert_eq!(w, Value::new(-12345).unwrap());
}

#[test]
fn constructor_errors() {
    assert_eq!(Address::new(255), Err(Error::InvalidAddress));
    assert_eq!(Parameter::new(10000), Err(Error::InvalidParameter));
    assert_eq!(Parameter::new(-1), Err(Error::InvalidParameter));
}
