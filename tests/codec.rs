use iot_store::{bind, bytes_equal, CodecError};

#[test]
fn bind_accepts_up_to_the_bound_only() {
    let max: u32 = 5;
    let below = bind(b"abcd", max).unwrap();
    assert_eq!(below.as_bytes(), b"abcd");
    assert_eq!(below.len(), 4);
    let at = bind(b"abcde", max).unwrap();
    assert_eq!(at.as_bytes(), b"abcde");
    assert_eq!(at.max_len(), 5);
    assert_eq!(bind(b"abcdef", max).unwrap_err(), CodecError::TooLong);
}

#[test]
fn bind_with_zero_bound() {
    assert_eq!(bind(b"", 0).unwrap().len(), 0);
    assert_eq!(bind(b"x", 0).unwrap_err(), CodecError::TooLong);
}

#[test]
fn duplicate_keeps_bytes_and_bound() {
    let v = bind(b"WMI", 3).unwrap();
    let d = v.duplicate();
    assert_eq!(d.as_bytes(), b"WMI");
    assert_eq!(d.max_len(), 3);
}

#[test]
fn bytes_equal_compares_content() {
    assert!(bytes_equal(b"abc", b"abc"));
    assert!(!bytes_equal(b"abc", b"abd"));
    assert!(!bytes_equal(b"abc", b"ab"));
    assert!(bytes_equal(b"", b""));
}

