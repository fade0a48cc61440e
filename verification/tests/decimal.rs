use autotrader::decimal::{format_price, parse_price};
use autotrader::types::Price;

#[test]
fn test_parse_price() {
    assert_eq!(parse_price(b"24.31"), Some(Price(2431)));
    assert_eq!(parse_price(b"18.98"), Some(Price(1898)));
    assert_eq!(parse_price(b"29.99"), Some(Price(2999)));
    assert_eq!(parse_price(b"28.90"), Some(Price(2890)));
    assert_eq!(parse_price(b"28.9"), Some(Price(2890)));
    assert_eq!(parse_price(b"26.05"), Some(Price(2605)));
    assert_eq!(parse_price(b"0"), Some(Price(0)));
    assert_eq!(parse_price(b"0.0"), Some(Price(0)));
    assert_eq!(parse_price(b"0.01"), Some(Price(1)));
    assert_eq!(parse_price(b"7"), Some(Price(700)));
    assert_eq!(parse_price(b"007.50"), Some(Price(750)));
    assert_eq!(parse_price(b"655.35"), Some(Price(65535)));
    assert_eq!(parse_price(b"655"), Some(Price(65500)));
}

#[test]
fn test_parse_price_refuses_what_is_no_price() {
    assert_eq!(parse_price(b""), None);
    assert_eq!(parse_price(b"."), None);
    assert_eq!(parse_price(b".5"), None);
    assert_eq!(parse_price(b"5."), None);
    assert_eq!(parse_price(b"1.234"), None);
    assert_eq!(parse_price(b"1.2.3"), None);
    assert_eq!(parse_price(b"-1.00"), None);
    assert_eq!(parse_price(b"+1.00"), None);
    assert_eq!(parse_price(b"1e2"), None);
    assert_eq!(parse_price(b"12,50"), None);
    assert_eq!(parse_price(b" 1.00"), None);
    assert_eq!(parse_price(b"1.0a"), None);
    assert_eq!(parse_price(b"1.a0"), None);
    assert_eq!(parse_price(b"a.10"), None);
}

#[test]
fn test_parse_price_refuses_what_is_too_large() {
    assert_eq!(parse_price(b"655.36"), None);
    assert_eq!(parse_price(b"656"), None);
    assert_eq!(parse_price(b"656.00"), None);
    assert_eq!(parse_price(b"1000"), None);
    assert_eq!(parse_price(b"99999999999999999999999999.99"), None);
    assert_eq!(parse_price(b"00000000000000000000000655.35"), Some(Price(65535)));
}

#[test]
fn test_format_price() {
    assert_eq!(format_price(Price(2431)), b"24.31".to_vec());
    assert_eq!(format_price(Price(2890)), b"28.90".to_vec());
    assert_eq!(format_price(Price(0)), b"0.00".to_vec());
    assert_eq!(format_price(Price(5)), b"0.05".to_vec());
    assert_eq!(format_price(Price(100)), b"1.00".to_vec());
    assert_eq!(format_price(Price(12345)), b"123.45".to_vec());
    assert_eq!(format_price(Price(65535)), b"655.35".to_vec());
}

#[test]
fn test_price_round_trip() {
    for hundredths in 0..=u16::MAX {
        let price = Price(hundredths);
        assert_eq!(parse_price(&format_price(price)), Some(price));
    }
}
