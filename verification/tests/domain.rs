use market_capture::domain::decimal::ExactDecimal;
use market_capture::domain::{
    DecimalParseError, MarketCoin, MarketCoinError, Price, Quantity, Symbol, Venue,
};

#[test]
fn normalizes_leading_and_trailing_zeroes() {
    let value = ExactDecimal::parse_positive("00012.3400").unwrap();

    assert_eq!(value.coefficient(), 1234);
    assert_eq!(value.scale(), 2);
    assert_eq!(value.to_text(), "12.34");
}

#[test]
fn compares_values_with_different_scales_exactly() {
    let smaller = ExactDecimal::parse_positive("1.09").unwrap();
    let larger = ExactDecimal::parse_positive("1.1").unwrap();

    assert!(smaller < larger);
}

#[test]
fn rejects_zero_negative_exponents_and_excess_scale() {
    assert_eq!(
        ExactDecimal::parse_positive("0"),
        Err(DecimalParseError::NonPositive)
    );
    assert_eq!(
        ExactDecimal::parse_positive("-1"),
        Err(DecimalParseError::InvalidFormat)
    );
    assert_eq!(
        ExactDecimal::parse_positive("1e2"),
        Err(DecimalParseError::InvalidFormat)
    );
    assert_eq!(
        ExactDecimal::parse_positive("0.1234567890123456789"),
        Err(DecimalParseError::ScaleTooLarge)
    );
}

#[test]
fn preserves_case_and_punctuation() {
    let coin = MarketCoin::try_new("dex-name:Coin_1").unwrap();
    assert_eq!(coin.as_str(), "dex-name:Coin_1");
}

#[test]
fn rejects_empty_whitespace_and_control_characters() {
    assert_eq!(MarketCoin::try_new(""), Err(MarketCoinError::Empty));
    assert_eq!(
        MarketCoin::try_new("BT C"),
        Err(MarketCoinError::Whitespace)
    );
    assert_eq!(
        MarketCoin::try_new("BTC\n"),
        Err(MarketCoinError::Whitespace)
    );
    assert_eq!(
        MarketCoin::try_new("BTC\0"),
        Err(MarketCoinError::ControlCharacter)
    );
}

#[test]
fn equal_values_have_one_normal_form() {
    let short = ExactDecimal::parse_positive("2.5").unwrap();
    let long = ExactDecimal::parse_positive("002.5000").unwrap();
    assert_eq!(short, long);
    assert_eq!(short.comparison_units(), long.comparison_units());
    assert_eq!(short.comparison_units(), 2_500_000_000_000_000_000);
    assert_eq!(ExactDecimal::from_parts(2500, 3), Ok(short));
}

#[test]
fn rendered_decimals_parse_back() {
    for text in ["1", "0.5", "100", "0.000000000000000001", "12345.678"] {
        let value = ExactDecimal::parse_positive(text).unwrap();
        assert_eq!(value.to_text(), text);
        assert_eq!(ExactDecimal::parse_positive(&value.to_text()), Ok(value));
    }
}

#[test]
fn malformed_and_oversized_decimals_are_told_apart() {
    for text in ["", ".", "1.", ".5", "1.2.3", "+1", " 1", "1 "] {
        assert_eq!(
            ExactDecimal::parse_positive(text),
            Err(DecimalParseError::InvalidFormat),
            "{text:?}"
        );
    }
    assert_eq!(
        ExactDecimal::parse_positive("0.000"),
        Err(DecimalParseError::NonPositive)
    );
    assert_eq!(
        ExactDecimal::parse_positive("999999999999999999999999999999999999999999"),
        Err(DecimalParseError::OutOfRange)
    );
    assert_eq!(
        ExactDecimal::from_parts(0, 0),
        Err(DecimalParseError::NonPositive)
    );
}

#[test]
fn prices_and_quantities_compare_by_value() {
    assert!(Price::from_str("99.9").unwrap() < Price::from_str("100").unwrap());
    assert!(Quantity::from_str("0.10").unwrap() == Quantity::from_str("0.1").unwrap());
    assert_eq!(Price::from_str("100.250").unwrap().to_text(), "100.25");
}

#[test]
fn venues_have_names() {
    assert_eq!(Venue::Aster.to_text(), "Aster");
    assert_eq!(Venue::Binance.to_text(), "Binance");
    assert_eq!(Venue::Hyperliquid.to_text(), "Hyperliquid");
    assert_eq!(Venue::Lighter.to_text(), "Lighter");
}

#[test]
fn perpetuals_keep_their_coin() {
    let symbol = Symbol::perpetual(MarketCoin::try_new("kPEPE").unwrap());
    assert_eq!(symbol.market_coin().as_str(), "kPEPE");
    assert_eq!(
        MarketCoinError::Whitespace.to_text(),
        "market coin contains whitespace"
    );
}
