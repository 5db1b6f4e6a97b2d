use payjoin_engine::error::Error;
use payjoin_engine::uri::{
    address_network_matches, btc_amount_to_string, build_pj_uri, parse_uri, parse_u64_str,
    u64_to_string, Network, PjUri,
};

#[test]
fn parse_full_locator() {
    let u = parse_uri("bitcoin:bcrt1qexample?amount=0.0008&pj=https://relay.example/sub").unwrap();
    assert_eq!(u.address, "bcrt1qexample");
    assert_eq!(u.amount_sats, Some(80_000));
    assert_eq!(u.endpoint, "https://relay.example/sub");
}

#[test]
fn parse_locator_without_amount() {
    let u = parse_uri("bitcoin:bcrt1qexample?pj=https://relay.example/sub").unwrap();
    assert_eq!(u.address, "bcrt1qexample");
    assert_eq!(u.amount_sats, None);
    assert_eq!(u.endpoint, "https://relay.example/sub");
}

#[test]
fn scheme_is_matched_in_any_case() {
    // QR-form locators uppercase the whole prefix.
    let u = parse_uri("BITCOIN:BCRT1QEXAMPLE?amount=0.0008&pj=https://relay.example/sub").unwrap();
    assert_eq!(u.address, "BCRT1QEXAMPLE");
    assert_eq!(u.amount_sats, Some(80_000));
    let u = parse_uri("Bitcoin:bcrt1qexample?pj=x").unwrap();
    assert_eq!(u.address, "bcrt1qexample");
}

#[test]
fn amounts_are_read_as_whole_and_fractional_bitcoins() {
    assert_eq!(parse_uri("bitcoin:bcrt1q?amount=1&pj=x").unwrap().amount_sats, Some(100_000_000));
    assert_eq!(parse_uri("bitcoin:bcrt1q?amount=1.5&pj=x").unwrap().amount_sats, Some(150_000_000));
    assert_eq!(parse_uri("bitcoin:bcrt1q?amount=0.0008&pj=x").unwrap().amount_sats, Some(80_000));
    assert_eq!(
        parse_uri("bitcoin:bcrt1q?amount=0.00000001&pj=x").unwrap().amount_sats,
        Some(1)
    );
    assert_eq!(
        parse_uri("bitcoin:bcrt1q?amount=1.23456789&pj=x").unwrap().amount_sats,
        Some(123_456_789)
    );
    // Trailing and leading zeros are tolerated on input.
    assert_eq!(parse_uri("bitcoin:bcrt1q?amount=00.00080000&pj=x").unwrap().amount_sats, Some(80_000));
}

#[test]
fn parse_rejects_malformed_locators() {
    // Wrong scheme.
    assert!(matches!(parse_uri("payto:bcrt1q?pj=x"), Err(Error::PayjoinUriInvalid)));
    // No query part at all.
    assert!(matches!(parse_uri("bitcoin:bcrt1q"), Err(Error::PayjoinUriInvalid)));
    // Empty address.
    assert!(matches!(parse_uri("bitcoin:?pj=x"), Err(Error::PayjoinUriInvalid)));
    // Missing relay endpoint.
    assert!(matches!(parse_uri("bitcoin:bcrt1q?amount=5"), Err(Error::PayjoinUriInvalid)));
    // Empty amount, and a point without fractional digits.
    assert!(matches!(parse_uri("bitcoin:bcrt1q?amount=&pj=x"), Err(Error::PayjoinUriInvalid)));
    assert!(matches!(parse_uri("bitcoin:bcrt1q?amount=1.&pj=x"), Err(Error::PayjoinUriInvalid)));
    // More than eight fractional digits is below one satoshi.
    assert!(matches!(
        parse_uri("bitcoin:bcrt1q?amount=0.000000001&pj=x"),
        Err(Error::PayjoinUriInvalid)
    ));
    // An amount past the largest representable count of satoshis.
    assert!(matches!(
        parse_uri("bitcoin:bcrt1q?amount=184467440737.09551616&pj=x"),
        Err(Error::PayjoinUriInvalid)
    ));
    assert!(matches!(
        parse_uri("bitcoin:bcrt1q?amount=184467440738&pj=x"),
        Err(Error::PayjoinUriInvalid)
    ));
    // The largest representable amount is still accepted.
    let u = parse_uri("bitcoin:bcrt1q?amount=184467440737.09551615&pj=x").unwrap();
    assert_eq!(u.amount_sats, Some(u64::MAX));
}

#[test]
fn locator_round_trips_through_its_string_form() {
    let u = build_pj_uri(
        "bcrt1qw508d6qejxtdg4y5r3zarvary0c5xw7k".to_string(),
        80_000,
        "https://relay.example/sub".to_string(),
    );
    let s = u.to_uri_string();
    assert_eq!(
        s,
        "bitcoin:bcrt1qw508d6qejxtdg4y5r3zarvary0c5xw7k?amount=0.0008&pj=https://relay.example/sub"
    );
    let back = parse_uri(&s).unwrap();
    assert_eq!(back.address, u.address);
    assert_eq!(back.amount_sats, u.amount_sats);
    assert_eq!(back.endpoint, u.endpoint);
}

#[test]
fn locator_without_amount_round_trips() {
    let u = PjUri {
        address: "tb1qexample".to_string(),
        amount_sats: None,
        endpoint: "https://relay.example/other".to_string(),
    };
    let s = u.to_uri_string();
    assert_eq!(s, "bitcoin:tb1qexample?pj=https://relay.example/other");
    let back = parse_uri(&s).unwrap();
    assert_eq!(back.address, u.address);
    assert_eq!(back.amount_sats, None);
    assert_eq!(back.endpoint, u.endpoint);
}

#[test]
fn amount_notation() {
    assert_eq!(btc_amount_to_string(0), "0");
    assert_eq!(btc_amount_to_string(1), "0.00000001");
    assert_eq!(btc_amount_to_string(80_000), "0.0008");
    assert_eq!(btc_amount_to_string(100_000_000), "1");
    assert_eq!(btc_amount_to_string(150_000_000), "1.5");
    assert_eq!(btc_amount_to_string(123_456_789), "1.23456789");
    assert_eq!(btc_amount_to_string(u64::MAX), "184467440737.09551615");
}

#[test]
fn decimal_notation() {
    assert_eq!(u64_to_string(0), "0");
    assert_eq!(u64_to_string(7), "7");
    assert_eq!(u64_to_string(80000), "80000");
    assert_eq!(u64_to_string(u64::MAX), "18446744073709551615");
    assert_eq!(parse_u64_str("0"), Some(0));
    assert_eq!(parse_u64_str("007"), Some(7));
    assert_eq!(parse_u64_str("80000"), Some(80000));
    assert_eq!(parse_u64_str(""), None);
    assert_eq!(parse_u64_str("12a"), None);
    assert_eq!(parse_u64_str("18446744073709551616"), None);
}

#[test]
fn address_network_prefixes() {
    assert!(address_network_matches("bc1qexample", Network::Bitcoin));
    assert!(address_network_matches("BC1QEXAMPLE", Network::Bitcoin));
    assert!(!address_network_matches("bc1qexample", Network::Regtest));
    assert!(address_network_matches("tb1qexample", Network::Testnet));
    assert!(address_network_matches("TB1QEXAMPLE", Network::Signet));
    assert!(!address_network_matches("tb1qexample", Network::Bitcoin));
    assert!(address_network_matches("bcrt1qexample", Network::Regtest));
    assert!(address_network_matches("BCRT1QEXAMPLE", Network::Regtest));
    assert!(!address_network_matches("bcrt1qexample", Network::Bitcoin));
    assert!(address_network_matches("1BoatSLRHtKNngkdXEeobR76b53LETtpyT", Network::Bitcoin));
    assert!(address_network_matches("3J98t1WpEZ73CNmQviecrnyiWrnqRhWNLy", Network::Bitcoin));
    assert!(address_network_matches("mipcBbFg9gMiCh81Kj8tqqdgoZub1ZJRfn", Network::Testnet));
    assert!(address_network_matches("mipcBbFg9gMiCh81Kj8tqqdgoZub1ZJRfn", Network::Regtest));
    assert!(!address_network_matches("qqexample", Network::Bitcoin));
    assert!(!address_network_matches("", Network::Bitcoin));
}

#[test]
fn non_ascii_locators_are_rejected() {
    assert!(matches!(
        parse_uri("bitcoin:bcrt1qé?pj=relay"),
        Err(Error::PayjoinUriInvalid)
    ));
}
