use near_enhanced_api::errors::ErrorKind;
use near_enhanced_api::types::account_id::{extract_account_id, AccountId};

#[test]
fn well_formed_identifiers_parse() {
    for text in [
        "vasya.near",
        "pushxo.near",
        "usn",
        "ab",
        "a-b",
        "a_b.c-d",
        "0123456789",
        "100x.near",
        "aa",
        "0000000000000000000000000000000000000000000000000000000000000000",
    ] {
        let id = AccountId::from_str(text).unwrap();
        assert_eq!(id.as_str(), text);
    }
}

#[test]
fn ill_formed_identifiers_are_refused() {
    for text in [
        "",
        "a",
        "Emily.near",
        "user@app.com",
        "\u{192}elicia.near",
        "jane.",
        ".jane",
        "-jane",
        "jane_",
        "angela__moss",
        "tyrell..wellick",
        "a.-b",
        "with space",
        "00000000000000000000000000000000000000000000000000000000000000000",
    ] {
        assert_eq!(AccountId::from_str(text), Err(ErrorKind::AccountAddressInvalid));
    }
}

#[test]
fn length_is_counted_in_characters_of_the_alphabet() {
    let longest = "a".repeat(64);
    assert!(AccountId::from_str(&longest).is_ok());
    let too_long = "a".repeat(65);
    assert_eq!(AccountId::from_str(&too_long), Err(ErrorKind::AccountAddressInvalid));
}

#[test]
fn identifier_knows_its_name() {
    let id = AccountId::from_str("vasya.near").unwrap();
    assert!(id.is_named(&"vasya.near".to_string()));
    assert!(!id.is_named(&"vasya.nea".to_string()));
    assert!(!id.is_named(&"".to_string()));
    assert_eq!(id.clone(), id);
}

#[test]
fn empty_counterparty_is_no_account() {
    assert_eq!(extract_account_id(""), Ok(None));
}

#[test]
fn counterparty_is_parsed() {
    let id = extract_account_id("pushxo.near").unwrap().unwrap();
    assert_eq!(id.as_str(), "pushxo.near");
    assert_eq!(extract_account_id("Pushxo.near"), Err(ErrorKind::AccountAddressInvalid));
    assert_eq!(extract_account_id(" "), Err(ErrorKind::AccountAddressInvalid));
}
