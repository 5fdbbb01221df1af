use poke_shakespeare::api::{Alpha, ErrorPayload};
use poke_shakespeare::services::PokeApiClient;

#[test]
fn test_alpha_parse_ok() {
    Alpha::try_new("foo".to_string()).unwrap();
}

#[test]
fn test_alpha_parse_invalid() {
    assert!(Alpha::try_new("".to_string()).is_none());
    assert!(Alpha::try_new("123".to_string()).is_none());
    assert!(Alpha::try_new(".".to_string()).is_none());
}

#[test]
fn rejects_digits_punctuation_and_whitespace() {
    for bad in [
        "abc1", "1abc", "a.b", "a b", " ", "\t", "foo-bar", "foo_bar", "foo&20bar", "12", "a,b",
        "end.",
    ] {
        assert!(Alpha::try_new(bad.to_string()).is_none(), "accepted {:?}", bad);
    }
}

#[test]
fn accepts_and_preserves_alphabetic_names() {
    for good in ["foo", "Foo", "BUTTERFREE", "x", "caf\u{e9}", "\u{c9}p\u{e9}e"] {
        let a = Alpha::try_new(good.to_string()).unwrap();
        assert_eq!(a.as_str(), good);
        assert_eq!(a.into_string(), good.to_string());
    }
}

#[test]
fn error_payload_keeps_its_message() {
    let p = ErrorPayload::new("Some error".to_string());
    assert_eq!(p.error, "Some error".to_string());
}

#[test]
fn poke_api_client_default_points_at_public_endpoint() {
    let c = PokeApiClient::default();
    assert_eq!(c.url, "https://pokeapi.co/api/v2/pokemon-species/".to_string());
}
