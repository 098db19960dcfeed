use elvanto_cli::api::paging::next_page;
use elvanto_cli::api::raw::{count_from_text, ApiError};
use elvanto_cli::api::{api_error, envelope_status, redact_key, unexpected_status, Client, EnvelopeStatus};
use elvanto_cli::error::CliError;

#[test]
fn redact_short_key() {
    let c = Client::with_base_url("abcdefgh".into(), "http://x".into()).unwrap();
    assert_eq!(c.redacted_key(), "********");
}

#[test]
fn redact_long_key() {
    let c = Client::with_base_url("abcdefghijkl".into(), "http://x".into()).unwrap();
    assert_eq!(c.redacted_key(), "abcd…ijkl");
}

#[test]
fn redact_boundary_9_chars() {
    let c = Client::with_base_url("abcdefghi".into(), "http://x".into()).unwrap();
    assert_eq!(c.redacted_key(), "abcd…fghi");
}

#[test]
fn redact_empty_and_multibyte_keys() {
    assert_eq!(redact_key(""), "");
    assert_eq!(redact_key("äöü"), "***");
    assert_eq!(redact_key("äbcdefghiö"), "äbcd…ghiö");
}

#[test]
fn empty_key_is_usage_error() {
    match Client::with_base_url(String::new(), "http://x".into()) {
        Err(CliError::Usage(m)) => assert_eq!(m, "ELVANTO_API_KEY is empty"),
        _ => panic!("expected a usage error"),
    }
    assert!(Client::new(String::new()).is_err());
}

#[test]
fn client_keeps_key_and_base_url() {
    let c = Client::new("k123".into()).unwrap();
    assert_eq!(c.base_url(), "https://api.elvanto.com/v1");
    assert_eq!(c.api_key(), "k123");
    let d = Client::with_base_url("k".into(), "http://127.0.0.1:1".into()).unwrap();
    assert_eq!(d.base_url(), "http://127.0.0.1:1");
}

#[test]
fn paging_stops_on_short_page_total_or_limit() {
    assert_eq!(next_page(1, 100, 100, 0, 100, 100), Some(2));
    assert_eq!(next_page(1, 99, 100, 0, 99, 100), None);
    assert_eq!(next_page(1, 100, 0, 0, 100, 100), Some(2));
    assert_eq!(next_page(2, 100, 100, 200, 200, 100), None);
    assert_eq!(next_page(2, 50, 50, 0, 100, 100), Some(3));
    assert_eq!(next_page(1000, 100, 100, 0, 100000, 100), None);
}

#[test]
fn envelope_status_reads_ok_error_and_other() {
    assert_eq!(envelope_status(Some("ok")), EnvelopeStatus::Payload);
    assert_eq!(envelope_status(Some("error")), EnvelopeStatus::Failure);
    assert_eq!(envelope_status(Some("OK")), EnvelopeStatus::Unexpected);
    assert_eq!(envelope_status(None), EnvelopeStatus::Unexpected);
}

#[test]
fn envelope_errors_become_cli_errors() {
    let e = api_error(ApiError { code: 250, message: "No search parameters provided.".into() });
    assert_eq!(e.message(), "Elvanto returned code 250: No search parameters provided.");
    assert_eq!(unexpected_status(Some("weird")).message(), "network: unexpected status: Some(\"weird\")");
    assert_eq!(unexpected_status(None).message(), "network: unexpected status: None");
}

#[test]
fn paging_never_passes_the_last_page() {
    assert_eq!(next_page(999, 100, 100, 0, 0, 100), Some(1000));
    assert_eq!(next_page(1000, 100, 100, 0, 0, 100), None);
    assert_eq!(next_page(5000, 100, 100, 0, 0, 100), None);
}

#[test]
fn counts_sent_as_text_are_read() {
    assert_eq!(count_from_text(" 42 "), Some(42));
    assert_eq!(count_from_text(""), Some(0));
    assert_eq!(count_from_text("   "), Some(0));
    assert_eq!(count_from_text("+7"), Some(7));
    assert_eq!(count_from_text("-1"), None);
    assert_eq!(count_from_text("4294967296"), None);
    assert_eq!(count_from_text("1x"), None);
}
