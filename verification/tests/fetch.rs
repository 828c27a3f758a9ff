use calc_fx::fetch::{
    apply_fetch_outcome, cell_rate, fetch_step, parse_rate_payload, Endpoint, FetchDecision,
    FetchError, HttpEvent, RateCell,
};
use calc_fx::rates::default_table;

#[test]
fn primary_failure_falls_back_to_backup() {
    let d = fetch_step(Endpoint::Primary, HttpEvent::ConnectFailed);
    assert!(matches!(d, FetchDecision::TryBackup));
    let d2 = fetch_step(
        Endpoint::Primary,
        HttpEvent::Response { ok_status: false, body: "ignored".to_string() },
    );
    assert!(matches!(d2, FetchDecision::TryBackup));
}

#[test]
fn primary_success_body_is_parsed() {
    let d = fetch_step(
        Endpoint::Primary,
        HttpEvent::Response { ok_status: true, body: "payload".to_string() },
    );
    match d {
        FetchDecision::Parse(b) => assert_eq!(b, "payload"),
        _ => panic!("expected the body to be parsed"),
    }
}

#[test]
fn backup_success_body_is_used() {
    let d = fetch_step(
        Endpoint::Backup,
        HttpEvent::Response { ok_status: true, body: "backup payload".to_string() },
    );
    match d {
        FetchDecision::Parse(b) => assert_eq!(b, "backup payload"),
        _ => panic!("expected the body to be parsed"),
    }
}

#[test]
fn backup_bad_status_fails_the_fetch() {
    // a non-success status on the backup, after the primary already
    // failed, is a fetch failure: the body is not read as a payload
    let d = fetch_step(
        Endpoint::Backup,
        HttpEvent::Response { ok_status: false, body: "ignored".to_string() },
    );
    assert!(matches!(d, FetchDecision::Fail(FetchError::BadStatus)));
}

#[test]
fn bad_status_on_both_endpoints_leaves_the_table_unchanged() {
    let mut table = default_table();
    let rates_before = table.rates.clone();
    let status = apply_fetch_outcome(&mut table, Err(FetchError::BadStatus));
    assert_eq!(status, "updated (offline, fetch failed): non-success response status");
    assert_eq!(table.rates, rates_before);
    assert!(!table.live);
}

#[test]
fn backup_failure_fails_the_fetch() {
    let d = fetch_step(Endpoint::Backup, HttpEvent::ConnectFailed);
    assert!(matches!(d, FetchDecision::Fail(FetchError::Network)));
    let d2 = fetch_step(Endpoint::Backup, HttpEvent::ReadFailed);
    assert!(matches!(d2, FetchDecision::Fail(FetchError::Network)));
}

#[test]
fn conversion_rates_payload_populates_every_code() {
    // the backup endpoint's shape: rates under "conversion_rates"
    let body = r#"{"conversion_rates":{"USD":1.0,"EUR":0.9,"JPY":"111.5"},"time_last_updated":"1700000000"}"#;
    let t = parse_rate_payload(body, "2024-06-01").expect("payload should parse");
    assert!(t.live);
    assert_eq!(t.rates.len(), 8);
    assert_eq!(t.rate_of("USD").micros(), 1_000_000);
    assert_eq!(t.rate_of("EUR").micros(), 900_000);
    // a string cell is parsed as a number
    assert_eq!(t.rate_of("JPY").micros(), 111_500_000);
    // absent codes fall back to the hardcoded defaults: none is missing
    assert_eq!(t.rate_of("CNY").micros(), 6_500_000);
    assert_eq!(t.rate_of("MYR").micros(), 4_200_000);
    assert_eq!(t.rate_of("TWD").micros(), 28_000_000);
    assert_eq!(t.rate_of("SGD").micros(), 1_350_000);
    assert_eq!(t.rate_of("GBP").micros(), 750_000);
    assert_eq!(t.as_of, "online 1700000000");
}

#[test]
fn rates_payload_with_date_field() {
    let body = r#"{"rates":{"USD":1,"EUR":0.85},"date":"2024-05-05"}"#;
    let t = parse_rate_payload(body, "2024-06-01").expect("payload should parse");
    assert!(t.live);
    assert_eq!(t.rate_of("EUR").micros(), 850_000);
    assert_eq!(t.as_of, "online 2024-05-05");
}

#[test]
fn payload_without_freshness_field_uses_today() {
    let body = r#"{"rates":{"USD":1}}"#;
    let t = parse_rate_payload(body, "2024-06-01").expect("payload should parse");
    // the handed-in date is the label's last resort
    assert_eq!(t.as_of, "online 2024-06-01");
}

#[test]
fn rates_field_takes_precedence_over_conversion_rates() {
    let body = r#"{"rates":{"EUR":0.5},"conversion_rates":{"EUR":0.9,"JPY":200}}"#;
    let t = parse_rate_payload(body, "2024-06-01").expect("payload should parse");
    // values come from "rates"; "conversion_rates" is ignored entirely
    assert_eq!(t.rate_of("EUR").micros(), 500_000);
    assert_eq!(t.rate_of("JPY").micros(), 110_000_000);
}

#[test]
fn non_positive_cells_fall_back_to_defaults() {
    let body = r#"{"rates":{"USD":-5,"EUR":0,"JPY":"-1.5","CNY":"0.0"}}"#;
    let t = parse_rate_payload(body, "2024-06-01").expect("payload should parse");
    // a rate table's entries stay positive: bad cells recover per field
    assert_eq!(t.rate_of("USD").micros(), 1_000_000);
    assert_eq!(t.rate_of("EUR").micros(), 850_000);
    assert_eq!(t.rate_of("JPY").micros(), 110_000_000);
    assert_eq!(t.rate_of("CNY").micros(), 6_500_000);
}

#[test]
fn exponent_form_numbers_are_used() {
    // serde_json renders these numbers in exponent form; the rate grammar
    // accepts it, so the values are used directly
    let body = r#"{"rates":{"USD":1e-5,"EUR":2.5e2,"JPY":"3E1"}}"#;
    let t = parse_rate_payload(body, "2024-06-01").expect("payload should parse");
    assert_eq!(t.rate_of("USD").micros(), 10);
    assert_eq!(t.rate_of("EUR").micros(), 250_000_000);
    assert_eq!(t.rate_of("JPY").micros(), 30_000_000);
}

#[test]
fn exponent_form_extremes_saturate_or_default() {
    // below the micro-unit resolution the value truncates to zero, which
    // is not a positive entry, so it recovers to the default; above the
    // range it saturates at the bound
    let body = r#"{"rates":{"EUR":1e-30,"JPY":1e30}}"#;
    let t = parse_rate_payload(body, "2024-06-01").expect("payload should parse");
    assert_eq!(t.rate_of("EUR").micros(), 850_000);
    assert_eq!(t.rate_of("JPY").micros(), 100_000_000_000_000_000);
}

#[test]
fn malformed_cells_fall_back_per_field() {
    // a boolean, an unparsable string and a null: each recovers to the
    // default for its own code only
    let body = r#"{"rates":{"USD":true,"EUR":"not a number","JPY":null,"CNY":7.25}}"#;
    let t = parse_rate_payload(body, "2024-06-01").expect("payload should parse");
    assert_eq!(t.rate_of("USD").micros(), 1_000_000);
    assert_eq!(t.rate_of("EUR").micros(), 850_000);
    assert_eq!(t.rate_of("JPY").micros(), 110_000_000);
    assert_eq!(t.rate_of("CNY").micros(), 7_250_000);
}

#[test]
fn non_json_body_is_a_bad_payload() {
    assert_eq!(parse_rate_payload("not json", "2024-06-01").unwrap_err(), FetchError::BadPayload);
    assert_eq!(parse_rate_payload("", "2024-06-01").unwrap_err(), FetchError::BadPayload);
}

#[test]
fn missing_rates_field_is_reported() {
    let body = r#"{"date":"2024-01-01","quotes":{"USD":1.0}}"#;
    assert_eq!(parse_rate_payload(body, "2024-06-01").unwrap_err(), FetchError::MissingRates);
}

#[test]
fn failed_fetch_leaves_the_table_unchanged() {
    let mut table = default_table();
    let rates_before = table.rates.clone();
    let as_of_before = table.as_of.clone();
    let live_before = table.live;
    let status = apply_fetch_outcome(&mut table, Err(FetchError::Network));
    assert_eq!(status, "updated (offline, fetch failed): network error");
    assert_eq!(table.rates, rates_before);
    assert_eq!(table.as_of, as_of_before);
    assert_eq!(table.live, live_before);
}

#[test]
fn successful_fetch_replaces_the_table_wholesale() {
    let mut table = default_table();
    let body = r#"{"rates":{"EUR":0.5},"date":"2030-01-01"}"#;
    let fresh = parse_rate_payload(body, "2024-06-01").expect("payload should parse");
    let status = apply_fetch_outcome(&mut table, Ok(fresh));
    assert_eq!(status, "updated (live)");
    assert!(table.live);
    assert_eq!(table.as_of, "online 2030-01-01");
    assert_eq!(table.rate_of("EUR").micros(), 500_000);
    assert_eq!(table.status_line(), "status: updated (live)");
}

#[test]
fn error_messages() {
    assert_eq!(FetchError::Network.message(), "network error");
    assert_eq!(FetchError::BadStatus.message(), "non-success response status");
    assert_eq!(FetchError::BadPayload.message(), "malformed response body");
    assert_eq!(FetchError::MissingRates.message(), "no rates field in response");
}

#[test]
fn cell_rates_recover_to_defaults() {
    assert_eq!(cell_rate(&Some(RateCell::Num("2.5".to_string())), 7), 2_500_000);
    assert_eq!(cell_rate(&Some(RateCell::Text("0.75".to_string())), 7), 750_000);
    assert_eq!(cell_rate(&Some(RateCell::Text("nope".to_string())), 7), 7);
    assert_eq!(cell_rate(&Some(RateCell::OtherShape), 7), 7);
    assert_eq!(cell_rate(&None, 7), 7);
    // non-positive values also recover to the default
    assert_eq!(cell_rate(&Some(RateCell::Num("-2.5".to_string())), 7), 7);
    assert_eq!(cell_rate(&Some(RateCell::Num("0".to_string())), 7), 7);
    // exponent notation, as serde_json renders some numbers
    assert_eq!(cell_rate(&Some(RateCell::Num("2e3".to_string())), 7), 2_000_000_000);
    assert_eq!(cell_rate(&Some(RateCell::Num("1.5e-2".to_string())), 7), 15_000);
    assert_eq!(cell_rate(&Some(RateCell::Num("-1e3".to_string())), 7), 7);
    assert_eq!(cell_rate(&Some(RateCell::Text("4E+1".to_string())), 7), 40_000_000);
    assert_eq!(cell_rate(&Some(RateCell::Num("1e".to_string())), 7), 7);
}
