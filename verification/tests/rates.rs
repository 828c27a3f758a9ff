use calc_fx::fixed::Fx;
use calc_fx::rates::{
    convert_currency, currency_code, currency_index, default_table, on_convert, RateTable,
};

#[test]
fn same_code_is_exact_identity() {
    let t = default_table();
    let amount = Fx::from_micros(123_456_789);
    for i in 0..8usize {
        let code = currency_code(i);
        let r = convert_currency(amount, code, code, &t);
        assert_eq!(r.micros(), 123_456_789);
    }
    // even a code outside the supported set converts to itself exactly
    let r = convert_currency(amount, "ZZZ", "ZZZ", &t);
    assert_eq!(r.micros(), 123_456_789);
}

#[test]
fn hundred_usd_is_eighty_five_eur() {
    let t = default_table();
    let r = convert_currency(Fx::from_micros(100_000_000), "USD", "EUR", &t);
    assert_eq!(r.micros(), 85_000_000);
}

#[test]
fn default_table_contents() {
    let t = default_table();
    assert!(!t.live);
    assert_eq!(t.as_of, "offline default");
    assert_eq!(t.rates.len(), 8);
    assert_eq!(t.rate_of("USD").micros(), 1_000_000);
    assert_eq!(t.rate_of("EUR").micros(), 850_000);
    assert_eq!(t.rate_of("JPY").micros(), 110_000_000);
    assert_eq!(t.rate_of("CNY").micros(), 6_500_000);
    assert_eq!(t.rate_of("MYR").micros(), 4_200_000);
    assert_eq!(t.rate_of("TWD").micros(), 28_000_000);
    assert_eq!(t.rate_of("SGD").micros(), 1_350_000);
    assert_eq!(t.rate_of("GBP").micros(), 750_000);
}

#[test]
fn default_trait_matches_default_table() {
    let t = RateTable::default();
    assert!(!t.live);
    assert_eq!(t.as_of, "offline default");
    assert_eq!(t.rates, default_table().rates);
}

#[test]
fn unknown_code_falls_back_to_neutral_rate() {
    let t = default_table();
    assert_eq!(t.rate_of("ZZZ").micros(), 1_000_000);
    let r = convert_currency(Fx::from_micros(100_000_000), "USD", "ZZZ", &t);
    assert_eq!(r.micros(), 100_000_000);
    let r2 = convert_currency(Fx::from_micros(100_000_000), "ZZZ", "EUR", &t);
    assert_eq!(r2.micros(), 85_000_000);
}

#[test]
fn eur_to_jpy_cross_rate() {
    let t = default_table();
    // 10 EUR -> JPY: 10 * (110.0 / 0.85), truncated toward zero in micros
    let r = convert_currency(Fx::from_micros(10_000_000), "EUR", "JPY", &t);
    assert_eq!(r.micros(), 1_294_117_640);
}

#[test]
fn index_and_code_map_one_to_one() {
    let codes = ["USD", "EUR", "JPY", "CNY", "MYR", "TWD", "SGD", "GBP"];
    for i in 0..8usize {
        assert_eq!(currency_code(i), codes[i]);
        assert_eq!(currency_index(codes[i]), Some(i));
    }
    assert_eq!(currency_index("usd"), None);
    assert_eq!(currency_index(""), None);
}

#[test]
fn convert_request_renders_result_line() {
    let t = default_table();
    assert_eq!(on_convert("100", 0, 1, &t), "result: 85.0000 EUR");
    // rate(USD)/rate(EUR) in micros truncates to 1.176470, times 2.5,
    // then rendered with exactly four fraction digits
    assert_eq!(on_convert("2.5", 1, 0, &t), "result: 2.9411 USD");
    // equal codes return the amount itself, still with four digits
    assert_eq!(on_convert("2", 0, 0, &t), "result: 2.0000 USD");
}

#[test]
fn convert_request_rejects_bad_amount() {
    let t = default_table();
    assert_eq!(on_convert("abc", 0, 1, &t), "error: enter a valid number");
    assert_eq!(on_convert("1.2.3", 0, 1, &t), "error: enter a valid number");
    assert_eq!(on_convert("", 0, 1, &t), "error: enter a valid number");
    assert_eq!(on_convert("-", 0, 1, &t), "error: enter a valid number");
}

#[test]
fn convert_request_rejects_bad_index() {
    let t = default_table();
    assert_eq!(on_convert("100", 8, 1, &t), "error: choose a valid currency");
    assert_eq!(on_convert("100", 0, 9, &t), "error: choose a valid currency");
}

#[test]
fn negative_amount_converts() {
    let t = default_table();
    assert_eq!(on_convert("-100", 0, 1, &t), "result: -85.0000 EUR");
}

#[test]
fn table_display_lines() {
    let t = default_table();
    assert_eq!(t.freshness_line(), "rates as of: offline default");
    assert_eq!(t.status_line(), "status: using offline rates");
}
