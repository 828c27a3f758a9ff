//! Acquiring fresh exchange rates.
//!
//! The network round trip itself is the caller's job; this module holds
//! every decision around it: which endpoint to consult next after an
//! attempt's outcome, how to read a response body into a rate table
//! (either known payload shape, per-field silent recovery to the
//! hardcoded defaults), and how a fetch outcome changes the caller's
//! table — a failure provably leaves it untouched.
//!
//! The JSON decoding itself is serde_json's; its results on a given text
//! are deterministic, so they are given names (`json_of`, `json_field`,
//! `json_text`, `json_number_text`) that the payload reader's contract is
//! stated over.

use crate::fixed::FX_MAX;
use crate::rates::{
    currency_code, default_micros, default_rate, spec_code, RateTable, RateView, CURRENCY_COUNT,
};
use crate::text::{parse_rate_text, rate_text_val, valid_rate_text};
use vstd::prelude::*;
use vstd::string::*;

verus! {

/// A fetch attempt's terminal failure.
#[derive(Clone, Copy, PartialEq, Eq, Structural, Debug)]
pub enum FetchError {
    /// No endpoint answered with a readable body.
    Network,
    /// The backup endpoint answered with a non-success status, after the
    /// primary had already failed.
    BadStatus,
    /// The body was not a JSON document.
    BadPayload,
    /// The document holds no rates field under either known name.
    MissingRates,
}

impl FetchError {
    /// A short line naming the failure.
    pub fn message(&self) -> (r: String)
        ensures
            r@ == spec_message(*self),
    {
        match self {
            FetchError::Network => "network error".to_owned(),
            FetchError::BadStatus => "non-success response status".to_owned(),
            FetchError::BadPayload => "malformed response body".to_owned(),
            FetchError::MissingRates => "no rates field in response".to_owned(),
        }
    }
}

/// The line naming each failure.
pub open spec fn spec_message(e: FetchError) -> Seq<char> {
    match e {
        FetchError::Network => "network error"@,
        FetchError::BadStatus => "non-success response status"@,
        FetchError::BadPayload => "malformed response body"@,
        FetchError::MissingRates => "no rates field in response"@,
    }
}

/// The two rate sources, consulted in this order.
#[derive(Clone, Copy, PartialEq, Eq, Structural, Debug)]
pub enum Endpoint {
    Primary,
    Backup,
}

/// What one HTTP attempt came to.
#[derive(Debug)]
pub enum HttpEvent {
    /// The endpoint answered; `ok_status` says whether with a success
    /// status, and `body` holds the response text.
    Response { ok_status: bool, body: String },
    /// The request could not be made at all.
    ConnectFailed,
    /// The endpoint answered but its body could not be read.
    ReadFailed,
}

/// What to do after an attempt.
#[derive(Debug)]
pub enum FetchDecision {
    /// Consult the backup endpoint.
    TryBackup,
    /// Give the whole fetch up with this failure.
    Fail(FetchError),
    /// Read this body as the rate payload.
    Parse(String),
}

/// The fallback policy: a primary attempt that fails outright or answers
/// with a non-success status falls back to the backup; a success-status
/// body from either endpoint is read as the payload; a backup that cannot
/// be reached or answers with a non-success status, or any unreadable
/// body, fails the fetch.
pub open spec fn spec_fetch_step(at: Endpoint, event: HttpEvent) -> FetchDecision {
    match event {
        HttpEvent::Response { ok_status, body } => {
            if ok_status {
                FetchDecision::Parse(body)
            } else {
                match at {
                    Endpoint::Primary => FetchDecision::TryBackup,
                    Endpoint::Backup => FetchDecision::Fail(FetchError::BadStatus),
                }
            }
        },
        HttpEvent::ConnectFailed => match at {
            Endpoint::Primary => FetchDecision::TryBackup,
            Endpoint::Backup => FetchDecision::Fail(FetchError::Network),
        },
        HttpEvent::ReadFailed => FetchDecision::Fail(FetchError::Network),
    }
}

/// Decide what follows one attempt at one endpoint.
pub fn fetch_step(at: Endpoint, event: HttpEvent) -> (d: FetchDecision)
    ensures
        d == spec_fetch_step(at, event),
{
    match event {
        HttpEvent::Response { ok_status, body } => {
            if ok_status {
                FetchDecision::Parse(body)
            } else {
                match at {
                    Endpoint::Primary => FetchDecision::TryBackup,
                    Endpoint::Backup => FetchDecision::Fail(FetchError::BadStatus),
                }
            }
        },
        HttpEvent::ConnectFailed => match at {
            Endpoint::Primary => FetchDecision::TryBackup,
            Endpoint::Backup => FetchDecision::Fail(FetchError::Network),
        },
        HttpEvent::ReadFailed => FetchDecision::Fail(FetchError::Network),
    }
}

/// What a rate field of the payload held.
#[derive(PartialEq, Eq, Debug)]
pub enum RateCell {
    /// A JSON number, as its decimal text.
    Num(String),
    /// A JSON string.
    Text(String),
    /// Any other shape.
    OtherShape,
}

/// The micro-unit rate a payload cell yields: number text (exponent form
/// included) that parses to a positive value is used; anything else —
/// another shape, unparsable text, zero or below — falls back to the
/// given default. A zero or negative cell, or one below the micro-unit
/// resolution, cannot be taken as it stands: every table entry must stay
/// positive (the invariant conversion divides by), so such a cell
/// recovers to the default exactly like unparsable text.
pub open spec fn spec_cell_rate(c: Option<RateCell>, dflt: int) -> int {
    match c {
        Some(RateCell::Num(t)) => {
            if valid_rate_text(t@) && rate_text_val(t@) > 0 {
                rate_text_val(t@)
            } else {
                dflt
            }
        },
        Some(RateCell::Text(t)) => {
            if valid_rate_text(t@) && rate_text_val(t@) > 0 {
                rate_text_val(t@)
            } else {
                dflt
            }
        },
        Some(RateCell::OtherShape) => dflt,
        None => dflt,
    }
}

/// Read one payload cell as a rate, falling back to the default.
pub fn cell_rate(c: &Option<RateCell>, dflt: i64) -> (r: i64)
    requires
        0 < dflt as int <= FX_MAX as int,
    ensures
        r as int == spec_cell_rate(*c, dflt as int),
        0 < r as int <= FX_MAX as int,
{
    match c {
        Some(RateCell::Num(t)) => match parse_rate_text(t.as_str()) {
            Some(f) => {
                let m = f.micros();
                if m > 0 {
                    m
                } else {
                    dflt
                }
            },
            None => dflt,
        },
        Some(RateCell::Text(t)) => match parse_rate_text(t.as_str()) {
            Some(f) => {
                let m = f.micros();
                if m > 0 {
                    m
                } else {
                    dflt
                }
            },
            None => dflt,
        },
        Some(RateCell::OtherShape) => dflt,
        None => dflt,
    }
}

/// Build a live table from the eight payload cells, in list order: each
/// entry comes from its cell, or from the hardcoded default.
pub fn normalize_rates(cells: &Vec<Option<RateCell>>, as_of: String) -> (r: RateTable)
    requires
        cells@.len() == CURRENCY_COUNT as int,
    ensures
        r.wf(),
        r@.live,
        r@.as_of == as_of@,
        forall|i: int|
            0 <= i < CURRENCY_COUNT as int ==> r@.rates[i] == spec_cell_rate(
                #[trigger] cells@[i],
                default_rate(i),
            ),
{
    let mut rates: Vec<i64> = Vec::new();
    let mut i: usize = 0;
    while i < CURRENCY_COUNT
        invariant
            0 <= i <= CURRENCY_COUNT,
            cells@.len() == CURRENCY_COUNT as int,
            rates@.len() == i as int,
            forall|j: int|
                0 <= j < i as int ==> #[trigger] rates@[j] as int == spec_cell_rate(
                    cells@[j],
                    default_rate(j),
                ) && 0 < rates@[j] as int <= FX_MAX as int,
        decreases CURRENCY_COUNT - i,
    {
        let d = default_micros(i);
        rates.push(cell_rate(&cells[i], d));
        i += 1;
    }
    let r = RateTable { rates, as_of, live: true };
    proof {
        assert(forall|j: int|
            0 <= j < CURRENCY_COUNT as int ==> r@.rates[j] == #[trigger] r.rates@[j] as int);
    }
    r
}

/// The view of an optional string.
pub open spec fn opt_text(o: Option<String>) -> Option<Seq<char>> {
    match o {
        Some(s) => Some(s@),
        None => None,
    }
}

/// The freshness label of a fetched table: an online marker and the
/// payload's date, else its last-updated stamp, else today's date.
pub open spec fn spec_freshness(
    date: Option<Seq<char>>,
    time_updated: Option<Seq<char>>,
    today: Seq<char>,
) -> Seq<char> {
    "online "@ + (match date {
        Some(d) => d,
        None => match time_updated {
            Some(t) => t,
            None => today,
        },
    })
}

/// Render the freshness label of a fetched table.
pub fn freshness_label(date: Option<String>, time_updated: Option<String>, today: &str) -> (r:
    String)
    ensures
        r@ == spec_freshness(opt_text(date), opt_text(time_updated), today@),
{
    let mut out = "online ".to_owned();
    match date {
        Some(d) => out.append(d.as_str()),
        None => match time_updated {
            Some(t) => out.append(t.as_str()),
            None => out.append(today),
        },
    }
    out
}

/// The outside type the payload is decoded into.
#[verifier::external_type_specification]
#[verifier::external_body]
pub struct ExJsonValue(serde_json::Value);

/// Whether serde_json parses a text as a JSON document; serde_json's
/// parser is deterministic, so success depends on the text alone.
pub uninterp spec fn json_parse_ok(s: Seq<char>) -> bool;

/// The document serde_json parses a text into, a function of the text
/// alone; meaningful where `json_parse_ok` holds.
pub uninterp spec fn json_of(s: Seq<char>) -> serde_json::Value;

/// What looking a key up in a JSON value yields: the field of an object,
/// `None` on a missing key or any other shape.
pub uninterp spec fn json_field(v: serde_json::Value, key: Seq<char>) -> Option<serde_json::Value>;

/// The text of a JSON string value, `None` on any other shape.
pub uninterp spec fn json_text(v: serde_json::Value) -> Option<Seq<char>>;

/// The decimal rendering of a JSON number value, `None` on any other
/// shape.
pub uninterp spec fn json_number_text(v: serde_json::Value) -> Option<Seq<char>>;

/// Relies on serde_json::from_str for serde_json::Value: decodes a JSON
/// document, failing exactly on malformed text; the document is a
/// function of the text alone.
#[verifier::external_body]
fn json_parse(s: &str) -> (r: Option<serde_json::Value>)
    ensures
        r is Some <==> json_parse_ok(s@),
        r matches Some(v) ==> v == json_of(s@),
{
    match serde_json::from_str::<serde_json::Value>(s) {
        Ok(v) => Some(v),
        Err(_) => None,
    }
}

/// Relies on serde_json::Value::get with a string key: looks a field up
/// in a JSON object; None on other shapes or a missing key.
#[verifier::external_body]
fn json_get<'a>(v: &'a serde_json::Value, key: &str) -> (r: Option<&'a serde_json::Value>)
    ensures
        match r {
            Some(f) => json_field(*v, key@) == Some(*f),
            None => json_field(*v, key@) is None,
        },
{
    v.get(key)
}

/// Relies on serde_json::Value::as_str: the text of a JSON string, None
/// on any other shape.
#[verifier::external_body]
fn json_as_text(v: &serde_json::Value) -> (r: Option<String>)
    ensures
        opt_text(r) == json_text(*v),
{
    match v.as_str() {
        Some(s) => Some(s.to_owned()),
        None => None,
    }
}

/// Relies on serde_json::Value's variants and serde_json::Number's
/// decimal rendering: a number becomes its decimal text (possibly in
/// exponent form, which the rate grammar accepts), a string its own
/// text, and any other shape is marked as such.
#[verifier::external_body]
fn json_rate_cell(v: &serde_json::Value) -> (r: RateCell)
    ensures
        match r {
            RateCell::Num(t) => json_number_text(*v) == Some(t@),
            RateCell::Text(t) => json_number_text(*v) is None && json_text(*v) == Some(t@),
            RateCell::OtherShape => json_number_text(*v) is None && json_text(*v) is None,
        },
{
    match v {
        serde_json::Value::Number(n) => RateCell::Num(n.to_string()),
        serde_json::Value::String(s) => RateCell::Text(s.clone()),
        _ => RateCell::OtherShape,
    }
}

/// The rates object of a payload: the `rates` field where it exists, else
/// the `conversion_rates` field — the first name takes precedence.
pub open spec fn doc_rates_field(s: Seq<char>) -> Option<serde_json::Value> {
    match json_field(json_of(s), "rates"@) {
        Some(f) => Some(f),
        None => json_field(json_of(s), "conversion_rates"@),
    }
}

/// The micro-unit rate a payload assigns to the code at position `i`:
/// the cell under that code in the winning rates object, recovered to the
/// hardcoded default where the cell is absent or unusable.
pub open spec fn payload_rate(s: Seq<char>, i: int) -> int {
    match doc_rates_field(s) {
        Some(f) => match json_field(f, spec_code(i)) {
            Some(c) => spec_value_rate(c, default_rate(i)),
            None => default_rate(i),
        },
        None => default_rate(i),
    }
}

/// The micro-unit rate one JSON cell value yields, with the same
/// positive-or-default policy as `spec_cell_rate`.
pub open spec fn spec_value_rate(c: serde_json::Value, dflt: int) -> int {
    match json_number_text(c) {
        Some(t) => {
            if valid_rate_text(t) && rate_text_val(t) > 0 {
                rate_text_val(t)
            } else {
                dflt
            }
        },
        None => match json_text(c) {
            Some(t) => {
                if valid_rate_text(t) && rate_text_val(t) > 0 {
                    rate_text_val(t)
                } else {
                    dflt
                }
            },
            None => dflt,
        },
    }
}

/// The date text of a payload: the top-level `date` field, where it is a
/// string.
pub open spec fn payload_date(s: Seq<char>) -> Option<Seq<char>> {
    match json_field(json_of(s), "date"@) {
        Some(d) => json_text(d),
        None => None,
    }
}

/// The last-updated text of a payload: the top-level `time_last_updated`
/// field, where it is a string.
pub open spec fn payload_time_updated(s: Seq<char>) -> Option<Seq<char>> {
    match json_field(json_of(s), "time_last_updated"@) {
        Some(t) => json_text(t),
        None => None,
    }
}

/// The freshness label a payload yields, given today's date as the last
/// resort.
pub open spec fn payload_label(s: Seq<char>, today: Seq<char>) -> Seq<char> {
    spec_freshness(payload_date(s), payload_time_updated(s), today)
}

/// Read a response body as a rate payload: decode it as JSON, find the
/// rates under `rates` or, failing that, `conversion_rates`, and build a
/// live table with each supported code's entry from the payload or the
/// hardcoded default. `today` is the label's last resort; the caller
/// supplies it since the date is environment input.
pub fn parse_rate_payload(body: &str, today: &str) -> (r: Result<RateTable, FetchError>)
    ensures
        r is Ok <==> json_parse_ok(body@) && doc_rates_field(body@) is Some,
        r == Err::<RateTable, FetchError>(FetchError::BadPayload) <==> !json_parse_ok(body@),
        r == Err::<RateTable, FetchError>(FetchError::MissingRates) <==> json_parse_ok(body@)
            && doc_rates_field(body@) is None,
        r matches Ok(t) ==> t.wf() && t@.live && t@.as_of == payload_label(body@, today@) && (forall|
            i: int,
        | 0 <= i < CURRENCY_COUNT as int ==> t@.rates[i] == payload_rate(body@, i)),
{
    let doc = match json_parse(body) {
        Some(v) => v,
        None => {
            return Err(FetchError::BadPayload);
        },
    };
    let date = match json_get(&doc, "date") {
        Some(d) => json_as_text(d),
        None => None,
    };
    let time_updated = match json_get(&doc, "time_last_updated") {
        Some(t) => json_as_text(t),
        None => None,
    };
    proof {
        assert(opt_text(date) == payload_date(body@));
        assert(opt_text(time_updated) == payload_time_updated(body@));
    }
    let rates_field = match json_get(&doc, "rates") {
        Some(o) => o,
        None => match json_get(&doc, "conversion_rates") {
            Some(o) => o,
            None => {
                return Err(FetchError::MissingRates);
            },
        },
    };
    proof {
        assert(doc_rates_field(body@) == Some(*rates_field));
    }
    let mut cells: Vec<Option<RateCell>> = Vec::new();
    let mut i: usize = 0;
    while i < CURRENCY_COUNT
        invariant
            0 <= i <= CURRENCY_COUNT,
            cells@.len() == i as int,
            doc_rates_field(body@) == Some(*rates_field),
            forall|j: int|
                0 <= j < i as int ==> spec_cell_rate(#[trigger] cells@[j], default_rate(j))
                    == payload_rate(body@, j),
        decreases CURRENCY_COUNT - i,
    {
        let cell = match json_get(rates_field, currency_code(i)) {
            Some(c) => Some(json_rate_cell(c)),
            None => None,
        };
        proof {
            assert(spec_cell_rate(cell, default_rate(i as int)) == payload_rate(body@, i as int));
        }
        cells.push(cell);
        i += 1;
    }
    let label = freshness_label(date, time_updated, today);
    let table = normalize_rates(&cells, label);
    proof {
        assert forall|k: int| 0 <= k < CURRENCY_COUNT as int implies table@.rates[k]
            == payload_rate(body@, k) by {
            assert(spec_cell_rate(cells@[k], default_rate(k)) == payload_rate(body@, k));
        }
    }
    Ok(table)
}

/// Take a fetch outcome: a success replaces the whole table at once and a
/// failure provably leaves it untouched; the returned status line says
/// which happened.
pub fn apply_fetch_outcome(table: &mut RateTable, outcome: Result<RateTable, FetchError>) -> (status:
    String)
    requires
        old(table).wf(),
        outcome matches Ok(t) ==> t.wf(),
    ensures
        final(table).wf(),
        match outcome {
            Ok(t) => final(table)@ == t@ && status@ == "updated (live)"@,
            Err(e) => final(table)@ == old(table)@ && status@ == "updated (offline, fetch failed): "@
                + spec_message(e),
        },
{
    match outcome {
        Ok(t) => {
            *table = t;
            "updated (live)".to_owned()
        },
        Err(e) => {
            let mut status = "updated (offline, fetch failed): ".to_owned();
            status.append(e.message().as_str());
            status
        },
    }
}

/// The status line before any fetch has been asked for.
pub fn status_ready() -> (r: String)
    ensures
        r@ == "ready"@,
{
    "ready".to_owned()
}

/// The status line while a fetch is in flight.
pub fn status_updating() -> (r: String)
    ensures
        r@ == "updating"@,
{
    "updating".to_owned()
}

/// Law: a primary attempt that fails outright or answers with a
/// non-success status falls back to the backup endpoint; a backup
/// success response's body is the one read as the payload; and a backup
/// that cannot be reached or answers with a non-success status fails the
/// whole fetch.
pub proof fn lemma_backup_fallback(body: String, body2: String)
    ensures
        spec_fetch_step(Endpoint::Primary, HttpEvent::ConnectFailed) == FetchDecision::TryBackup,
        spec_fetch_step(
            Endpoint::Primary,
            HttpEvent::Response { ok_status: false, body: body },
        ) == FetchDecision::TryBackup,
        spec_fetch_step(Endpoint::Backup, HttpEvent::Response { ok_status: true, body: body })
            == FetchDecision::Parse(body),
        spec_fetch_step(
            Endpoint::Backup,
            HttpEvent::Response { ok_status: false, body: body2 },
        ) == FetchDecision::Fail(FetchError::BadStatus),
        spec_fetch_step(Endpoint::Backup, HttpEvent::ConnectFailed) == FetchDecision::Fail(
            FetchError::Network,
        ),
{
}

/// Law: every table built from a payload is live and has an entry for
/// each of the eight supported codes, from the payload cell or the
/// hardcoded default; no code is missing.
pub proof fn lemma_payload_populates(cells: Seq<Option<RateCell>>, t: RateView)
    requires
        cells.len() == CURRENCY_COUNT as int,
        t.live,
        t.rates.len() == CURRENCY_COUNT as int,
        forall|i: int|
            0 <= i < CURRENCY_COUNT as int ==> t.rates[i] == spec_cell_rate(
                #[trigger] cells[i],
                default_rate(i),
            ),
    ensures
        forall|i: int|
            0 <= i < CURRENCY_COUNT as int ==> t.rates[i] == spec_cell_rate(
                #[trigger] cells[i],
                default_rate(i),
            ) && (cells[i] is None ==> t.rates[i] == default_rate(i)),
{
}

} // verus!
