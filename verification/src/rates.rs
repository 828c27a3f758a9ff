//! The rate table and the currency converter.
//!
//! A table maps each of the eight supported currency codes to its value
//! per one base unit, in micro-units, with a freshness label and a flag
//! saying whether the data came from a live fetch. Lookups of unknown
//! codes fall back to the neutral rate of one, so conversion is total.

use crate::fixed::{fx_div_val, fx_mul_val, Fx, FX_MAX, FX_SCALE};
use crate::text::{
    amount_val, fmt_fx4, format_fx4, parse_amount, str_eq, valid_amount,
};
use vstd::prelude::*;
use vstd::string::*;

verus! {

/// How many currency codes the fixed supported set holds.
pub const CURRENCY_COUNT: usize = 8;

/// The supported code at position `i` of the fixed ordered list.
pub open spec fn spec_code(i: int) -> Seq<char> {
    if i == 0 {
        "USD"@
    } else if i == 1 {
        "EUR"@
    } else if i == 2 {
        "JPY"@
    } else if i == 3 {
        "CNY"@
    } else if i == 4 {
        "MYR"@
    } else if i == 5 {
        "TWD"@
    } else if i == 6 {
        "SGD"@
    } else {
        "GBP"@
    }
}

/// Position of a code in the fixed ordered list, if it is supported.
pub open spec fn code_index(c: Seq<char>) -> Option<int> {
    if c == "USD"@ {
        Some(0int)
    } else if c == "EUR"@ {
        Some(1int)
    } else if c == "JPY"@ {
        Some(2int)
    } else if c == "CNY"@ {
        Some(3int)
    } else if c == "MYR"@ {
        Some(4int)
    } else if c == "TWD"@ {
        Some(5int)
    } else if c == "SGD"@ {
        Some(6int)
    } else if c == "GBP"@ {
        Some(7int)
    } else {
        None
    }
}

/// The hardcoded default rate of the code at position `i`, in micro-units.
pub open spec fn default_rate(i: int) -> int {
    if i == 0 {
        1_000_000
    } else if i == 1 {
        850_000
    } else if i == 2 {
        110_000_000
    } else if i == 3 {
        6_500_000
    } else if i == 4 {
        4_200_000
    } else if i == 5 {
        28_000_000
    } else if i == 6 {
        1_350_000
    } else {
        750_000
    }
}

/// Mathematical view of a rate table.
pub ghost struct RateView {
    pub rates: Seq<int>,
    pub as_of: Seq<char>,
    pub live: bool,
}

/// A table is well formed when every supported code has an entry, and
/// every entry is positive and in range.
pub open spec fn table_wf(t: RateView) -> bool {
    &&& t.rates.len() == CURRENCY_COUNT as int
    &&& forall|i: int| 0 <= i < CURRENCY_COUNT as int ==> 0 < #[trigger] t.rates[i] <= FX_MAX as int
}

/// The current exchange rates: one entry per supported code, in the order
/// of the fixed list, plus a freshness label and a live flag.
#[derive(Debug)]
pub struct RateTable {
    pub rates: Vec<i64>,
    pub as_of: String,
    pub live: bool,
}

impl View for RateTable {
    type V = RateView;

    open spec fn view(&self) -> RateView {
        RateView {
            rates: self.rates@.map(|i: int, r: i64| r as int),
            as_of: self.as_of@,
            live: self.live,
        }
    }
}

impl RateTable {
    /// Every supported code has an in-range entry.
    pub open spec fn wf(&self) -> bool {
        table_wf(self@)
    }

    /// The freshness line shown beside conversion results.
    pub fn freshness_line(&self) -> (r: String)
        ensures
            r@ == "rates as of: "@ + self@.as_of,
    {
        let mut out = "rates as of: ".to_owned();
        out.append(self.as_of.as_str());
        out
    }

    /// The status line: whether the table came from a live fetch.
    pub fn status_line(&self) -> (r: String)
        ensures
            r@ == if self@.live {
                "status: updated (live)"@
            } else {
                "status: using offline rates"@
            },
    {
        if self.live {
            "status: updated (live)".to_owned()
        } else {
            "status: using offline rates".to_owned()
        }
    }

    /// The rate of a code: the table entry, or the neutral rate of one
    /// whole unit for a code outside the supported set.
    pub fn rate_of(&self, code: &str) -> (r: Fx)
        requires
            self.wf(),
        ensures
            r.m as int == spec_rate(self@, code@),
            r.wf(),
    {
        match currency_index(code) {
            Some(i) => {
                proof {
                    assert(self@.rates[i as int] == self.rates@[i as int] as int);
                }
                Fx::from_micros(self.rates[i])
            },
            None => Fx::from_micros(FX_SCALE),
        }
    }
}

/// The rate a view assigns to a code, the neutral one if unsupported.
pub open spec fn spec_rate(t: RateView, code: Seq<char>) -> int
    recommends
        table_wf(t),
{
    match code_index(code) {
        Some(i) => t.rates[i],
        None => FX_SCALE as int,
    }
}

/// Position of a code in the fixed ordered list, if it is supported.
pub fn currency_index(code: &str) -> (r: Option<usize>)
    ensures
        match r {
            Some(i) => code_index(code@) == Some(i as int) && i < CURRENCY_COUNT,
            None => code_index(code@) is None,
        },
{
    if str_eq(code, "USD") {
        Some(0)
    } else if str_eq(code, "EUR") {
        Some(1)
    } else if str_eq(code, "JPY") {
        Some(2)
    } else if str_eq(code, "CNY") {
        Some(3)
    } else if str_eq(code, "MYR") {
        Some(4)
    } else if str_eq(code, "TWD") {
        Some(5)
    } else if str_eq(code, "SGD") {
        Some(6)
    } else if str_eq(code, "GBP") {
        Some(7)
    } else {
        None
    }
}

/// The supported code at position `i` of the fixed ordered list.
pub fn currency_code(i: usize) -> (r: &'static str)
    requires
        i < CURRENCY_COUNT,
    ensures
        r@ == spec_code(i as int),
{
    if i == 0 {
        "USD"
    } else if i == 1 {
        "EUR"
    } else if i == 2 {
        "JPY"
    } else if i == 3 {
        "CNY"
    } else if i == 4 {
        "MYR"
    } else if i == 5 {
        "TWD"
    } else if i == 6 {
        "SGD"
    } else {
        "GBP"
    }
}

/// The hardcoded default rate of the code at position `i`, in micro-units.
pub fn default_micros(i: usize) -> (r: i64)
    requires
        i < CURRENCY_COUNT,
    ensures
        r as int == default_rate(i as int),
        0 < r <= FX_MAX,
{
    if i == 0 {
        1_000_000
    } else if i == 1 {
        850_000
    } else if i == 2 {
        110_000_000
    } else if i == 3 {
        6_500_000
    } else if i == 4 {
        4_200_000
    } else if i == 5 {
        28_000_000
    } else if i == 6 {
        1_350_000
    } else {
        750_000
    }
}

/// The hardcoded offline table: default rates, not live.
pub fn default_table() -> (r: RateTable)
    ensures
        r.wf(),
        !r@.live,
        r@.as_of == "offline default"@,
        forall|i: int| 0 <= i < CURRENCY_COUNT as int ==> r@.rates[i] == default_rate(i),
{
    let mut rates: Vec<i64> = Vec::new();
    let mut i: usize = 0;
    while i < CURRENCY_COUNT
        invariant
            0 <= i <= CURRENCY_COUNT,
            rates@.len() == i as int,
            forall|j: int|
                0 <= j < i as int ==> #[trigger] rates@[j] as int == default_rate(j) && 0
                    < rates@[j] <= FX_MAX,
        decreases CURRENCY_COUNT - i,
    {
        rates.push(default_micros(i));
        i += 1;
    }
    let r = RateTable { rates, as_of: "offline default".to_owned(), live: false };
    proof {
        assert(forall|j: int|
            0 <= j < CURRENCY_COUNT as int ==> r@.rates[j] == #[trigger] r.rates@[j] as int);
    }
    r
}

impl Default for RateTable {
    /// The hardcoded offline table.
    fn default() -> (r: RateTable)
        ensures
            r.wf(),
            !r@.live,
            r@.as_of == "offline default"@,
            forall|i: int| 0 <= i < CURRENCY_COUNT as int ==> r@.rates[i] == default_rate(i),
    {
        default_table()
    }
}

/// What converting an amount between two codes yields: the amount itself
/// for equal codes, else the amount times the target rate over the source
/// rate.
pub open spec fn spec_convert(amount: int, from: Seq<char>, to: Seq<char>, t: RateView) -> int {
    if from == to {
        amount
    } else {
        fx_mul_val(amount, fx_div_val(spec_rate(t, to), spec_rate(t, from)))
    }
}

/// Convert an amount between two currency codes using a rate table.
pub fn convert_currency(amount: Fx, from: &str, to: &str, rates: &RateTable) -> (r: Fx)
    requires
        amount.wf(),
        rates.wf(),
    ensures
        r.m as int == spec_convert(amount.m as int, from@, to@, rates@),
        r.wf(),
{
    if str_eq(from, to) {
        return amount;
    }
    let from_rate = rates.rate_of(from);
    let to_rate = rates.rate_of(to);
    amount.mul(to_rate.div(from_rate))
}

/// Law: converting between one and the same code returns the amount
/// exactly, whatever the table holds.
pub proof fn lemma_convert_identity(amount: int, code: Seq<char>, t: RateView)
    ensures
        spec_convert(amount, code, code, t) == amount,
{
}

/// What the conversion request handler answers: an error line for an
/// amount that is not a number or a selection outside the supported list,
/// else the converted amount with exactly four fraction digits and the
/// target code.
pub open spec fn spec_on_convert(
    amount_text: Seq<char>,
    from_index: int,
    to_index: int,
    t: RateView,
) -> Seq<char> {
    if !valid_amount(amount_text) {
        "error: enter a valid number"@
    } else if from_index >= CURRENCY_COUNT as int || to_index >= CURRENCY_COUNT as int {
        "error: choose a valid currency"@
    } else {
        "result: "@ + fmt_fx4(
            spec_convert(
                amount_val(amount_text),
                spec_code(from_index),
                spec_code(to_index),
                t,
            ),
        ) + " "@ + spec_code(to_index)
    }
}

/// Handle a conversion request: parse the typed amount, validate the
/// selected positions, convert, and render the answer line.
pub fn on_convert(amount_text: &str, from_index: usize, to_index: usize, rates: &RateTable) -> (r:
    String)
    requires
        rates.wf(),
    ensures
        r@ == spec_on_convert(amount_text@, from_index as int, to_index as int, rates@),
{
    let amount = match parse_amount(amount_text) {
        Some(a) => a,
        None => {
            return "error: enter a valid number".to_owned();
        },
    };
    if from_index >= CURRENCY_COUNT || to_index >= CURRENCY_COUNT {
        return "error: choose a valid currency".to_owned();
    }
    let from = currency_code(from_index);
    let to = currency_code(to_index);
    let result = convert_currency(amount, from, to, rates);
    let mut out = "result: ".to_owned();
    out.append(format_fx4(result).as_str());
    out.append(" ");
    out.append(to);
    out
}

} // verus!
