//! The calculator's input/evaluation state machine.
//!
//! State: the token being typed, a running accumulator, an optional pending
//! binary operator, and a flag marking a completed evaluation. Operators
//! apply eagerly left to right; division by zero saturates to zero.

use crate::fixed::{
    fx_add_val, fx_div_val, fx_mul_val, fx_sub_val, Fx, FX_MAX,
};
use crate::text::{
    contains_dot, fmt_fx, format_fx, has_dot, is_digit_char, lemma_push_token,
    lemma_take_token, token_char, token_val, token_value, valid_token,
};
use vstd::prelude::*;
use vstd::string::*;

verus! {

/// Mathematical view of the calculator state: the token typed so far, the
/// accumulator in micro-units, the pending operator, and the
/// just-evaluated flag.
pub ghost struct CalcView {
    pub current: Seq<char>,
    pub acc: int,
    pub op: Option<char>,
    pub just_evaluated: bool,
}

/// The all-default state.
pub open spec fn calc_init() -> CalcView {
    CalcView { current: Seq::<char>::empty(), acc: 0, op: None, just_evaluated: false }
}

/// `d` is a single digit token.
pub open spec fn is_digit_seq(d: Seq<char>) -> bool {
    d.len() == 1 && is_digit_char(d[0])
}

/// Apply the pending operation: combine the typed token into the
/// accumulator (or seed the accumulator with it), then clear the token.
pub open spec fn spec_apply_pending(v: CalcView) -> CalcView {
    let x = token_val(v.current);
    let acc = match v.op {
        Some(o) => {
            if o == '+' {
                fx_add_val(v.acc, x)
            } else if o == '-' {
                fx_sub_val(v.acc, x)
            } else if o == '*' {
                fx_mul_val(v.acc, x)
            } else if o == '/' {
                fx_div_val(v.acc, x)
            } else {
                v.acc
            }
        },
        None => x,
    };
    CalcView {
        current: Seq::<char>::empty(),
        acc,
        op: v.op,
        just_evaluated: v.just_evaluated,
    }
}

/// A digit right after an evaluation starts a fresh number; a second
/// decimal point is ignored; otherwise the token is appended.
pub open spec fn spec_input_digit(v: CalcView, d: Seq<char>) -> CalcView {
    let v1 = if v.just_evaluated && is_digit_seq(d) {
        calc_init()
    } else {
        v
    };
    if d == seq!['.'] && has_dot(v1.current) {
        v1
    } else {
        CalcView {
            current: v1.current + d,
            acc: v1.acc,
            op: v1.op,
            just_evaluated: v1.just_evaluated,
        }
    }
}

/// With no token typed and an operator pending, a new operator replaces
/// it; otherwise the pending operation applies first.
pub open spec fn spec_set_operator(v: CalcView, op: char) -> CalcView {
    if v.current.len() == 0 && v.op is Some {
        CalcView { current: v.current, acc: v.acc, op: Some(op), just_evaluated: v.just_evaluated }
    } else {
        let v1 = spec_apply_pending(v);
        CalcView { current: v1.current, acc: v1.acc, op: Some(op), just_evaluated: false }
    }
}

/// Apply the pending operation, drop the operator, mark the evaluation.
pub open spec fn spec_evaluate(v: CalcView) -> CalcView {
    let v1 = spec_apply_pending(v);
    CalcView { current: v1.current, acc: v1.acc, op: None, just_evaluated: true }
}

/// Remove the last typed character, if any.
pub open spec fn spec_backspace(v: CalcView) -> CalcView {
    if v.current.len() > 0 {
        CalcView {
            current: v.current.drop_last(),
            acc: v.acc,
            op: v.op,
            just_evaluated: v.just_evaluated,
        }
    } else {
        v
    }
}

/// The display projection: the token being typed, else the accumulator
/// rendered as a decimal string.
pub open spec fn spec_display(v: CalcView) -> Seq<char> {
    if v.current.len() > 0 {
        v.current
    } else {
        fmt_fx(v.acc)
    }
}

/// The calculator engine.
pub struct Calculator {
    current: String,
    accumulator: Fx,
    operator: Option<char>,
    just_evaluated: bool,
}

impl View for Calculator {
    type V = CalcView;

    closed spec fn view(&self) -> CalcView {
        CalcView {
            current: self.current@,
            acc: self.accumulator.m as int,
            op: self.operator,
            just_evaluated: self.just_evaluated,
        }
    }
}

impl Calculator {
    /// The state invariant: the typed token is digits with at most one
    /// decimal point, and the accumulator is in range.
    pub open spec fn wf(&self) -> bool {
        &&& valid_token(self@.current)
        &&& -(FX_MAX as int) <= self@.acc <= FX_MAX as int
    }

    /// A calculator in the all-default state.
    pub fn new() -> (r: Calculator)
        ensures
            r@ == calc_init(),
            r.wf(),
    {
        let r = Calculator {
            current: String::new(),
            accumulator: Fx::zero(),
            operator: None,
            just_evaluated: false,
        };
        proof {
            assert(r@.current =~= calc_init().current);
        }
        r
    }

    /// Reset all state to defaults.
    pub fn clear(&mut self)
        ensures
            final(self)@ == calc_init(),
            final(self).wf(),
    {
        self.current = String::new();
        self.accumulator = Fx::zero();
        self.operator = None;
        self.just_evaluated = false;
        proof {
            assert(self@.current =~= calc_init().current);
        }
    }

    /// Feed one typed token: a digit or the decimal point.
    pub fn input_digit(&mut self, digit: &str)
        requires
            old(self).wf(),
            digit@.len() == 1,
            token_char(digit@[0]),
        ensures
            final(self)@ == spec_input_digit(old(self)@, digit@),
            final(self).wf(),
    {
        let c = digit.get_char(0);
        let u: u32 = c as u32;
        let is_dig = 48 <= u && u <= 57;
        if self.just_evaluated && is_dig {
            self.clear();
        }
        let ghost mid = self@;
        if !is_dig {
            proof {
                assert(c == '.');
                assert(digit@ =~= seq!['.']);
            }
            if contains_dot(self.current.as_str()) {
                return ;
            }
        }
        self.current.append(digit);
        proof {
            assert(self@.current =~= mid.current.push(digit@[0]));
            lemma_push_token(mid.current, digit@[0]);
            if digit@ == seq!['.'] {
                assert(digit@[0] == '.');
            }
        }
    }

    /// Store `op` as the pending operator, first applying any pending
    /// operation unless the user is just changing their mind.
    pub fn set_operator(&mut self, op: char)
        requires
            old(self).wf(),
            op == '+' || op == '-' || op == '*' || op == '/',
        ensures
            final(self)@ == spec_set_operator(old(self)@, op),
            final(self).wf(),
    {
        if self.current.as_str().unicode_len() == 0 && self.operator.is_some() {
            self.operator = Some(op);
            return ;
        }
        self.apply_pending();
        self.operator = Some(op);
        self.just_evaluated = false;
    }

    /// Apply the pending operation, drop the operator, mark the
    /// evaluation, and return the accumulator.
    pub fn evaluate(&mut self) -> (r: Fx)
        requires
            old(self).wf(),
        ensures
            final(self)@ == spec_evaluate(old(self)@),
            final(self).wf(),
            r.m as int == final(self)@.acc,
    {
        self.apply_pending();
        self.operator = None;
        self.just_evaluated = true;
        self.accumulator
    }

    /// Remove the last typed character; with nothing typed, change nothing.
    pub fn backspace(&mut self)
        requires
            old(self).wf(),
        ensures
            final(self)@ == spec_backspace(old(self)@),
            final(self).wf(),
    {
        let n = self.current.as_str().unicode_len();
        if n > 0 {
            let shorter = self.current.as_str().substring_char(0, n - 1).to_owned();
            proof {
                assert(shorter@ =~= old(self)@.current.drop_last());
                lemma_take_token(old(self)@.current, n - 1);
                assert(old(self)@.current.take(n - 1) =~= old(self)@.current.drop_last());
            }
            self.current = shorter;
        }
    }

    /// The display string: the token being typed, else the accumulator.
    pub fn display(&self) -> (r: String)
        requires
            self.wf(),
        ensures
            r@ == spec_display(self@),
    {
        if self.current.as_str().unicode_len() > 0 {
            self.current.clone()
        } else {
            format_fx(self.accumulator)
        }
    }

    /// Combine the typed token into the accumulator and clear the token.
    fn apply_pending(&mut self)
        requires
            old(self).wf(),
        ensures
            final(self)@ == spec_apply_pending(old(self)@),
            final(self).wf(),
    {
        let x = token_value(self.current.as_str());
        match self.operator {
            Some(o) => {
                if o == '+' {
                    self.accumulator = self.accumulator.add(x);
                } else if o == '-' {
                    self.accumulator = self.accumulator.sub(x);
                } else if o == '*' {
                    self.accumulator = self.accumulator.mul(x);
                } else if o == '/' {
                    self.accumulator = self.accumulator.div(x);
                }
            },
            None => {
                self.accumulator = x;
            },
        }
        self.current = String::new();
        proof {
            assert(self@.current =~= Seq::<char>::empty());
        }
    }
}

impl Default for Calculator {
    /// The all-default state.
    fn default() -> (r: Calculator)
        ensures
            r@ == calc_init(),
            r.wf(),
    {
        Calculator::new()
    }
}

/// `label` is a single digit key.
pub open spec fn is_digit_label(label: Seq<char>) -> bool {
    label.len() == 1 && is_digit_char(label[0])
}

/// What one key press does: digits and the point feed the token, the four
/// operator keys set the pending operator, the equals key evaluates, `C`
/// clears, the erase key backspaces, and any other label does nothing.
pub open spec fn spec_press(v: CalcView, label: Seq<char>) -> CalcView {
    if is_digit_label(label) || label == "."@ {
        spec_input_digit(v, label)
    } else if label == "+"@ {
        spec_set_operator(v, '+')
    } else if label == "-"@ {
        spec_set_operator(v, '-')
    } else if label == "*"@ {
        spec_set_operator(v, '*')
    } else if label == "/"@ {
        spec_set_operator(v, '/')
    } else if label == "="@ {
        spec_evaluate(v)
    } else if label == "C"@ {
        calc_init()
    } else if label == "X"@ {
        spec_backspace(v)
    } else {
        v
    }
}

/// Dispatch one pressed key to the engine and return the display string.
pub fn on_calc_press(calc: &mut Calculator, label: &str) -> (r: String)
    requires
        old(calc).wf(),
    ensures
        final(calc)@ == spec_press(old(calc)@, label@),
        final(calc).wf(),
        r@ == spec_display(final(calc)@),
{
    proof {
        reveal_strlit(".");
        reveal_strlit("+");
        reveal_strlit("-");
        reveal_strlit("*");
        reveal_strlit("/");
        reveal_strlit("=");
        reveal_strlit("C");
        reveal_strlit("X");
    }
    let n = label.unicode_len();
    if n == 1 {
        let c = label.get_char(0);
        let u: u32 = c as u32;
        proof {
            assert(label@ =~= seq![c]);
        }
        if (48 <= u && u <= 57) || c == '.' {
            proof {
                if c == '.' {
                    assert(label@ =~= "."@);
                }
            }
            calc.input_digit(label);
        } else if c == '+' {
            proof {
                assert(label@ =~= "+"@);
            }
            calc.set_operator('+');
        } else if c == '-' {
            proof {
                assert(label@ =~= "-"@);
            }
            calc.set_operator('-');
        } else if c == '*' {
            proof {
                assert(label@ =~= "*"@);
            }
            calc.set_operator('*');
        } else if c == '/' {
            proof {
                assert(label@ =~= "/"@);
            }
            calc.set_operator('/');
        } else if c == '=' {
            proof {
                assert(label@ =~= "="@);
            }
            let _ = calc.evaluate();
        } else if c == 'C' {
            proof {
                assert(label@ =~= "C"@);
            }
            calc.clear();
        } else if c == 'X' {
            proof {
                assert(label@ =~= "X"@);
            }
            calc.backspace();
        }
    }
    calc.display()
}

/// Law: on a token without a decimal point, typing a point appends exactly
/// one, and typing a second point right after changes nothing.
pub proof fn lemma_dot_once(v: CalcView)
    requires
        !has_dot(v.current),
    ensures
        spec_input_digit(v, seq!['.']).current == v.current.push('.'),
        has_dot(spec_input_digit(v, seq!['.']).current),
        spec_input_digit(spec_input_digit(v, seq!['.']), seq!['.']) == spec_input_digit(
            v,
            seq!['.'],
        ),
{
    let v1 = spec_input_digit(v, seq!['.']);
    assert(v.current + seq!['.'] =~= v.current.push('.'));
    assert(v1.current[v.current.len() as int] == '.');
    assert(has_dot(v1.current));
}

/// Law: evaluating marks the state just-evaluated, and the next digit
/// starts a fresh number: the display token becomes that digit alone.
pub proof fn lemma_digit_after_evaluate(v: CalcView, d: Seq<char>)
    requires
        is_digit_seq(d),
    ensures
        spec_evaluate(v).just_evaluated,
        spec_input_digit(spec_evaluate(v), d).current == d,
        spec_input_digit(spec_evaluate(v), d).acc == 0,
        spec_input_digit(spec_evaluate(v), d).op is None,
        spec_display(spec_input_digit(spec_evaluate(v), d)) == d,
{
    assert(d[0] != '.');
    assert(!(d == seq!['.'])) by {
        if d == seq!['.'] {
            assert(d[0] == '.');
        }
    }
    assert(Seq::<char>::empty() + d =~= d);
}

/// Law: backspace on an empty token changes nothing: not the token, not
/// the accumulator, not the pending operator.
pub proof fn lemma_backspace_empty(v: CalcView)
    requires
        v.current.len() == 0,
    ensures
        spec_backspace(v) == v,
{
}

} // verus!
