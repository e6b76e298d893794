//! The text forms of numbers and values that go into the capture log.
use vstd::prelude::*;
use crate::utf16::push_char;
use crate::values::{LogValue, LogValueView};

verus! {

/// The character of a decimal digit.
pub open spec fn digit_char(d: int) -> char {
    if d == 0 {
        '0'
    } else if d == 1 {
        '1'
    } else if d == 2 {
        '2'
    } else if d == 3 {
        '3'
    } else if d == 4 {
        '4'
    } else if d == 5 {
        '5'
    } else if d == 6 {
        '6'
    } else if d == 7 {
        '7'
    } else if d == 8 {
        '8'
    } else {
        '9'
    }
}

/// The decimal digits of a natural number, without leading zeros.
pub open spec fn nat_decimal(n: nat) -> Seq<char>
    decreases n,
{
    if n < 10 {
        seq![digit_char(n as int)]
    } else {
        nat_decimal(n / 10).push(digit_char((n % 10) as int))
    }
}

/// The decimal form of an integer, with a leading '-' when negative.
pub open spec fn int_decimal(v: int) -> Seq<char> {
    if v < 0 {
        seq!['-'] + nat_decimal((-v) as nat)
    } else {
        nat_decimal(v as nat)
    }
}

fn digit(d: u64) -> (c: char)
    requires
        d < 10,
    ensures
        c == digit_char(d as int),
{
    if d == 0 {
        '0'
    } else if d == 1 {
        '1'
    } else if d == 2 {
        '2'
    } else if d == 3 {
        '3'
    } else if d == 4 {
        '4'
    } else if d == 5 {
        '5'
    } else if d == 6 {
        '6'
    } else if d == 7 {
        '7'
    } else if d == 8 {
        '8'
    } else {
        '9'
    }
}

fn push_decimal(out: &mut String, n: u64)
    ensures
        final(out)@ == old(out)@ + nat_decimal(n as nat),
    decreases n,
{
    if n >= 10 {
        push_decimal(out, n / 10);
    }
    push_char(out, digit(n % 10));
    assert(final(out)@ =~= old(out)@ + nat_decimal(n as nat));
}

/// The decimal form of an unsigned number.
pub fn u64_decimal(n: u64) -> (s: String)
    ensures
        s@ == nat_decimal(n as nat),
{
    let mut s = String::new();
    push_decimal(&mut s, n);
    assert(s@ =~= nat_decimal(n as nat));
    s
}

/// The decimal form of a signed number.
pub fn i64_decimal(v: i64) -> (s: String)
    ensures
        s@ == int_decimal(v as int),
{
    let mut s = String::new();
    if v < 0 {
        push_char(&mut s, '-');
        let magnitude: u64 = ((-(v + 1)) as u64) + 1;
        push_decimal(&mut s, magnitude);
    } else {
        push_decimal(&mut s, v as u64);
    }
    assert(s@ =~= int_decimal(v as int));
    s
}

/// The text that `{:?}` formats a string as: quoted, with escapes.
pub uninterp spec fn debug_str_text(s: Seq<char>) -> Seq<char>;

/// Formats a string with `{:?}` (std's `Debug` for `str`). The contract
/// claims only that the text is a function of the string.
#[verifier::external_body]
fn debug_str(s: &str) -> (t: String)
    ensures
        t@ == debug_str_text(s@),
{
    format!("{:?}", s)
}

/// The text of a recorded value in debug form, as a column value prints:
/// `Null`, `Integer(n)` or `Text("...")`.
pub open spec fn value_debug_text(v: LogValueView) -> Seq<char> {
    match v {
        LogValueView::Null => "Null"@,
        LogValueView::Integer(i) => "Integer("@ + int_decimal(i as int) + ")"@,
        LogValueView::Text(t) => "Text("@ + debug_str_text(t) + ")"@,
    }
}

/// The debug form of a value names its kind first: `Null` for no value,
/// and `Integer(` or `Text(` before the value itself; so values of
/// different kinds never share a debug form.
pub proof fn lemma_value_debug_kind(v: LogValueView)
    ensures
        v is Null <==> value_debug_text(v) == "Null"@,
        v is Integer <==> "Integer("@.is_prefix_of(value_debug_text(v)),
        v is Text <==> "Text("@.is_prefix_of(value_debug_text(v)),
{
    reveal_strlit("Null");
    reveal_strlit("Integer(");
    reveal_strlit("Text(");
    let d = value_debug_text(v);
    match v {
        LogValueView::Null => {
            assert(!"Integer("@.is_prefix_of(d));
            assert(d[0] == 'N');
            assert(!"Text("@.is_prefix_of(d)) by {
                if "Text("@.is_prefix_of(d) {
                    assert(d.subrange(0, 5)[0] == d[0]);
                }
            }
        },
        LogValueView::Integer(i) => {
            assert(d[0] == 'I');
            assert(d.subrange(0, 8) =~= "Integer("@);
            assert(d != "Null"@);
            assert(!"Text("@.is_prefix_of(d)) by {
                if "Text("@.is_prefix_of(d) {
                    assert(d.subrange(0, 5)[0] == d[0]);
                }
            }
        },
        LogValueView::Text(t) => {
            assert(d[0] == 'T');
            assert(d.subrange(0, 5) =~= "Text("@);
            assert(d != "Null"@);
            assert(!"Integer("@.is_prefix_of(d)) by {
                if "Integer("@.is_prefix_of(d) {
                    assert(d.subrange(0, 8)[0] == d[0]);
                }
            }
        },
    }
}

/// The debug form of a recorded value.
pub fn value_debug(v: &LogValue) -> (t: String)
    ensures
        t@ == value_debug_text(v@),
{
    match v {
        LogValue::Null => String::from_str("Null"),
        LogValue::Integer(i) => {
            let mut t = String::from_str("Integer(");
            t.append(i64_decimal(*i).as_str());
            t.append(")");
            t
        },
        LogValue::Text(s) => {
            let mut t = String::from_str("Text(");
            t.append(debug_str(s.as_str()).as_str());
            t.append(")");
            t
        },
    }
}

} // verus!
