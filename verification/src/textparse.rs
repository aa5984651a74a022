//! Parsing of comparison operations from their compact text form
//! `<name> <op> <value>`: a variable name, a comparator symbol and a
//! literal, separated by whitespace. A literal reads as an integer if it
//! can, as a boolean otherwise, and as text failing both — the same
//! priority the engine's typed values use.

use vstd::prelude::*;

use crate::condition::{ComparisonOp, Operation, OperationV};
use crate::errors::{Error, ErrorV};
use crate::variable::{ValueV, Variable};

verus! {

/// The whitespace that separates tokens.
pub open spec fn is_ws(c: char) -> bool {
    c == ' ' || c == '\t' || c == '\r' || c == '\n'
}

/// The first index at or after `i` holding a non-whitespace character, or
/// the length if there is none.
pub open spec fn skip_ws(s: Seq<char>, i: int) -> int
    decreases s.len() - i,
{
    if !(0 <= i < s.len()) {
        s.len() as int
    } else if !is_ws(s[i]) {
        i
    } else {
        skip_ws(s, i + 1)
    }
}

/// The first index at or after `i` holding whitespace, or the length if
/// there is none.
pub open spec fn token_end(s: Seq<char>, i: int) -> int
    decreases s.len() - i,
{
    if !(0 <= i < s.len()) {
        s.len() as int
    } else if is_ws(s[i]) {
        i
    } else {
        token_end(s, i + 1)
    }
}

/// The comparator a symbol denotes, if any.
pub open spec fn cmp_op_of(t: Seq<char>) -> Option<ComparisonOp> {
    if t == "=="@ {
        Some(ComparisonOp::EQ)
    } else if t == "!="@ {
        Some(ComparisonOp::NEQ)
    } else if t == ">"@ {
        Some(ComparisonOp::GT)
    } else if t == ">="@ {
        Some(ComparisonOp::GTE)
    } else if t == "<"@ {
        Some(ComparisonOp::LT)
    } else if t == "<="@ {
        Some(ComparisonOp::LTE)
    } else {
        None
    }
}

/// A decimal digit.
pub open spec fn is_digit(c: char) -> bool {
    '0' <= c <= '9'
}

/// A digit's value.
pub open spec fn digit_val(c: char) -> int {
    c as int - '0' as int
}

/// Whether every character is a decimal digit.
pub open spec fn all_digits(s: Seq<char>) -> bool {
    forall|i: int| 0 <= i < s.len() ==> is_digit(#[trigger] s[i])
}

/// The number a digit string denotes, most significant digit first.
pub open spec fn digits_val(s: Seq<char>) -> int
    decreases s.len(),
{
    if s.len() == 0 {
        0
    } else {
        digits_val(s.drop_last()) * 10 + digit_val(s.last())
    }
}

/// The integer a literal denotes: an optional sign, then digits, in the
/// representable range — or nothing.
pub open spec fn parse_i32_spec(s: Seq<char>) -> Option<int> {
    if s.len() == 0 {
        None
    } else {
        let neg = s[0] == '-';
        let ds = if s[0] == '-' || s[0] == '+' {
            s.drop_first()
        } else {
            s
        };
        if ds.len() == 0 || !all_digits(ds) {
            None
        } else {
            let v = if neg {
                -digits_val(ds)
            } else {
                digits_val(ds)
            };
            if i32::MIN <= v <= i32::MAX {
                Some(v)
            } else {
                None
            }
        }
    }
}

/// The boolean a literal denotes, if any.
pub open spec fn bool_of(t: Seq<char>) -> Option<bool> {
    if t == "true"@ {
        Some(true)
    } else if t == "false"@ {
        Some(false)
    } else {
        None
    }
}

/// The typed value a literal denotes: an integer if it reads as one, a
/// boolean otherwise, and text failing both.
pub open spec fn literal_of(t: Seq<char>) -> ValueV {
    match parse_i32_spec(t) {
        Some(v) => ValueV::Num(v),
        None => match bool_of(t) {
            Some(b) => ValueV::Bool(b),
            None => ValueV::Str(t),
        },
    }
}

/// The operation a line denotes: three whitespace-separated tokens — a
/// name, a comparator symbol and a literal — and nothing else.
pub open spec fn operation_of(s: Seq<char>) -> Option<OperationV> {
    let i0 = skip_ws(s, 0);
    let e0 = token_end(s, i0);
    let i1 = skip_ws(s, e0);
    let e1 = token_end(s, i1);
    let i2 = skip_ws(s, e1);
    let e2 = token_end(s, i2);
    if i0 >= s.len() || i1 >= s.len() || i2 >= s.len() || skip_ws(s, e2) != s.len() {
        None
    } else {
        match cmp_op_of(s.subrange(i1, e1)) {
            None => None,
            Some(op) => Some(
                OperationV {
                    name: s.subrange(i0, e0),
                    op,
                    value: literal_of(s.subrange(i2, e2)),
                },
            ),
        }
    }
}

/// Whether a character is token whitespace.
fn is_ws_char(c: char) -> (r: bool)
    ensures
        r == is_ws(c),
{
    c == ' ' || c == '\t' || c == '\r' || c == '\n'
}

/// Scans past whitespace.
fn skip_ws_at(s: &str, from: usize) -> (r: usize)
    requires
        from <= s@.len(),
    ensures
        r as int == skip_ws(s@, from as int),
        from <= r <= s@.len(),
{
    let n = s.unicode_len();
    let mut i = from;
    while i < n
        invariant
            n == s@.len(),
            from <= i <= n,
            skip_ws(s@, from as int) == skip_ws(s@, i as int),
        decreases n - i,
    {
        if !is_ws_char(s.get_char(i)) {
            return i;
        }
        i = i + 1;
    }
    i
}

/// Scans to the end of a token.
fn token_end_at(s: &str, from: usize) -> (r: usize)
    requires
        from <= s@.len(),
    ensures
        r as int == token_end(s@, from as int),
        from <= r <= s@.len(),
{
    let n = s.unicode_len();
    let mut i = from;
    while i < n
        invariant
            n == s@.len(),
            from <= i <= n,
            token_end(s@, from as int) == token_end(s@, i as int),
        decreases n - i,
    {
        if is_ws_char(s.get_char(i)) {
            return i;
        }
        i = i + 1;
    }
    i
}

impl ComparisonOp {
    /// Reads a comparator from its symbol.
    pub fn from_str(t: &str) -> (r: Option<ComparisonOp>)
        ensures
            r == cmp_op_of(t@),
    {
        let t = String::from_str(t);
        if t == String::from_str("==") {
            Some(ComparisonOp::EQ)
        } else if t == String::from_str("!=") {
            Some(ComparisonOp::NEQ)
        } else if t == String::from_str(">") {
            Some(ComparisonOp::GT)
        } else if t == String::from_str(">=") {
            Some(ComparisonOp::GTE)
        } else if t == String::from_str("<") {
            Some(ComparisonOp::LT)
        } else if t == String::from_str("<=") {
            Some(ComparisonOp::LTE)
        } else {
            None
        }
    }
}

/// Reads a decimal integer with an optional sign, rejecting anything out
/// of the representable range; never wraps.
pub fn parse_i32(s: &str) -> (r: Option<i32>)
    ensures
        match r {
            Some(x) => parse_i32_spec(s@) == Some(x as int),
            None => parse_i32_spec(s@) is None,
        },
{
    let n = s.unicode_len();
    if n == 0 {
        return None;
    }
    let c0 = s.get_char(0);
    let neg = c0 == '-';
    let start: usize = if c0 == '-' || c0 == '+' {
        1
    } else {
        0
    };
    let ghost ds = if c0 == '-' || c0 == '+' {
        s@.drop_first()
    } else {
        s@
    };
    proof {
        assert(ds =~= s@.subrange(start as int, n as int));
    }
    if start >= n {
        return None;
    }
    let limit: i64 = i32::MAX as i64 + 1;
    let mut acc: i64 = 0;
    let mut over = false;
    let mut i = start;
    while i < n
        invariant
            n == s@.len(),
            n > 0,
            start as int == (if s@[0] == '-' || s@[0] == '+' {
                1int
            } else {
                0int
            }),
            neg == (s@[0] == '-'),
            start < n,
            start <= i <= n,
            ds == s@.subrange(start as int, n as int),
            ds == (if s@[0] == '-' || s@[0] == '+' {
                s@.drop_first()
            } else {
                s@
            }),
            forall|j: int| start <= j < i ==> is_digit(#[trigger] s@[j]),
            limit == i32::MAX as i64 + 1,
            !over ==> 0 <= acc <= limit && acc == digits_val(
                s@.subrange(start as int, i as int),
            ),
            over ==> digits_val(s@.subrange(start as int, i as int)) > limit,
        decreases n - i,
    {
        let c = s.get_char(i);
        if !(('0' <= c) && (c <= '9')) {
            proof {
                assert(ds[i - start] == s@[i as int]);
                assert(!all_digits(ds));
            }
            return None;
        }
        let d: i64 = (c as u32 as i64) - ('0' as u32 as i64);
        proof {
            assert(s@.subrange(start as int, i + 1).drop_last() =~= s@.subrange(
                start as int,
                i as int,
            ));
            assert(s@.subrange(start as int, i + 1).last() == s@[i as int]);
        }
        if !over {
            acc = acc * 10 + d;
            if acc > limit {
                over = true;
            }
        } else {
            proof {
                let prev = digits_val(s@.subrange(start as int, i as int));
                assert(digits_val(s@.subrange(start as int, i + 1)) == prev * 10 + digit_val(
                    s@[i as int],
                ));
                assert(prev * 10 + digit_val(s@[i as int]) > limit);
            }
        }
        i = i + 1;
    }
    proof {
        assert(s@.subrange(start as int, n as int) =~= ds);
        assert(all_digits(ds)) by {
            assert forall|j: int| 0 <= j < ds.len() implies is_digit(#[trigger] ds[j]) by {
                assert(ds[j] == s@[start + j]);
            }
        }
    }
    if over {
        None
    } else if neg {
        if acc == limit {
            Some(i32::MIN)
        } else {
            Some(-(acc as i32))
        }
    } else {
        if acc > i32::MAX as i64 {
            None
        } else {
            Some(acc as i32)
        }
    }
}

/// Reads a boolean literal.
pub fn parse_bool(t: &str) -> (r: Option<bool>)
    ensures
        r == bool_of(t@),
{
    let t = String::from_str(t);
    if t == String::from_str("true") {
        Some(true)
    } else if t == String::from_str("false") {
        Some(false)
    } else {
        None
    }
}

/// Reads a literal as a typed value: an integer if it reads as one, a
/// boolean otherwise, and text failing both.
pub fn parse_literal(t: &str) -> (r: Variable)
    ensures
        r@ == literal_of(t@),
{
    match parse_i32(t) {
        Some(x) => Variable::Num(x),
        None => match parse_bool(t) {
            Some(b) => Variable::Bool(b),
            None => Variable::Str(t.to_owned()),
        },
    }
}

impl Operation {
    /// Reads an operation from its compact text form: a variable name, a
    /// comparator symbol and a literal value, separated by whitespace.
    pub fn from_str(s: &str) -> (r: Result<Operation, Error>)
        ensures
            match r {
                Ok(o) => operation_of(s@) == Some(o@),
                Err(e) => operation_of(s@) is None && e@ matches ErrorV::Unexpected(_),
            },
    {
        let n = s.unicode_len();
        let i0 = skip_ws_at(s, 0);
        let e0 = token_end_at(s, i0);
        let i1 = skip_ws_at(s, e0);
        let e1 = token_end_at(s, i1);
        let i2 = skip_ws_at(s, e1);
        let e2 = token_end_at(s, i2);
        if i0 >= n || i1 >= n || i2 >= n || skip_ws_at(s, e2) != n {
            return Err(
                Error::unexpected("a string not of the form \"<name> <op> <value>\""),
            );
        }
        let op = match ComparisonOp::from_str(s.substring_char(i1, e1)) {
            Some(op) => op,
            None => {
                return Err(Error::unexpected("an unknown comparison operator"));
            },
        };
        let name = String::from_str(s.substring_char(i0, e0));
        let value = parse_literal(s.substring_char(i2, e2));
        Ok(Operation { name, op, value })
    }
}

} // verus!
