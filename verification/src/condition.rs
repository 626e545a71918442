//! Conditions: one comparison between two terms, evaluated against the
//! variables. A condition that cannot be evaluated is false.

use crate::model::{SpecValue, Value, VarMap};
use crate::text::{chars_of, decimal_value, is_digit, parse_decimal, same_text, substring, trim_range, trimmed};
use vstd::prelude::*;
use vstd::string::*;

verus! {

/// The comparison operators.
#[derive(Debug, Clone, Copy, PartialEq, Eq, Structural)]
pub enum CompareOp {
    /// `>=`
    Ge,
    /// `<=`
    Le,
    /// `==`
    EqEq,
    /// `!=`
    Ne,
    /// `>`
    Gt,
    /// `<`
    Lt,
}

/// The number of characters that an operator takes.
pub open spec fn op_width(op: CompareOp) -> int {
    match op {
        CompareOp::Gt | CompareOp::Lt => 1,
        _ => 2,
    }
}

/// Whether `expr` holds `a` at index `i` and `b` right behind it.
pub open spec fn two_at(expr: Seq<char>, i: int, a: char, b: char) -> bool {
    0 <= i && i + 1 < expr.len() && expr[i] == a && expr[i + 1] == b
}

/// The operator that starts at index `i`: one of two characters where there
/// is one, else one of a single character.
pub open spec fn op_at(expr: Seq<char>, i: int) -> Option<CompareOp> {
    if two_at(expr, i, '>', '=') {
        Some(CompareOp::Ge)
    } else if two_at(expr, i, '<', '=') {
        Some(CompareOp::Le)
    } else if two_at(expr, i, '=', '=') {
        Some(CompareOp::EqEq)
    } else if two_at(expr, i, '!', '=') {
        Some(CompareOp::Ne)
    } else if 0 <= i < expr.len() && expr[i] == '>' {
        Some(CompareOp::Gt)
    } else if 0 <= i < expr.len() && expr[i] == '<' {
        Some(CompareOp::Lt)
    } else {
        None
    }
}

/// The first operator of `expr` at or behind index `i`, with its index.
pub open spec fn first_op(expr: Seq<char>, i: int) -> Option<(int, CompareOp)>
    decreases expr.len() - i,
{
    if 0 <= i < expr.len() {
        match op_at(expr, i) {
            Some(op) => Some((i, op)),
            None => first_op(expr, i + 1),
        }
    } else {
        None
    }
}

/// Whether `s` is the word `true`, in any case.
pub open spec fn is_true_word(s: Seq<char>) -> bool {
    &&& s.len() == 4
    &&& (s[0] == 't' || s[0] == 'T')
    &&& (s[1] == 'r' || s[1] == 'R')
    &&& (s[2] == 'u' || s[2] == 'U')
    &&& (s[3] == 'e' || s[3] == 'E')
}

/// Whether `s` is the word `false`, in any case.
pub open spec fn is_false_word(s: Seq<char>) -> bool {
    &&& s.len() == 5
    &&& (s[0] == 'f' || s[0] == 'F')
    &&& (s[1] == 'a' || s[1] == 'A')
    &&& (s[2] == 'l' || s[2] == 'L')
    &&& (s[3] == 's' || s[3] == 'S')
    &&& (s[4] == 'e' || s[4] == 'E')
}

/// Whether every character of `s` is a digit.
pub open spec fn all_digits(s: Seq<char>) -> bool {
    forall|k: int| 0 <= k < s.len() ==> is_digit(#[trigger] s[k])
}

/// The whole number that `s` writes: an optional sign, then one digit or
/// more, where the number fits in 64 bits.
pub open spec fn spec_integer(s: Seq<char>) -> Option<i64> {
    let signed = s.len() > 0 && (s[0] == '-' || s[0] == '+');
    let digits = if signed {
        s.skip(1)
    } else {
        s
    };
    let value: int = if s.len() > 0 && s[0] == '-' {
        -(decimal_value(digits) as int)
    } else {
        decimal_value(digits) as int
    };
    if digits.len() > 0 && all_digits(digits) && i64::MIN <= value <= i64::MAX {
        Some(value as i64)
    } else {
        None
    }
}

/// Whether `s` stands between two double quotes, or two single ones.
pub open spec fn is_quoted(s: Seq<char>) -> bool {
    s.len() >= 2 && ((s[0] == '"' && s.last() == '"') || (s[0] == '\'' && s.last() == '\''))
}

/// The value of a term: `true` or `false` in any case, a whole number, a
/// quoted text without its quotes, or else the value of the variable of
/// that name.
pub open spec fn read_term(vars: Map<Seq<char>, SpecValue>, s: Seq<char>) -> Option<SpecValue> {
    if is_true_word(s) {
        Some(SpecValue::Bool(true))
    } else if is_false_word(s) {
        Some(SpecValue::Bool(false))
    } else if spec_integer(s) is Some {
        Some(SpecValue::Num(spec_integer(s)->0))
    } else if is_quoted(s) {
        Some(SpecValue::Str(s.subrange(1, s.len() - 1)))
    } else if vars.contains_key(s) {
        Some(vars[s])
    } else {
        None
    }
}

/// Whether two values are of one kind.
pub open spec fn same_kind(a: SpecValue, b: SpecValue) -> bool {
    match (a, b) {
        (SpecValue::Bool(_), SpecValue::Bool(_)) => true,
        (SpecValue::Num(_), SpecValue::Num(_)) => true,
        (SpecValue::Str(_), SpecValue::Str(_)) => true,
        _ => false,
    }
}

/// The comparison of two terms: equality and inequality hold between two
/// values of one kind, the orderings between two numbers; a term without a
/// value, or any other pair, compares false.
pub open spec fn compare(op: CompareOp, left: Option<SpecValue>, right: Option<SpecValue>) -> bool {
    match (left, right) {
        (Some(a), Some(b)) => match op {
            CompareOp::EqEq => same_kind(a, b) && a == b,
            CompareOp::Ne => same_kind(a, b) && a != b,
            CompareOp::Ge => a matches SpecValue::Num(x) && b matches SpecValue::Num(y) && x >= y,
            CompareOp::Le => a matches SpecValue::Num(x) && b matches SpecValue::Num(y) && x <= y,
            CompareOp::Gt => a matches SpecValue::Num(x) && b matches SpecValue::Num(y) && x > y,
            CompareOp::Lt => a matches SpecValue::Num(x) && b matches SpecValue::Num(y) && x < y,
        },
        _ => false,
    }
}

/// Whether a condition holds: the text is split at its first operator, both
/// sides are trimmed and read as terms, and the terms are compared. A text
/// without an operator is false.
pub open spec fn spec_eval(vars: Map<Seq<char>, SpecValue>, expr: Seq<char>) -> bool {
    match first_op(expr, 0) {
        Some((idx, op)) => compare(
            op,
            read_term(vars, trimmed(expr, 0, idx)),
            read_term(vars, trimmed(expr, idx + op_width(op), expr.len() as int)),
        ),
        None => false,
    }
}

/// The text in front of the first operator of a condition, trimmed.
pub open spec fn spec_lhs_ident(expr: Seq<char>) -> Option<Seq<char>> {
    match first_op(expr, 0) {
        Some((idx, _)) => Some(trimmed(expr, 0, idx)),
        None => None,
    }
}

fn has_two(chars: &Vec<char>, i: usize, a: char, b: char) -> (r: bool)
    requires
        i < chars.len(),
    ensures
        r == two_at(chars@, i as int, a, b),
{
    i + 1 < chars.len() && chars[i] == a && chars[i + 1] == b
}

fn op_here(chars: &Vec<char>, i: usize) -> (r: Option<CompareOp>)
    requires
        i < chars.len(),
    ensures
        r == op_at(chars@, i as int),
{
    if has_two(chars, i, '>', '=') {
        Some(CompareOp::Ge)
    } else if has_two(chars, i, '<', '=') {
        Some(CompareOp::Le)
    } else if has_two(chars, i, '=', '=') {
        Some(CompareOp::EqEq)
    } else if has_two(chars, i, '!', '=') {
        Some(CompareOp::Ne)
    } else if chars[i] == '>' {
        Some(CompareOp::Gt)
    } else if chars[i] == '<' {
        Some(CompareOp::Lt)
    } else {
        None
    }
}

fn find_op(chars: &Vec<char>) -> (r: Option<(usize, CompareOp)>)
    ensures
        match r {
            Some((idx, op)) => first_op(chars@, 0) == Some((idx as int, op)) && idx + op_width(op) <= chars.len(),
            None => first_op(chars@, 0) is None,
        },
{
    let mut i: usize = 0;
    while i < chars.len()
        invariant
            0 <= i <= chars.len(),
            first_op(chars@, 0) == first_op(chars@, i as int),
        decreases chars.len() - i,
    {
        match op_here(chars, i) {
            Some(op) => {
                return Some((i, op));
            },
            None => {},
        }
        i = i + 1;
    }
    None
}

fn parse_integer(chars: &Vec<char>, lo: usize, hi: usize) -> (r: Option<i64>)
    requires
        lo <= hi <= chars.len(),
    ensures
        r == spec_integer(chars@.subrange(lo as int, hi as int)),
{
    let ghost s = chars@.subrange(lo as int, hi as int);
    let negative = lo < hi && chars[lo] == '-';
    let signed = lo < hi && (chars[lo] == '-' || chars[lo] == '+');
    let from: usize = if signed {
        lo + 1
    } else {
        lo
    };
    let ghost digits = chars@.subrange(from as int, hi as int);
    proof {
        if signed {
            assert(s.skip(1) =~= digits);
        } else {
            assert(s =~= digits);
        }
    }
    if from >= hi {
        return None;
    }
    let mut k: usize = from;
    while k < hi
        invariant
            from <= k <= hi <= chars.len(),
            digits == chars@.subrange(from as int, hi as int),
            s == chars@.subrange(lo as int, hi as int),
            signed == (s.len() > 0 && (s[0] == '-' || s[0] == '+')),
            signed ==> s.skip(1) == digits,
            !signed ==> s == digits,
            forall|j: int| from <= j < k ==> is_digit(#[trigger] chars@[j]),
        decreases hi - k,
    {
        let c = chars[k];
        if !('0' <= c && c <= '9') {
            proof {
                assert(!is_digit(digits[k - from]));
            }
            return None;
        }
        k = k + 1;
    }
    proof {
        assert forall|j: int| 0 <= j < digits.len() implies is_digit(#[trigger] digits[j]) by {
            assert(is_digit(chars@[from + j]));
        }
    }
    if negative {
        match parse_decimal(chars, from, hi, 0x8000_0000_0000_0000) {
            Some(v) => {
                if v == 0x8000_0000_0000_0000 {
                    Some(i64::MIN)
                } else {
                    Some(-(v as i64))
                }
            },
            None => None,
        }
    } else {
        match parse_decimal(chars, from, hi, 0x7fff_ffff_ffff_ffff) {
            Some(v) => Some(v as i64),
            None => None,
        }
    }
}

fn term_value(vars: &VarMap, chars: &Vec<char>, lo: usize, hi: usize) -> (r: Option<Value>)
    requires
        lo <= hi <= chars.len(),
    ensures
        match r {
            Some(v) => read_term(vars@, chars@.subrange(lo as int, hi as int)) == Some(v@),
            None => read_term(vars@, chars@.subrange(lo as int, hi as int)) is None,
        },
{
    let ghost s = chars@.subrange(lo as int, hi as int);
    let n = hi - lo;
    if n == 4 && (chars[lo] == 't' || chars[lo] == 'T') && (chars[lo + 1] == 'r' || chars[lo + 1] == 'R') && (
    chars[lo + 2] == 'u' || chars[lo + 2] == 'U') && (chars[lo + 3] == 'e' || chars[lo + 3] == 'E') {
        return Some(Value::Bool(true));
    }
    if n == 5 && (chars[lo] == 'f' || chars[lo] == 'F') && (chars[lo + 1] == 'a' || chars[lo + 1] == 'A') && (
    chars[lo + 2] == 'l' || chars[lo + 2] == 'L') && (chars[lo + 3] == 's' || chars[lo + 3] == 'S') && (chars[lo
        + 4] == 'e' || chars[lo + 4] == 'E') {
        return Some(Value::Bool(false));
    }
    if let Some(v) = parse_integer(chars, lo, hi) {
        return Some(Value::Num(v));
    }
    if n >= 2 && ((chars[lo] == '"' && chars[hi - 1] == '"') || (chars[lo] == '\'' && chars[hi - 1] == '\'')) {
        proof {
            assert(s.subrange(1, s.len() - 1) =~= chars@.subrange(lo + 1, hi - 1));
        }
        return Some(Value::Str(substring(chars, lo + 1, hi - 1)));
    }
    let name = substring(chars, lo, hi);
    match vars.get(name.as_str()) {
        Some(v) => Some(v.clone()),
        None => None,
    }
}

fn compare_values(op: CompareOp, left: &Option<Value>, right: &Option<Value>) -> (r: bool)
    ensures
        r == compare(
            op,
            match *left {
                Some(v) => Some(v@),
                None => None,
            },
            match *right {
                Some(v) => Some(v@),
                None => None,
            },
        ),
{
    match (left, right) {
        (Some(a), Some(b)) => match op {
            CompareOp::EqEq => match (a, b) {
                (Value::Bool(x), Value::Bool(y)) => *x == *y,
                (Value::Num(x), Value::Num(y)) => *x == *y,
                (Value::Str(x), Value::Str(y)) => same_text(x.as_str(), y.as_str()),
                _ => false,
            },
            CompareOp::Ne => match (a, b) {
                (Value::Bool(x), Value::Bool(y)) => *x != *y,
                (Value::Num(x), Value::Num(y)) => *x != *y,
                (Value::Str(x), Value::Str(y)) => !same_text(x.as_str(), y.as_str()),
                _ => false,
            },
            CompareOp::Ge => match (a, b) {
                (Value::Num(x), Value::Num(y)) => *x >= *y,
                _ => false,
            },
            CompareOp::Le => match (a, b) {
                (Value::Num(x), Value::Num(y)) => *x <= *y,
                _ => false,
            },
            CompareOp::Gt => match (a, b) {
                (Value::Num(x), Value::Num(y)) => *x > *y,
                _ => false,
            },
            CompareOp::Lt => match (a, b) {
                (Value::Num(x), Value::Num(y)) => *x < *y,
                _ => false,
            },
        },
        _ => false,
    }
}

/// Evaluates a condition against the variables.
pub fn eval(vars: &VarMap, expr: &str) -> (r: bool)
    ensures
        r == spec_eval(vars@, expr@),
{
    let chars = chars_of(expr);
    match find_op(&chars) {
        Some((idx, op)) => {
            let width: usize = match op {
                CompareOp::Gt | CompareOp::Lt => 1,
                _ => 2,
            };
            let (la, lb) = trim_range(&chars, 0, idx);
            let (ra, rb) = trim_range(&chars, idx + width, chars.len());
            let left = term_value(vars, &chars, la, lb);
            let right = term_value(vars, &chars, ra, rb);
            compare_values(op, &left, &right)
        },
        None => false,
    }
}

/// The text in front of the first operator of a condition, trimmed; `None`
/// where the condition has no operator.
pub fn lhs_ident(expr: &str) -> (r: Option<String>)
    ensures
        match r {
            Some(name) => spec_lhs_ident(expr@) == Some(name@),
            None => spec_lhs_ident(expr@) is None,
        },
{
    let chars = chars_of(expr);
    match find_op(&chars) {
        Some((idx, _)) => {
            let (a, b) = trim_range(&chars, 0, idx);
            Some(substring(&chars, a, b))
        },
        None => None,
    }
}

} // verus!
