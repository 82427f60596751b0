//! The tagged property value: text, boolean, 32-bit integer, float literal,
//! or nothing.
//!
//! Parsing from text is total: it tries a boolean literal, then a 32-bit
//! integer literal, then a 64-bit float literal, and falls back to text.
//! A float value is kept as the literal text it was parsed from, so that
//! values stay plain data; rendering emits that text bare.

use vstd::prelude::*;
use vstd::string::StrSliceExecFns;
use vstd::string::StringExecFns;

verus! {

/// A tagged property value.
#[derive(Debug, Clone, PartialEq)]
pub enum Value {
    /// Free text; rendered quoted.
    Text(String),
    /// A boolean; rendered as `true` / `false`.
    Bool(bool),
    /// A 32-bit integer; rendered as a bare numeral.
    Int(i32),
    /// A 64-bit float literal, kept as the text it was parsed from;
    /// rendered bare.
    Float(String),
    /// No value; rendered as the literal null token.
    Nothing,
}

/// The mathematical shape of a `Value`.
pub enum ValV {
    Text(Seq<char>),
    Bool(bool),
    Int(i32),
    Float(Seq<char>),
    Nothing,
}

impl View for Value {
    type V = ValV;

    open spec fn view(&self) -> ValV {
        match self {
            Value::Text(s) => ValV::Text(s@),
            Value::Bool(b) => ValV::Bool(*b),
            Value::Int(i) => ValV::Int(*i),
            Value::Float(s) => ValV::Float(s@),
            Value::Nothing => ValV::Nothing,
        }
    }
}

// ---------------------------------------------------------------------
// Decimal rendering of 32-bit integers.
// ---------------------------------------------------------------------

pub open spec fn dec_digit(d: int) -> char {
    if d == 0 {
        '0'
    } else if d == 1 {
        '1'
    } else if d == 2 {
        '2'
    } else if d == 3 {
        '3'
    } else if d == 4 {
        '4'
    } else if d == 5 {
        '5'
    } else if d == 6 {
        '6'
    } else if d == 7 {
        '7'
    } else if d == 8 {
        '8'
    } else {
        '9'
    }
}

/// The decimal digits of a non-negative number.
pub open spec fn dec_str(n: int) -> Seq<char>
    decreases n,
{
    if n < 10 {
        seq![dec_digit(n)]
    } else {
        dec_str(n / 10) + seq![dec_digit(n % 10)]
    }
}

/// A 32-bit integer rendered in decimal, with a leading minus sign when
/// negative.
pub open spec fn int_str(n: int) -> Seq<char> {
    if n < 0 {
        seq!['-'] + dec_str(-n)
    } else {
        dec_str(n)
    }
}

fn digit_str(d: u32) -> (r: &'static str)
    requires
        d < 10,
    ensures
        r@ == seq![dec_digit(d as int)],
{
    let r: &'static str = match d {
        0 => "0",
        1 => "1",
        2 => "2",
        3 => "3",
        4 => "4",
        5 => "5",
        6 => "6",
        7 => "7",
        8 => "8",
        _ => "9",
    };
    proof {
        reveal_strlit("0");
        reveal_strlit("1");
        reveal_strlit("2");
        reveal_strlit("3");
        reveal_strlit("4");
        reveal_strlit("5");
        reveal_strlit("6");
        reveal_strlit("7");
        reveal_strlit("8");
        reveal_strlit("9");
        assert(r@ =~= seq![dec_digit(d as int)]);
    }
    r
}

fn u32_str(n: u32) -> (r: String)
    ensures
        r@ == dec_str(n as int),
    decreases n,
{
    if n < 10 {
        String::from_str(digit_str(n))
    } else {
        let mut s = u32_str(n / 10);
        s.append(digit_str(n % 10));
        s
    }
}

fn i32_str(n: i32) -> (r: String)
    ensures
        r@ == int_str(n as int),
{
    if n < 0 {
        let mag: u32 = if n == i32::MIN {
            2147483648u32
        } else {
            (-n) as u32
        };
        let mut s = String::from_str("-");
        proof {
            reveal_strlit("-");
            assert(s@ =~= seq!['-']);
        }
        let digits = u32_str(mag);
        s.append(digits.as_str());
        s
    } else {
        u32_str(n as u32)
    }
}

// ---------------------------------------------------------------------
// Rendering.
// ---------------------------------------------------------------------

/// How a value is rendered: text quoted, boolean and numbers bare, nothing
/// as the null token.
pub open spec fn value_str(v: ValV) -> Seq<char> {
    match v {
        ValV::Text(s) => seq!['"'] + s + seq!['"'],
        ValV::Bool(b) => if b {
            "true"@
        } else {
            "false"@
        },
        ValV::Int(i) => int_str(i as int),
        ValV::Float(s) => s,
        ValV::Nothing => "null"@,
    }
}

// ---------------------------------------------------------------------
// Parsing.
// ---------------------------------------------------------------------

pub open spec fn is_digit(c: char) -> bool {
    48 <= c as u32 <= 57
}

pub open spec fn digit_of(c: char) -> int {
    c as u32 - 48
}

/// Every character in `s[lo..hi)` is a decimal digit.
pub open spec fn digits_in(s: Seq<char>, lo: int, hi: int) -> bool {
    forall|i: int| lo <= i < hi ==> is_digit(s[i])
}

/// The number denoted by a sequence of decimal digits.
pub open spec fn digits_val(s: Seq<char>) -> int
    decreases s.len(),
{
    if s.len() == 0 {
        0
    } else {
        digits_val(s.drop_last()) * 10 + digit_of(s.last())
    }
}

/// The digits of `s` with one leading `+` or `-` removed.
pub open spec fn unsigned_part(s: Seq<char>) -> Seq<char> {
    if s.len() > 0 && (s[0] == '+' || s[0] == '-') {
        s.drop_first()
    } else {
        s
    }
}

pub open spec fn has_minus(s: Seq<char>) -> bool {
    s.len() > 0 && s[0] == '-'
}

/// A 32-bit integer literal: an optional sign, one or more digits, and a
/// value within the 32-bit signed range.
pub open spec fn is_i32_literal(s: Seq<char>) -> bool {
    let d = unsigned_part(s);
    d.len() > 0 && digits_in(d, 0, d.len() as int) && ({
        let v = if has_minus(s) {
            -digits_val(d)
        } else {
            digits_val(d)
        };
        -2147483648 <= v <= 2147483647
    })
}

/// The value of a 32-bit integer literal.
pub open spec fn i32_literal_value(s: Seq<char>) -> int {
    if has_minus(s) {
        -digits_val(unsigned_part(s))
    } else {
        digits_val(unsigned_part(s))
    }
}

proof fn lemma_digits_val_nonneg(s: Seq<char>)
    requires
        digits_in(s, 0, s.len() as int),
    ensures
        digits_val(s) >= 0,
    decreases s.len(),
{
    if s.len() > 0 {
        lemma_digits_val_nonneg(s.drop_last());
    }
}

/// The ASCII code of `c` with upper-case letters folded to lower case.
pub open spec fn lower_code(c: char) -> u32 {
    if 65 <= c as u32 <= 90 {
        ((c as u32) + 32) as u32
    } else {
        c as u32
    }
}

/// `s[lo..hi)` equals `pat` up to ASCII case.
pub open spec fn ci_window(s: Seq<char>, lo: int, hi: int, pat: Seq<char>) -> bool {
    hi - lo == pat.len() && forall|i: int|
        0 <= i < pat.len() ==> lower_code(s[lo + i]) == lower_code(pat[i])
}

pub open spec fn is_exp_char(c: char) -> bool {
    c == 'e' || c == 'E'
}

/// The digits-and-optional-dot part of a float literal: either plain
/// digits, or digits around a single dot with at least one digit present.
pub open spec fn mantissa_ok(s: Seq<char>, lo: int, hi: int) -> bool {
    (hi > lo && digits_in(s, lo, hi)) || (exists|j: int|
        lo <= j < hi && s[j] == '.' && hi - lo > 1 && digits_in(s, lo, j) && digits_in(
            s,
            j + 1,
            hi,
        ))
}

/// The part after the exponent marker: an optional sign and one or more
/// digits.
pub open spec fn exponent_ok(s: Seq<char>, lo: int, hi: int) -> bool {
    let l2 = if lo < hi && (s[lo] == '+' || s[lo] == '-') {
        lo + 1
    } else {
        lo
    };
    hi > l2 && digits_in(s, l2, hi)
}

/// A decimal number with an optional exponent part.
pub open spec fn number_ok(s: Seq<char>, lo: int, hi: int) -> bool {
    mantissa_ok(s, lo, hi) || (exists|e: int|
        lo <= e < hi && is_exp_char(s[e]) && mantissa_ok(s, lo, e) && exponent_ok(s, e + 1, hi))
}

/// The case-insensitive special float words.
pub open spec fn special_ok(s: Seq<char>, lo: int, hi: int) -> bool {
    ci_window(s, lo, hi, "inf"@) || ci_window(s, lo, hi, "infinity"@) || ci_window(
        s,
        lo,
        hi,
        "nan"@,
    )
}

/// A 64-bit float literal: an optional sign, then `inf`, `infinity` or
/// `nan` in any case, or a decimal number with an optional exponent.
pub open spec fn is_float_literal(s: Seq<char>) -> bool {
    let lo: int = if s.len() > 0 && (s[0] == '+' || s[0] == '-') {
        1
    } else {
        0
    };
    special_ok(s, lo, s.len() as int) || number_ok(s, lo, s.len() as int)
}

/// What parsing text yields: a boolean literal, else a 32-bit integer
/// literal, else a float literal kept as text, else the text itself.
pub open spec fn value_of_text(s: Seq<char>) -> ValV {
    if s == "true"@ {
        ValV::Bool(true)
    } else if s == "false"@ {
        ValV::Bool(false)
    } else if is_i32_literal(s) {
        ValV::Int(i32_literal_value(s) as i32)
    } else if is_float_literal(s) {
        ValV::Float(s)
    } else {
        ValV::Text(s)
    }
}

pub(crate) fn str_equal(a: &str, b: &str) -> (r: bool)
    ensures
        r == (a@ == b@),
{
    let sa = a.to_owned();
    let sb = b.to_owned();
    sa == sb
}

/// Checks that every character of `s[lo..hi)` is a digit.
fn digits_between(s: &str, lo: usize, hi: usize) -> (r: bool)
    requires
        lo <= hi <= s@.len(),
    ensures
        r == digits_in(s@, lo as int, hi as int),
{
    let mut i: usize = lo;
    while i < hi
        invariant
            lo <= i <= hi <= s@.len(),
            digits_in(s@, lo as int, i as int),
        decreases hi - i,
    {
        let c = s.get_char(i);
        let u = c as u32;
        if u < 48 || u > 57 {
            assert(!is_digit(s@[i as int]));
            return false;
        }
        i = i + 1;
    }
    true
}

/// Compares `s[lo..hi)` with `pat`, folding ASCII case.
fn ci_match(s: &str, lo: usize, hi: usize, pat: &str) -> (r: bool)
    requires
        lo <= hi <= s@.len(),
    ensures
        r == ci_window(s@, lo as int, hi as int, pat@),
{
    let m = pat.unicode_len();
    if hi - lo != m {
        return false;
    }
    let mut i: usize = 0;
    while i < m
        invariant
            i <= m,
            m == pat@.len(),
            lo <= hi <= s@.len(),
            hi - lo == m,
            forall|j: int| 0 <= j < i ==> lower_code(s@[lo + j]) == lower_code(pat@[j]),
        decreases m - i,
    {
        let a = s.get_char(lo + i) as u32;
        let b = pat.get_char(i) as u32;
        let la: u32 = if 65 <= a && a <= 90 {
            a + 32
        } else {
            a
        };
        let lb: u32 = if 65 <= b && b <= 90 {
            b + 32
        } else {
            b
        };
        if la != lb {
            assert(lower_code(s@[lo + i]) != lower_code(pat@[i as int]));
            return false;
        }
        i = i + 1;
    }
    true
}

/// The first `.` at or after `lo` and before `hi`, or `hi` if there is none.
fn find_first_dot(s: &str, lo: usize, hi: usize) -> (r: usize)
    requires
        lo <= hi <= s@.len(),
    ensures
        lo <= r <= hi,
        r < hi ==> s@[r as int] == '.',
        forall|j: int| lo <= j < r ==> s@[j] != '.',
{
    let mut i: usize = lo;
    while i < hi
        invariant
            lo <= i <= hi <= s@.len(),
            forall|j: int| lo <= j < i ==> s@[j] != '.',
        decreases hi - i,
    {
        if s.get_char(i) == '.' {
            return i;
        }
        i = i + 1;
    }
    hi
}

/// The first exponent marker at or after `lo` and before `hi`, or `hi` if
/// there is none.
fn find_first_exp(s: &str, lo: usize, hi: usize) -> (r: usize)
    requires
        lo <= hi <= s@.len(),
    ensures
        lo <= r <= hi,
        r < hi ==> is_exp_char(s@[r as int]),
        forall|j: int| lo <= j < r ==> !is_exp_char(s@[j]),
{
    let mut i: usize = lo;
    while i < hi
        invariant
            lo <= i <= hi <= s@.len(),
            forall|j: int| lo <= j < i ==> !is_exp_char(s@[j]),
        decreases hi - i,
    {
        let c = s.get_char(i);
        if c == 'e' || c == 'E' {
            return i;
        }
        i = i + 1;
    }
    hi
}

fn mantissa_check(s: &str, lo: usize, hi: usize) -> (r: bool)
    requires
        lo <= hi <= s@.len(),
    ensures
        r == mantissa_ok(s@, lo as int, hi as int),
{
    let j = find_first_dot(s, lo, hi);
    if j == hi {
        // No dot: the dot-split disjunct is impossible.
        let ok = hi > lo && digits_between(s, lo, hi);
        proof {
            if !ok {
                assert forall|j2: int|
                    !(lo <= j2 < hi && s@[j2] == '.' && hi - lo > 1 && digits_in(
                        s@,
                        lo as int,
                        j2,
                    ) && digits_in(s@, j2 + 1, hi as int)) by {}
            }
        }
        ok
    } else {
        let ok = hi - lo > 1 && digits_between(s, lo, j) && digits_between(s, j + 1, hi);
        proof {
            if ok {
                assert(mantissa_ok(s@, lo as int, hi as int)) by {
                    assert(lo <= j < hi && s@[j as int] == '.' && hi - lo > 1 && digits_in(
                        s@,
                        lo as int,
                        j as int,
                    ) && digits_in(s@, j + 1, hi as int));
                }
            } else {
                // Any other candidate dot position fails too: positions
                // before `j` hold no dot, and any later dot leaves the
                // first dot inside a digits-only window.
                assert(!is_digit('.'));
                assert forall|j2: int|
                    !(lo <= j2 < hi && s@[j2] == '.' && hi - lo > 1 && digits_in(
                        s@,
                        lo as int,
                        j2,
                    ) && digits_in(s@, j2 + 1, hi as int)) by {
                    if lo <= j2 < hi && s@[j2] == '.' && j2 > j {
                        if digits_in(s@, lo as int, j2) {
                            assert(is_digit(s@[j as int]));
                        }
                    }
                }
                assert(!(hi > lo && digits_in(s@, lo as int, hi as int))) by {
                    if digits_in(s@, lo as int, hi as int) {
                        assert(is_digit(s@[j as int]));
                    }
                }
            }
        }
        ok
    }
}

fn exponent_check(s: &str, lo: usize, hi: usize) -> (r: bool)
    requires
        lo <= hi <= s@.len(),
    ensures
        r == exponent_ok(s@, lo as int, hi as int),
{
    let l2: usize = if lo < hi {
        let c = s.get_char(lo);
        if c == '+' || c == '-' {
            lo + 1
        } else {
            lo
        }
    } else {
        lo
    };
    hi > l2 && digits_between(s, l2, hi)
}

/// Checks whether the whole text is a float literal.
fn is_float_text(s: &str) -> (r: bool)
    ensures
        r == is_float_literal(s@),
{
    let n = s.unicode_len();
    let lo: usize = if n > 0 {
        let c0 = s.get_char(0);
        if c0 == '+' || c0 == '-' {
            1
        } else {
            0
        }
    } else {
        0
    };
    if ci_match(s, lo, n, "inf") || ci_match(s, lo, n, "infinity") || ci_match(s, lo, n, "nan") {
        proof {
            reveal_strlit("inf");
            reveal_strlit("infinity");
            reveal_strlit("nan");
        }
        return true;
    }
    proof {
        reveal_strlit("inf");
        reveal_strlit("infinity");
        reveal_strlit("nan");
    }
    let e = find_first_exp(s, lo, n);
    if e == n {
        let ok = mantissa_check(s, lo, n);
        proof {
            if !ok {
                assert forall|e2: int|
                    !(lo <= e2 < n && is_exp_char(s@[e2]) && mantissa_ok(s@, lo as int, e2)
                        && exponent_ok(s@, e2 + 1, n as int)) by {}
            }
        }
        ok
    } else {
        let ok = mantissa_check(s, lo, e) && exponent_check(s, e + 1, n);
        proof {
            if ok {
                assert(number_ok(s@, lo as int, n as int)) by {
                    assert(lo <= e < n && is_exp_char(s@[e as int]) && mantissa_ok(
                        s@,
                        lo as int,
                        e as int,
                    ) && exponent_ok(s@, e + 1, n as int));
                }
            } else {
                // A later exponent marker leaves the first one inside the
                // mantissa window, where no exponent marker is allowed.
                assert(!is_digit('e') && !is_digit('E') && 'e' != '.' && 'E' != '.');
                assert forall|e2: int|
                    !(lo <= e2 < n && is_exp_char(s@[e2]) && mantissa_ok(s@, lo as int, e2)
                        && exponent_ok(s@, e2 + 1, n as int)) by {
                    if lo <= e2 < n && is_exp_char(s@[e2]) && e2 > e {
                        if mantissa_ok(s@, lo as int, e2) {
                            lemma_mantissa_no_exp(s@, lo as int, e2, e as int);
                        }
                    }
                }
                assert(!mantissa_ok(s@, lo as int, n as int)) by {
                    if mantissa_ok(s@, lo as int, n as int) {
                        lemma_mantissa_no_exp(s@, lo as int, n as int, e as int);
                    }
                }
            }
        }
        ok
    }
}

/// A character inside a valid mantissa window is never an exponent marker.
proof fn lemma_mantissa_no_exp(s: Seq<char>, lo: int, hi: int, p: int)
    requires
        mantissa_ok(s, lo, hi),
        lo <= p < hi,
    ensures
        !is_exp_char(s[p]),
{
    assert(!is_digit('e') && !is_digit('E') && 'e' != '.' && 'E' != '.');
    if hi > lo && digits_in(s, lo, hi) {
        assert(is_digit(s[p]));
    } else {
        let j = choose|j: int|
            lo <= j < hi && s[j] == '.' && hi - lo > 1 && digits_in(s, lo, j) && digits_in(
                s,
                j + 1,
                hi,
            );
        if p < j {
            assert(is_digit(s[p]));
        } else if p > j {
            assert(is_digit(s[p]));
        }
    }
}

/// Parses a 32-bit integer literal, reporting failure exactly on texts that
/// are not such a literal.
fn parse_i32(s: &str) -> (r: Option<i32>)
    ensures
        r is Some <==> is_i32_literal(s@),
        r is Some ==> r->0 as int == i32_literal_value(s@),
{
    let n = s.unicode_len();
    if n == 0 {
        return None;
    }
    let c0 = s.get_char(0);
    let neg: bool = c0 == '-';
    let start: usize = if c0 == '-' || c0 == '+' {
        1
    } else {
        0
    };
    let ghost d = unsigned_part(s@);
    proof {
        assert(d =~= s@.subrange(start as int, n as int));
    }
    if start >= n {
        return None;
    }
    let mut acc: u64 = 0;
    let mut over: bool = false;
    let mut i: usize = start;
    proof {
        assert(s@.subrange(start as int, start as int) =~= Seq::<char>::empty());
    }
    while i < n
        invariant
            start <= i <= n,
            n == s@.len(),
            d == unsigned_part(s@),
            d =~= s@.subrange(start as int, n as int),
            digits_in(s@, start as int, i as int),
            !over ==> acc <= 0xFFFFFFFFu64 && acc as int == digits_val(
                s@.subrange(start as int, i as int),
            ),
            over ==> digits_val(s@.subrange(start as int, i as int)) > 0xFFFFFFFF,
        decreases n - i,
    {
        let c = s.get_char(i);
        let u = c as u32;
        if u < 48 || u > 57 {
            proof {
                assert(!is_digit(s@[i as int]));
                assert(d[i - start] == s@[i as int]);
                assert(!digits_in(d, 0, d.len() as int));
            }
            return None;
        }
        let ghost prefix = s@.subrange(start as int, i as int);
        let ghost dv = digits_val(prefix);
        proof {
            let full = s@.subrange(start as int, i + 1);
            assert(full.drop_last() =~= prefix);
            assert(full.last() == s@[i as int]);
            lemma_digits_val_nonneg(prefix);
        }
        if !over {
            acc = acc * 10 + ((u - 48) as u64);
            if acc > 0xFFFFFFFF {
                over = true;
            }
        }
        i = i + 1;
    }
    proof {
        assert(s@.subrange(start as int, n as int) =~= d);
        assert(digits_in(d, 0, d.len() as int)) by {
            assert forall|k: int| 0 <= k < d.len() implies is_digit(d[k]) by {
                assert(d[k] == s@[start + k]);
            }
        }
    }
    if over {
        proof {
            assert(digits_val(d) > 0xFFFFFFFF);
        }
        return None;
    }
    if neg {
        if acc > 2147483648u64 {
            return None;
        }
        let v: i32 = if acc == 2147483648u64 {
            i32::MIN
        } else {
            -(acc as i32)
        };
        Some(v)
    } else {
        if acc > 2147483647u64 {
            return None;
        }
        Some(acc as i32)
    }
}

/// The decimal text of a number that fits in 32 bits.
pub fn usize_decimal(n: usize) -> (r: String)
    requires
        n <= 0xFFFFFFFF,
    ensures
        r@ == dec_str(n as int),
{
    u32_str(n as u32)
}

impl Value {
    /// A text value.
    pub fn text(s: &str) -> (r: Value)
        ensures
            r@ == ValV::Text(s@),
    {
        Value::Text(s.to_owned())
    }

    /// An equal value; cloning preserves the mathematical shape.
    pub fn duplicate(&self) -> (r: Value)
        ensures
            r@ == self@,
    {
        match self {
            Value::Text(s) => Value::Text(s.clone()),
            Value::Bool(b) => Value::Bool(*b),
            Value::Int(i) => Value::Int(*i),
            Value::Float(s) => Value::Float(s.clone()),
            Value::Nothing => Value::Nothing,
        }
    }

    /// Parses a value from text. Total: tries a boolean literal, then a
    /// 32-bit integer literal, then a float literal, and falls back to
    /// text.
    pub fn from_text(s: &str) -> (r: Value)
        ensures
            r@ == value_of_text(s@),
    {
        if str_equal(s, "true") {
            return Value::Bool(true);
        }
        if str_equal(s, "false") {
            return Value::Bool(false);
        }
        match parse_i32(s) {
            Some(v) => Value::Int(v),
            None => {
                if is_float_text(s) {
                    Value::Float(s.to_owned())
                } else {
                    Value::Text(s.to_owned())
                }
            },
        }
    }

    /// Renders the value in its property-list form.
    pub fn render(&self) -> (r: String)
        ensures
            r@ == value_str(self@),
    {
        match self {
            Value::Text(s) => {
                let mut out = String::from_str("\"");
                proof {
                    reveal_strlit("\"");
                    assert(out@ =~= seq!['"']);
                }
                out.append(s.as_str());
                out.append("\"");
                proof {
                    assert(out@ =~= seq!['"'] + s@ + seq!['"']);
                }
                out
            },
            Value::Bool(b) => {
                if *b {
                    String::from_str("true")
                } else {
                    String::from_str("false")
                }
            },
            Value::Int(i) => i32_str(*i),
            Value::Float(s) => s.clone(),
            Value::Nothing => String::from_str("null"),
        }
    }
}

} // verus!
