use vstd::prelude::*;
use crate::text::{chars_of, trim_str, trimmed};

verus! {

/// The three-way classification of one cell value.
#[derive(PartialEq, Eq, Structural, Clone, Copy, Debug)]
pub enum CellClass {
    Integer,
    Float,
    Text,
}

pub open spec fn is_digit(c: char) -> bool {
    0x30 <= c as u32 && c as u32 <= 0x39
}

pub open spec fn digit_val(c: char) -> nat {
    (c as u32 - 0x30) as nat
}

pub open spec fn all_digits(s: Seq<char>) -> bool {
    forall|i: int| 0 <= i < s.len() ==> is_digit(s[i])
}

pub open spec fn is_sign(c: char) -> bool {
    c == '+' || c == '-'
}

/// The cell with one leading sign character removed, if it has one.
pub open spec fn strip_sign(s: Seq<char>) -> Seq<char> {
    if s.len() > 0 && is_sign(s[0]) {
        s.drop_first()
    } else {
        s
    }
}

/// Numeric value of a digit string, most significant digit first.
pub open spec fn digits_val(s: Seq<char>) -> nat
    decreases s.len(),
{
    if s.len() == 0 {
        0
    } else {
        digits_val(s.drop_last()) * 10 + digit_val(s.last())
    }
}

/// A cell that denotes a lossless base-10 signed integer: an optional sign,
/// then one or more decimal digits, whose value lies within the 32-bit
/// signed range.
pub open spec fn is_integer_text(s: Seq<char>) -> bool {
    let body = strip_sign(s);
    &&& body.len() > 0
    &&& all_digits(body)
    &&& digits_val(body) <= if s.len() > 0 && s[0] == '-' {
        2147483648int
    } else {
        2147483647int
    }
}

pub open spec fn count_digits(s: Seq<char>) -> nat
    decreases s.len(),
{
    if s.len() == 0 {
        0
    } else {
        count_digits(s.drop_last()) + if is_digit(s.last()) {
            1 as nat
        } else {
            0 as nat
        }
    }
}

pub open spec fn count_dots(s: Seq<char>) -> nat
    decreases s.len(),
{
    if s.len() == 0 {
        0
    } else {
        count_dots(s.drop_last()) + if s.last() == '.' {
            1 as nat
        } else {
            0 as nat
        }
    }
}

/// The mantissa shape of a decimal numeral: every character a digit or a
/// decimal point, at most one point, and at least one digit.
pub open spec fn is_decimal_digits(s: Seq<char>) -> bool {
    &&& forall|i: int| 0 <= i < s.len() ==> is_digit(s[i]) || s[i] == '.'
    &&& count_dots(s) <= 1
    &&& count_digits(s) >= 1
}

pub open spec fn is_exp_marker(c: char) -> bool {
    c == 'e' || c == 'E'
}

/// The body of an exponent suffix: an optional sign, then one or more digits.
pub open spec fn is_exponent_body(s: Seq<char>) -> bool {
    strip_sign(s).len() > 0 && all_digits(strip_sign(s))
}

/// A cell that denotes a finite decimal numeral: an optional sign, a mantissa
/// of digits with at most one decimal point, and an optional exponent suffix
/// introduced by `e` or `E`. Words such as `inf` or `nan` do not match, so
/// every matching cell denotes a finite value; the magnitude of the numeral
/// is not bounded.
pub open spec fn is_float_text(s: Seq<char>) -> bool {
    let body = strip_sign(s);
    ||| is_decimal_digits(body)
    ||| exists|k: int|
        0 <= k < body.len() && is_exp_marker(body[k]) && is_decimal_digits(body.take(k))
            && is_exponent_body(body.skip(k + 1))
}

/// Classification of one raw cell: trim it, then try the integer shape, then
/// the decimal-numeral shape, and otherwise call it text. The empty cell is
/// text.
pub open spec fn classify_spec(s: Seq<char>) -> CellClass {
    if is_integer_text(trimmed(s)) {
        CellClass::Integer
    } else if is_float_text(trimmed(s)) {
        CellClass::Float
    } else {
        CellClass::Text
    }
}

/// Trimmed width of a raw cell, in characters.
pub open spec fn cell_width(s: Seq<char>) -> nat {
    trimmed(s).len()
}

/// Whether a raw cell holds any value once trimmed.
pub open spec fn cell_nonempty(s: Seq<char>) -> bool {
    trimmed(s).len() > 0
}

/// The value of a digit-string prefix never exceeds the value of the whole
/// string.
proof fn lemma_digits_val_prefix(s: Seq<char>, m: int)
    requires
        0 <= m <= s.len(),
    ensures
        digits_val(s.take(m)) <= digits_val(s),
    decreases s.len() - m,
{
    if m == s.len() {
        assert(s.take(m) =~= s);
    } else {
        assert(s.take(m + 1).drop_last() =~= s.take(m));
        assert(s.take(m + 1).last() == s[m]);
        assert(digits_val(s.take(m + 1)) == digits_val(s.take(m)) * 10 + digit_val(s[m]));
        lemma_digits_val_prefix(s, m + 1);
    }
}

/// Executable test for [`is_integer_text`] on the characters of a trimmed
/// cell.
pub fn is_integer_cell(v: &Vec<char>) -> (r: bool)
    ensures
        r == is_integer_text(v@),
{
    let n = v.len();
    let start: usize = if n > 0 && (v[0] == '+' || v[0] == '-') {
        1
    } else {
        0
    };
    let neg = n > 0 && v[0] == '-';
    proof {
        if start == 1 {
            assert(strip_sign(v@) =~= v@.subrange(1, n as int));
        } else {
            assert(strip_sign(v@) =~= v@.subrange(0, n as int));
        }
    }
    let ghost body = v@.subrange(start as int, n as int);
    if start >= n {
        return false;
    }
    let mut i = start;
    let mut acc: u64 = 0;
    while i < n
        invariant
            start <= i <= n,
            start < n,
            n == v@.len(),
            body == v@.subrange(start as int, n as int),
            body == strip_sign(v@),
            forall|j: int| start <= j < i ==> is_digit(v@[j]),
            acc == digits_val(body.take(i - start)),
            acc <= 2147483648,
        decreases n - i,
    {
        let c = v[i];
        let u = c as u32;
        if u < 0x30 || u > 0x39 {
            assert(!is_digit(body[i - start]));
            return false;
        }
        let d = (u - 0x30) as u64;
        proof {
            assert(body.take(i - start + 1).drop_last() =~= body.take(i - start));
            assert(body.take(i - start + 1).last() == v@[i as int]);
        }
        acc = acc * 10 + d;
        if acc > 2147483648 {
            proof {
                lemma_digits_val_prefix(body, i - start + 1);
            }
            return false;
        }
        i = i + 1;
    }
    proof {
        assert(body.take(n - start) =~= body);
    }
    if neg {
        true
    } else {
        acc <= 2147483647
    }
}

/// Executable test for [`is_decimal_digits`] on `v[lo..hi]`.
fn is_decimal_digits_range(v: &Vec<char>, lo: usize, hi: usize) -> (r: bool)
    requires
        lo <= hi <= v@.len(),
    ensures
        r == is_decimal_digits(v@.subrange(lo as int, hi as int)),
{
    let ghost part = v@.subrange(lo as int, hi as int);
    let mut i = lo;
    let mut dots: usize = 0;
    let mut digits: usize = 0;
    while i < hi
        invariant
            lo <= i <= hi <= v@.len(),
            part == v@.subrange(lo as int, hi as int),
            forall|j: int| 0 <= j < i - lo ==> is_digit(part[j]) || part[j] == '.',
            dots == count_dots(part.take(i - lo)),
            digits == count_digits(part.take(i - lo)),
            dots <= i - lo,
            digits <= i - lo,
        decreases hi - i,
    {
        let c = v[i];
        let u = c as u32;
        proof {
            assert(part.take(i - lo + 1).drop_last() =~= part.take(i - lo));
            assert(part.take(i - lo + 1).last() == v@[i as int]);
        }
        if 0x30 <= u && u <= 0x39 {
            digits = digits + 1;
        } else if c == '.' {
            dots = dots + 1;
        } else {
            assert(!(is_digit(part[i - lo]) || part[i - lo] == '.'));
            return false;
        }
        i = i + 1;
    }
    proof {
        assert(part.take(hi - lo) =~= part);
    }
    dots <= 1 && digits >= 1
}

/// Executable test for [`is_exponent_body`] on `v[lo..hi]`.
fn is_exponent_range(v: &Vec<char>, lo: usize, hi: usize) -> (r: bool)
    requires
        lo <= hi <= v@.len(),
    ensures
        r == is_exponent_body(v@.subrange(lo as int, hi as int)),
{
    let ghost part = v@.subrange(lo as int, hi as int);
    let start: usize = if lo < hi && (v[lo] == '+' || v[lo] == '-') {
        lo + 1
    } else {
        lo
    };
    proof {
        if start == lo + 1 {
            assert(strip_sign(part) =~= v@.subrange(lo + 1, hi as int));
        } else {
            assert(strip_sign(part) =~= part);
        }
    }
    let ghost sbody = v@.subrange(start as int, hi as int);
    proof {
        assert(strip_sign(part) =~= sbody);
    }
    if start >= hi {
        return false;
    }
    let mut i = start;
    while i < hi
        invariant
            lo <= start <= i <= hi <= v@.len(),
            part == v@.subrange(lo as int, hi as int),
            sbody == v@.subrange(start as int, hi as int),
            sbody == strip_sign(part),
            forall|j: int| 0 <= j < i - start ==> is_digit(sbody[j]),
        decreases hi - i,
    {
        let u = v[i] as u32;
        if u < 0x30 || u > 0x39 {
            assert(!is_digit(sbody[i - start]));
            return false;
        }
        i = i + 1;
    }
    true
}

/// A decimal numeral with an exponent splits only at its first exponent
/// marker: the grammar matches the whole cell exactly when the part before
/// that marker is a mantissa and the part after it an exponent body.
proof fn lemma_float_split_unique(body: Seq<char>, k0: int)
    requires
        0 <= k0 < body.len(),
        is_exp_marker(body[k0]),
        forall|j: int| 0 <= j < k0 ==> !is_exp_marker(body[j]),
    ensures
        !is_decimal_digits(body),
        (exists|k: int|
            0 <= k < body.len() && is_exp_marker(body[k]) && is_decimal_digits(body.take(k))
                && is_exponent_body(body.skip(k + 1))) <==> (is_decimal_digits(body.take(k0))
            && is_exponent_body(body.skip(k0 + 1))),
{
    assert(!(is_digit(body[k0]) || body[k0] == '.'));
    if is_decimal_digits(body.take(k0)) && is_exponent_body(body.skip(k0 + 1)) {
        assert(exists|k: int|
            0 <= k < body.len() && is_exp_marker(body[k]) && is_decimal_digits(body.take(k))
                && is_exponent_body(body.skip(k + 1)));
    }
    if exists|k: int|
        0 <= k < body.len() && is_exp_marker(body[k]) && is_decimal_digits(body.take(k))
            && is_exponent_body(body.skip(k + 1)) {
        let k = choose|k: int|
            0 <= k < body.len() && is_exp_marker(body[k]) && is_decimal_digits(body.take(k))
                && is_exponent_body(body.skip(k + 1));
        if k < k0 {
            assert(!is_exp_marker(body[k]));
        } else if k > k0 {
            assert(body.take(k)[k0] == body[k0]);
            assert(!(is_digit(body.take(k)[k0]) || body.take(k)[k0] == '.'));
            assert(!is_decimal_digits(body.take(k)));
        }
        assert(k == k0);
    }
}

/// Executable test for [`is_float_text`] on the characters of a trimmed cell.
pub fn is_float_cell(v: &Vec<char>) -> (r: bool)
    ensures
        r == is_float_text(v@),
{
    let n = v.len();
    let start: usize = if n > 0 && (v[0] == '+' || v[0] == '-') {
        1
    } else {
        0
    };
    proof {
        if start == 1 {
            assert(strip_sign(v@) =~= v@.subrange(1, n as int));
        } else {
            assert(strip_sign(v@) =~= v@.subrange(0, n as int));
        }
    }
    let ghost body = v@.subrange(start as int, n as int);
    let mut e = start;
    while e < n && !(v[e] == 'e' || v[e] == 'E')
        invariant
            start <= e <= n,
            n == v@.len(),
            body == v@.subrange(start as int, n as int),
            forall|j: int| 0 <= j < e - start ==> !is_exp_marker(body[j]),
        decreases n - e,
    {
        e = e + 1;
    }
    if e == n {
        let r = is_decimal_digits_range(v, start, n);
        proof {
            assert(body =~= v@.subrange(start as int, n as int));
            assert forall|k: int| 0 <= k < body.len() implies !is_exp_marker(body[k]) by {}
        }
        r
    } else {
        let ghost k0 = e - start;
        let mant = is_decimal_digits_range(v, start, e);
        let exp = is_exponent_range(v, e + 1, n);
        proof {
            assert(is_exp_marker(body[k0]));
            assert(body.take(k0) =~= v@.subrange(start as int, e as int));
            assert(body.skip(k0 + 1) =~= v@.subrange(e + 1, n as int));
            lemma_float_split_unique(body, k0);
        }
        mant && exp
    }
}

/// Law: the classifier applies its rules in order. A trimmed cell that has
/// the integer shape is Integer; otherwise one that has the decimal-numeral
/// shape is Float; everything else — the empty cell included — is Text.
pub proof fn lemma_classifier_rule(s: Seq<char>)
    ensures
        is_integer_text(trimmed(s)) ==> classify_spec(s) == CellClass::Integer,
        !is_integer_text(trimmed(s)) && is_float_text(trimmed(s)) ==> classify_spec(s)
            == CellClass::Float,
        !is_integer_text(trimmed(s)) && !is_float_text(trimmed(s)) ==> classify_spec(s)
            == CellClass::Text,
        trimmed(s).len() == 0 ==> classify_spec(s) == CellClass::Text,
{
    let t = trimmed(s);
    if t.len() == 0 {
        assert(strip_sign(t) =~= t);
        assert(!is_integer_text(t));
        assert(!is_decimal_digits(t));
        assert(!is_float_text(t));
    }
}

/// Classify one raw cell: trim surrounding whitespace, then try the integer
/// shape, then the decimal-numeral shape, and otherwise call it text. The
/// answer depends on the cell alone, never on column history.
pub fn classify(cell: &str) -> (c: CellClass)
    ensures
        c == classify_spec(cell@),
{
    let t = trim_str(cell);
    let v = chars_of(t);
    if is_integer_cell(&v) {
        CellClass::Integer
    } else if is_float_cell(&v) {
        CellClass::Float
    } else {
        CellClass::Text
    }
}

} // verus!
