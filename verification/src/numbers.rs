//! Numeric field syntax. Integer fields follow the usual signed decimal
//! grammar with 32-bit range enforcement. Decimal fields (stored as text by
//! the row type) follow the grammar of a decimal literal: optional sign, a
//! mantissa of digits with at most one dot and at least one digit, an
//! optional exponent, or one of the special words INF, INFINITY, NAN in any
//! case.

use vstd::prelude::*;
use vstd::string::StrSliceExecFns;
use crate::chars::chars_of;
use crate::chars::digit_char;
use crate::chars::digit_val;
use crate::chars::find_first;
use crate::chars::is_digit;
use crate::chars::lemma_find_first_is;
use crate::chars::to_upper;
use crate::chars::upper_char;

verus! {

pub open spec fn all_digits(s: Seq<char>) -> bool {
    forall|i: int| 0 <= i < s.len() ==> is_digit(#[trigger] s[i])
}

/// Value of a digit string read left to right.
pub open spec fn digits_val(s: Seq<char>) -> int
    decreases s.len(),
{
    if s.len() == 0 {
        0
    } else {
        digits_val(s.drop_last()) * 10 + digit_val(s.last())
    }
}

pub open spec fn has_sign(s: Seq<char>) -> bool {
    s.len() > 0 && (s[0] == '+' || s[0] == '-')
}

pub open spec fn is_neg(s: Seq<char>) -> bool {
    s.len() > 0 && s[0] == '-'
}

/// The token with a leading sign removed.
pub open spec fn body_of(s: Seq<char>) -> Seq<char> {
    if has_sign(s) {
        s.drop_first()
    } else {
        s
    }
}

/// Optional sign followed by at least one digit.
pub open spec fn int_shape(s: Seq<char>) -> bool {
    body_of(s).len() > 0 && all_digits(body_of(s))
}

/// Signed value of an integer-shaped token.
pub open spec fn int_val(s: Seq<char>) -> int {
    if is_neg(s) {
        -digits_val(body_of(s))
    } else {
        digits_val(body_of(s))
    }
}

/// An integer token acceptable for a 32-bit signed field.
pub open spec fn is_i32_token(s: Seq<char>) -> bool {
    int_shape(s) && -2147483648 <= int_val(s) <= 2147483647
}

pub proof fn lemma_digits_val_nonneg(s: Seq<char>)
    requires
        all_digits(s),
    ensures
        digits_val(s) >= 0,
    decreases s.len(),
{
    if s.len() > 0 {
        lemma_digits_val_nonneg(s.drop_last());
    }
}

pub proof fn lemma_digits_val_snoc(s: Seq<char>, k: int)
    requires
        0 <= k < s.len(),
    ensures
        digits_val(s.take(k + 1)) == digits_val(s.take(k)) * 10 + digit_val(s[k]),
{
    assert(s.take(k + 1).drop_last() =~= s.take(k));
    assert(s.take(k + 1).last() == s[k]);
}

/// A digit string is worth at least any of its prefixes.
pub proof fn lemma_digits_val_prefix(s: Seq<char>, k: int)
    requires
        all_digits(s),
        0 <= k <= s.len(),
    ensures
        digits_val(s.take(k)) <= digits_val(s),
    decreases s.len() - k,
{
    if k == s.len() {
        assert(s.take(k) =~= s);
    } else {
        let t = s.take(k + 1);
        assert(t.drop_last() =~= s.take(k));
        assert(all_digits(s.take(k)));
        lemma_digits_val_nonneg(s.take(k));
        assert(digits_val(t) == digits_val(s.take(k)) * 10 + digit_val(s[k]));
        lemma_digits_val_prefix(s, k + 1);
    }
}

/// Parse an integer token for a 32-bit field: `Some` exactly on tokens of
/// integer shape whose value fits, and then the value itself.
#[verifier::rlimit(50)]
pub fn parse_i32(s: &str) -> (r: Option<i32>)
    ensures
        r is Some <==> is_i32_token(s@),
        r matches Some(v) ==> v == int_val(s@),
{
    let ghost full = s@;
    let cs = chars_of(s);
    let n = cs.len();
    let mut i0: usize = 0;
    let mut neg = false;
    if n > 0 && (cs[0] == '+' || cs[0] == '-') {
        i0 = 1;
        neg = cs[0] == '-';
    }
    let ghost body = body_of(full);
    proof {
        assert(body =~= full.skip(i0 as int));
    }
    if i0 == n {
        return None;
    }
    let mut acc: u64 = 0;
    let mut i = i0;
    while i < n
        invariant
            full == s@,
            cs@ == full,
            n == full.len(),
            i0 <= i <= n,
            i0 <= 1,
            i0 < n,
            body == body_of(full),
            neg == is_neg(full),
            body == full.skip(i0 as int),
            acc <= 2147483648,
            acc == digits_val(body.take(i - i0)),
            forall|j: int| 0 <= j < i - i0 ==> is_digit(#[trigger] body[j]),
        decreases n - i,
    {
        let c = cs[i];
        proof {
            assert(body[i - i0] == full[i as int]);
        }
        if !digit_char(c) {
            proof {
                assert(!is_digit(body[i - i0]));
                assert(!all_digits(body));
                assert(!int_shape(full));
            }
            return None;
        }
        let d = (c as u32 - 48) as u64;
        proof {
            lemma_digits_val_snoc(body, i - i0);
        }
        acc = acc * 10 + d;
        i = i + 1;
        if acc > 2147483648 {
            proof {
                if int_shape(full) {
                    lemma_digits_val_prefix(body, i - i0);
                    assert(digits_val(body) >= acc);
                    assert(!is_i32_token(full));
                }
                assert(!is_i32_token(full));
            }
            return None;
        }
    }
    proof {
        assert(body.take(n - i0) =~= body);
        assert(all_digits(body));
        assert(int_shape(full));
    }
    if neg {
        if acc == 2147483648 {
            Some(i32::MIN)
        } else {
            Some(-(acc as i32))
        }
    } else {
        if acc > 2147483647 {
            proof {
                assert(int_val(full) == acc);
            }
            return None;
        }
        Some(acc as i32)
    }
}

pub open spec fn dot_pred() -> spec_fn(char) -> bool {
    |c: char| c == '.'
}

pub open spec fn exp_pred() -> spec_fn(char) -> bool {
    |c: char| c == 'e' || c == 'E'
}

/// Digits with at most one dot and at least one digit overall.
pub open spec fn is_mantissa(m: Seq<char>) -> bool {
    let d = find_first(m, dot_pred());
    if d < m.len() {
        m.len() >= 2 && all_digits(m.take(d)) && all_digits(m.skip(d + 1))
    } else {
        m.len() > 0 && all_digits(m)
    }
}

/// Case-insensitive equality against an upper-case word.
pub open spec fn upper_is(s: Seq<char>, w: Seq<char>) -> bool {
    s.len() == w.len() && forall|i: int| 0 <= i < s.len() ==> to_upper(#[trigger] s[i]) == w[i]
}

pub open spec fn inf_chars() -> Seq<char> {
    seq!['I', 'N', 'F']
}

pub open spec fn infinity_chars() -> Seq<char> {
    seq!['I', 'N', 'F', 'I', 'N', 'I', 'T', 'Y']
}

pub open spec fn nan_chars() -> Seq<char> {
    seq!['N', 'A', 'N']
}

/// One of the special non-finite words, in any case.
pub open spec fn is_special(b: Seq<char>) -> bool {
    upper_is(b, inf_chars()) || upper_is(b, infinity_chars()) || upper_is(b, nan_chars())
}

pub open spec fn is_decimal_body(b: Seq<char>) -> bool {
    if is_special(b) {
        true
    } else {
        let e = find_first(b, exp_pred());
        if e < b.len() {
            is_mantissa(b.take(e)) && int_shape(b.skip(e + 1))
        } else {
            is_mantissa(b)
        }
    }
}

/// A token acceptable for a decimal field: optional sign, then a mantissa
/// with optional exponent, or a special word.
pub open spec fn is_decimal_token(s: Seq<char>) -> bool {
    is_decimal_body(body_of(s))
}

/// All characters of `cs` in `from..to` are digits?
fn digits_range(cs: &Vec<char>, from: usize, to: usize) -> (b: bool)
    requires
        from <= to <= cs@.len(),
    ensures
        b == all_digits(cs@.subrange(from as int, to as int)),
{
    let ghost sub = cs@.subrange(from as int, to as int);
    let mut j = from;
    while j < to
        invariant
            from <= j <= to <= cs@.len(),
            sub == cs@.subrange(from as int, to as int),
            forall|k: int| 0 <= k < j - from ==> is_digit(#[trigger] sub[k]),
        decreases to - j,
    {
        if !digit_char(cs[j]) {
            proof {
                assert(sub[j - from] == cs@[j as int]);
            }
            return false;
        }
        proof {
            assert(sub[j - from] == cs@[j as int]);
        }
        j = j + 1;
    }
    true
}

/// Mantissa check over `cs` in `from..to`.
fn mantissa_range(cs: &Vec<char>, from: usize, to: usize) -> (b: bool)
    requires
        from <= to <= cs@.len(),
    ensures
        b == is_mantissa(cs@.subrange(from as int, to as int)),
{
    let ghost sub = cs@.subrange(from as int, to as int);
    let mut j = from;
    while j < to && cs[j] != '.'
        invariant
            from <= j <= to <= cs@.len(),
            sub == cs@.subrange(from as int, to as int),
            forall|k: int| 0 <= k < j - from ==> !dot_pred()(#[trigger] sub[k]),
        decreases to - j,
    {
        proof {
            assert(sub[j - from] == cs@[j as int]);
        }
        j = j + 1;
    }
    proof {
        if j < to {
            assert(sub[j - from] == cs@[j as int]);
        }
        lemma_find_first_is(sub, dot_pred(), j - from);
    }
    if j < to {
        proof {
            assert(sub.take(j - from) =~= cs@.subrange(from as int, j as int));
            assert(sub.skip(j - from + 1) =~= cs@.subrange(j + 1, to as int));
        }
        to - from >= 2 && digits_range(cs, from, j) && digits_range(cs, j + 1, to)
    } else {
        to - from > 0 && digits_range(cs, from, to)
    }
}

/// Optional sign then at least one digit, over `cs` in `from..to`.
fn int_shape_range(cs: &Vec<char>, from: usize, to: usize) -> (b: bool)
    requires
        from <= to <= cs@.len(),
    ensures
        b == int_shape(cs@.subrange(from as int, to as int)),
{
    let ghost sub = cs@.subrange(from as int, to as int);
    let mut j = from;
    if from < to && (cs[from] == '+' || cs[from] == '-') {
        j = from + 1;
    }
    proof {
        if from < to {
            assert(sub[0] == cs@[from as int]);
        }
        assert(body_of(sub) =~= cs@.subrange(j as int, to as int));
    }
    to > j && digits_range(cs, j, to)
}

/// Case-insensitive match of an upper-case word at `from..to`.
pub(crate) fn upper_is_range(cs: &Vec<char>, from: usize, to: usize, w: &str) -> (b: bool)
    requires
        from <= to <= cs@.len(),
    ensures
        b == upper_is(cs@.subrange(from as int, to as int), w@),
{
    let ghost sub = cs@.subrange(from as int, to as int);
    let m = w.unicode_len();
    if to - from != m {
        return false;
    }
    let mut j: usize = 0;
    while j < m
        invariant
            from <= to <= cs@.len(),
            sub == cs@.subrange(from as int, to as int),
            m == w@.len(),
            to - from == m,
            j <= m,
            forall|k: int| 0 <= k < j ==> to_upper(#[trigger] sub[k]) == w@[k],
        decreases m - j,
    {
        proof {
            assert(sub[j as int] == cs@[from + j]);
        }
        if upper_char(cs[from + j]) != w.get_char(j) {
            return false;
        }
        j = j + 1;
    }
    true
}

/// Decimal-token check: `true` exactly on tokens a decimal field accepts.
pub fn is_decimal_str(s: &str) -> (b: bool)
    ensures
        b == is_decimal_token(s@),
{
    let ghost full = s@;
    let cs = chars_of(s);
    let n = cs.len();
    let mut i0: usize = 0;
    if n > 0 && (cs[0] == '+' || cs[0] == '-') {
        i0 = 1;
    }
    let ghost body = body_of(full);
    proof {
        assert(body =~= full.skip(i0 as int));
        assert(body =~= cs@.subrange(i0 as int, n as int));
    }
    if upper_is_range(&cs, i0, n, "INF") || upper_is_range(&cs, i0, n, "INFINITY")
        || upper_is_range(&cs, i0, n, "NAN") {
        proof {
            reveal_strlit("INF");
            reveal_strlit("INFINITY");
            reveal_strlit("NAN");
            assert("INF"@ =~= inf_chars());
            assert("INFINITY"@ =~= infinity_chars());
            assert("NAN"@ =~= nan_chars());
        }
        return true;
    }
    proof {
        reveal_strlit("INF");
        reveal_strlit("INFINITY");
        reveal_strlit("NAN");
        assert("INF"@ =~= inf_chars());
        assert("INFINITY"@ =~= infinity_chars());
        assert("NAN"@ =~= nan_chars());
        assert(!is_special(body));
    }
    let mut e = i0;
    while e < n && cs[e] != 'e' && cs[e] != 'E'
        invariant
            cs@ == full,
            n == full.len(),
            i0 <= e <= n,
            body == cs@.subrange(i0 as int, n as int),
            forall|k: int| 0 <= k < e - i0 ==> !exp_pred()(#[trigger] body[k]),
        decreases n - e,
    {
        proof {
            assert(body[e - i0] == full[e as int]);
        }
        e = e + 1;
    }
    proof {
        if e < n {
            assert(body[e - i0] == full[e as int]);
        }
        lemma_find_first_is(body, exp_pred(), e - i0);
    }
    if e < n {
        proof {
            assert(body.take(e - i0) =~= cs@.subrange(i0 as int, e as int));
            assert(body.skip(e - i0 + 1) =~= cs@.subrange(e + 1, n as int));
        }
        mantissa_range(&cs, i0, e) && int_shape_range(&cs, e + 1, n)
    } else {
        proof {
            assert(body.take(e - i0) =~= body);
        }
        mantissa_range(&cs, i0, n)
    }
}

} // verus!
