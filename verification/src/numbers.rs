//! The texts that std reads as numbers: decimal integers, and the grammar
//! of floating-point literals that `f64`'s `FromStr` documents.

use vstd::prelude::*;
use vstd::string::*;
use crate::chars::ascii_digit;

verus! {

/// The value of an ASCII decimal digit.
pub open spec fn digit_value(c: char) -> int {
    c as int - '0' as int
}

/// The value of a string of ASCII decimal digits.
pub open spec fn dec_value(s: Seq<char>) -> int
    decreases s.len(),
{
    if s.len() == 0 { 0 } else { dec_value(s.drop_last()) * 10 + digit_value(s.last()) }
}

/// Whether every character is an ASCII decimal digit.
pub open spec fn all_digits(s: Seq<char>) -> bool {
    forall|i: int| 0 <= i < s.len() ==> ascii_digit(#[trigger] s[i])
}

/// The integer that a text spells: an optional sign (`-` only when
/// `signed`), then one or more ASCII digits and nothing else.
pub open spec fn int_text(t: Seq<char>, signed: bool) -> Option<int> {
    let neg = signed && t.len() > 0 && t[0] == '-';
    let body = if t.len() > 0 && (t[0] == '+' || neg) { t.skip(1) } else { t };
    if body.len() > 0 && all_digits(body) {
        Some(if neg { -dec_value(body) } else { dec_value(body) })
    } else {
        None
    }
}

/// What `str::parse::<i64>` gives: the value of the text when it spells an
/// integer that fits.
pub open spec fn i64_of_text(t: Seq<char>) -> Option<i64> {
    match int_text(t, true) {
        Some(v) => if i64::MIN <= v <= i64::MAX { Some(v as i64) } else { None },
        None => None,
    }
}

/// What `str::parse::<u64>` gives: the value of the text when it spells a
/// non-negative integer that fits.
pub open spec fn u64_of_text(t: Seq<char>) -> Option<u64> {
    match int_text(t, false) {
        Some(v) => if v <= u64::MAX { Some(v as u64) } else { None },
        None => None,
    }
}

proof fn lemma_dec_value_nonneg(s: Seq<char>)
    requires
        all_digits(s),
    ensures
        dec_value(s) >= 0,
    decreases s.len(),
{
    if s.len() > 0 {
        assert(all_digits(s.drop_last())) by {
            assert forall|i: int| 0 <= i < s.drop_last().len() implies ascii_digit(#[trigger] s.drop_last()[i]) by {
                assert(s.drop_last()[i] == s[i]);
            }
        }
        lemma_dec_value_nonneg(s.drop_last());
        assert(ascii_digit(s[s.len() - 1]));
    }
}

proof fn lemma_dec_value_prefix(s: Seq<char>, i: int, j: int)
    requires
        0 <= i <= j <= s.len(),
        all_digits(s),
    ensures
        0 <= dec_value(s.subrange(0, i)) <= dec_value(s.subrange(0, j)),
    decreases j,
{
    if i == j {
        assert(all_digits(s.subrange(0, i))) by {
            assert forall|k: int| 0 <= k < i implies ascii_digit(#[trigger] s.subrange(0, i)[k]) by {
                assert(s.subrange(0, i)[k] == s[k]);
            }
        }
        lemma_dec_value_nonneg(s.subrange(0, i));
    } else {
        lemma_dec_value_prefix(s, i, j - 1);
        assert(s.subrange(0, j).drop_last() =~= s.subrange(0, j - 1));
        assert(ascii_digit(s[j - 1]));
    }
}

/// The magnitude spelled by a run of digits, when it is at most `bound`.
fn digits_up_to(s: &str, len: usize, from: usize, bound: u64) -> (r: Option<u64>)
    requires
        len == s@.len(),
        from <= len,
        bound >= 9,
    ensures
        all_digits(s@.skip(from as int)) ==> match r {
            Some(v) => v == dec_value(s@.skip(from as int)) && v <= bound,
            None => dec_value(s@.skip(from as int)) > bound,
        },
        !all_digits(s@.skip(from as int)) ==> r is None,
{
    let ghost body = s@.skip(from as int);
    let mut acc: u64 = 0;
    let mut i: usize = from;
    while i < len
        invariant
            len == s@.len(),
            from <= i <= len,
            body == s@.skip(from as int),
            all_digits(body.subrange(0, i - from)),
            acc == dec_value(body.subrange(0, i - from)),
            acc <= bound,
            bound >= 9,
        decreases len - i,
    {
        let c = s.get_char(i);
        if !('0' <= c && c <= '9') {
            proof { assert(!ascii_digit(body[i - from])); }
            return None;
        }
        let d = (c as u32 - '0' as u32) as u64;
        proof {
            assert(body.subrange(0, i + 1 - from).drop_last() =~= body.subrange(0, i - from));
            assert(body.subrange(0, i + 1 - from).last() == c);
        }
        if acc > (bound - d) / 10 {
            proof {
                assert(acc * 10 + d > bound) by (nonlinear_arith)
                    requires acc > (bound - d) / 10, d <= 9, d <= bound || d > bound;
                if all_digits(body) {
                    lemma_dec_value_prefix(body, i + 1 - from, body.len() as int);
                    assert(body.subrange(0, body.len() as int) =~= body);
                }
            }
            return None;
        }
        proof {
            assert(acc * 10 + d <= bound) by (nonlinear_arith)
                requires acc <= (bound - d) / 10, d <= bound;
        }
        acc = acc * 10 + d;
        i = i + 1;
    }
    proof { assert(body.subrange(0, len - from) =~= body); }
    Some(acc)
}

/// `str::parse::<i64>`: the integer the text spells, if it fits.
pub fn parse_i64(s: &str) -> (r: Option<i64>)
    ensures
        r == i64_of_text(s@),
{
    let len = s.unicode_len();
    if len == 0 {
        return None;
    }
    let c0 = s.get_char(0);
    let neg = c0 == '-';
    let from: usize = if c0 == '+' || neg { 1 } else { 0 };
    proof {
        if from == 0 { assert(s@.skip(0) =~= s@); }
    }
    if from == len {
        return None;
    }
    let bound: u64 = if neg { 9223372036854775808u64 } else { 9223372036854775807u64 };
    match digits_up_to(s, len, from, bound) {
        Some(m) => {
            if neg {
                if m == 9223372036854775808u64 {
                    Some(i64::MIN)
                } else {
                    Some(-(m as i64))
                }
            } else {
                Some(m as i64)
            }
        },
        None => None,
    }
}

/// `str::parse::<u64>`: the non-negative integer the text spells, if it fits.
pub fn parse_u64(s: &str) -> (r: Option<u64>)
    ensures
        r == u64_of_text(s@),
{
    let len = s.unicode_len();
    if len == 0 {
        return None;
    }
    let from: usize = if s.get_char(0) == '+' { 1 } else { 0 };
    proof {
        if from == 0 { assert(s@.skip(0) =~= s@); }
    }
    if from == len {
        return None;
    }
    digits_up_to(s, len, from, u64::MAX)
}

/// Whether a character equals a lower-case ASCII letter, ignoring ASCII case.
pub open spec fn ieq(c: char, l: char) -> bool {
    c == l || c as int + 32 == l as int
}

/// Whether a text equals a word of lower-case ASCII letters, ignoring ASCII case.
pub open spec fn ieq_seq(u: Seq<char>, w: Seq<char>) -> bool {
    u.len() == w.len() && forall|i: int| 0 <= i < u.len() ==> ieq(#[trigger] u[i], w[i])
}

/// The end of the run of ASCII digits that starts at `p`.
pub open spec fn digit_run(s: Seq<char>, p: int) -> int
    decreases s.len() - p,
{
    if 0 <= p < s.len() && ascii_digit(s[p]) { digit_run(s, p + 1) } else { p }
}

/// Whether an exponent part, after its `e`, runs from `p` to the end: an
/// optional sign, then one or more digits.
pub open spec fn exponent_from(u: Seq<char>, p: int) -> bool {
    let q = if p < u.len() && (u[p] == '+' || u[p] == '-') { p + 1 } else { p };
    let r = digit_run(u, q);
    r > q && r == u.len()
}

/// Whether an unsigned text is a decimal number: digits, optionally a
/// point and more digits, at least one digit in all, then optionally an
/// exponent.
pub open spec fn decimal_text(u: Seq<char>) -> bool {
    let d1 = digit_run(u, 0);
    let has_point = d1 < u.len() && u[d1] == '.';
    let m_end = if has_point { digit_run(u, d1 + 1) } else { d1 };
    let n_digits = if has_point { d1 + (m_end - d1 - 1) } else { d1 };
    n_digits > 0 && (m_end == u.len() || (ieq(u[m_end], 'e') && exponent_from(u, m_end + 1)))
}

/// Whether `str::parse::<f64>` accepts a text: an optional sign, then
/// `inf`, `infinity`, `nan` (in any ASCII case) or a decimal number.
pub open spec fn float_text(t: Seq<char>) -> bool {
    let u = if t.len() > 0 && (t[0] == '+' || t[0] == '-') { t.skip(1) } else { t };
    ieq_seq(u, seq!['i', 'n', 'f']) || ieq_seq(u, seq!['i', 'n', 'f', 'i', 'n', 'i', 't', 'y'])
        || ieq_seq(u, seq!['n', 'a', 'n']) || decimal_text(u)
}

proof fn lemma_digit_run(s: Seq<char>, p: int)
    requires
        0 <= p <= s.len(),
    ensures
        p <= digit_run(s, p) <= s.len(),
    decreases s.len() - p,
{
    if p < s.len() && ascii_digit(s[p]) {
        lemma_digit_run(s, p + 1);
    }
}

fn digit_run_from(s: &[char], p: usize) -> (r: usize)
    requires
        p <= s@.len(),
    ensures
        r == digit_run(s@, p as int),
        p <= r <= s@.len(),
{
    proof { lemma_digit_run(s@, p as int); }
    let mut q = p;
    while q < s.len() && '0' <= s[q] && s[q] <= '9'
        invariant
            p <= q <= s@.len(),
            digit_run(s@, p as int) == digit_run(s@, q as int),
        decreases s@.len() - q,
    {
        q = q + 1;
    }
    q
}

fn ieq_char(c: char, l: char) -> (r: bool)
    requires
        'a' <= l <= 'z',
    ensures
        r == ieq(c, l),
{
    c == l || (c as u32) + 32 == (l as u32)
}

fn ieq_word(u: &[char], w: &[char]) -> (r: bool)
    requires
        forall|i: int| 0 <= i < w@.len() ==> 'a' <= #[trigger] w@[i] <= 'z',
    ensures
        r == ieq_seq(u@, w@),
{
    if u.len() != w.len() {
        return false;
    }
    let mut i: usize = 0;
    while i < u.len()
        invariant
            u@.len() == w@.len(),
            i <= u@.len(),
            forall|j: int| 0 <= j < w@.len() ==> 'a' <= #[trigger] w@[j] <= 'z',
            forall|j: int| 0 <= j < i ==> ieq(#[trigger] u@[j], w@[j]),
        decreases u@.len() - i,
    {
        if !ieq_char(u[i], w[i]) {
            return false;
        }
        i = i + 1;
    }
    true
}

fn exponent_ok(u: &[char], p: usize) -> (r: bool)
    requires
        p <= u@.len(),
    ensures
        r == exponent_from(u@, p as int),
{
    let q = if p < u.len() && (u[p] == '+' || u[p] == '-') { p + 1 } else { p };
    let r = digit_run_from(u, q);
    r > q && r == u.len()
}

fn decimal_ok(u: &[char]) -> (r: bool)
    ensures
        r == decimal_text(u@),
{
    let d1 = digit_run_from(u, 0);
    let has_point = d1 < u.len() && u[d1] == '.';
    let m_end = if has_point { digit_run_from(u, d1 + 1) } else { d1 };
    let n_digits = if has_point { d1 + (m_end - d1 - 1) } else { d1 };
    n_digits > 0 && (m_end == u.len() || (ieq_char(u[m_end], 'e') && exponent_ok(u, m_end + 1)))
}

/// The characters of a string, in order.
pub fn chars_of(s: &str) -> (r: Vec<char>)
    ensures
        r@ == s@,
{
    let len = s.unicode_len();
    let mut r: Vec<char> = Vec::new();
    let mut i: usize = 0;
    while i < len
        invariant
            len == s@.len(),
            i <= len,
            r@ == s@.subrange(0, i as int),
        decreases len - i,
    {
        r.push(s.get_char(i));
        i = i + 1;
    }
    proof { assert(s@.subrange(0, len as int) =~= s@); }
    r
}

/// Whether `str::parse::<f64>` accepts the text.
pub fn is_float_text(s: &str) -> (r: bool)
    ensures
        r == float_text(s@),
{
    let t = chars_of(s);
    let from: usize = if t.len() > 0 && (t[0] == '+' || t[0] == '-') { 1 } else { 0 };
    let mut u: Vec<char> = Vec::new();
    let mut i: usize = from;
    while i < t.len()
        invariant
            from <= i <= t@.len(),
            u@ == t@.subrange(from as int, i as int),
        decreases t@.len() - i,
    {
        u.push(t[i]);
        i = i + 1;
    }
    proof {
        assert(u@ == (if t@.len() > 0 && (t@[0] == '+' || t@[0] == '-') { t@.skip(1) } else { t@ }));
    }
    let inf: [char; 3] = ['i', 'n', 'f'];
    let infinity: [char; 8] = ['i', 'n', 'f', 'i', 'n', 'i', 't', 'y'];
    let nan: [char; 3] = ['n', 'a', 'n'];
    proof {
        assert(inf@ =~= seq!['i', 'n', 'f']);
        assert(infinity@ =~= seq!['i', 'n', 'f', 'i', 'n', 'i', 't', 'y']);
        assert(nan@ =~= seq!['n', 'a', 'n']);
    }
    ieq_word(u.as_slice(), &inf) || ieq_word(u.as_slice(), &infinity) || ieq_word(u.as_slice(), &nan)
        || decimal_ok(u.as_slice())
}

} // verus!
