//! Verified text primitives shared by the reply classifier and the status
//! grammar: character classes, scanning, trimming, and decimal numerals.

use vstd::prelude::*;
use vstd::string::StrSliceExecFns;

verus! {

/// Whitespace as recognised when a status line or key is trimmed.
pub open spec fn is_space(c: char) -> bool {
    c == ' ' || c == '\t' || c == '\n' || c == '\r' || c == '\u{b}' || c == '\u{c}'
}

/// An ASCII decimal digit.
pub open spec fn is_digit(c: char) -> bool {
    48 <= (c as u32) && (c as u32) <= 57
}

/// The numeric value of an ASCII decimal digit.
pub open spec fn digit_val(c: char) -> int {
    (c as u32) - 48
}

pub open spec fn all_digits(s: Seq<char>) -> bool {
    forall|i: int| 0 <= i < s.len() ==> is_digit(#[trigger] s[i])
}

/// The value of a sequence of decimal digits, most significant first.
pub open spec fn digits_val(s: Seq<char>) -> int
    decreases s.len(),
{
    if s.len() == 0 {
        0
    } else {
        digits_val(s.drop_last()) * 10 + digit_val(s.last())
    }
}

/// Index of the first occurrence of `c` in `s`, or `s.len()` if absent.
pub open spec fn find_char(s: Seq<char>, c: char) -> int
    decreases s.len(),
{
    if s.len() == 0 {
        0
    } else if s[0] == c {
        0
    } else {
        1 + find_char(s.skip(1), c)
    }
}

/// `s` with leading whitespace removed.
pub open spec fn trim_front(s: Seq<char>) -> Seq<char>
    decreases s.len(),
{
    if s.len() > 0 && is_space(s[0]) {
        trim_front(s.skip(1))
    } else {
        s
    }
}

/// `s` with trailing whitespace removed.
pub open spec fn trim_back(s: Seq<char>) -> Seq<char>
    decreases s.len(),
{
    if s.len() > 0 && is_space(s.last()) {
        trim_back(s.drop_last())
    } else {
        s
    }
}

/// `s` with whitespace removed from both ends.
pub open spec fn trim(s: Seq<char>) -> Seq<char> {
    trim_back(trim_front(s))
}

pub proof fn lemma_find_char(s: Seq<char>, c: char)
    ensures
        0 <= find_char(s, c) <= s.len(),
        find_char(s, c) < s.len() ==> s[find_char(s, c)] == c,
        forall|j: int| 0 <= j < find_char(s, c) ==> s[j] != c,
    decreases s.len(),
{
    if s.len() == 0 {
    } else if s[0] == c {
    } else {
        lemma_find_char(s.skip(1), c);
        assert forall|j: int| 0 <= j < find_char(s, c) implies s[j] != c by {
            if j > 0 {
                assert(s.skip(1)[j - 1] == s[j]);
            }
        }
    }
}

proof fn lemma_trim_front_skip(s: Seq<char>, k: int)
    requires
        0 <= k <= s.len(),
        forall|j: int| 0 <= j < k ==> is_space(#[trigger] s[j]),
        k == s.len() || !is_space(s[k]),
    ensures
        trim_front(s) == s.skip(k),
    decreases k,
{
    if k == 0 {
        assert(s.skip(0) =~= s);
    } else {
        lemma_trim_front_skip(s.skip(1), k - 1);
        assert(s.skip(1).skip(k - 1) =~= s.skip(k));
    }
}

proof fn lemma_trim_back_take(s: Seq<char>, m: int)
    requires
        0 <= m <= s.len(),
        forall|j: int| m <= j < s.len() ==> is_space(#[trigger] s[j]),
        m == 0 || !is_space(s[m - 1]),
    ensures
        trim_back(s) == s.take(m),
    decreases s.len(),
{
    if m == s.len() {
        assert(s.take(m) =~= s);
    } else {
        assert(is_space(s.last()));
        lemma_trim_back_take(s.drop_last(), m);
        assert(s.drop_last().take(m) =~= s.take(m));
    }
}

/// Characters of `s`, in order, as a vector.
pub fn char_vec(s: &str) -> (v: Vec<char>)
    ensures
        v@ == s@,
{
    let n: usize = s.unicode_len();
    let mut v: Vec<char> = Vec::new();
    let mut i: usize = 0;
    while i < n
        invariant
            n == s@.len(),
            i <= n,
            v@ == s@.take(i as int),
        decreases n - i,
    {
        v.push(s.get_char(i));
        i = i + 1;
        proof {
            assert(v@ =~= s@.take(i as int));
        }
    }
    proof {
        assert(s@.take(n as int) =~= s@);
    }
    v
}

/// First position of `c` in `v[a..b]`, or `b` if it does not occur.
pub fn find_in(v: &Vec<char>, a: usize, b: usize, c: char) -> (r: usize)
    requires
        a <= b <= v@.len(),
    ensures
        a <= r <= b,
        r - a == find_char(v@.subrange(a as int, b as int), c),
{
    let ghost w = v@.subrange(a as int, b as int);
    let mut i: usize = a;
    while i < b
        invariant
            a <= i <= b <= v@.len(),
            w == v@.subrange(a as int, b as int),
            forall|j: int| 0 <= j < i - a ==> w[j] != c,
        decreases b - i,
    {
        if v[i] == c {
            proof {
                lemma_find_char(w, c);
                let f = find_char(w, c);
                assert(w[i - a] == c);
                if f < i - a {
                    assert(w[f] != c);
                }
                assert(f == i - a);
            }
            return i;
        }
        proof {
            assert(w[i - a] == v@[i as int]);
        }
        i = i + 1;
    }
    proof {
        lemma_find_char(w, c);
        let f = find_char(w, c);
        if f < w.len() {
            assert(w[f] != c);
        }
    }
    b
}

/// Whether `c` counts as whitespace for trimming.
pub fn space_char(c: char) -> (r: bool)
    ensures
        r == is_space(c),
{
    c == ' ' || c == '\t' || c == '\n' || c == '\r' || c == '\u{b}' || c == '\u{c}'
}

/// Bounds of `v[a..b]` with whitespace stripped from both ends.
pub fn trim_in(v: &Vec<char>, a: usize, b: usize) -> (r: (usize, usize))
    requires
        a <= b <= v@.len(),
    ensures
        a <= r.0 <= r.1 <= b,
        v@.subrange(r.0 as int, r.1 as int) == trim(v@.subrange(a as int, b as int)),
{
    let ghost w = v@.subrange(a as int, b as int);
    let mut i: usize = a;
    while i < b && space_char(v[i])
        invariant
            a <= i <= b <= v@.len(),
            w == v@.subrange(a as int, b as int),
            forall|j: int| 0 <= j < i - a ==> is_space(#[trigger] w[j]),
        decreases b - i,
    {
        proof {
            assert(w[i - a] == v@[i as int]);
        }
        i = i + 1;
    }
    proof {
        if i < b {
            assert(w[i - a] == v@[i as int]);
        }
        lemma_trim_front_skip(w, i - a);
    }
    let ghost wf = w.skip(i - a);
    let mut j: usize = b;
    while j > i && space_char(v[j - 1])
        invariant
            a <= i <= j <= b <= v@.len(),
            w == v@.subrange(a as int, b as int),
            wf == w.skip(i - a),
            trim_front(w) == wf,
            forall|j2: int| j - a - (i - a) <= j2 < wf.len() ==> is_space(#[trigger] wf[j2]),
        decreases j,
    {
        proof {
            assert(wf[j - 1 - i] == v@[j - 1]);
        }
        j = j - 1;
    }
    proof {
        if j > i {
            assert(wf[j - 1 - i] == v@[j - 1]);
        }
        lemma_trim_back_take(wf, j - i);
        assert(wf.take(j - i) =~= v@.subrange(i as int, j as int));
    }
    (i, j)
}

/// Whether `v[a..b]` is exactly the text of `lit`.
pub fn range_eq_lit(v: &Vec<char>, a: usize, b: usize, lit: &str) -> (r: bool)
    requires
        a <= b <= v@.len(),
    ensures
        r == (v@.subrange(a as int, b as int) == lit@),
{
    let ghost w = v@.subrange(a as int, b as int);
    let n: usize = lit.unicode_len();
    if b - a != n {
        return false;
    }
    let mut i: usize = 0;
    while i < n
        invariant
            b - a == n == lit@.len(),
            a <= b <= v@.len(),
            i <= n,
            w == v@.subrange(a as int, b as int),
            forall|j: int| 0 <= j < i ==> w[j] == lit@[j],
        decreases n - i,
    {
        let c = lit.get_char(i);
        if v[a + i] != c {
            proof {
                assert(w[i as int] == v@[a + i]);
                assert(w[i as int] != lit@[i as int]);
            }
            return false;
        }
        proof {
            assert(w[i as int] == v@[a + i]);
        }
        i = i + 1;
    }
    proof {
        assert(w =~= lit@);
    }
    true
}

pub proof fn lemma_digits_val_nonneg(s: Seq<char>)
    requires
        all_digits(s),
    ensures
        digits_val(s) >= 0,
    decreases s.len(),
{
    if s.len() > 0 {
        assert(forall|i: int| 0 <= i < s.drop_last().len() ==> s.drop_last()[i] == s[i]);
        lemma_digits_val_nonneg(s.drop_last());
    }
}

proof fn lemma_digits_val_take_step(s: Seq<char>, i: int)
    requires
        0 <= i < s.len(),
    ensures
        digits_val(s.take(i + 1)) == digits_val(s.take(i)) * 10 + digit_val(s[i]),
{
    assert(s.take(i + 1).drop_last() =~= s.take(i));
    assert(s.take(i + 1).last() == s[i]);
}

proof fn lemma_digits_val_mono(s: Seq<char>, i: int)
    requires
        all_digits(s),
        0 <= i <= s.len(),
    ensures
        digits_val(s.take(i)) <= digits_val(s),
    decreases s.len() - i,
{
    if i == s.len() {
        assert(s.take(i) =~= s);
    } else {
        lemma_digits_val_take_step(s, i);
        assert(forall|j: int| 0 <= j < i ==> s.take(i)[j] == s[j]);
        lemma_digits_val_nonneg(s.take(i));
        lemma_digits_val_mono(s, i + 1);
    }
}

/// Value of the digit run `v[a..b]` when it is non-empty, all digits, and at
/// most `cap`; `None` otherwise.
pub fn parse_digits_capped(v: &Vec<char>, a: usize, b: usize, cap: u32) -> (r: Option<u32>)
    requires
        a <= b <= v@.len(),
    ensures
        ({
            let w = v@.subrange(a as int, b as int);
            r == if w.len() > 0 && all_digits(w) && digits_val(w) <= cap {
                Some(digits_val(w) as u32)
            } else {
                None::<u32>
            }
        }),
{
    let ghost w = v@.subrange(a as int, b as int);
    if a == b {
        return None;
    }
    let mut acc: u32 = 0;
    let mut i: usize = a;
    while i < b
        invariant
            a <= i <= b <= v@.len(),
            a < b,
            w == v@.subrange(a as int, b as int),
            forall|j: int| 0 <= j < i - a ==> is_digit(#[trigger] w[j]),
            acc == digits_val(w.take(i - a)),
            acc <= cap,
        decreases b - i,
    {
        let c = v[i];
        proof {
            assert(w[i - a] == v@[i as int]);
        }
        let u = c as u32;
        if u < 48 || u > 57 {
            proof {
                assert(!is_digit(w[i - a]));
            }
            return None;
        }
        let d: u32 = u - 48;
        proof {
            lemma_digits_val_take_step(w, i - a);
        }
        if d > cap || acc > (cap - d) / 10 {
            proof {
                assert(digits_val(w.take(i - a + 1)) == acc * 10 + d);
                assert(acc * 10 + d > cap);
                if all_digits(w) {
                    lemma_digits_val_mono(w, i - a + 1);
                }
            }
            return None;
        }
        proof {
            assert(acc * 10 + d <= cap);
        }
        acc = acc * 10 + d;
        i = i + 1;
    }
    proof {
        assert(w.take(b - a) =~= w);
    }
    Some(acc)
}

/// The digits of an unsigned numeral, past its optional leading plus sign.
pub open spec fn u32_numeral_body(s: Seq<char>) -> Seq<char> {
    if s.len() > 0 && s[0] == '+' {
        s.skip(1)
    } else {
        s
    }
}

/// Whether `s` is the decimal text of a value representable in 32 unsigned
/// bits: an optional plus sign, then one or more digits, value in range.
pub open spec fn is_u32_numeral(s: Seq<char>) -> bool {
    let b = u32_numeral_body(s);
    b.len() > 0 && all_digits(b) && digits_val(b) <= u32::MAX
}

pub open spec fn u32_numeral_val(s: Seq<char>) -> int {
    digits_val(u32_numeral_body(s))
}

/// Sign and digits of a signed numeral.
pub open spec fn i32_numeral_parts(s: Seq<char>) -> (bool, Seq<char>) {
    if s.len() > 0 && s[0] == '-' {
        (true, s.skip(1))
    } else if s.len() > 0 && s[0] == '+' {
        (false, s.skip(1))
    } else {
        (false, s)
    }
}

/// Whether `s` is the decimal text of a value representable in 32 signed
/// bits: an optional sign, then one or more digits, value in range.
pub open spec fn is_i32_numeral(s: Seq<char>) -> bool {
    let (neg, b) = i32_numeral_parts(s);
    b.len() > 0 && all_digits(b) && if neg {
        digits_val(b) <= 0x8000_0000
    } else {
        digits_val(b) <= 0x7fff_ffff
    }
}

pub open spec fn i32_numeral_val(s: Seq<char>) -> int {
    let (neg, b) = i32_numeral_parts(s);
    if neg {
        -digits_val(b)
    } else {
        digits_val(b)
    }
}

/// The value of a signed numeral, or zero when `s` is not one.
pub open spec fn i32_or_zero(s: Seq<char>) -> int {
    if is_i32_numeral(s) {
        i32_numeral_val(s)
    } else {
        0
    }
}

/// The value of an unsigned numeral, or zero when `s` is not one.
pub open spec fn u32_or_zero(s: Seq<char>) -> int {
    if is_u32_numeral(s) {
        u32_numeral_val(s)
    } else {
        0
    }
}

/// Parse `v[a..b]` as an unsigned 32-bit decimal numeral.
pub fn parse_u32_text(v: &Vec<char>, a: usize, b: usize) -> (r: Option<u32>)
    requires
        a <= b <= v@.len(),
    ensures
        ({
            let w = v@.subrange(a as int, b as int);
            r == if is_u32_numeral(w) {
                Some(u32_numeral_val(w) as u32)
            } else {
                None::<u32>
            }
        }),
{
    let ghost w = v@.subrange(a as int, b as int);
    if b > a && v[a] == '+' {
        proof {
            assert(w[0] == v@[a as int]);
            assert(v@.subrange(a + 1, b as int) =~= u32_numeral_body(w));
        }
        parse_digits_capped(v, a + 1, b, u32::MAX)
    } else {
        proof {
            if w.len() > 0 {
                assert(w[0] == v@[a as int]);
            }
            assert(u32_numeral_body(w) == w);
        }
        parse_digits_capped(v, a, b, u32::MAX)
    }
}

/// Parse `v[a..b]` as a signed 32-bit decimal numeral.
pub fn parse_i32_text(v: &Vec<char>, a: usize, b: usize) -> (r: Option<i32>)
    requires
        a <= b <= v@.len(),
    ensures
        ({
            let w = v@.subrange(a as int, b as int);
            r == if is_i32_numeral(w) {
                Some(i32_numeral_val(w) as i32)
            } else {
                None::<i32>
            }
        }),
{
    let ghost w = v@.subrange(a as int, b as int);
    if b > a && v[a] == '-' {
        proof {
            assert(w[0] == v@[a as int]);
            assert(v@.subrange(a + 1, b as int) =~= i32_numeral_parts(w).1);
        }
        match parse_digits_capped(v, a + 1, b, 0x8000_0000u32) {
            Some(m) => {
                proof {
                    let bdy = i32_numeral_parts(w).1;
                    lemma_digits_val_nonneg(bdy);
                    assert(m == digits_val(bdy));
                }
                if m == 0x8000_0000u32 {
                    Some(i32::MIN)
                } else {
                    Some(-(m as i32))
                }
            },
            None => None,
        }
    } else if b > a && v[a] == '+' {
        proof {
            assert(w[0] == v@[a as int]);
            assert(v@.subrange(a + 1, b as int) =~= i32_numeral_parts(w).1);
        }
        match parse_digits_capped(v, a + 1, b, 0x7fff_ffffu32) {
            Some(m) => {
                proof {
                    lemma_digits_val_nonneg(i32_numeral_parts(w).1);
                }
                Some(m as i32)
            },
            None => None,
        }
    } else {
        proof {
            if w.len() > 0 {
                assert(w[0] == v@[a as int]);
            }
            assert(i32_numeral_parts(w).1 == w);
        }
        match parse_digits_capped(v, a, b, 0x7fff_ffffu32) {
            Some(m) => {
                proof {
                    lemma_digits_val_nonneg(w);
                }
                Some(m as i32)
            },
            None => None,
        }
    }
}

/// Parse `v[a..b]` as a signed numeral, substituting zero when malformed.
pub fn parse_i32_or_zero(v: &Vec<char>, a: usize, b: usize) -> (r: i32)
    requires
        a <= b <= v@.len(),
    ensures
        r as int == i32_or_zero(v@.subrange(a as int, b as int)),
{
    proof {
        let w = v@.subrange(a as int, b as int);
        if is_i32_numeral(w) {
            lemma_digits_val_nonneg(i32_numeral_parts(w).1);
        }
    }
    match parse_i32_text(v, a, b) {
        Some(x) => x,
        None => 0,
    }
}

/// Parse `v[a..b]` as an unsigned numeral, substituting zero when malformed.
pub fn parse_u32_or_zero(v: &Vec<char>, a: usize, b: usize) -> (r: u32)
    requires
        a <= b <= v@.len(),
    ensures
        r as int == u32_or_zero(v@.subrange(a as int, b as int)),
{
    proof {
        let w = v@.subrange(a as int, b as int);
        if is_u32_numeral(w) {
            lemma_digits_val_nonneg(u32_numeral_body(w));
        }
    }
    match parse_u32_text(v, a, b) {
        Some(x) => x,
        None => 0,
    }
}

} // verus!
