//! Character-level helpers: conversions between `&str`, `String` and
//! `Vec<char>`, whitespace, trimming, prefixes and decimal numbers.

use vstd::prelude::*;

verus! {

broadcast use vstd::string::group_string_axioms;

/// `String::push`: appends one character.
#[verifier::external_body]
fn push_char(s: &mut String, c: char)
    ensures
        final(s)@ == old(s)@.push(c),
{
    s.push(c);
}

/// The characters of `s`, in order.
pub fn chars_of(s: &str) -> (v: Vec<char>)
    ensures
        v@ == s@,
{
    let mut v: Vec<char> = Vec::new();
    for c in it: s.chars()
        invariant
            v@ == it.seq().take(it.index() as int),
    {
        v.push(c);
    }
    v
}

/// A `String` holding exactly the characters of `v`.
pub fn string_of(v: &Vec<char>) -> (s: String)
    ensures
        s@ == v@,
{
    let mut s = String::new();
    let mut i: usize = 0;
    while i < v.len()
        invariant
            i <= v.len(),
            s@ == v@.take(i as int),
        decreases v.len() - i,
    {
        push_char(&mut s, v[i]);
        i = i + 1;
        assert(v@.take(i as int) == v@.take((i - 1) as int).push(v@[i - 1]));
    }
    assert(v@.take(v.len() as int) == v@);
    s
}


/// The Unicode `White_Space` property, which `char::is_whitespace` tests.
pub open spec fn is_ws(c: char) -> bool {
    ||| ('\u{9}' <= c && c <= '\u{d}')
    ||| c == ' '
    ||| c == '\u{85}'
    ||| c == '\u{a0}'
    ||| c == '\u{1680}'
    ||| ('\u{2000}' <= c && c <= '\u{200a}')
    ||| c == '\u{2028}'
    ||| c == '\u{2029}'
    ||| c == '\u{202f}'
    ||| c == '\u{205f}'
    ||| c == '\u{3000}'
}

/// Whether `c` is a whitespace character.
pub fn is_whitespace(c: char) -> (r: bool)
    ensures
        r == is_ws(c),
{
    ('\u{9}' <= c && c <= '\u{d}') || c == ' ' || c == '\u{85}' || c == '\u{a0}' || c == '\u{1680}'
        || ('\u{2000}' <= c && c <= '\u{200a}') || c == '\u{2028}' || c == '\u{2029}' || c
        == '\u{202f}' || c == '\u{205f}' || c == '\u{3000}'
}


/// Whether `x` is removed by trimming with `pat`: the given character, or
/// any whitespace when `pat` is `None`.
pub open spec fn trimmed_by(x: char, pat: Option<char>) -> bool {
    match pat {
        Some(c) => x == c,
        None => is_ws(x),
    }
}

/// `s` without its leading characters that `pat` trims.
pub open spec fn strip_front(s: Seq<char>, pat: Option<char>) -> Seq<char>
    decreases s.len(),
{
    if s.len() > 0 && trimmed_by(s[0], pat) {
        strip_front(s.drop_first(), pat)
    } else {
        s
    }
}

/// `s` without its trailing characters that `pat` trims.
pub open spec fn strip_back(s: Seq<char>, pat: Option<char>) -> Seq<char>
    decreases s.len(),
{
    if s.len() > 0 && trimmed_by(s.last(), pat) {
        strip_back(s.drop_last(), pat)
    } else {
        s
    }
}

/// `s` without its leading and trailing characters that `pat` trims.
pub open spec fn trim_by(s: Seq<char>, pat: Option<char>) -> Seq<char> {
    strip_back(strip_front(s, pat), pat)
}

/// `s` without leading and trailing whitespace, as `str::trim` gives it.
pub open spec fn trim_ws(s: Seq<char>) -> Seq<char> {
    trim_by(s, None)
}

/// `s` without leading and trailing double quotes, as
/// `str::trim_matches('"')` gives it.
pub open spec fn trim_quotes(s: Seq<char>) -> Seq<char> {
    trim_by(s, Some('"'))
}

fn is_trimmed_by(x: char, pat: Option<char>) -> (r: bool)
    ensures
        r == trimmed_by(x, pat),
{
    match pat {
        Some(c) => x == c,
        None => is_whitespace(x),
    }
}

/// The characters of `v` from index `a` up to (not including) `b`.
pub fn sub_chars(v: &Vec<char>, a: usize, b: usize) -> (r: Vec<char>)
    requires
        a <= b <= v.len(),
    ensures
        r@ == v@.subrange(a as int, b as int),
{
    let mut r: Vec<char> = Vec::new();
    let mut i = a;
    while i < b
        invariant
            a <= i <= b <= v.len(),
            r@ == v@.subrange(a as int, i as int),
        decreases b - i,
    {
        r.push(v[i]);
        i = i + 1;
    }
    r
}

/// `v` trimmed at both ends by `pat`.
pub fn trim_chars(v: &Vec<char>, pat: Option<char>) -> (r: Vec<char>)
    ensures
        r@ == trim_by(v@, pat),
{
    let n = v.len();
    let mut a: usize = 0;
    assert(v@.skip(0) =~= v@);
    while a < n && is_trimmed_by(v[a], pat)
        invariant
            a <= n == v@.len(),
            strip_front(v@, pat) == strip_front(v@.skip(a as int), pat),
        decreases n - a,
    {
        assert(v@.skip(a as int).drop_first() =~= v@.skip(a + 1));
        a = a + 1;
    }
    let ghost front = v@.skip(a as int);
    assert(strip_front(v@, pat) == front);
    let mut b: usize = n;
    assert(v@.subrange(a as int, n as int) =~= front);
    while b > a && is_trimmed_by(v[b - 1], pat)
        invariant
            a <= b <= n == v@.len(),
            front == v@.skip(a as int),
            strip_back(front, pat) == strip_back(v@.subrange(a as int, b as int), pat),
        decreases b,
    {
        assert(v@.subrange(a as int, b as int).drop_last() =~= v@.subrange(a as int, b - 1));
        b = b - 1;
    }
    sub_chars(v, a, b)
}

/// Whether `v` holds exactly the characters of `lit`.
pub fn eq_lit(v: &Vec<char>, lit: &str) -> (r: bool)
    ensures
        r == (v@ == lit@),
{
    let l = chars_of(lit);
    if l.len() != v.len() {
        return false;
    }
    let mut i: usize = 0;
    while i < v.len()
        invariant
            l@ == lit@,
            l.len() == v.len(),
            i <= v.len(),
            v@.take(i as int) == l@.take(i as int),
        decreases v.len() - i,
    {
        if v[i] != l[i] {
            assert(v@[i as int] != l@[i as int]);
            return false;
        }
        assert(v@.take(i + 1) =~= v@.take(i as int).push(v@[i as int]));
        assert(l@.take(i + 1) =~= l@.take(i as int).push(l@[i as int]));
        i = i + 1;
    }
    assert(v@ =~= v@.take(v.len() as int));
    assert(l@ =~= l@.take(v.len() as int));
    true
}

/// Whether `p` is a prefix of `s`.
pub open spec fn has_prefix(s: Seq<char>, p: Seq<char>) -> bool {
    p.len() <= s.len() && s.take(p.len() as int) == p
}

/// Whether `v` begins with the characters of `lit`.
pub fn starts_with_lit(v: &Vec<char>, lit: &str) -> (r: bool)
    ensures
        r == has_prefix(v@, lit@),
{
    let l = chars_of(lit);
    if l.len() > v.len() {
        return false;
    }
    let mut i: usize = 0;
    while i < l.len()
        invariant
            l@ == lit@,
            l.len() <= v.len(),
            i <= l.len(),
            v@.take(i as int) == l@.take(i as int),
        decreases l.len() - i,
    {
        if v[i] != l[i] {
            assert(v@.take(l.len() as int)[i as int] != l@[i as int]);
            return false;
        }
        assert(v@.take(i + 1) =~= v@.take(i as int).push(v@[i as int]));
        assert(l@.take(i + 1) =~= l@.take(i as int).push(l@[i as int]));
        i = i + 1;
    }
    assert(l@ =~= l@.take(l.len() as int));
    true
}


/// Appends the characters of `lit` to `v`.
pub fn push_lit(v: &mut Vec<char>, lit: &str)
    ensures
        final(v)@ == old(v)@ + lit@,
{
    let l = chars_of(lit);
    push_all(v, &l);
}

/// Appends the characters of `w` to `v`.
pub fn push_all(v: &mut Vec<char>, w: &Vec<char>)
    ensures
        final(v)@ == old(v)@ + w@,
{
    let ghost start = v@;
    let mut i: usize = 0;
    while i < w.len()
        invariant
            i <= w.len(),
            v@ == start + w@.take(i as int),
        decreases w.len() - i,
    {
        v.push(w[i]);
        assert(w@.take(i + 1) =~= w@.take(i as int).push(w@[i as int]));
        i = i + 1;
    }
    assert(w@.take(w.len() as int) =~= w@);
}

/// An ASCII decimal digit.
pub open spec fn is_digit(c: char) -> bool {
    '0' <= c && c <= '9'
}

/// The value of an ASCII decimal digit.
pub open spec fn digit_value(c: char) -> int {
    c as int - '0' as int
}

/// The value of a string of decimal digits, most significant first.
pub open spec fn digits_value(s: Seq<char>) -> int
    decreases s.len(),
{
    if s.len() == 0 {
        0
    } else {
        digits_value(s.drop_last()) * 10 + digit_value(s.last())
    }
}

/// Whether every character of `s` is a decimal digit.
pub open spec fn all_digits(s: Seq<char>) -> bool {
    forall|k: int| 0 <= k < s.len() ==> is_digit(#[trigger] s[k])
}

/// `s` without one leading `+`, if it has one.
pub open spec fn unsigned_digits(s: Seq<char>) -> Seq<char> {
    if s.len() > 0 && s[0] == '+' {
        s.drop_first()
    } else {
        s
    }
}

/// What `str::parse::<u16>` accepts: an optional `+`, then one or more
/// decimal digits whose value fits in a `u16`.
pub open spec fn spec_parse_u16(s: Seq<char>) -> Option<u16> {
    let d = unsigned_digits(s);
    if d.len() > 0 && all_digits(d) && digits_value(d) <= 65535 {
        Some(digits_value(d) as u16)
    } else {
        None
    }
}

/// Parses a `u16` written in decimal, as `str::parse::<u16>` does.
pub fn parse_u16(v: &Vec<char>) -> (r: Option<u16>)
    ensures
        r == spec_parse_u16(v@),
{
    let n = v.len();
    let start: usize = if n > 0 && v[0] == '+' {
        1
    } else {
        0
    };
    let ghost d = unsigned_digits(v@);
    assert(d =~= v@.skip(start as int));
    if start >= n {
        return None;
    }
    let mut acc: u32 = 0;
    let mut i: usize = start;
    assert(d.take(0) =~= Seq::<char>::empty());
    while i < n
        invariant
            start <= i <= n == v@.len(),
            d == v@.skip(start as int),
            d == unsigned_digits(v@),
            all_digits(d.take(i - start)),
            digits_value(d.take(i - start)) >= 0,
            acc as int == if digits_value(d.take(i - start)) < 65536 {
                digits_value(d.take(i - start))
            } else {
                65536
            },
        decreases n - i,
    {
        let c = v[i];
        if !('0' <= c && c <= '9') {
            assert(d[i - start] == c);
            assert(!is_digit(d[i - start]));
            assert(!all_digits(d));
            assert(spec_parse_u16(v@) is None);
            return None;
        }
        let ghost k = i - start;
        assert(d.take(k + 1).drop_last() =~= d.take(k));
        assert(d.take(k + 1).last() == c);
        assert(all_digits(d.take(k + 1))) by {
            assert forall|j: int| 0 <= j < k + 1 implies is_digit(#[trigger] d.take(k + 1)[j]) by {
                if j < k {
                    assert(d.take(k + 1)[j] == d.take(k)[j]);
                }
            }
        }
        let dv: u32 = (c as u32) - ('0' as u32);
        if acc >= 65536 {
            acc = 65536;
        } else {
            let next = acc * 10 + dv;
            acc = if next >= 65536 {
                65536
            } else {
                next
            };
        }
        i = i + 1;
    }
    assert(d.take(n - start) =~= d);
    if acc >= 65536 {
        None
    } else {
        Some(acc as u16)
    }
}

/// The decimal digit character for `d` (below ten).
pub open spec fn digit_char(d: int) -> char {
    (d + '0' as int) as char
}

/// The decimal numeral of `n`, without leading zeros.
pub open spec fn decimal(n: nat) -> Seq<char>
    decreases n,
{
    if n < 10 {
        seq![digit_char(n as int)]
    } else {
        decimal(n / 10).push(digit_char((n % 10) as int))
    }
}

/// The decimal numeral of `i`, with a leading `-` when negative, as
/// integers are displayed.
pub open spec fn signed_decimal(i: int) -> Seq<char> {
    if i < 0 {
        seq!['-'] + decimal((-i) as nat)
    } else {
        decimal(i as nat)
    }
}

fn digit_to_char(d: u64) -> (c: char)
    requires
        d < 10,
    ensures
        c == digit_char(d as int),
{
    let b: u8 = 48 + (d as u8);
    b as char
}

/// The decimal numeral of `n`.
pub fn decimal_chars(n: u64) -> (v: Vec<char>)
    ensures
        v@ == decimal(n as nat),
{
    let mut q = n;
    let mut v: Vec<char> = Vec::new();
    assert(decimal(n as nat) =~= decimal(q as nat) + v@);
    while q >= 10
        invariant
            decimal(n as nat) == decimal(q as nat) + v@,
        decreases q,
    {
        let c = digit_to_char(q % 10);
        let ghost old_v = v@;
        v.insert(0, c);
        assert(decimal(q as nat) == decimal((q / 10) as nat).push(c));
        q = q / 10;
        assert(decimal(n as nat) =~= decimal(q as nat) + v@);
    }
    let c = digit_to_char(q);
    v.insert(0, c);
    v
}

/// The decimal numeral of `i`, with a leading `-` when negative.
pub fn signed_decimal_chars(i: i64) -> (v: Vec<char>)
    requires
        i > i64::MIN,
    ensures
        v@ == signed_decimal(i as int),
{
    if i < 0 {
        let mut v: Vec<char> = Vec::new();
        v.push('-');
        let m: i64 = -i;
        let d = decimal_chars(m as u64);
        push_all(&mut v, &d);
        v
    } else {
        decimal_chars(i as u64)
    }
}


/// Whether `a` comes before `b` when compared character by character from
/// index `i` on (a proper prefix comes first).
pub open spec fn lt_from(a: Seq<char>, b: Seq<char>, i: int) -> bool
    decreases a.len() - i,
{
    if i < 0 {
        false
    } else if i >= a.len() {
        i < b.len()
    } else if i >= b.len() {
        false
    } else if a[i] < b[i] {
        true
    } else if a[i] == b[i] {
        lt_from(a, b, i + 1)
    } else {
        false
    }
}

/// The lexicographic order of strings by character code, as `Ord` orders
/// `String`s.
pub open spec fn seq_lt(a: Seq<char>, b: Seq<char>) -> bool {
    lt_from(a, b, 0)
}

proof fn lemma_lt_from_trichotomy(a: Seq<char>, b: Seq<char>, i: int)
    requires
        0 <= i,
        i <= a.len(),
        i <= b.len(),
    ensures
        lt_from(a, b, i) || lt_from(b, a, i) || a.skip(i) == b.skip(i),
    decreases a.len() - i,
{
    if i < a.len() && i < b.len() {
        if a[i] == b[i] {
            lemma_lt_from_trichotomy(a, b, i + 1);
            if !lt_from(a, b, i + 1) && !lt_from(b, a, i + 1) {
                assert(a.skip(i) =~= seq![a[i]] + a.skip(i + 1));
                assert(b.skip(i) =~= seq![b[i]] + b.skip(i + 1));
            }
        }
    } else if i == a.len() && i == b.len() {
        assert(a.skip(i) =~= b.skip(i));
    }
}

proof fn lemma_lt_from_asym(a: Seq<char>, b: Seq<char>, i: int)
    requires
        0 <= i,
    ensures
        !(lt_from(a, b, i) && lt_from(b, a, i)),
    decreases a.len() - i,
{
    if i < a.len() && i < b.len() && a[i] == b[i] {
        lemma_lt_from_asym(a, b, i + 1);
    }
}

proof fn lemma_lt_from_trans(a: Seq<char>, b: Seq<char>, c: Seq<char>, i: int)
    requires
        0 <= i,
        lt_from(a, b, i),
        lt_from(b, c, i),
    ensures
        lt_from(a, c, i),
    decreases a.len() - i,
{
    if i < a.len() && i < b.len() && i < c.len() && a[i] == b[i] && b[i] == c[i] {
        lemma_lt_from_trans(a, b, c, i + 1);
    }
}

/// The lexicographic order is a strict total order: irreflexive and
/// asymmetric, transitive, and any two different strings are ordered.
pub proof fn seq_lt_strict_total(a: Seq<char>, b: Seq<char>, c: Seq<char>)
    ensures
        !seq_lt(a, a),
        !(seq_lt(a, b) && seq_lt(b, a)),
        seq_lt(a, b) && seq_lt(b, c) ==> seq_lt(a, c),
        seq_lt(a, b) || seq_lt(b, a) || a == b,
{
    lemma_lt_from_asym(a, a, 0);
    lemma_lt_from_asym(a, b, 0);
    if seq_lt(a, b) && seq_lt(b, c) {
        lemma_lt_from_trans(a, b, c, 0);
    }
    lemma_lt_from_trichotomy(a, b, 0);
    assert(a.skip(0) =~= a);
    assert(b.skip(0) =~= b);
}

/// Whether `a` comes before `b` in the lexicographic order.
pub fn chars_lt(a: &Vec<char>, b: &Vec<char>) -> (r: bool)
    ensures
        r == seq_lt(a@, b@),
{
    let mut i: usize = 0;
    while i < a.len() && i < b.len() && a[i] == b[i]
        invariant
            i <= a.len(),
            i <= b.len(),
            seq_lt(a@, b@) == lt_from(a@, b@, i as int),
        decreases a.len() - i,
    {
        i = i + 1;
    }
    if i >= a.len() {
        i < b.len()
    } else if i >= b.len() {
        false
    } else {
        a[i] < b[i]
    }
}

/// Whether `a` comes before `b` in the lexicographic order.
pub fn str_lt(a: &str, b: &str) -> (r: bool)
    ensures
        r == seq_lt(a@, b@),
{
    let av = chars_of(a);
    let bv = chars_of(b);
    chars_lt(&av, &bv)
}


/// `s` without surrounding whitespace, as `str::trim` gives it.
pub fn trim_str(s: &str) -> (r: String)
    ensures
        r@ == trim_ws(s@),
{
    let v = chars_of(s);
    string_of(&trim_chars(&v, None))
}


proof fn lemma_decimal_digits(n: nat)
    ensures
        decimal(n).len() > 0,
        all_digits(decimal(n)),
        digits_value(decimal(n)) == n,
    decreases n,
{
    if n < 10 {
        let c = digit_char(n as int);
        assert(c as int == n + 48);
        assert(decimal(n).drop_last() =~= Seq::<char>::empty());
        assert(decimal(n).last() == c);
        assert(digits_value(decimal(n)) == digits_value(Seq::<char>::empty()) * 10 + digit_value(c));
    } else {
        lemma_decimal_digits(n / 10);
        let d = decimal(n / 10);
        let c = digit_char((n % 10) as int);
        assert(c as int == n % 10 + 48);
        assert(decimal(n).drop_last() =~= d);
        assert(decimal(n).last() == c);
        assert(digits_value(decimal(n)) == digits_value(d) * 10 + digit_value(c));
        assert((n / 10) * 10 + n % 10 == n);
        assert forall|k: int| 0 <= k < decimal(n).len() implies is_digit(#[trigger] decimal(n)[k]) by {
            if k < d.len() {
                assert(decimal(n)[k] == d[k]);
            }
        }
    }
}

/// A port number written in decimal reads back as the same port.
pub proof fn port_decimal_roundtrip(p: u16)
    ensures
        spec_parse_u16(decimal(p as nat)) == Some(p),
{
    lemma_decimal_digits(p as nat);
    let d = decimal(p as nat);
    assert(is_digit(d[0]));
    assert(unsigned_digits(d) == d);
}

} // verus!
