//! Small string utilities: decimal rendering and character classes.

use vstd::prelude::*;
use vstd::string::StringExecFns;
use vstd::utf8::{encode_utf8, encode_scalar, char_is_scalar};

verus! {

/// Appends one character to the end of a string (`String::push`).
#[verifier::external_body]
pub(crate) fn push_char(s: &mut String, c: char)
    ensures
        final(s)@ == old(s)@.push(c),
{
    s.push(c);
}

/// The ASCII character for the decimal digit `d`.
pub open spec fn digit_char(d: int) -> char {
    if d == 0 {
        '0'
    } else if d == 1 {
        '1'
    } else if d == 2 {
        '2'
    } else if d == 3 {
        '3'
    } else if d == 4 {
        '4'
    } else if d == 5 {
        '5'
    } else if d == 6 {
        '6'
    } else if d == 7 {
        '7'
    } else if d == 8 {
        '8'
    } else {
        '9'
    }
}

/// The shortest decimal rendering of `n` (no sign, no leading zeros).
pub open spec fn decimal(n: nat) -> Seq<char>
    decreases n,
{
    if n < 10 {
        seq![digit_char(n as int)]
    } else {
        decimal(n / 10).push(digit_char((n % 10) as int))
    }
}

/// `n` in decimal, left-padded with `'0'` to at least `width` characters.
pub open spec fn zero_padded(n: nat, width: nat) -> Seq<char> {
    let d = decimal(n);
    if d.len() >= width {
        d
    } else {
        Seq::new((width - d.len()) as nat, |i: int| '0') + d
    }
}

/// A signed integer in decimal, with a leading `'-'` when negative.
pub open spec fn signed_decimal(n: int) -> Seq<char> {
    if n < 0 {
        seq!['-'] + decimal((-n) as nat)
    } else {
        decimal(n as nat)
    }
}

pub proof fn lemma_decimal_len_pos(n: nat)
    ensures
        decimal(n).len() >= 1,
    decreases n,
{
    if n >= 10 {
        lemma_decimal_len_pos(n / 10);
    }
}

fn digit_to_char(d: u64) -> (c: char)
    requires
        d < 10,
    ensures
        c == digit_char(d as int),
{
    if d == 0 {
        '0'
    } else if d == 1 {
        '1'
    } else if d == 2 {
        '2'
    } else if d == 3 {
        '3'
    } else if d == 4 {
        '4'
    } else if d == 5 {
        '5'
    } else if d == 6 {
        '6'
    } else if d == 7 {
        '7'
    } else if d == 8 {
        '8'
    } else {
        '9'
    }
}

/// The value of a decimal digit character (0 for any other character).
pub open spec fn digit_value(c: char) -> nat {
    if c == '1' {
        1
    } else if c == '2' {
        2
    } else if c == '3' {
        3
    } else if c == '4' {
        4
    } else if c == '5' {
        5
    } else if c == '6' {
        6
    } else if c == '7' {
        7
    } else if c == '8' {
        8
    } else if c == '9' {
        9
    } else {
        0
    }
}

/// The number a string of decimal digits denotes; leading zeros add nothing.
pub open spec fn digits_value(s: Seq<char>) -> nat
    decreases s.len(),
{
    if s.len() == 0 {
        0
    } else {
        digits_value(s.drop_last()) * 10 + digit_value(s.last())
    }
}

/// A decimal rendering denotes the number it renders.
pub proof fn lemma_decimal_value(n: nat)
    ensures
        digits_value(decimal(n)) == n,
    decreases n,
{
    let d = decimal(n);
    lemma_decimal_len_pos(n);
    assert(digits_value(d) == digits_value(d.drop_last()) * 10 + digit_value(d.last()));
    if n >= 10 {
        lemma_decimal_value(n / 10);
        assert(d.drop_last() =~= decimal(n / 10));
        assert(d.last() == digit_char((n % 10) as int));
        lemma_digit_value((n % 10) as int);
        assert((n / 10) * 10 + n % 10 == n) by (nonlinear_arith);
    } else {
        assert(d == seq![digit_char(n as int)]);
        lemma_digit_value(n as int);
        assert(d.drop_last() =~= Seq::<char>::empty());
        assert(digits_value(d.drop_last()) == 0);
    }
}

proof fn lemma_digit_value(d: int)
    requires
        0 <= d < 10,
    ensures
        digit_value(digit_char(d)) == d,
{
}

/// Leading zeros do not change the number a digit string denotes.
pub proof fn lemma_leading_zeros_value(k: nat, d: Seq<char>)
    ensures
        digits_value(Seq::new(k, |i: int| '0') + d) == digits_value(d),
    decreases d.len(), k,
{
    let z = Seq::new(k, |i: int| '0');
    if d.len() == 0 {
        assert(z + d =~= z);
        if k > 0 {
            assert(z.drop_last() =~= Seq::new((k - 1) as nat, |i: int| '0'));
            lemma_leading_zeros_value((k - 1) as nat, d);
            assert(Seq::new((k - 1) as nat, |i: int| '0') + d =~= Seq::new((k - 1) as nat, |i: int| '0'));
        }
    } else {
        assert((z + d).drop_last() =~= z + d.drop_last());
        lemma_leading_zeros_value(k, d.drop_last());
    }
}

/// A zero-padded rendering denotes the number it renders.
pub proof fn lemma_zero_padded_value(n: nat, width: nat)
    ensures
        digits_value(zero_padded(n, width)) == n,
{
    lemma_decimal_value(n);
    let d = decimal(n);
    if d.len() < width {
        lemma_leading_zeros_value((width - d.len()) as nat, d);
    }
}

/// Appends the decimal rendering of `n` to `s`.
pub fn push_decimal(s: &mut String, n: u64)
    ensures
        final(s)@ == old(s)@ + decimal(n as nat),
    decreases n,
{
    if n >= 10 {
        push_decimal(s, n / 10);
    }
    let c = digit_to_char(n % 10);
    push_char(s, c);
    assert(final(s)@ =~= old(s)@ + decimal(n as nat));
}

/// The number of characters of the decimal rendering of `n`.
pub fn decimal_len(n: u64) -> (len: u64)
    ensures
        len == decimal(n as nat).len(),
    decreases n,
{
    if n < 10 {
        1
    } else {
        let l = decimal_len(n / 10);
        proof {
            lemma_decimal_len_bound((n / 10) as nat);
        }
        l + 1
    }
}

proof fn lemma_decimal_len_bound(n: nat)
    ensures
        decimal(n).len() <= 1 + n / 10,
    decreases n,
{
    if n >= 10 {
        lemma_decimal_len_bound(n / 10);
    }
}

/// Appends `n` in decimal, left-padded with zeros to `width` characters.
pub fn push_zero_padded(s: &mut String, n: u64, width: u64)
    ensures
        final(s)@ == old(s)@ + zero_padded(n as nat, width as nat),
{
    let len = decimal_len(n);
    let ghost start = s@;
    if len < width {
        let mut i: u64 = 0;
        while i < width - len
            invariant
                len < width,
                i <= width - len,
                s@ == start + Seq::new(i as nat, |k: int| '0'),
            decreases width - len - i,
        {
            push_char(s, '0');
            i = i + 1;
            assert(s@ =~= start + Seq::new(i as nat, |k: int| '0'));
        }
    }
    push_decimal(s, n);
    assert(s@ =~= start + zero_padded(n as nat, width as nat));
}

/// Appends a signed integer in decimal.
pub fn push_signed_decimal(s: &mut String, n: i64)
    ensures
        final(s)@ == old(s)@ + signed_decimal(n as int),
{
    let ghost start = s@;
    if n < 0 {
        push_char(s, '-');
        let m: u64 = (-(n as i128)) as u64;
        push_decimal(s, m);
        assert(s@ =~= start + signed_decimal(n as int));
    } else {
        push_decimal(s, n as u64);
    }
}

/// The decimal rendering of an unsigned integer as a new string.
pub fn u64_to_string(n: u64) -> (s: String)
    ensures
        s@ == decimal(n as nat),
{
    let mut s = String::new();
    push_decimal(&mut s, n);
    assert(s@ =~= decimal(n as nat));
    s
}

/// Number of bytes of the UTF-8 encoding of `c`.
pub open spec fn char_utf8_width(c: char) -> nat {
    let v = c as u32;
    if v <= 0x7F {
        1
    } else if v <= 0x7FF {
        2
    } else if v <= 0xFFFF {
        3
    } else {
        4
    }
}

/// Number of bytes of the UTF-8 encoding of `s`.
pub open spec fn utf8_len(s: Seq<char>) -> nat
    decreases s.len(),
{
    if s.len() == 0 {
        0
    } else {
        char_utf8_width(s[0]) + utf8_len(s.drop_first())
    }
}

pub proof fn lemma_char_width_encoding(c: char)
    ensures
        char_utf8_width(c) == encode_scalar(c as u32).len(),
        1 <= char_utf8_width(c) <= 4,
{
    char_is_scalar(c);
}

/// `utf8_len` is the length of the encoding that `str::len` reports.
pub proof fn lemma_utf8_len_encoding(s: Seq<char>)
    ensures
        utf8_len(s) == encode_utf8(s).len(),
    decreases s.len(),
{
    if s.len() > 0 {
        lemma_char_width_encoding(s[0]);
        lemma_utf8_len_encoding(s.drop_first());
    }
}

/// Byte lengths add up under concatenation.
pub proof fn lemma_utf8_len_concat(a: Seq<char>, b: Seq<char>)
    ensures
        utf8_len(a + b) == utf8_len(a) + utf8_len(b),
    decreases a.len(),
{
    if a.len() > 0 {
        assert((a + b).drop_first() =~= a.drop_first() + b);
        lemma_utf8_len_concat(a.drop_first(), b);
    } else {
        assert(a + b =~= b);
    }
}

pub proof fn lemma_utf8_len_at_least_len(s: Seq<char>)
    ensures
        utf8_len(s) >= s.len(),
    decreases s.len(),
{
    if s.len() > 0 {
        lemma_utf8_len_at_least_len(s.drop_first());
    }
}

/// `str::len`: the number of bytes of the UTF-8 encoding of `s`. A string
/// slice always fits in memory, so its byte length is a `usize`.
#[verifier::external_body]
pub(crate) fn str_byte_len(s: &str) -> (n: usize)
    ensures
        n == utf8_len(s@),
{
    s.len()
}

/// Number of bytes of the UTF-8 encoding of `c`.
pub fn utf8_width(c: char) -> (w: usize)
    ensures
        w == char_utf8_width(c),
{
    let v = c as u32;
    if v <= 0x7F {
        1
    } else if v <= 0x7FF {
        2
    } else if v <= 0xFFFF {
        3
    } else {
        4
    }
}

/// The longest prefix of `s` whose UTF-8 encoding fits in `budget` bytes:
/// characters are taken from the front while they still fit.
pub open spec fn prefix_within(s: Seq<char>, budget: nat) -> Seq<char>
    decreases s.len(),
{
    if s.len() == 0 || char_utf8_width(s[0]) > budget {
        Seq::empty()
    } else {
        seq![s[0]] + prefix_within(s.drop_first(), (budget - char_utf8_width(s[0])) as nat)
    }
}

pub proof fn lemma_prefix_within_fits(s: Seq<char>, budget: nat)
    ensures
        utf8_len(prefix_within(s, budget)) <= budget,
        prefix_within(s, budget).len() <= s.len(),
        prefix_within(s, budget) =~= s.take(prefix_within(s, budget).len() as int),
        utf8_len(s) <= budget ==> prefix_within(s, budget) == s,
        utf8_len(s) > budget ==> prefix_within(s, budget).len() < s.len(),
        prefix_within(s, budget).len() < s.len() ==> utf8_len(s.take(prefix_within(s, budget).len() as int + 1))
            > budget,
    decreases s.len(),
{
    if s.len() > 0 {
        lemma_char_width_encoding(s[0]);
        let rest = (budget - char_utf8_width(s[0])) as nat;
        reveal_with_fuel(utf8_len, 2);
        if char_utf8_width(s[0]) <= budget {
            lemma_prefix_within_fits(s.drop_first(), rest);
            let p = prefix_within(s.drop_first(), rest);
            lemma_utf8_len_concat(seq![s[0]], p);
            assert(s =~= seq![s[0]] + s.drop_first());
            if utf8_len(s) <= budget {
                assert(prefix_within(s, budget) =~= s);
            }
            if p.len() < s.drop_first().len() {
                let t = s.drop_first().take(p.len() as int + 1);
                lemma_utf8_len_concat(seq![s[0]], t);
                assert(s.take(p.len() as int + 2) =~= seq![s[0]] + t);
            }
        } else {
            assert(s.take(1) =~= seq![s[0]]);
            assert(seq![s[0]].drop_first() =~= Seq::<char>::empty());
        }
    }
}

proof fn lemma_prefix_within_step(s: Seq<char>, i: int, budget: nat, used: nat)
    requires
        0 <= i < s.len(),
        used + char_utf8_width(s[i]) <= budget,
        prefix_within(s, budget) == s.take(i) + prefix_within(s.skip(i), (budget - used) as nat),
    ensures
        prefix_within(s, budget) == s.take(i + 1) + prefix_within(
            s.skip(i + 1),
            (budget - used - char_utf8_width(s[i])) as nat,
        ),
{
    let rest = s.skip(i);
    assert(rest[0] == s[i]);
    assert(rest.drop_first() =~= s.skip(i + 1));
    assert(s.take(i) + seq![s[i]] =~= s.take(i + 1));
    assert(s.take(i) + (seq![s[i]] + prefix_within(s.skip(i + 1), (budget - used - char_utf8_width(s[i])) as nat)) =~= s.take(i + 1) + prefix_within(s.skip(i + 1), (budget - used - char_utf8_width(s[i])) as nat));
}

/// Copies the longest prefix of `s` that fits in `budget` bytes.
pub fn prefix_within_budget(s: &str, budget: usize) -> (res: String)
    ensures
        res@ == prefix_within(s@, budget as nat),
{
    let mut res = String::new();
    let mut used: usize = 0;
    let mut full = false;
    proof {
        assert(s@.take(0) =~= Seq::<char>::empty());
        assert(s@.skip(0) =~= s@);
        assert(prefix_within(s@, budget as nat) =~= s@.take(0) + prefix_within(s@.skip(0), budget as nat));
    }
    for c in iter: s.chars()
        invariant
            iter.seq() == s@,
            used <= budget,
            full ==> res@ == prefix_within(s@, budget as nat),
            !full ==> res@ == s@.take(iter.index()),
            !full ==> prefix_within(s@, budget as nat) == res@ + prefix_within(
                s@.skip(iter.index()),
                (budget - used) as nat,
            ),
    {
        if !full {
            let w = utf8_width(c);
            if w <= budget - used {
                proof {
                    lemma_prefix_within_step(s@, iter.index(), budget as nat, used as nat);
                }
                push_char(&mut res, c);
                used = used + w;
                proof {
                    assert(res@ =~= s@.take(iter.index() + 1));
                }
            } else {
                proof {
                    let rest = s@.skip(iter.index());
                    assert(rest[0] == c);
                    assert(prefix_within(rest, (budget - used) as nat) =~= Seq::<char>::empty());
                    assert(res@ + Seq::<char>::empty() =~= res@);
                }
                full = true;
            }
        }
    }
    proof {
        if !full {
            assert(s@.skip(s@.len() as int) =~= Seq::<char>::empty());
            assert(s@.take(s@.len() as int) =~= s@);
            assert(res@ + Seq::<char>::empty() =~= res@);
        }
    }
    res
}

/// ASCII letter.
pub open spec fn is_ascii_alpha(c: char) -> bool {
    ('a' <= c && c <= 'z') || ('A' <= c && c <= 'Z')
}

/// ASCII letter or digit.
pub open spec fn is_ascii_alnum(c: char) -> bool {
    is_ascii_alpha(c) || ('0' <= c && c <= '9')
}

/// Unicode `White_Space` (the characters `char::is_whitespace` accepts).
pub open spec fn is_whitespace(c: char) -> bool {
    ||| c == ' '
    ||| ('\t' <= c && c <= '\r')
    ||| c == '\u{85}'
    ||| c == '\u{a0}'
    ||| c == '\u{1680}'
    ||| ('\u{2000}' <= c && c <= '\u{200a}')
    ||| c == '\u{2028}'
    ||| c == '\u{2029}'
    ||| c == '\u{202f}'
    ||| c == '\u{205f}'
    ||| c == '\u{3000}'
}

pub fn ascii_alpha(c: char) -> (b: bool)
    ensures
        b == is_ascii_alpha(c),
{
    ('a' <= c && c <= 'z') || ('A' <= c && c <= 'Z')
}

pub fn ascii_alnum(c: char) -> (b: bool)
    ensures
        b == is_ascii_alnum(c),
{
    ascii_alpha(c) || ('0' <= c && c <= '9')
}

pub fn whitespace(c: char) -> (b: bool)
    ensures
        b == is_whitespace(c),
{
    c == ' ' || ('\t' <= c && c <= '\r') || c == '\u{85}' || c == '\u{a0}' || c == '\u{1680}' || (
    '\u{2000}' <= c && c <= '\u{200a}') || c == '\u{2028}' || c == '\u{2029}' || c == '\u{202f}'
        || c == '\u{205f}' || c == '\u{3000}'
}

/// The characters of a string slice.
pub fn chars_of(s: &str) -> (v: Vec<char>)
    ensures
        v@ == s@,
{
    let mut v: Vec<char> = Vec::new();
    for c in iter: s.chars()
        invariant
            iter.seq() == s@,
            v@ == s@.take(iter.index()),
    {
        v.push(c);
        proof {
            assert(v@ =~= s@.take(iter.index() + 1));
        }
    }
    assert(v@ =~= s@);
    v
}

/// The string made of `v[lo..hi]`.
pub fn string_of(v: &Vec<char>, lo: usize, hi: usize) -> (s: String)
    requires
        lo <= hi <= v@.len(),
    ensures
        s@ == v@.subrange(lo as int, hi as int),
{
    let mut s = String::new();
    let mut i = lo;
    while i < hi
        invariant
            lo <= i <= hi,
            hi <= v@.len(),
            s@ == v@.subrange(lo as int, i as int),
        decreases hi - i,
    {
        push_char(&mut s, v[i]);
        i = i + 1;
        assert(s@ =~= v@.subrange(lo as int, i as int));
    }
    s
}

/// Equality of two string slices by content.
pub fn str_eq(a: &str, b: &str) -> (r: bool)
    ensures
        r == (a@ == b@),
{
    let x = String::from_str(a);
    let y = String::from_str(b);
    x == y
}

/// Number of leading whitespace characters.
pub open spec fn leading_ws(s: Seq<char>) -> nat
    decreases s.len(),
{
    if s.len() > 0 && is_whitespace(s[0]) {
        1 + leading_ws(s.drop_first())
    } else {
        0
    }
}

/// Number of trailing whitespace characters.
pub open spec fn trailing_ws(s: Seq<char>) -> nat
    decreases s.len(),
{
    if s.len() > 0 && is_whitespace(s.last()) {
        1 + trailing_ws(s.drop_last())
    } else {
        0
    }
}

/// `s` without leading and trailing whitespace (`str::trim`).
pub open spec fn trimmed(s: Seq<char>) -> Seq<char> {
    let t = s.skip(leading_ws(s) as int);
    t.take(t.len() - trailing_ws(t))
}

proof fn lemma_leading_ws(s: Seq<char>, i: int)
    requires
        0 <= i <= s.len(),
        forall|j: int| 0 <= j < i ==> is_whitespace(#[trigger] s[j]),
    ensures
        leading_ws(s) >= i,
        leading_ws(s) <= s.len(),
        i < s.len() && !is_whitespace(s[i]) ==> leading_ws(s) == i,
        i == s.len() ==> leading_ws(s) == s.len(),
    decreases i,
{
    if i > 0 {
        assert forall|j: int| 0 <= j < i - 1 implies is_whitespace(#[trigger] s.drop_first()[j]) by {
            assert(s.drop_first()[j] == s[j + 1]);
        }
        lemma_leading_ws(s.drop_first(), i - 1);
    } else {
        lemma_leading_ws_bound(s);
    }
}

proof fn lemma_leading_ws_bound(s: Seq<char>)
    ensures
        leading_ws(s) <= s.len(),
    decreases s.len(),
{
    if s.len() > 0 {
        lemma_leading_ws_bound(s.drop_first());
    }
}

proof fn lemma_trailing_ws(s: Seq<char>, i: int)
    requires
        0 <= i <= s.len(),
        forall|j: int| s.len() - i <= j < s.len() ==> is_whitespace(#[trigger] s[j]),
    ensures
        trailing_ws(s) >= i,
        trailing_ws(s) <= s.len(),
        i < s.len() && !is_whitespace(s[s.len() - 1 - i]) ==> trailing_ws(s) == i,
        i == s.len() ==> trailing_ws(s) == s.len(),
    decreases i,
{
    if i > 0 {
        assert forall|j: int| s.drop_last().len() - (i - 1) <= j < s.drop_last().len() implies is_whitespace(
            #[trigger] s.drop_last()[j],
        ) by {
            assert(s.drop_last()[j] == s[j]);
        }
        lemma_trailing_ws(s.drop_last(), i - 1);
    } else {
        lemma_trailing_ws_bound(s);
    }
}

proof fn lemma_trailing_ws_bound(s: Seq<char>)
    ensures
        trailing_ws(s) <= s.len(),
    decreases s.len(),
{
    if s.len() > 0 {
        lemma_trailing_ws_bound(s.drop_last());
    }
}

/// `v[lo..hi]` without leading and trailing whitespace, as index bounds.
fn trim_bounds(v: &Vec<char>, lo: usize, hi: usize) -> (r: (usize, usize))
    requires
        lo <= hi <= v@.len(),
    ensures
        lo <= r.0 <= r.1 <= hi,
        v@.subrange(r.0 as int, r.1 as int) == trimmed(v@.subrange(lo as int, hi as int)),
{
    let ghost s = v@.subrange(lo as int, hi as int);
    let mut a = lo;
    while a < hi && whitespace(v[a])
        invariant
            lo <= a <= hi,
            hi <= v@.len(),
            s == v@.subrange(lo as int, hi as int),
            forall|j: int| 0 <= j < a - lo ==> is_whitespace(#[trigger] s[j]),
        decreases hi - a,
    {
        a = a + 1;
    }
    proof {
        lemma_leading_ws(s, a - lo);
    }
    let ghost t = s.skip(leading_ws(s) as int);
    assert(t =~= v@.subrange(a as int, hi as int));
    let mut b = hi;
    while b > a && whitespace(v[b - 1])
        invariant
            a <= b <= hi,
            hi <= v@.len(),
            t == v@.subrange(a as int, hi as int),
            forall|j: int| t.len() - (hi - b) <= j < t.len() ==> is_whitespace(#[trigger] t[j]),
        decreases b - a,
    {
        b = b - 1;
    }
    proof {
        lemma_trailing_ws(t, hi - b);
        assert(t.take(t.len() - trailing_ws(t)) =~= v@.subrange(a as int, b as int));
    }
    (a, b)
}

/// `s` without leading and trailing whitespace (`str::trim`).
pub fn trim(s: &str) -> (t: String)
    ensures
        t@ == trimmed(s@),
{
    let v = chars_of(s);
    let (a, b) = trim_bounds(&v, 0, v.len());
    assert(v@.subrange(0, v@.len() as int) =~= v@);
    string_of(&v, a, b)
}

/// The pieces of `s` between occurrences of `sep` (`str::split` on a
/// character): one more piece than there are separators.
pub open spec fn split_on(s: Seq<char>, sep: char) -> Seq<Seq<char>>
    decreases s.len(),
{
    if s.len() == 0 {
        seq![Seq::empty()]
    } else {
        let prev = split_on(s.drop_last(), sep);
        if s.last() == sep {
            prev.push(Seq::empty())
        } else {
            prev.update(prev.len() - 1, prev.last().push(s.last()))
        }
    }
}

pub proof fn lemma_split_on_nonempty(s: Seq<char>, sep: char)
    ensures
        split_on(s, sep).len() >= 1,
    decreases s.len(),
{
    if s.len() > 0 {
        lemma_split_on_nonempty(s.drop_last(), sep);
    }
}

/// Splits `s` at every occurrence of `sep`.
pub fn split_char(s: &str, sep: char) -> (pieces: Vec<String>)
    ensures
        pieces@.map_values(|p: String| p@) == split_on(s@, sep),
{
    let v = chars_of(s);
    let mut pieces: Vec<String> = Vec::new();
    let mut start: usize = 0;
    let mut i: usize = 0;
    proof {
        assert(v@.take(0) =~= Seq::<char>::empty());
        assert(pieces@.map_values(|p: String| p@).push(v@.subrange(0, 0)) =~= seq![Seq::<char>::empty()]);
    }
    while i < v.len()
        invariant
            start <= i <= v@.len(),
            v@ == s@,
            pieces@.map_values(|p: String| p@).push(v@.subrange(start as int, i as int)) == split_on(
                v@.take(i as int),
                sep,
            ),
        decreases v@.len() - i,
    {
        let ghost old_views = pieces@.map_values(|p: String| p@);
        let ghost cur = v@.subrange(start as int, i as int);
        proof {
            assert(v@.take(i as int + 1).drop_last() =~= v@.take(i as int));
            assert(v@.take(i as int + 1).last() == v@[i as int]);
            assert(v@.subrange(start as int, i as int + 1) =~= cur.push(v@[i as int]));
        }
        if v[i] == sep {
            let piece = string_of(&v, start, i);
            pieces.push(piece);
            start = i + 1;
            proof {
                assert(pieces@.map_values(|p: String| p@) =~= old_views.push(cur));
                assert(v@.subrange(start as int, i as int + 1) =~= Seq::<char>::empty());
            }
        } else {
            proof {
                assert(old_views.push(cur).update(old_views.len() as int, cur.push(v@[i as int])) =~= old_views.push(cur.push(v@[i as int])));
            }
        }
        i = i + 1;
    }
    let last = string_of(&v, start, v.len());
    let ghost before = pieces@.map_values(|p: String| p@);
    pieces.push(last);
    proof {
        assert(v@.take(v@.len() as int) =~= v@);
        assert(pieces@.map_values(|p: String| p@) =~= before.push(v@.subrange(start as int, v@.len() as int)));
    }
    pieces
}

/// `s` without `prefix`, when `s` starts with it (`str::strip_prefix`).
pub fn strip_prefix(s: &str, prefix: &str) -> (r: Option<String>)
    ensures
        match r {
            Some(rest) => s@.len() >= prefix@.len() && s@.take(prefix@.len() as int) == prefix@
                && rest@ == s@.skip(prefix@.len() as int),
            None => !(s@.len() >= prefix@.len() && s@.take(prefix@.len() as int) == prefix@),
        },
{
    let sv = chars_of(s);
    let pv = chars_of(prefix);
    if sv.len() < pv.len() {
        return None;
    }
    let mut i: usize = 0;
    while i < pv.len()
        invariant
            i <= pv@.len(),
            pv@.len() <= sv@.len(),
            sv@ == s@,
            pv@ == prefix@,
            forall|j: int| 0 <= j < i ==> sv@[j] == pv@[j],
        decreases pv@.len() - i,
    {
        if sv[i] != pv[i] {
            assert(s@.take(prefix@.len() as int)[i as int] != prefix@[i as int]);
            return None;
        }
        i = i + 1;
    }
    assert(s@.take(prefix@.len() as int) =~= prefix@);
    let rest = string_of(&sv, pv.len(), sv.len());
    assert(rest@ =~= s@.skip(prefix@.len() as int));
    Some(rest)
}

/// `parts` joined with `sep` between consecutive parts.
pub open spec fn join_seqs(parts: Seq<Seq<char>>, sep: Seq<char>) -> Seq<char>
    decreases parts.len(),
{
    if parts.len() == 0 {
        Seq::empty()
    } else if parts.len() == 1 {
        parts[0]
    } else {
        join_seqs(parts.drop_last(), sep) + sep + parts.last()
    }
}

/// Joins `parts` with `sep` between consecutive parts.
pub fn join_strings(parts: &Vec<String>, sep: &str) -> (s: String)
    ensures
        s@ == join_seqs(parts@.map_values(|p: String| p@), sep@),
{
    let ghost views = parts@.map_values(|p: String| p@);
    let mut s = String::new();
    let mut i: usize = 0;
    while i < parts.len()
        invariant
            i <= parts@.len(),
            views == parts@.map_values(|p: String| p@),
            s@ == join_seqs(views.take(i as int), sep@),
        decreases parts@.len() - i,
    {
        proof {
            assert(views.take(i as int + 1).drop_last() =~= views.take(i as int));
        }
        if i > 0 {
            s.append(sep);
        }
        s.append(parts[i].as_str());
        proof {
            if i == 0 {
                assert(views.take(1) =~= seq![views[0]]);
            }
        }
        i = i + 1;
    }
    proof {
        assert(views.take(parts@.len() as int) =~= views);
    }
    s
}

} // verus!
