//! Text as a sequence of characters: conversions between `str`, `String`
//! and `Vec<char>`, byte offsets in UTF-8, whole numbers in decimal, and
//! the trimming of white space.

use vstd::prelude::*;
use vstd::slice::slice_subrange;
use vstd::string::*;

verus! {

/// The characters of `s`, in order.
pub fn chars_of(s: &str) -> (v: Vec<char>)
    ensures
        v@ == s@,
{
    let mut v: Vec<char> = Vec::new();
    for c in it: s.chars()
        invariant
            it.seq() == s@,
            v@ == s@.subrange(0, it.index() as int),
    {
        v.push(c);
    }
    v
}

/// `String::from_iter` over the characters of a slice: the string made of
/// exactly those characters, in order.
#[verifier::external_body]
pub(crate) fn string_of(chars: &[char]) -> (s: String)
    ensures
        s@ == chars@,
{
    String::from_iter(chars.iter())
}

/// The number of bytes that `c` takes in UTF-8.
pub open spec fn utf8_width(c: char) -> nat {
    if (c as u32) < 0x80 {
        1
    } else if (c as u32) < 0x800 {
        2
    } else if (c as u32) < 0x10000 {
        3
    } else {
        4
    }
}

/// The number of bytes that `s` takes in UTF-8.
pub open spec fn utf8_len(s: Seq<char>) -> nat
    decreases s.len(),
{
    if s.len() == 0 {
        0
    } else {
        utf8_width(s[0]) + utf8_len(s.drop_first())
    }
}

/// The byte offset at which the character of index `i` starts in the UTF-8
/// form of `s` (for `i == s.len()`, the length of that form).
pub open spec fn byte_pos(s: Seq<char>, i: int) -> nat {
    utf8_len(s.take(i))
}

/// `utf8_len` is the length of the encoding that a `str` holds.
pub proof fn lemma_utf8_len_is_encoded_len(s: Seq<char>)
    ensures
        utf8_len(s) == vstd::utf8::encode_utf8(s).len(),
    decreases s.len(),
{
    if s.len() > 0 {
        vstd::utf8::char_is_scalar(s[0]);
        lemma_utf8_len_is_encoded_len(s.drop_first());
    }
}

/// The length of two texts in a row is the sum of their lengths.
pub proof fn lemma_utf8_len_concat(a: Seq<char>, b: Seq<char>)
    ensures
        utf8_len(a + b) == utf8_len(a) + utf8_len(b),
    decreases a.len(),
{
    if a.len() == 0 {
        assert(a + b =~= b);
    } else {
        assert((a + b).drop_first() =~= a.drop_first() + b);
        lemma_utf8_len_concat(a.drop_first(), b);
    }
}

/// Byte offsets grow with the character index, by the width of the character passed.
pub proof fn lemma_byte_pos_step(s: Seq<char>, i: int)
    requires
        0 <= i < s.len(),
    ensures
        byte_pos(s, i + 1) == byte_pos(s, i) + utf8_width(s[i]),
        byte_pos(s, i + 1) <= byte_pos(s, s.len() as int),
        byte_pos(s, 0) == 0,
        byte_pos(s, s.len() as int) == utf8_len(s),
{
    assert(s.take(i + 1) =~= s.take(i) + seq![s[i]]);
    lemma_utf8_len_concat(s.take(i), seq![s[i]]);
    let one = seq![s[i]];
    assert(one.drop_first() =~= Seq::<char>::empty());
    assert(utf8_len(one.drop_first()) == 0);
    assert(utf8_len(one) == utf8_width(one[0]) + utf8_len(one.drop_first()));
    assert(s =~= s.take(i + 1) + s.skip(i + 1));
    lemma_utf8_len_concat(s.take(i + 1), s.skip(i + 1));
    assert(s.take(s.len() as int) =~= s);
    assert(s.take(0) =~= Seq::<char>::empty());
}

/// A later character starts at a later byte.
pub proof fn lemma_byte_pos_monotonic(s: Seq<char>, i: int, j: int)
    requires
        0 <= i <= j <= s.len(),
    ensures
        byte_pos(s, i) <= byte_pos(s, j),
        i < j ==> byte_pos(s, i) < byte_pos(s, j),
{
    assert(s.take(j) =~= s.take(i) + s.subrange(i, j));
    lemma_utf8_len_concat(s.take(i), s.subrange(i, j));
    if i < j {
        let t = s.subrange(i, j);
        assert(utf8_len(t) == utf8_width(t[0]) + utf8_len(t.drop_first()));
    }
}

/// The characters of `s`, and the byte offset of every character index
/// from 0 to their number.
pub fn char_table(s: &str) -> (r: (Vec<char>, Vec<usize>))
    ensures
        r.0@ == s@,
        r.1.len() == s@.len() + 1,
        forall|i: int| 0 <= i <= s@.len() ==> #[trigger] r.1[i] == byte_pos(s@, i),
        utf8_len(s@) <= usize::MAX,
{
    let chars = chars_of(s);
    let total: usize = byte_len(s);
    assert(utf8_len(chars@) == total);
    let mut v: Vec<usize> = Vec::new();
    v.push(0);
    let mut pos: usize = 0;
    let mut i: usize = 0;
    proof {
        assert(chars@.take(0) =~= Seq::<char>::empty());
    }
    while i < chars.len()
        invariant
            utf8_len(chars@) <= usize::MAX,
            0 <= i <= chars.len(),
            pos == byte_pos(chars@, i as int),
            v.len() == i + 1,
            forall|k: int| 0 <= k <= i ==> #[trigger] v[k] == byte_pos(chars@, k),
        decreases chars.len() - i,
    {
        proof {
            lemma_byte_pos_step(chars@, i as int);
        }
        pos = pos + char_width(chars[i]);
        i = i + 1;
        v.push(pos);
    }
    (chars, v)
}

/// The length of `s` in bytes.
pub fn byte_len(s: &str) -> (n: usize)
    ensures
        n == utf8_len(s@),
{
    proof {
        lemma_utf8_len_is_encoded_len(s@);
    }
    s.as_bytes().len()
}

/// The number of bytes that `c` takes in UTF-8.
pub fn char_width(c: char) -> (w: usize)
    ensures
        w == utf8_width(c),
{
    let u: u32 = c as u32;
    if u < 0x80 {
        1
    } else if u < 0x800 {
        2
    } else if u < 0x10000 {
        3
    } else {
        4
    }
}

/// The characters of `chars` from index `from` up to, not including, `to`.
pub fn substring(chars: &Vec<char>, from: usize, to: usize) -> (s: String)
    requires
        from <= to <= chars.len(),
    ensures
        s@ == chars@.subrange(from as int, to as int),
{
    string_of(slice_subrange(chars.as_slice(), from, to))
}

/// The character that writes the digit `d`.
pub open spec fn digit_char(d: nat) -> char
    recommends
        d < 10,
{
    if d == 0 {
        '0'
    } else if d == 1 {
        '1'
    } else if d == 2 {
        '2'
    } else if d == 3 {
        '3'
    } else if d == 4 {
        '4'
    } else if d == 5 {
        '5'
    } else if d == 6 {
        '6'
    } else if d == 7 {
        '7'
    } else if d == 8 {
        '8'
    } else {
        '9'
    }
}

/// `n` written in decimal, without leading zeros.
pub open spec fn decimal_spec(n: nat) -> Seq<char>
    decreases n,
{
    if n < 10 {
        seq![digit_char(n)]
    } else {
        decimal_spec(n / 10).push(digit_char(n % 10))
    }
}

fn digit_of(d: u64) -> (c: char)
    requires
        d < 10,
    ensures
        c == digit_char(d as nat),
{
    if d == 0 {
        '0'
    } else if d == 1 {
        '1'
    } else if d == 2 {
        '2'
    } else if d == 3 {
        '3'
    } else if d == 4 {
        '4'
    } else if d == 5 {
        '5'
    } else if d == 6 {
        '6'
    } else if d == 7 {
        '7'
    } else if d == 8 {
        '8'
    } else {
        '9'
    }
}

/// The digits of `n`, least significant first, as `decimal_spec` holds them
/// most significant first.
spec fn digits_reversed(n: nat) -> Seq<char>
    decreases n,
{
    if n < 10 {
        seq![digit_char(n)]
    } else {
        seq![digit_char(n % 10)] + digits_reversed(n / 10)
    }
}

proof fn lemma_digits_reversed(n: nat)
    ensures
        digits_reversed(n).reverse() == decimal_spec(n),
    decreases n,
{
    if n < 10 {
        assert(digits_reversed(n).reverse() =~= decimal_spec(n));
    } else {
        lemma_digits_reversed(n / 10);
        let head = seq![digit_char(n % 10)];
        let tail = digits_reversed(n / 10);
        assert((head + tail).reverse() =~= tail.reverse().push(digit_char(n % 10)));
    }
}

/// `n` written in decimal.
pub fn decimal_u64(n: u64) -> (s: String)
    ensures
        s@ == decimal_spec(n as nat),
{
    let mut rev: Vec<char> = Vec::new();
    let mut m: u64 = n;
    while m >= 10
        invariant
            digits_reversed(n as nat) == rev@ + digits_reversed(m as nat),
        decreases m,
    {
        rev.push(digit_of(m % 10));
        proof {
            assert(rev@ + digits_reversed((m / 10) as nat) =~= rev@.drop_last() + (seq![
                digit_char((m % 10) as nat),
            ] + digits_reversed((m / 10) as nat)));
        }
        m = m / 10;
    }
    rev.push(digit_of(m));
    proof {
        assert(rev@ =~= rev@.drop_last() + digits_reversed(m as nat));
        lemma_digits_reversed(n as nat);
    }
    let mut out: Vec<char> = Vec::new();
    let mut i: usize = rev.len();
    while i > 0
        invariant
            0 <= i <= rev.len(),
            out.len() == rev.len() - i,
            forall|k: int| 0 <= k < out.len() ==> out[k] == rev[rev.len() - 1 - k],
        decreases i,
    {
        i = i - 1;
        out.push(rev[i]);
    }
    proof {
        assert(out@ =~= rev@.reverse());
    }
    string_of(out.as_slice())
}

/// `n` written in decimal.
pub fn decimal(n: usize) -> (s: String)
    ensures
        s@ == decimal_spec(n as nat),
{
    decimal_u64(n as u64)
}

/// An integer written in decimal, with `-` in front where it is negative.
pub open spec fn signed_decimal_spec(n: int) -> Seq<char> {
    if n < 0 {
        "-"@ + decimal_spec((-n) as nat)
    } else {
        decimal_spec(n as nat)
    }
}

/// `n` written in decimal, with its sign where it is negative.
pub fn signed_decimal(n: i64) -> (s: String)
    ensures
        s@ == signed_decimal_spec(n as int),
{
    if n >= 0 {
        decimal_u64(n as u64)
    } else {
        let magnitude: u64 = if n == i64::MIN {
            0x8000_0000_0000_0000
        } else {
            (-n) as u64
        };
        let mut s = String::from_str("-");
        s.append(decimal_u64(magnitude).as_str());
        s
    }
}

/// Whether `c` is an ASCII digit.
pub open spec fn is_digit(c: char) -> bool {
    '0' <= c <= '9'
}

/// The digit that `c` writes.
pub open spec fn digit_value(c: char) -> nat
    recommends
        is_digit(c),
{
    (c as u32 - '0' as u32) as nat
}

/// The number that a sequence of digits writes in decimal.
pub open spec fn decimal_value(digits: Seq<char>) -> nat
    decreases digits.len(),
{
    if digits.len() == 0 {
        0
    } else {
        decimal_value(digits.drop_last()) * 10 + digit_value(digits.last())
    }
}

/// A number is at least what any prefix of its digits writes.
pub proof fn lemma_decimal_value_prefix(digits: Seq<char>, k: int)
    requires
        0 <= k <= digits.len(),
    ensures
        decimal_value(digits.take(k)) <= decimal_value(digits),
    decreases digits.len() - k,
{
    if k == digits.len() {
        assert(digits.take(k) =~= digits);
    } else {
        lemma_decimal_value_prefix(digits.drop_last(), k);
        assert(digits.drop_last().take(k) =~= digits.take(k));
    }
}

/// The number that the digits `chars[from..to]` write, where it is at most `limit`.
pub fn parse_decimal(chars: &Vec<char>, from: usize, to: usize, limit: u64) -> (r: Option<u64>)
    requires
        from <= to <= chars.len(),
        forall|k: int| from <= k < to ==> is_digit(#[trigger] chars@[k]),
    ensures
        r == if decimal_value(chars@.subrange(from as int, to as int)) <= limit {
            Some(decimal_value(chars@.subrange(from as int, to as int)) as u64)
        } else {
            None
        },
{
    let ghost digits = chars@.subrange(from as int, to as int);
    let mut acc: u64 = 0;
    let mut k: usize = from;
    proof {
        assert(digits.take(0) =~= Seq::<char>::empty());
    }
    while k < to
        invariant
            from <= k <= to <= chars.len(),
            digits == chars@.subrange(from as int, to as int),
            forall|j: int| from <= j < to ==> is_digit(#[trigger] chars@[j]),
            acc == decimal_value(digits.take(k - from)),
            acc <= limit,
        decreases to - k,
    {
        let c = chars[k];
        let d: u64 = (c as u32 - '0' as u32) as u64;
        proof {
            let next = digits.take(k - from + 1);
            assert(next.drop_last() =~= digits.take(k - from));
            assert(next.last() == c);
            assert(decimal_value(next) == acc * 10 + d);
            lemma_decimal_value_prefix(digits, k - from + 1);
        }
        if d > limit || acc > (limit - d) / 10 {
            return None;
        }
        acc = acc * 10 + d;
        k = k + 1;
    }
    proof {
        assert(digits.take(to - from) =~= digits);
    }
    Some(acc)
}

/// Whether two texts hold the same characters.
pub fn same_text(a: &str, b: &str) -> (r: bool)
    ensures
        r == (a@ == b@),
{
    let x = a.as_bytes();
    let y = b.as_bytes();
    proof {
        vstd::utf8::encode_utf8_decode_utf8(a@);
        vstd::utf8::encode_utf8_decode_utf8(b@);
        assert(x@ == vstd::utf8::encode_utf8(a@));
        assert(y@ == vstd::utf8::encode_utf8(b@));
    }
    if x.len() != y.len() {
        return false;
    }
    let mut k: usize = 0;
    while k < x.len()
        invariant
            0 <= k <= x.len(),
            x.len() == y.len(),
            x@ == vstd::utf8::encode_utf8(a@),
            y@ == vstd::utf8::encode_utf8(b@),
            forall|j: int| 0 <= j < k ==> x@[j] == y@[j],
        decreases x.len() - k,
    {
        if x[k] != y[k] {
            return false;
        }
        k = k + 1;
    }
    proof {
        assert(x@ =~= y@);
    }
    true
}

/// White space, as Unicode defines it.
pub open spec fn is_space(c: char) -> bool {
    ||| ('\t' <= c <= '\r')
    ||| c == ' '
    ||| c == '\u{85}'
    ||| c == '\u{A0}'
    ||| c == '\u{1680}'
    ||| ('\u{2000}' <= c <= '\u{200A}')
    ||| c == '\u{2028}'
    ||| c == '\u{2029}'
    ||| c == '\u{202F}'
    ||| c == '\u{205F}'
    ||| c == '\u{3000}'
}

/// The index of the first character of `s[lo..hi]` that is no white space,
/// or `hi`.
pub open spec fn trim_lead(s: Seq<char>, lo: int, hi: int) -> int
    decreases hi - lo,
{
    if lo < hi && is_space(s[lo]) {
        trim_lead(s, lo + 1, hi)
    } else {
        lo
    }
}

/// The index behind the last character of `s[lo..hi]` that is no white
/// space, or `lo`.
pub open spec fn trim_trail(s: Seq<char>, lo: int, hi: int) -> int
    decreases hi - lo,
{
    if lo < hi && is_space(s[hi - 1]) {
        trim_trail(s, lo, hi - 1)
    } else {
        hi
    }
}

/// `s[lo..hi]` without the white space at its ends.
pub open spec fn trimmed(s: Seq<char>, lo: int, hi: int) -> Seq<char> {
    let a = trim_lead(s, lo, hi);
    s.subrange(a, trim_trail(s, a, hi))
}

/// Whether `c` is white space.
pub fn char_is_space(c: char) -> (r: bool)
    ensures
        r == is_space(c),
{
    ('\t' <= c && c <= '\r') || c == ' ' || c == '\u{85}' || c == '\u{A0}' || c == '\u{1680}' || ('\u{2000}' <= c
        && c <= '\u{200A}') || c == '\u{2028}' || c == '\u{2029}' || c == '\u{202F}' || c == '\u{205F}' || c
        == '\u{3000}'
}

/// The range that is left of `chars[lo..hi]` without the white space at its ends.
pub fn trim_range(chars: &Vec<char>, lo: usize, hi: usize) -> (r: (usize, usize))
    requires
        lo <= hi <= chars.len(),
    ensures
        r.0 == trim_lead(chars@, lo as int, hi as int),
        r.1 == trim_trail(chars@, r.0 as int, hi as int),
        lo <= r.0 <= r.1 <= hi,
        chars@.subrange(r.0 as int, r.1 as int) == trimmed(chars@, lo as int, hi as int),
{
    let mut a: usize = lo;
    while a < hi && char_is_space(chars[a])
        invariant
            lo <= a <= hi <= chars.len(),
            trim_lead(chars@, lo as int, hi as int) == trim_lead(chars@, a as int, hi as int),
        decreases hi - a,
    {
        a = a + 1;
    }
    let mut b: usize = hi;
    while a < b && char_is_space(chars[b - 1])
        invariant
            a <= b <= hi <= chars.len(),
            trim_trail(chars@, a as int, hi as int) == trim_trail(chars@, a as int, b as int),
        decreases b,
    {
        b = b - 1;
    }
    (a, b)
}

/// Where `chars[lo..hi]` ends once the white space at its end is taken off.
pub fn trim_end_at(chars: &Vec<char>, lo: usize, hi: usize) -> (e: usize)
    requires
        lo <= hi <= chars.len(),
    ensures
        e == trim_trail(chars@, lo as int, hi as int),
        lo <= e <= hi,
{
    let mut e: usize = hi;
    while lo < e && char_is_space(chars[e - 1])
        invariant
            lo <= e <= hi <= chars.len(),
            trim_trail(chars@, lo as int, hi as int) == trim_trail(chars@, lo as int, e as int),
        decreases e,
    {
        e = e - 1;
    }
    e
}

/// A trimmed end lies within the range, and no white space stands before it.
pub proof fn lemma_trim_trail(s: Seq<char>, lo: int, hi: int)
    requires
        lo <= hi,
    ensures
        lo <= trim_trail(s, lo, hi) <= hi,
        lo < trim_trail(s, lo, hi) ==> !is_space(s[trim_trail(s, lo, hi) - 1]),
    decreases hi - lo,
{
    if lo < hi && is_space(s[hi - 1]) {
        lemma_trim_trail(s, lo, hi - 1);
    }
}

} // verus!
