//! Small character and text utilities shared by the source model and the
//! renderer: UTF-8 byte lengths, the white-space and line-break sets, and
//! decimal formatting of line numbers.

use vstd::prelude::*;

verus! {

/// Number of bytes the UTF-8 encoding of `c` occupies.
pub open spec fn spec_char_utf8_len(c: char) -> nat {
    if (c as u32) < 0x80 {
        1
    } else if (c as u32) < 0x800 {
        2
    } else if (c as u32) < 0x10000 {
        3
    } else {
        4
    }
}

/// Total number of bytes of the UTF-8 encoding of a character sequence.
pub open spec fn spec_utf8_len(s: Seq<char>) -> nat
    decreases s.len(),
{
    if s.len() == 0 {
        0
    } else {
        spec_char_utf8_len(s[0]) + spec_utf8_len(s.drop_first())
    }
}

/// Appending one character adds its own byte length.
pub proof fn lemma_utf8_len_push(s: Seq<char>, c: char)
    ensures
        spec_utf8_len(s.push(c)) == spec_utf8_len(s) + spec_char_utf8_len(c),
    decreases s.len(),
{
    if s.len() == 0 {
        assert(s.push(c)[0] == c);
        assert(s.push(c).drop_first() =~= Seq::<char>::empty());
        assert(spec_utf8_len(Seq::<char>::empty()) == 0);
        assert(spec_utf8_len(s) == 0);
        assert(spec_utf8_len(s.push(c)) == spec_char_utf8_len(c) + spec_utf8_len(
            s.push(c).drop_first(),
        ));
    } else {
        assert(s.push(c)[0] == s[0]);
        assert(s.push(c).drop_first() =~= s.drop_first().push(c));
        lemma_utf8_len_push(s.drop_first(), c);
        assert(spec_utf8_len(s.push(c)) == spec_char_utf8_len(s[0]) + spec_utf8_len(
            s.push(c).drop_first(),
        ));
        assert(spec_utf8_len(s) == spec_char_utf8_len(s[0]) + spec_utf8_len(s.drop_first()));
    }
}

/// The byte length of a concatenation is the sum of the byte lengths.
pub proof fn lemma_utf8_len_concat(a: Seq<char>, b: Seq<char>)
    ensures
        spec_utf8_len(a + b) == spec_utf8_len(a) + spec_utf8_len(b),
    decreases b.len(),
{
    if b.len() == 0 {
        assert(a + b =~= a);
    } else {
        lemma_utf8_len_concat(a, b.drop_last());
        lemma_utf8_len_push(a + b.drop_last(), b.last());
        assert((a + b.drop_last()).push(b.last()) =~= a + b);
        assert(spec_utf8_len(b.drop_last().push(b.last())) == spec_utf8_len(b.drop_last())
            + spec_char_utf8_len(b.last())) by {
            lemma_utf8_len_push(b.drop_last(), b.last());
        }
        assert(b.drop_last().push(b.last()) =~= b);
    }
}

/// Computes the UTF-8 byte length of one character.
pub fn char_utf8_len(c: char) -> (r: usize)
    ensures
        r == spec_char_utf8_len(c),
        1 <= r <= 4,
{
    let u = c as u32;
    if u < 0x80 {
        1
    } else if u < 0x800 {
        2
    } else if u < 0x10000 {
        3
    } else {
        4
    }
}

/// The characters that terminate a line: LF, CR, vertical tab, form feed,
/// next line, line separator and paragraph separator.
pub open spec fn spec_is_line_break(c: char) -> bool {
    c == '\n' || c == '\r' || c == '\u{0B}' || c == '\u{0C}' || c == '\u{85}' || c == '\u{2028}'
        || c == '\u{2029}'
}

/// Decides whether `c` is a line break character.
pub fn is_line_break(c: char) -> (r: bool)
    ensures
        r == spec_is_line_break(c),
{
    c == '\n' || c == '\r' || c == '\u{0B}' || c == '\u{0C}' || c == '\u{85}' || c == '\u{2028}'
        || c == '\u{2029}'
}

/// The Unicode `White_Space` set, as `char::is_whitespace` decides it.
pub open spec fn spec_is_whitespace(c: char) -> bool {
    let u = c as u32;
    (0x09 <= u && u <= 0x0D) || u == 0x20 || u == 0x85 || u == 0xA0 || u == 0x1680 || (0x2000 <= u
        && u <= 0x200A) || u == 0x2028 || u == 0x2029 || u == 0x202F || u == 0x205F || u == 0x3000
}

/// Decides whether `c` is white space.
pub fn is_whitespace(c: char) -> (r: bool)
    ensures
        r == spec_is_whitespace(c),
{
    let u = c as u32;
    (0x09 <= u && u <= 0x0D) || u == 0x20 || u == 0x85 || u == 0xA0 || u == 0x1680 || (0x2000 <= u
        && u <= 0x200A) || u == 0x2028 || u == 0x2029 || u == 0x202F || u == 0x205F || u == 0x3000
}

/// The character for a single decimal digit.
pub open spec fn spec_digit_char(d: nat) -> char {
    if d == 0 {
        '0'
    } else if d == 1 {
        '1'
    } else if d == 2 {
        '2'
    } else if d == 3 {
        '3'
    } else if d == 4 {
        '4'
    } else if d == 5 {
        '5'
    } else if d == 6 {
        '6'
    } else if d == 7 {
        '7'
    } else if d == 8 {
        '8'
    } else {
        '9'
    }
}

/// The decimal digit sequence of `n`, most significant first, no leading
/// zeros (except for `n == 0`, which is the single digit `0`).
pub open spec fn spec_decimal(n: nat) -> Seq<char>
    decreases n,
{
    if n < 10 {
        seq![spec_digit_char(n)]
    } else {
        spec_decimal(n / 10) + seq![spec_digit_char(n % 10)]
    }
}

fn digit_char(d: usize) -> (r: char)
    requires
        d < 10,
    ensures
        r == spec_digit_char(d as nat),
{
    if d == 0 {
        '0'
    } else if d == 1 {
        '1'
    } else if d == 2 {
        '2'
    } else if d == 3 {
        '3'
    } else if d == 4 {
        '4'
    } else if d == 5 {
        '5'
    } else if d == 6 {
        '6'
    } else if d == 7 {
        '7'
    } else if d == 8 {
        '8'
    } else {
        '9'
    }
}

/// Appends the decimal digits of `n` to `out`.
pub fn push_decimal(out: &mut Vec<char>, n: usize)
    ensures
        final(out)@ == old(out)@ + spec_decimal(n as nat),
    decreases n,
{
    if n < 10 {
        out.push(digit_char(n));
        assert(out@ =~= old(out)@ + spec_decimal(n as nat));
    } else {
        push_decimal(out, n / 10);
        out.push(digit_char(n % 10));
        assert(out@ =~= old(out)@ + spec_decimal(n as nat));
    }
}

/// Ten to the power `d`.
pub open spec fn spec_pow10(d: nat) -> nat
    decreases d,
{
    if d == 0 {
        1
    } else {
        10 * spec_pow10((d - 1) as nat)
    }
}

/// A number below ten to the `d` has at most `d` decimal digits.
pub proof fn lemma_decimal_len_aux(n: nat, d: nat)
    requires
        d >= 1,
        n < spec_pow10(d),
    ensures
        spec_decimal(n).len() <= d,
    decreases d,
{
    if n < 10 {
    } else {
        assert(spec_pow10(d) == 10 * spec_pow10((d - 1) as nat));
        assert(n / 10 < spec_pow10((d - 1) as nat)) by (nonlinear_arith)
            requires
                n < 10 * spec_pow10((d - 1) as nat),
        {}
        lemma_decimal_len_aux(n / 10, (d - 1) as nat);
    }
}

/// Any machine-sized number has at most twenty decimal digits.
pub proof fn lemma_decimal_len(n: nat)
    requires
        n <= u64::MAX,
    ensures
        spec_decimal(n).len() <= 20,
{
    assert(spec_pow10(20) == 0x56bc75e2d63100000) by {
        reveal_with_fuel(spec_pow10, 21);
    }
    lemma_decimal_len_aux(n, 20);
}

/// The number of decimal digits of `n`.
pub fn decimal_width(n: usize) -> (r: usize)
    ensures
        r == spec_decimal(n as nat).len(),
        r <= 20,
{
    proof {
        lemma_decimal_len(n as nat);
    }
    let mut buf: Vec<char> = Vec::new();
    push_decimal(&mut buf, n);
    buf.len()
}

/// Appends `k` copies of `c` to `out`.
pub fn push_repeat(out: &mut Vec<char>, c: char, k: usize)
    ensures
        final(out)@ == old(out)@ + Seq::new(k as nat, |i: int| c),
{
    let mut i: usize = 0;
    while i < k
        invariant
            i <= k,
            out@ == old(out)@ + Seq::new(i as nat, |j: int| c),
        decreases k - i,
    {
        out.push(c);
        assert(out@ =~= old(out)@ + Seq::new((i + 1) as nat, |j: int| c));
        i = i + 1;
    }
    assert(out@ =~= old(out)@ + Seq::new(k as nat, |j: int| c));
}

/// Appends the characters of `s` to `out`.
pub fn push_chars(out: &mut Vec<char>, s: &Vec<char>)
    ensures
        final(out)@ == old(out)@ + s@,
{
    let mut i: usize = 0;
    while i < s.len()
        invariant
            i <= s.len(),
            out@ == old(out)@ + s@.take(i as int),
        decreases s.len() - i,
    {
        out.push(s[i]);
        assert(out@ =~= old(out)@ + s@.take((i + 1) as int));
        i = i + 1;
    }
    assert(out@ =~= old(out)@ + s@);
}

/// Appending a character sequence appends its UTF-8 length.
pub proof fn lemma_utf8_len_take_succ(s: Seq<char>, i: int)
    requires
        0 <= i < s.len(),
    ensures
        spec_utf8_len(s.take(i + 1)) == spec_utf8_len(s.take(i)) + spec_char_utf8_len(s[i]),
{
    assert(s.take(i + 1) =~= s.take(i).push(s[i]));
    lemma_utf8_len_push(s.take(i), s[i]);
}

/// A prefix never has more bytes than the whole sequence.
pub proof fn lemma_utf8_len_take_le(s: Seq<char>, i: int)
    requires
        0 <= i <= s.len(),
    ensures
        spec_utf8_len(s.take(i)) <= spec_utf8_len(s),
{
    assert(s =~= s.take(i) + s.skip(i));
    lemma_utf8_len_concat(s.take(i), s.skip(i));
}

/// The bytes of a middle segment are the difference of two prefixes.
pub proof fn lemma_utf8_len_subrange(s: Seq<char>, a: int, b: int)
    requires
        0 <= a <= b <= s.len(),
    ensures
        spec_utf8_len(s.subrange(a, b)) == spec_utf8_len(s.take(b)) - spec_utf8_len(s.take(a)),
{
    assert(s.take(b) =~= s.take(a) + s.subrange(a, b));
    lemma_utf8_len_concat(s.take(a), s.subrange(a, b));
}

/// How many whole leading characters of `seg` fit when their UTF-8
/// encodings are laid into `budget` bytes.
pub open spec fn spec_chars_fitting(seg: Seq<char>, budget: int) -> nat
    decreases seg.len(),
{
    if seg.len() == 0 {
        0
    } else if spec_char_utf8_len(seg[0]) <= budget {
        1 + spec_chars_fitting(seg.drop_first(), budget - spec_char_utf8_len(seg[0]))
    } else {
        0
    }
}

/// The sequence with its trailing white space removed.
pub open spec fn spec_trim_end(s: Seq<char>) -> Seq<char>
    decreases s.len(),
{
    if s.len() > 0 && spec_is_whitespace(s.last()) {
        spec_trim_end(s.drop_last())
    } else {
        s
    }
}

/// A sequence without trailing white space trims to itself.
pub proof fn lemma_trim_end_of_trimmed(s: Seq<char>)
    requires
        s.len() == 0 || !spec_is_whitespace(s.last()),
    ensures
        spec_trim_end(s) == s,
{
}

/// Trimming keeps a prefix of the sequence.
pub proof fn lemma_trim_end_prefix(s: Seq<char>)
    ensures
        spec_trim_end(s).len() <= s.len(),
        forall|i: int|
            0 <= i < spec_trim_end(s).len() ==> #[trigger] spec_trim_end(s)[i] == s[i],
    decreases s.len(),
{
    if s.len() > 0 && spec_is_whitespace(s.last()) {
        lemma_trim_end_prefix(s.drop_last());
    }
}

/// Every character fits in seven bits.
pub open spec fn spec_all_ascii(s: Seq<char>) -> bool {
    forall|i: int| 0 <= i < s.len() ==> ((#[trigger] s[i]) as u32) < 0x80
}

/// Decimal digit sequences hold the digit characters alone.
pub proof fn lemma_decimal_digits(n: nat)
    ensures
        forall|i: int|
            0 <= i < spec_decimal(n).len() ==> 0x30 <= ((#[trigger] spec_decimal(n)[i]) as u32)
                <= 0x39,
    decreases n,
{
    if n < 10 {
        assert(spec_decimal(n)[0] == spec_digit_char(n));
    } else {
        lemma_decimal_digits(n / 10);
        assert forall|i: int|
            0 <= i < spec_decimal(n).len() implies 0x30 <= ((#[trigger] spec_decimal(n)[i]) as u32)
            <= 0x39 by {
            if i < spec_decimal(n / 10).len() {
                assert(spec_decimal(n)[i] == spec_decimal(n / 10)[i]);
            } else {
                assert(spec_decimal(n)[i] == spec_digit_char(n % 10));
            }
        }
    }
}

/// A copy of the given vector of copyable items.
pub fn copy_vec<T: Copy>(v: &Vec<T>) -> (r: Vec<T>)
    ensures
        r@ == v@,
{
    let mut out: Vec<T> = Vec::new();
    let mut i: usize = 0;
    while i < v.len()
        invariant
            i <= v.len(),
            out@ == v@.take(i as int),
        decreases v.len() - i,
    {
        out.push(v[i]);
        assert(out@ =~= v@.take((i + 1) as int));
        i = i + 1;
    }
    assert(out@ =~= v@);
    out
}

/// Relies on `str::chars`: iterating yields the characters of the string in
/// order. The UTF-8 encoding of those characters is the string's own byte
/// representation, whose length fits in a `usize`.
#[verifier::external_body]
pub fn str_chars(s: &str) -> (r: Vec<char>)
    ensures
        r@ == s@,
        spec_utf8_len(r@) <= usize::MAX,
{
    s.chars().collect()
}

/// Relies on `String`'s `FromIterator` implementation: collecting characters
/// yields the string of exactly those characters in order.
#[verifier::external_body]
pub fn chars_to_string(v: &Vec<char>) -> (r: String)
    ensures
        r@ == v@,
{
    v.iter().collect()
}

} // verus!
