//! Text encodings and formatting shared by the spikes: UTF-16 for the
//! Windows wide-string APIs, decimal numbers, and a few string operations.
//! Those that std performs and vstd gives no specification are calls into std
//! with their contracts stated here.

use vstd::prelude::*;

verus! {

// ── UTF-16 ───────────────────────────────────────────────────────────────────

pub open spec fn is_high_surrogate(u: u16) -> bool {
    0xD800 <= u <= 0xDBFF
}

pub open spec fn is_low_surrogate(u: u16) -> bool {
    0xDC00 <= u <= 0xDFFF
}

/// The UTF-16 code units of one character.
pub open spec fn char_utf16(c: char) -> Seq<u16> {
    let v = c as int;
    if v < 0x10000 {
        seq![v as u16]
    } else {
        let w = v - 0x10000;
        seq![(0xD800 + w / 0x400) as u16, (0xDC00 + w % 0x400) as u16]
    }
}

/// UTF-16 encoding of a string.
pub open spec fn utf16_encode(cs: Seq<char>) -> Seq<u16>
    decreases cs.len(),
{
    if cs.len() == 0 {
        Seq::empty()
    } else {
        char_utf16(cs[0]) + utf16_encode(cs.drop_first())
    }
}

/// UTF-16 decoding in which every unpaired surrogate becomes U+FFFD.
pub open spec fn utf16_decode_lossy(us: Seq<u16>) -> Seq<char>
    decreases us.len(),
{
    if us.len() == 0 {
        Seq::empty()
    } else if !is_high_surrogate(us[0]) && !is_low_surrogate(us[0]) {
        seq![us[0] as char] + utf16_decode_lossy(us.drop_first())
    } else if is_high_surrogate(us[0]) && us.len() > 1 && is_low_surrogate(us[1]) {
        seq![(0x10000 + (us[0] - 0xD800) * 0x400 + (us[1] - 0xDC00)) as char]
            + utf16_decode_lossy(us.subrange(2, us.len() as int))
    } else {
        seq!['\u{FFFD}'] + utf16_decode_lossy(us.drop_first())
    }
}

/// `str::encode_utf16`, collected: the UTF-16 code units of `s`.
#[verifier::external_body]
pub(crate) fn encode_utf16(s: &str) -> (units: Vec<u16>)
    ensures
        units@ == utf16_encode(s@),
{
    s.encode_utf16().collect()
}

/// `String::from_utf16_lossy`: decodes `units`, replacing each unpaired
/// surrogate with U+FFFD.
#[verifier::external_body]
pub(crate) fn from_utf16_lossy(units: &[u16]) -> (s: String)
    ensures
        s@ == utf16_decode_lossy(units@),
{
    String::from_utf16_lossy(units)
}

// ── Decimal numbers ──────────────────────────────────────────────────────────

pub open spec fn digit_char(d: int) -> char {
    (d + 48) as char
}

/// The decimal digits of `n`, without leading zeros.
pub open spec fn decimal(n: nat) -> Seq<char>
    decreases n,
{
    if n < 10 {
        seq![digit_char(n as int)]
    } else {
        decimal(n / 10).push(digit_char((n % 10) as int))
    }
}

/// The decimal digits of `n`, padded with leading zeros to at least `width`
/// characters.
pub open spec fn zero_fill(n: nat, width: nat) -> Seq<char> {
    let d = decimal(n);
    if d.len() < width {
        Seq::new((width - d.len()) as nat, |i: int| '0') + d
    } else {
        d
    }
}

/// Every character of `s` is a decimal digit.
pub open spec fn all_digits(s: Seq<char>) -> bool {
    forall|i: int| 0 <= i < s.len() ==> '0' <= #[trigger] s[i] <= '9'
}

/// The number a string of decimal digits denotes, most significant first.
pub open spec fn digits_value(s: Seq<char>) -> nat
    decreases s.len(),
{
    if s.len() == 0 {
        0
    } else {
        (10 * digits_value(s.drop_last()) + (s.last() as int - 48)) as nat
    }
}

/// `text` spells `n` in decimal, zero-padded to at least `width` digits.
pub open spec fn spells(text: Seq<char>, n: nat, width: nat) -> bool {
    &&& all_digits(text)
    &&& digits_value(text) == n
    &&& text.len() >= width
    &&& text.len() >= 1
}

proof fn lemma_zeros_value(z: Seq<char>, d: Seq<char>)
    requires
        forall|i: int| 0 <= i < z.len() ==> z[i] == '0',
    ensures
        digits_value(z + d) == digits_value(d) + digits_value(z) * pow10(d.len()),
        digits_value(z) == 0,
    decreases d.len(), z.len(),
{
    if d.len() == 0 {
        assert(z + d == z);
        if z.len() > 0 {
            lemma_zeros_value(z.drop_last(), d);
            assert(z.drop_last() + d == z.drop_last());
        }
    } else {
        lemma_zeros_value(z, d.drop_last());
        assert((z + d).drop_last() == z + d.drop_last());
        assert((z + d).last() == d.last());
    }
}

/// `10^e`.
pub open spec fn pow10(e: nat) -> nat
    decreases e,
{
    if e == 0 {
        1
    } else {
        10 * pow10((e - 1) as nat)
    }
}

proof fn lemma_decimal_reads_back(n: nat)
    ensures
        all_digits(decimal(n)),
        digits_value(decimal(n)) == n,
        decimal(n).len() >= 1,
    decreases n,
{
    let r = (n % 10) as int;
    assert(digit_char(r) as int == r + 48);
    if n < 10 {
        assert(decimal(n).last() == digit_char(n as int));
        assert(decimal(n).drop_last().len() == 0);
        assert(digits_value(decimal(n).drop_last()) == 0);
        assert(digits_value(decimal(n)) == 10 * digits_value(decimal(n).drop_last()) + (decimal(
            n,
        ).last() as int - 48));
    }
    if n >= 10 {
        lemma_decimal_reads_back(n / 10);
        let d = decimal(n);
        assert(d.drop_last() == decimal(n / 10));
        assert(d.last() == digit_char(r));
        assert(digits_value(d) == 10 * digits_value(d.drop_last()) + (d.last() as int - 48));
        assert(10 * (n / 10) + n % 10 == n);
        assert forall|i: int| 0 <= i < d.len() implies '0' <= #[trigger] d[i] <= '9' by {
            if i < d.len() - 1 {
                assert(d[i] == decimal(n / 10)[i]);
            }
        }
    }
}

/// Law: the decimal digits of a number, zero-padded to a width, spell that
/// number: every character is a digit, their value is the number, and the
/// text is at least as wide as asked (and never empty).
pub proof fn law_zero_fill_spells(n: nat, width: nat)
    ensures
        spells(zero_fill(n, width), n, width),
{
    lemma_decimal_reads_back(n);
    let d = decimal(n);
    if d.len() < width {
        let z = Seq::new((width - d.len()) as nat, |i: int| '0');
        lemma_zeros_value(z, d);
        let t = z + d;
        assert forall|i: int| 0 <= i < t.len() implies '0' <= #[trigger] t[i] <= '9' by {
            if i >= z.len() {
                assert(t[i] == d[i - z.len()]);
            }
        }
    }
}

pub(crate) proof fn lemma_zero_fill_one(n: nat)
    ensures
        zero_fill(n, 1) == decimal(n),
        zero_fill(n, 0) == decimal(n),
{
    lemma_decimal_reads_back(n);
}

/// `format!("{:0width$}", n)`: `n` in decimal, zero-padded to `width`. The
/// width is at most 65535, the widest `format!` accepts at run time.
#[verifier::external_body]
pub(crate) fn zero_padded(n: u64, width: u16) -> (s: String)
    ensures
        s@ == zero_fill(n as nat, width as nat),
{
    format!("{:0width$}", n, width = width as usize)
}

// ── Case and comparison ──────────────────────────────────────────────────────

/// ASCII lowercase of one character; every other character is unchanged.
pub open spec fn ascii_lower(c: char) -> char {
    if 'A' <= c <= 'Z' {
        ((c as int) + 32) as char
    } else {
        c
    }
}

/// The two strings match ignoring ASCII case.
pub open spec fn eq_ignoring_ascii_case(a: Seq<char>, b: Seq<char>) -> bool {
    a.len() == b.len() && forall|i: int| 0 <= i < a.len() ==> ascii_lower(a[i]) == ascii_lower(b[i])
}

/// `str::eq_ignore_ascii_case`.
#[verifier::external_body]
pub(crate) fn str_eq_ignore_ascii_case(a: &str, b: &str) -> (r: bool)
    ensures
        r == eq_ignoring_ascii_case(a@, b@),
{
    a.eq_ignore_ascii_case(b)
}

/// What `str::to_lowercase` returns for a string: its Unicode lowercase
/// mapping.
pub uninterp spec fn unicode_lowercase(s: Seq<char>) -> Seq<char>;

/// `str::to_lowercase`.
#[verifier::external_body]
pub(crate) fn str_to_lowercase(s: &str) -> (r: String)
    ensures
        r@ == unicode_lowercase(s@),
{
    s.to_lowercase()
}

/// `str::starts_with` with a string pattern.
#[verifier::external_body]
pub(crate) fn str_starts_with(s: &str, prefix: &str) -> (r: bool)
    ensures
        r == (prefix@.len() <= s@.len() && s@.subrange(0, prefix@.len() as int) == prefix@),
{
    s.starts_with(prefix)
}

// ── Characters and repetition ────────────────────────────────────────────────

/// The characters of `s`, in order.
pub(crate) fn str_to_chars(s: &str) -> (cs: Vec<char>)
    ensures
        cs@ == s@,
{
    broadcast use vstd::string::group_string_axioms;
    let mut cs: Vec<char> = Vec::new();
    for c in it: s.chars()
        invariant
            it.seq() == s@,
            cs@ == it.seq().take(it.index()),
    {
        cs.push(c);
    }
    assert(cs@ == s@.take(s@.len() as int));
    cs
}

/// `String::from_iter` over characters.
#[verifier::external_body]
pub(crate) fn string_from_chars(cs: &[char]) -> (s: String)
    ensures
        s@ == cs@,
{
    cs.iter().collect()
}

/// `n` copies of `s`, one after the other.
pub open spec fn repeat_seq(s: Seq<char>, n: nat) -> Seq<char>
    decreases n,
{
    if n == 0 {
        Seq::empty()
    } else {
        repeat_seq(s, (n - 1) as nat) + s
    }
}

/// `str::repeat`.
#[verifier::external_body]
pub(crate) fn str_repeat(s: &str, n: usize) -> (r: String)
    ensures
        r@ == repeat_seq(s@, n as nat),
{
    s.repeat(n)
}

} // verus!
