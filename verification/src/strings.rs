//! Small text builders: decimal and hexadecimal rendering of integers, and
//! UTF-16 decoding for on-disk names.

use vstd::prelude::*;

verus! {

/// The ASCII digit for `d` in `0..10`.
pub open spec fn digit_char(d: int) -> char {
    (48 + d) as char
}

/// Decimal text of `n`, without leading zeros.
pub open spec fn decimal(n: nat) -> Seq<char>
    decreases n,
{
    if n < 10 {
        seq![digit_char(n as int)]
    } else {
        decimal(n / 10).push(digit_char((n % 10) as int))
    }
}

/// Upper-case hexadecimal digit for `d` in `0..16`.
pub open spec fn hex_digit(d: int) -> char {
    if d < 10 {
        (48 + d) as char
    } else {
        (55 + d) as char
    }
}

/// Two upper-case hexadecimal digits of a byte.
pub open spec fn hex_byte(b: u8) -> Seq<char> {
    seq![hex_digit(b as int / 16), hex_digit(b as int % 16)]
}

/// Upper-case hexadecimal text of `bytes`, two digits per byte.
pub open spec fn hex_bytes(bytes: Seq<u8>) -> Seq<char>
    decreases bytes.len(),
{
    if bytes.len() == 0 {
        Seq::empty()
    } else {
        hex_bytes(bytes.drop_last()) + hex_byte(bytes.last())
    }
}

/// Text of UTF-16 code units: a high surrogate followed by a low one is one
/// supplementary character, every other surrogate (unpaired) is U+FFFD, and
/// any other unit is the character of that value.
pub open spec fn utf16_lossy_text(units: Seq<u16>) -> Seq<char>
    decreases units.len(),
{
    if units.len() == 0 {
        Seq::empty()
    } else {
        let u = units[0];
        if 0xD800u16 <= u <= 0xDBFFu16 && units.len() >= 2 && 0xDC00u16 <= units[1] <= 0xDFFFu16 {
            seq![(0x10000 + (u - 0xD800) * 0x400 + (units[1] - 0xDC00)) as char] + utf16_lossy_text(
                units.subrange(2, units.len() as int),
            )
        } else if 0xD800u16 <= u <= 0xDFFFu16 {
            seq!['\u{FFFD}'] + utf16_lossy_text(units.subrange(1, units.len() as int))
        } else {
            seq![u as char] + utf16_lossy_text(units.subrange(1, units.len() as int))
        }
    }
}

/// Calls `String::push`: appends one character.
#[verifier::external_body]
pub(crate) fn push_char(s: &mut String, c: char)
    ensures
        final(s)@ == old(s)@.push(c),
{
    s.push(c);
}

/// Calls `String::from_utf16_lossy`. Its contract claims what the standard
/// library documents: the code units are decoded as UTF-16 (as
/// `char::decode_utf16` does), each unpaired surrogate replaced by U+FFFD;
/// that is [`utf16_lossy_text`] of the code units.
#[verifier::external_body]
pub(crate) fn from_utf16_lossy(units: &[u16]) -> (r: String)
    ensures
        r@ == utf16_lossy_text(units@),
{
    String::from_utf16_lossy(units)
}

fn digit(d: u64) -> (c: char)
    requires
        d < 16,
    ensures
        c == hex_digit(d as int),
{
    if d < 10 {
        ((48 + d) as u8) as char
    } else {
        ((55 + d) as u8) as char
    }
}

/// Append the decimal text of `n`.
pub fn push_decimal(s: &mut String, n: u64)
    ensures
        final(s)@ == old(s)@ + decimal(n as nat),
    decreases n,
{
    if n >= 10 {
        push_decimal(s, n / 10);
    }
    push_char(s, digit(n % 10));
    proof {
        if n >= 10 {
            assert(old(s)@ + decimal(n as nat) =~= (old(s)@ + decimal((n / 10) as nat)).push(
                digit_char((n % 10) as int),
            ));
        } else {
            assert(old(s)@ + decimal(n as nat) =~= old(s)@.push(digit_char(n as int)));
        }
    }
}

/// Decimal text of `n`.
pub fn decimal_string(n: u64) -> (r: String)
    ensures
        r@ == decimal(n as nat),
{
    let mut s: String = String::new();
    push_decimal(&mut s, n);
    assert(Seq::<char>::empty() + decimal(n as nat) =~= decimal(n as nat));
    s
}

/// Append two upper-case hexadecimal digits of `b`.
pub fn push_hex_byte(s: &mut String, b: u8)
    ensures
        final(s)@ == old(s)@ + hex_byte(b),
{
    push_char(s, digit((b / 16) as u64));
    push_char(s, digit((b % 16) as u64));
    assert(old(s)@ + hex_byte(b) =~= old(s)@.push(hex_digit(b as int / 16)).push(
        hex_digit(b as int % 16),
    ));
}

/// Upper-case hexadecimal text of `bytes`.
pub fn hex_string(bytes: &[u8]) -> (r: String)
    ensures
        r@ == hex_bytes(bytes@),
{
    let mut s: String = String::new();
    let mut i: usize = 0;
    while i < bytes.len()
        invariant
            i <= bytes@.len(),
            s@ == hex_bytes(bytes@.subrange(0, i as int)),
        decreases bytes.len() - i,
    {
        push_hex_byte(&mut s, bytes[i]);
        assert(bytes@.subrange(0, i + 1).drop_last() =~= bytes@.subrange(0, i as int));
        i += 1;
    }
    assert(bytes@.subrange(0, bytes@.len() as int) =~= bytes@);
    s
}

/// The elements of a byte list in decimal, separated by `", "`.
pub open spec fn decimal_list_body(bytes: Seq<u8>) -> Seq<char>
    decreases bytes.len(),
{
    if bytes.len() == 0 {
        Seq::empty()
    } else if bytes.len() == 1 {
        decimal(bytes[0] as nat)
    } else {
        decimal_list_body(bytes.drop_last()) + seq![',', ' '] + decimal(bytes.last() as nat)
    }
}

/// Debug rendering of a byte list, such as `[78, 84]`.
pub open spec fn debug_list(bytes: Seq<u8>) -> Seq<char> {
    seq!['['] + decimal_list_body(bytes) + seq![']']
}

/// Debug rendering of a byte list, such as `[78, 84]`.
pub fn debug_byte_list(bytes: &[u8]) -> (r: String)
    ensures
        r@ == debug_list(bytes@),
{
    let mut s: String = String::new();
    push_char(&mut s, '[');
    let mut i: usize = 0;
    while i < bytes.len()
        invariant
            i <= bytes@.len(),
            s@ == seq!['['] + decimal_list_body(bytes@.subrange(0, i as int)),
        decreases bytes.len() - i,
    {
        let ghost prev: Seq<char> = s@;
        let ghost sub: Seq<u8> = bytes@.subrange(0, i + 1);
        assert(sub.drop_last() =~= bytes@.subrange(0, i as int));
        if i > 0 {
            push_char(&mut s, ',');
            push_char(&mut s, ' ');
        }
        push_decimal(&mut s, bytes[i] as u64);
        proof {
            if i > 0 {
                assert(s@ =~= seq!['['] + decimal_list_body(sub));
            } else {
                assert(sub =~= seq![bytes@[0]]);
                assert(s@ =~= seq!['['] + decimal_list_body(sub));
            }
        }
        i += 1;
    }
    push_char(&mut s, ']');
    assert(bytes@.subrange(0, bytes@.len() as int) =~= bytes@);
    assert(s@ =~= debug_list(bytes@));
    s
}

/// Lower-case hexadecimal digit for `d` in `0..16`.
pub open spec fn hex_digit_lower(d: int) -> char {
    if d < 10 {
        (48 + d) as char
    } else {
        (87 + d) as char
    }
}

/// `0x` and four lower-case hexadecimal digits of `v`.
pub open spec fn hex16_prefixed(v: u16) -> Seq<char> {
    seq![
        '0',
        'x',
        hex_digit_lower(v as int / 4096),
        hex_digit_lower((v as int / 256) % 16),
        hex_digit_lower((v as int / 16) % 16),
        hex_digit_lower(v as int % 16),
    ]
}

fn digit_lower(d: u16) -> (c: char)
    requires
        d < 16,
    ensures
        c == hex_digit_lower(d as int),
{
    if d < 10 {
        ((48 + d) as u8) as char
    } else {
        ((87 + d) as u8) as char
    }
}

/// Append `0x` and four lower-case hexadecimal digits of `v`.
pub fn push_hex16_prefixed(s: &mut String, v: u16)
    ensures
        final(s)@ == old(s)@ + hex16_prefixed(v),
{
    push_char(s, '0');
    push_char(s, 'x');
    push_char(s, digit_lower(v / 4096));
    push_char(s, digit_lower((v / 256) % 16));
    push_char(s, digit_lower((v / 16) % 16));
    push_char(s, digit_lower(v % 16));
    assert(final(s)@ =~= old(s)@ + hex16_prefixed(v));
}

/// Lower-case hexadecimal text of `n`, with leading zeros up to `width`
/// digits (as `{:0width$x}` formats it).
pub open spec fn hex_lower_padded(n: nat, width: nat) -> Seq<char>
    decreases n, width,
{
    if n < 16 && width <= 1 {
        seq![hex_digit_lower(n as int)]
    } else {
        hex_lower_padded(
            n / 16,
            if width > 0 {
                (width - 1) as nat
            } else {
                0
            },
        ).push(hex_digit_lower((n % 16) as int))
    }
}

/// Append the lower-case hexadecimal text of `n`, zero-padded to `width`.
pub fn push_hex_lower_padded(s: &mut String, n: u64, width: u64)
    ensures
        final(s)@ == old(s)@ + hex_lower_padded(n as nat, width as nat),
    decreases n, width,
{
    if !(n < 16 && width <= 1) {
        let w: u64 = if width > 0 {
            width - 1
        } else {
            0
        };
        push_hex_lower_padded(s, n / 16, w);
    }
    let d: u16 = (n % 16) as u16;
    push_char(s, digit_lower(d));
    proof {
        if !(n < 16 && width <= 1) {
            let w: nat = if width > 0 {
                (width - 1) as nat
            } else {
                0
            };
            assert(old(s)@ + hex_lower_padded(n as nat, width as nat) =~= (old(s)@ + hex_lower_padded(
                (n / 16) as nat,
                w,
            )).push(hex_digit_lower((n % 16) as int)));
        } else {
            assert(old(s)@ + hex_lower_padded(n as nat, width as nat) =~= old(s)@.push(
                hex_digit_lower(n as int),
            ));
        }
    }
}

/// Decimal text of `n`, with leading zeros up to `width` digits (as
/// `{:0width$}` formats it).
pub open spec fn decimal_padded(n: nat, width: nat) -> Seq<char>
    decreases n, width,
{
    if n < 10 && width <= 1 {
        seq![digit_char(n as int)]
    } else {
        decimal_padded(
            n / 10,
            if width > 0 {
                (width - 1) as nat
            } else {
                0
            },
        ).push(digit_char((n % 10) as int))
    }
}

/// Append the decimal text of `n`, zero-padded to `width`.
pub fn push_decimal_padded(s: &mut String, n: u64, width: u64)
    ensures
        final(s)@ == old(s)@ + decimal_padded(n as nat, width as nat),
    decreases n, width,
{
    if !(n < 10 && width <= 1) {
        let w: u64 = if width > 0 {
            width - 1
        } else {
            0
        };
        push_decimal_padded(s, n / 10, w);
    }
    push_char(s, digit(n % 10));
    proof {
        if !(n < 10 && width <= 1) {
            let w: nat = if width > 0 {
                (width - 1) as nat
            } else {
                0
            };
            assert(old(s)@ + decimal_padded(n as nat, width as nat) =~= (old(s)@ + decimal_padded(
                (n / 10) as nat,
                w,
            )).push(digit_char((n % 10) as int)));
        } else {
            assert(old(s)@ + decimal_padded(n as nat, width as nat) =~= old(s)@.push(digit_char(n as int)));
        }
    }
}

/// `c` with ASCII upper-case letters mapped to lower case.
pub open spec fn lower_ascii(c: char) -> char {
    if 'A' <= c && c <= 'Z' {
        ((c as u32) + 32) as char
    } else {
        c
    }
}

/// `s` with ASCII upper-case letters mapped to lower case, as
/// `str::to_ascii_lowercase` does.
pub open spec fn ascii_lowercase(s: Seq<char>) -> Seq<char> {
    s.map_values(|c: char| lower_ascii(c))
}

/// `c` with ASCII lower-case letters mapped to upper case.
pub open spec fn upper_ascii(c: char) -> char {
    if 'a' <= c && c <= 'z' {
        ((c as u32) - 32) as char
    } else {
        c
    }
}

/// `s` with ASCII lower-case letters mapped to upper case, as
/// `str::to_ascii_uppercase` does.
pub open spec fn ascii_uppercase(s: Seq<char>) -> Seq<char> {
    s.map_values(|c: char| upper_ascii(c))
}

/// Lower-casing an upper-cased text gives the text lower-cased.
pub proof fn lemma_lower_of_upper(s: Seq<char>)
    ensures
        ascii_lowercase(ascii_uppercase(s)) == ascii_lowercase(s),
{
    assert forall|i: int| 0 <= i < s.len() implies lower_ascii(upper_ascii(s[i])) == lower_ascii(s[i]) by {
        let c = s[i];
        if 'a' <= c && c <= 'z' {
            assert(('A' <= upper_ascii(c) && upper_ascii(c) <= 'Z'));
        }
    }
    assert(ascii_lowercase(ascii_uppercase(s)) =~= ascii_lowercase(s));
}

/// The characters of `s`, ASCII letters lower-cased.
pub fn lowercase_chars(s: &str) -> (v: Vec<char>)
    ensures
        v@ == ascii_lowercase(s@),
{
    let n: usize = s.unicode_len();
    let mut v: Vec<char> = Vec::new();
    let mut i: usize = 0;
    while i < n
        invariant
            n == s@.len(),
            i <= n,
            v@ == ascii_lowercase(s@).subrange(0, i as int),
        decreases n - i,
    {
        let c: char = s.get_char(i);
        let l: char = if 'A' <= c && c <= 'Z' {
            (((c as u32) + 32) as u8) as char
        } else {
            c
        };
        v.push(l);
        i += 1;
        assert(v@ =~= ascii_lowercase(s@).subrange(0, i as int));
    }
    assert(ascii_lowercase(s@).subrange(0, n as int) =~= ascii_lowercase(s@));
    v
}

/// Whether `v` holds exactly the characters of `lit`.
pub fn chars_eq(v: &[char], lit: &str) -> (b: bool)
    ensures
        b == (v@ == lit@),
{
    let n: usize = lit.unicode_len();
    if v.len() != n {
        return false;
    }
    let mut i: usize = 0;
    while i < n
        invariant
            n == lit@.len(),
            v@.len() == n,
            i <= n,
            forall|j: int| 0 <= j < i ==> v@[j] == lit@[j],
        decreases n - i,
    {
        if v[i] != lit.get_char(i) {
            return false;
        }
        i += 1;
    }
    assert(v@ =~= lit@);
    true
}

/// Whether two strings hold the same characters.
pub fn str_eq(a: &str, b: &str) -> (r: bool)
    ensures
        r == (a@ == b@),
{
    let n: usize = a.unicode_len();
    if b.unicode_len() != n {
        return false;
    }
    let mut i: usize = 0;
    while i < n
        invariant
            n == a@.len(),
            n == b@.len(),
            i <= n,
            forall|j: int| 0 <= j < i ==> a@[j] == b@[j],
        decreases n - i,
    {
        if a.get_char(i) != b.get_char(i) {
            return false;
        }
        i += 1;
    }
    assert(a@ =~= b@);
    true
}

/// `c` is a Unicode scalar value (not a surrogate, at most `0x10FFFF`).
pub open spec fn is_scalar(c: u32) -> bool {
    c < 0xD800 || (0xE000 <= c && c <= 0x10FFFF)
}

/// Calls `char::from_u32`: the character with code `c` when `c` is a
/// Unicode scalar value, else `None`.
#[verifier::external_body]
pub(crate) fn char_from_u32(c: u32) -> (r: Option<char>)
    ensures
        is_scalar(c) ==> r == Some(c as char),
        !is_scalar(c) ==> r is None,
{
    char::from_u32(c)
}

} // verus!
