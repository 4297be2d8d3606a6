//! Text building blocks shared by the protocol formatters: decimal and
//! hexadecimal rendering of integers, separators, padding, and the UTF-8
//! boundary to std.
use vstd::prelude::*;
use vstd::utf8::*;

verus! {

/// `String::push` appends one character to the string.
pub assume_specification[ String::push ](string: &mut String, ch: char)
    ensures
        final(string)@ == old(string)@.push(ch),
;

/// `str::to_lowercase` maps a string to its Unicode lowercase form.
pub assume_specification[ str::to_lowercase ](s: &str) -> (lowered: String)
    ensures
        lowered@ == unicode_lowercase(s@),
;

/// The Unicode lowercase mapping that `str::to_lowercase` computes.
pub uninterp spec fn unicode_lowercase(s: Seq<char>) -> Seq<char>;

/// Wraps `std::str::from_utf8`: the bytes are read as a string exactly when
/// they form well-formed UTF-8, and the string then holds the decoded
/// characters.
#[verifier::external_body]
pub fn utf8_str(bytes: &[u8]) -> (r: Option<&str>)
    ensures
        r is Some <==> valid_utf8(bytes@),
        r matches Some(s) ==> s@ == decode_utf8(bytes@),
{
    std::str::from_utf8(bytes).ok()
}

/// The lowercase hexadecimal digit of a value below 16 (decimal digits for
/// values below 10).
pub open spec fn hex_char(d: int) -> char {
    if d < 10 {
        (d + 48) as char
    } else {
        (d + 87) as char
    }
}

/// Big-endian value of two bytes.
pub open spec fn be16(hi: u8, lo: u8) -> int {
    hi as int * 256 + lo as int
}

/// Big-endian value of two bytes as a `u16`.
pub open spec fn be16u(hi: u8, lo: u8) -> u16 {
    be16(hi, lo) as u16
}

/// Big-endian value of four bytes.
pub open spec fn be32(b0: u8, b1: u8, b2: u8, b3: u8) -> int {
    ((b0 as int * 256 + b1 as int) * 256 + b2 as int) * 256 + b3 as int
}

/// Decimal rendering of a natural number, without leading zeros.
pub open spec fn dec_digits(n: nat) -> Seq<char>
    decreases n,
{
    if n < 10 {
        seq![hex_char(n as int)]
    } else {
        dec_digits(n / 10).push(hex_char((n % 10) as int))
    }
}

/// Lowercase hexadecimal rendering of a natural number, without leading zeros.
pub open spec fn hex_digits(n: nat) -> Seq<char>
    decreases n,
{
    if n < 16 {
        seq![hex_char(n as int)]
    } else {
        hex_digits(n / 16).push(hex_char((n % 16) as int))
    }
}

/// Decimal rendering of an integer, with a leading `-` for negative values.
pub open spec fn signed_dec(v: int) -> Seq<char> {
    if v < 0 {
        seq!['-'] + dec_digits((-v) as nat)
    } else {
        dec_digits(v as nat)
    }
}

/// `s` left-padded with `'0'` up to `width` characters.
pub open spec fn pad_zero(s: Seq<char>, width: nat) -> Seq<char> {
    if s.len() >= width {
        s
    } else {
        Seq::new((width - s.len()) as nat, |i: int| '0') + s
    }
}

/// A byte as two lowercase hexadecimal digits.
pub open spec fn hex2(b: u8) -> Seq<char> {
    seq![hex_char(b as int / 16), hex_char(b as int % 16)]
}

/// The parts joined by the separator.
pub open spec fn join(parts: Seq<Seq<char>>, sep: Seq<char>) -> Seq<char>
    decreases parts.len(),
{
    if parts.len() == 0 {
        seq![]
    } else if parts.len() == 1 {
        parts[0]
    } else {
        join(parts.drop_last(), sep) + sep + parts.last()
    }
}

/// Bytes in decimal joined by dots (`192.168.0.1`).
pub open spec fn dotted_dec(bytes: Seq<u8>) -> Seq<char> {
    join(bytes.map_values(|b: u8| dec_digits(b as nat)), seq!['.'])
}

/// Bytes as two hexadecimal digits each, joined by colons (`00:1a:2b`).
pub open spec fn colon_hex2(bytes: Seq<u8>) -> Seq<char> {
    join(bytes.map_values(|b: u8| hex2(b)), seq![':'])
}

/// The sixteen bytes of an IPv6 address as eight big-endian groups in
/// hexadecimal without leading zeros, joined by colons.
pub open spec fn ipv6_groups(bytes: Seq<u8>) -> Seq<Seq<char>> {
    Seq::new(
        8,
        |i: int| hex_digits(be16(bytes[2 * i], bytes[2 * i + 1]) as nat),
    )
}

/// An IPv6 address as text: its eight groups joined by colons, without
/// shortening runs of zero groups.
pub open spec fn ipv6_text(bytes: Seq<u8>) -> Seq<char> {
    join(ipv6_groups(bytes), seq![':'])
}

/// Adding one more part to a join adds the separator and the part.
pub proof fn lemma_join_push(parts: Seq<Seq<char>>, sep: Seq<char>, i: int)
    requires
        0 <= i < parts.len(),
    ensures
        i == 0 ==> join(parts.take(1), sep) == parts[0],
        i > 0 ==> join(parts.take(i + 1), sep) == join(parts.take(i), sep) + sep + parts[i],
{
    if i > 0 {
        assert(parts.take(i + 1).drop_last() =~= parts.take(i));
    }
}

/// The lowercase hexadecimal digit of a value below 16.
pub fn digit_char(d: u8) -> (c: char)
    requires
        d < 16,
    ensures
        c == hex_char(d as int),
{
    if d < 10 {
        (d + 48) as char
    } else {
        (d + 87) as char
    }
}

/// Big-endian value of two bytes.
pub fn read_be16(hi: u8, lo: u8) -> (v: u16)
    ensures
        v == be16u(hi, lo),
        v as int == be16(hi, lo),
{
    hi as u16 * 256 + lo as u16
}

/// Appends a literal.
pub fn push_lit(s: &mut String, lit: &str)
    ensures
        final(s)@ == old(s)@ + lit@,
{
    s.append(lit);
}

/// Appends `n` in decimal.
pub fn push_dec(s: &mut String, n: u64)
    ensures
        final(s)@ == old(s)@ + dec_digits(n as nat),
    decreases n,
{
    if n >= 10 {
        push_dec(s, n / 10);
    }
    let d = digit_char((n % 10) as u8);
    s.push(d);
}

/// Appends `n` in lowercase hexadecimal.
pub fn push_hex(s: &mut String, n: u64)
    ensures
        final(s)@ == old(s)@ + hex_digits(n as nat),
    decreases n,
{
    if n >= 16 {
        push_hex(s, n / 16);
    }
    let d = digit_char((n % 16) as u8);
    s.push(d);
}

/// Appends `v` in decimal with its sign.
pub fn push_signed_dec(s: &mut String, v: i64)
    ensures
        final(s)@ == old(s)@ + signed_dec(v as int),
{
    if v < 0 {
        s.push('-');
        let magnitude: u64 = if v == i64::MIN {
            9223372036854775808u64
        } else {
            (-v) as u64
        };
        push_dec(s, magnitude);
        assert(final(s)@ =~= old(s)@ + signed_dec(v as int));
    } else {
        push_dec(s, v as u64);
    }
}

/// Powers of a base.
pub open spec fn pow_nat(base: nat, k: nat) -> nat
    decreases k,
{
    if k == 0 {
        1
    } else {
        base * pow_nat(base, (k - 1) as nat)
    }
}

proof fn lemma_dec_len_bound(n: nat, k: nat)
    requires
        k >= 1,
        n < pow_nat(10, k),
    ensures
        dec_digits(n).len() <= k,
    decreases k,
{
    if n >= 10 {
        assert(k >= 2) by {
            if k == 1 {
                assert(pow_nat(10, 1) == 10 * pow_nat(10, 0));
            }
        }
        assert(pow_nat(10, k) == 10 * pow_nat(10, (k - 1) as nat));
        lemma_dec_len_bound(n / 10, (k - 1) as nat);
    }
}

proof fn lemma_hex_len_bound(n: nat, k: nat)
    requires
        k >= 1,
        n < pow_nat(16, k),
    ensures
        hex_digits(n).len() <= k,
    decreases k,
{
    if n >= 16 {
        assert(k >= 2) by {
            if k == 1 {
                assert(pow_nat(16, 1) == 16 * pow_nat(16, 0));
            }
        }
        assert(pow_nat(16, k) == 16 * pow_nat(16, (k - 1) as nat));
        lemma_hex_len_bound(n / 16, (k - 1) as nat);
    }
}

proof fn lemma_pow_bounds()
    ensures
        pow_nat(10, 20) == 100000000000000000000,
        pow_nat(16, 16) == 18446744073709551616,
{
    reveal_with_fuel(pow_nat, 21);
}

fn dec_len_rec(n: u64) -> (len: u64)
    ensures
        len as nat == dec_digits(n as nat).len(),
    decreases n,
{
    proof {
        lemma_pow_bounds();
        lemma_dec_len_bound(n as nat, 20);
    }
    if n >= 10 {
        let l = dec_len_rec(n / 10);
        l + 1
    } else {
        1
    }
}

/// Number of decimal digits of `n`.
pub fn dec_len(n: u64) -> (len: usize)
    ensures
        len as nat == dec_digits(n as nat).len(),
        len <= 20,
{
    proof {
        lemma_pow_bounds();
        lemma_dec_len_bound(n as nat, 20);
    }
    dec_len_rec(n) as usize
}

fn hex_len_rec(n: u64) -> (len: u64)
    ensures
        len as nat == hex_digits(n as nat).len(),
    decreases n,
{
    proof {
        lemma_pow_bounds();
        lemma_hex_len_bound(n as nat, 16);
    }
    if n >= 16 {
        let l = hex_len_rec(n / 16);
        l + 1
    } else {
        1
    }
}

/// Number of hexadecimal digits of `n`.
pub fn hex_len(n: u64) -> (len: usize)
    ensures
        len as nat == hex_digits(n as nat).len(),
        len <= 16,
{
    proof {
        lemma_pow_bounds();
        lemma_hex_len_bound(n as nat, 16);
    }
    hex_len_rec(n) as usize
}

/// Appends `count` zero characters.
fn push_zeros(s: &mut String, count: usize)
    ensures
        final(s)@ == old(s)@ + Seq::new(count as nat, |i: int| '0'),
{
    let mut k: usize = 0;
    while k < count
        invariant
            k <= count,
            s@ == old(s)@ + Seq::new(k as nat, |i: int| '0'),
        decreases count - k,
    {
        s.push('0');
        k = k + 1;
        assert(s@ =~= old(s)@ + Seq::new(k as nat, |i: int| '0'));
    }
}

/// Appends `n` in decimal, left-padded with zeros to `width` digits.
pub fn push_padded_dec(s: &mut String, n: u64, width: usize)
    ensures
        final(s)@ == old(s)@ + pad_zero(dec_digits(n as nat), width as nat),
{
    let len = dec_len(n);
    if len < width {
        push_zeros(s, width - len);
    }
    push_dec(s, n);
    assert(final(s)@ =~= old(s)@ + pad_zero(dec_digits(n as nat), width as nat));
}

/// Appends `n` in lowercase hexadecimal, left-padded with zeros to `width`
/// digits.
pub fn push_padded_hex(s: &mut String, n: u64, width: usize)
    ensures
        final(s)@ == old(s)@ + pad_zero(hex_digits(n as nat), width as nat),
{
    let len = hex_len(n);
    if len < width {
        push_zeros(s, width - len);
    }
    push_hex(s, n);
    assert(final(s)@ =~= old(s)@ + pad_zero(hex_digits(n as nat), width as nat));
}

/// Appends a byte as two lowercase hexadecimal digits.
pub fn push_hex2(s: &mut String, b: u8)
    ensures
        final(s)@ == old(s)@ + hex2(b),
{
    s.push(digit_char(b / 16));
    s.push(digit_char(b % 16));
    assert(final(s)@ =~= old(s)@ + hex2(b));
}

/// Decimal digits of a byte.
pub open spec fn dec8(v: u8) -> Seq<char> {
    dec_digits(v as nat)
}

/// Decimal digits of a 16-bit value.
pub open spec fn dec16(v: u16) -> Seq<char> {
    dec_digits(v as nat)
}

/// Decimal digits of a 32-bit value.
pub open spec fn dec32(v: u32) -> Seq<char> {
    dec_digits(v as nat)
}

/// Appends a byte in decimal.
pub fn push_dec_u8(s: &mut String, v: u8)
    ensures
        final(s)@ == old(s)@ + dec8(v),
{
    push_dec(s, v as u64);
}

/// Appends a 16-bit value in decimal.
pub fn push_dec_u16(s: &mut String, v: u16)
    ensures
        final(s)@ == old(s)@ + dec16(v),
{
    push_dec(s, v as u64);
}

/// Appends a 32-bit value in decimal.
pub fn push_dec_u32(s: &mut String, v: u32)
    ensures
        final(s)@ == old(s)@ + dec32(v),
{
    push_dec(s, v as u64);
}

/// Appends a length in decimal.
pub fn push_dec_usize(s: &mut String, v: usize)
    ensures
        final(s)@ == old(s)@ + dec_digits(v as nat),
{
    push_dec(s, v as u64);
}

/// `0x` and four lowercase hexadecimal digits, as `{:#06x}` renders a
/// 16-bit value.
pub open spec fn hex4_prefixed(v: u16) -> Seq<char> {
    "0x"@ + pad_zero(hex_digits(v as nat), 4)
}

/// Appends `0x` and four lowercase hexadecimal digits.
pub fn push_hex4_prefixed(s: &mut String, v: u16)
    ensures
        final(s)@ == old(s)@ + hex4_prefixed(v),
{
    push_lit(s, "0x");
    push_padded_hex(s, v as u64, 4);
    assert(final(s)@ =~= old(s)@ + hex4_prefixed(v));
}

/// A signed value in decimal, zero-padded to `width` characters with the
/// sign counted, as `{:0width$}` renders it.
pub open spec fn signed_padded(v: int, width: nat) -> Seq<char> {
    if v < 0 {
        seq!['-'] + pad_zero(dec_digits((-v) as nat), (if width > 0 { width - 1 } else { 0 }) as nat)
    } else {
        pad_zero(dec_digits(v as nat), width)
    }
}

/// Appends a signed value in decimal, zero-padded to `width` characters.
pub fn push_signed_padded(s: &mut String, v: i64, width: usize)
    ensures
        final(s)@ == old(s)@ + signed_padded(v as int, width as nat),
{
    if v < 0 {
        s.push('-');
        let magnitude: u64 = if v == i64::MIN {
            9223372036854775808u64
        } else {
            (-v) as u64
        };
        let w = if width > 0 { width - 1 } else { 0 };
        push_padded_dec(s, magnitude, w);
        assert(final(s)@ =~= old(s)@ + signed_padded(v as int, width as nat));
    } else {
        push_padded_dec(s, v as u64, width);
    }
}

/// Bytes in decimal joined by dots.
pub fn format_dotted_dec(bytes: &[u8]) -> (r: String)
    ensures
        r@ == dotted_dec(bytes@),
{
    let ghost parts = bytes@.map_values(|b: u8| dec_digits(b as nat));
    let mut s = String::new();
    let mut i: usize = 0;
    while i < bytes.len()
        invariant
            i <= bytes.len(),
            parts == bytes@.map_values(|b: u8| dec_digits(b as nat)),
            s@ == join(parts.take(i as int), seq!['.']),
        decreases bytes.len() - i,
    {
        proof {
            lemma_join_push(parts, seq!['.'], i as int);
        }
        if i > 0 {
            s.push('.');
        }
        push_dec(&mut s, bytes[i] as u64);
        i = i + 1;
        assert(s@ =~= join(parts.take(i as int), seq!['.']));
    }
    assert(parts.take(i as int) =~= parts);
    s
}

/// Bytes as two hexadecimal digits each, joined by colons.
pub fn format_colon_hex2(bytes: &[u8]) -> (r: String)
    ensures
        r@ == colon_hex2(bytes@),
{
    let ghost parts = bytes@.map_values(|b: u8| hex2(b));
    let mut s = String::new();
    let mut i: usize = 0;
    while i < bytes.len()
        invariant
            i <= bytes.len(),
            parts == bytes@.map_values(|b: u8| hex2(b)),
            s@ == join(parts.take(i as int), seq![':']),
        decreases bytes.len() - i,
    {
        proof {
            lemma_join_push(parts, seq![':'], i as int);
        }
        if i > 0 {
            s.push(':');
        }
        push_hex2(&mut s, bytes[i]);
        i = i + 1;
        assert(s@ =~= join(parts.take(i as int), seq![':']));
    }
    assert(parts.take(i as int) =~= parts);
    s
}

/// The sixteen bytes of an IPv6 address as eight colon-separated groups.
pub fn format_ipv6_groups(bytes: &[u8; 16]) -> (r: String)
    ensures
        r@ == ipv6_text(bytes@),
{
    let ghost parts = ipv6_groups(bytes@);
    let mut s = String::new();
    let mut i: usize = 0;
    while i < 8
        invariant
            i <= 8,
            bytes@.len() == 16,
            parts == ipv6_groups(bytes@),
            s@ == join(parts.take(i as int), seq![':']),
        decreases 8 - i,
    {
        proof {
            lemma_join_push(parts, seq![':'], i as int);
        }
        if i > 0 {
            s.push(':');
        }
        let value: u64 = bytes[2 * i] as u64 * 256 + bytes[2 * i + 1] as u64;
        push_hex(&mut s, value);
        i = i + 1;
        assert(s@ =~= join(parts.take(i as int), seq![':']));
    }
    assert(parts.take(8) =~= parts);
    s
}

/// A string holding exactly the given literal.
pub fn string_of(lit: &str) -> (r: String)
    ensures
        r@ == lit@,
{
    let mut s = String::new();
    s.append(lit);
    assert(s@ =~= lit@);
    s
}

/// The characters of a string.
pub fn chars_of(s: &str) -> (v: Vec<char>)
    ensures
        v@ == s@,
{
    let mut v: Vec<char> = Vec::new();
    for c in it: s.chars()
        invariant
            v@ == it.seq().take(it.index() as int),
    {
        v.push(c);
    }
    v
}

/// A string holding the characters `chars[start..end]`.
pub fn string_from_range(chars: &[char], start: usize, end: usize) -> (r: String)
    requires
        start <= end <= chars@.len(),
    ensures
        r@ == chars@.subrange(start as int, end as int),
{
    let mut s = String::new();
    let mut i = start;
    while i < end
        invariant
            start <= i <= end,
            end <= chars@.len(),
            s@ == chars@.subrange(start as int, i as int),
        decreases end - i,
    {
        s.push(chars[i]);
        i = i + 1;
        assert(s@ =~= chars@.subrange(start as int, i as int));
    }
    s
}

/// Unicode `White_Space`, the property that `char::is_whitespace` tests.
pub open spec fn is_white_space(c: char) -> bool {
    let u = c as u32;
    ||| 0x09 <= u <= 0x0D
    ||| u == 0x20
    ||| u == 0x85
    ||| u == 0xA0
    ||| u == 0x1680
    ||| 0x2000 <= u <= 0x200A
    ||| u == 0x2028
    ||| u == 0x2029
    ||| u == 0x202F
    ||| u == 0x205F
    ||| u == 0x3000
}

/// Whether a character is white space.
pub fn white_space(c: char) -> (r: bool)
    ensures
        r == is_white_space(c),
{
    let u = c as u32;
    (0x09 <= u && u <= 0x0D) || u == 0x20 || u == 0x85 || u == 0xA0 || u == 0x1680
        || (0x2000 <= u && u <= 0x200A) || u == 0x2028 || u == 0x2029 || u == 0x202F
        || u == 0x205F || u == 0x3000
}

/// `s` without its leading white space.
pub open spec fn trim_start(s: Seq<char>) -> Seq<char>
    decreases s.len(),
{
    if s.len() > 0 && is_white_space(s[0]) {
        trim_start(s.drop_first())
    } else {
        s
    }
}

/// `s` without its trailing white space.
pub open spec fn trim_end(s: Seq<char>) -> Seq<char>
    decreases s.len(),
{
    if s.len() > 0 && is_white_space(s.last()) {
        trim_end(s.drop_last())
    } else {
        s
    }
}

/// `s` without leading and trailing white space, as `str::trim` gives it.
pub open spec fn trim(s: Seq<char>) -> Seq<char> {
    trim_end(trim_start(s))
}

/// The bounds of `chars[start..end]` without its leading and trailing
/// white space.
pub fn trim_bounds(chars: &[char], start: usize, end: usize) -> (r: (usize, usize))
    requires
        start <= end <= chars@.len(),
    ensures
        start <= r.0 <= r.1 <= end,
        chars@.subrange(r.0 as int, r.1 as int) == trim(chars@.subrange(start as int, end as int)),
{
    let mut i = start;
    while i < end && white_space(chars[i])
        invariant
            start <= i <= end,
            end <= chars@.len(),
            trim_start(chars@.subrange(start as int, end as int)) == trim_start(chars@.subrange(i as int, end as int)),
        decreases end - i,
    {
        assert(chars@.subrange(i as int, end as int).drop_first() =~= chars@.subrange(i + 1, end as int));
        i = i + 1;
    }
    let mut j = end;
    while j > i && white_space(chars[j - 1])
        invariant
            start <= i <= j <= end,
            end <= chars@.len(),
            trim_end(chars@.subrange(i as int, end as int)) == trim_end(chars@.subrange(i as int, j as int)),
        decreases j - i,
    {
        assert(chars@.subrange(i as int, j as int).drop_last() =~= chars@.subrange(i as int, j - 1));
        j = j - 1;
    }
    (i, j)
}

/// A string holding `chars[start..end]` without leading and trailing white
/// space.
pub fn trimmed_string(chars: &[char], start: usize, end: usize) -> (r: String)
    requires
        start <= end <= chars@.len(),
    ensures
        r@ == trim(chars@.subrange(start as int, end as int)),
{
    let (a, b) = trim_bounds(chars, start, end);
    string_from_range(chars, a, b)
}

/// The first index at or after `from` where `c` occurs.
pub open spec fn find_char(s: Seq<char>, c: char, from: int) -> Option<int>
    decreases s.len() - from,
{
    if from < 0 || from >= s.len() {
        None
    } else if s[from] == c {
        Some(from)
    } else {
        find_char(s, c, from + 1)
    }
}

/// The first index at or after `from` where `c` occurs.
pub fn find_char_from(chars: &[char], c: char, from: usize) -> (r: Option<usize>)
    ensures
        match r {
            Some(i) => find_char(chars@, c, from as int) == Some(i as int) && from <= i < chars@.len(),
            None => find_char(chars@, c, from as int) is None,
        },
{
    let mut i = from;
    while i < chars.len()
        invariant
            from <= i,
            find_char(chars@, c, from as int) == find_char(chars@, c, i as int),
        decreases chars@.len() - i,
    {
        if chars[i] == c {
            return Some(i);
        }
        i = i + 1;
    }
    None
}

} // verus!
