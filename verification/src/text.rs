//! Character-level helpers shared by the front ends and the renderers.
use vstd::prelude::*;

verus! {

/// Appends one character to a string.
/// Trusted: calls `String::push`, whose documentation says it appends the character to the
/// end of the string; the contract says the view grows by exactly that character.
#[verifier::external_body]
pub(crate) fn push_char(s: &mut String, c: char)
    ensures
        final(s)@ == old(s)@.push(c),
{
    s.push(c);
}

/// The characters of a string slice, in order.
pub fn chars_of(s: &str) -> (r: Vec<char>)
    ensures
        r@ == s@,
{
    let mut r: Vec<char> = Vec::new();
    for c in it: s.chars()
        invariant
            r@ == it.seq().take(it.index() as int),
            it.seq() == s@,
    {
        r.push(c);
    }
    r
}

} // verus!

verus! {

/// The decimal digit character for `d` (`d < 10`).
pub open spec fn digit_char(d: nat) -> char {
    ((d + 48) as u8) as char
}

/// Decimal notation of a natural number, most significant digit first.
pub open spec fn nat_text(n: nat) -> Seq<char>
    decreases n,
{
    if n < 10 {
        seq![digit_char(n)]
    } else {
        nat_text(n / 10).push(digit_char(n % 10))
    }
}

/// Decimal notation of an integer, with a leading `-` when it is negative.
pub open spec fn int_text(n: int) -> Seq<char> {
    if n < 0 {
        seq!['-'] + nat_text((-n) as nat)
    } else {
        nat_text(n as nat)
    }
}

/// The hexadecimal digit character for `d` (`d < 16`), in upper or lower case.
pub open spec fn hex_digit(d: nat, upper: bool) -> char {
    if d < 10 {
        digit_char(d)
    } else if upper {
        ((d - 10 + 65) as u8) as char
    } else {
        ((d - 10 + 97) as u8) as char
    }
}

/// Hexadecimal notation of a natural number, without prefix or padding.
pub open spec fn hex_text(n: nat, upper: bool) -> Seq<char>
    decreases n,
{
    if n < 16 {
        seq![hex_digit(n, upper)]
    } else {
        hex_text(n / 16, upper).push(hex_digit(n % 16, upper))
    }
}

/// `s` preceded by enough `0` characters to make it at least `width` long.
pub open spec fn zero_pad(s: Seq<char>, width: nat) -> Seq<char> {
    if s.len() >= width {
        s
    } else {
        Seq::new((width - s.len()) as nat, |i: int| '0') + s
    }
}

/// The text of a boolean: `true` or `false`.
pub open spec fn bool_text(b: bool) -> Seq<char> {
    if b {
        "true"@
    } else {
        "false"@
    }
}

fn digit(d: u64, upper: bool) -> (c: char)
    requires
        d < 16,
    ensures
        c == hex_digit(d as nat, upper),
{
    if d < 10 {
        ((d as u8) + 48u8) as char
    } else if upper {
        ((d as u8) - 10u8 + 65u8) as char
    } else {
        ((d as u8) - 10u8 + 97u8) as char
    }
}

/// Appends the decimal notation of `n`.
pub fn write_nat(out: &mut String, n: u64)
    ensures
        final(out)@ == old(out)@ + nat_text(n as nat),
    decreases n,
{
    if n < 10 {
        let c = digit(n, true);
        push_char(out, c);
        assert(old(out)@ + nat_text(n as nat) == old(out)@.push(c));
    } else {
        write_nat(out, n / 10);
        let c = digit(n % 10, true);
        push_char(out, c);
        let ghost a = old(out)@;
        assert(a + nat_text(n as nat) == (a + nat_text((n / 10) as nat)).push(c));
    }
}

/// Appends the decimal notation of `n`, with `-` first when negative.
pub fn write_int(out: &mut String, n: i64)
    ensures
        final(out)@ == old(out)@ + int_text(n as int),
{
    if n < 0 {
        push_char(out, '-');
        let m: u64 = if n == i64::MIN {
            9223372036854775808u64
        } else {
            (0 - n) as u64
        };
        write_nat(out, m);
        assert(old(out)@ + int_text(n as int) == old(out)@.push('-') + nat_text(m as nat));
    } else {
        write_nat(out, n as u64);
    }
}

/// Appends the hexadecimal notation of `n`.
pub fn write_hex(out: &mut String, n: u64, upper: bool)
    ensures
        final(out)@ == old(out)@ + hex_text(n as nat, upper),
    decreases n,
{
    if n < 16 {
        let c = digit(n, upper);
        push_char(out, c);
        assert(old(out)@ + hex_text(n as nat, upper) == old(out)@.push(c));
    } else {
        write_hex(out, n / 16, upper);
        let c = digit(n % 16, upper);
        push_char(out, c);
        let ghost a = old(out)@;
        assert(a + hex_text(n as nat, upper) == (a + hex_text((n / 16) as nat, upper)).push(c));
    }
}

/// Appends the upper-case hexadecimal notation of `n`, padded with `0` to `width` digits.
pub fn write_hex_padded(out: &mut String, n: u64, width: u64)
    requires
        width <= 16,
    ensures
        final(out)@ == old(out)@ + zero_pad(hex_text(n as nat, true), width as nat),
{
    let mut digits = String::new();
    write_hex(&mut digits, n, true);
    let count = hex_len(n);
    let mut k: u64 = count;
    while k < width
        invariant
            count as nat == hex_text(n as nat, true).len(),
            count <= k,
            k <= width || count > width,
            count >= width ==> k == count,
            width <= 16,
            out@ == old(out)@ + Seq::new((k - count) as nat, |i: int| '0'),
        decreases width - k,
    {
        push_char(out, '0');
        k = k + 1;
        assert(out@ == old(out)@ + Seq::new((k - count) as nat, |i: int| '0'));
    }
    let ghost before = out@;
    out.append(digits.as_str());
    if count >= width {
        assert(Seq::new((k - count) as nat, |i: int| '0') =~= Seq::<char>::empty());
        assert(out@ == old(out)@ + zero_pad(hex_text(n as nat, true), width as nat));
    } else {
        assert(k == width);
        assert(out@ == old(out)@ + zero_pad(hex_text(n as nat, true), width as nat));
    }
}

/// Number of hexadecimal digits of `n`.
fn hex_len(n: u64) -> (r: u64)
    ensures
        r as nat == hex_text(n as nat, true).len(),
        r <= 16,
    decreases n,
{
    proof {
        reveal_with_fuel(pow16, 17);
        assert(pow16(16) == 0x1_0000_0000_0000_0000);
        lemma_hex_len_bound_k(n as nat, 16);
    }
    if n < 16 {
        1
    } else {
        hex_len(n / 16) + 1
    }
}

proof fn lemma_hex_len_bound_k(n: nat, k: nat)
    requires
        k >= 1,
        n < pow16(k),
    ensures
        hex_text(n, true).len() <= k,
    decreases k,
{
    if n >= 16 {
        assert(pow16(k) == 16 * pow16((k - 1) as nat));
        assert(n / 16 < pow16((k - 1) as nat));
        if k == 1 {
            assert(pow16(0) == 1);
        } else {
            lemma_hex_len_bound_k((n / 16) as nat, (k - 1) as nat);
        }
    }
}

spec fn pow16(k: nat) -> nat
    decreases k,
{
    if k == 0 { 1 } else { 16 * pow16((k - 1) as nat) }
}

} // verus!
