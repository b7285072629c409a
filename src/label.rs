//! Text shown to the operator: identifier labels and catalog listing lines.
use vstd::prelude::*;
use crate::catalog::{DescriptorView, DeviceDescriptor};
use crate::text::push_char;

verus! {

/// The character for a digit below 16 (lower-case for ten and above).
pub open spec fn digit_char(d: nat) -> char {
    if d < 10 {
        ((48 + d) as u8) as char
    } else {
        ((87 + d) as u8) as char
    }
}

/// `n` in hexadecimal, lower-case, without leading zeros.
pub open spec fn hex_digits(n: nat) -> Seq<char>
    decreases n,
{
    if n < 16 {
        seq![digit_char(n)]
    } else {
        hex_digits(n / 16).push(digit_char(n % 16))
    }
}

/// `n` in decimal, without leading zeros.
pub open spec fn decimal_digits(n: nat) -> Seq<char>
    decreases n,
{
    if n < 10 {
        seq![digit_char(n)]
    } else {
        decimal_digits(n / 10).push(digit_char(n % 10))
    }
}

/// `s` followed by as many spaces as it falls short of `width` characters.
pub open spec fn pad_right(s: Seq<char>, width: nat) -> Seq<char> {
    if s.len() >= width {
        s
    } else {
        s + Seq::new((width - s.len()) as nat, |i: int| ' ')
    }
}

/// `s` preceded by as many zeros as it falls short of `width` characters.
pub open spec fn zero_pad(s: Seq<char>, width: nat) -> Seq<char> {
    if s.len() >= width {
        s
    } else {
        Seq::new((width - s.len()) as nat, |i: int| '0') + s
    }
}

/// The label `0x<vid>:0x<pid>` of a device's identifiers.
pub open spec fn id_label(first: u16, second: u16) -> Seq<char> {
    seq!['0', 'x'] + hex_digits(first as nat) + seq![':', '0', 'x'] + hex_digits(second as nat)
}

/// One line of the catalog listing: `<index>: <product> <manufacturer> (<vid>:<pid>)`,
/// the product padded to 20 characters, the manufacturer to 40, and the
/// identifiers as four hexadecimal digits.
pub open spec fn listing_line(index: nat, d: DescriptorView) -> Seq<char> {
    decimal_digits(index) + seq![':', ' '] + pad_right(d.product, 20) + seq![' '] + pad_right(
        d.manufacturer,
        40,
    ) + seq![' ', '('] + zero_pad(hex_digits(d.vendor_id as nat), 4) + seq![':'] + zero_pad(
        hex_digits(d.product_id as nat),
        4,
    ) + seq![')']
}

fn digit(d: u8) -> (c: char)
    requires
        d < 16,
    ensures
        c == digit_char(d as nat),
{
    if d < 10 {
        (48 + d) as char
    } else {
        (87 + d) as char
    }
}

fn push_seq(out: &mut String, s: &Vec<char>)
    ensures
        final(out)@ == old(out)@ + s@,
{
    let mut i: usize = 0;
    while i < s.len()
        invariant
            i <= s@.len(),
            out@ == old(out)@ + s@.subrange(0, i as int),
        decreases s@.len() - i,
    {
        push_char(out, s[i]);
        assert(s@.subrange(0, i + 1) == s@.subrange(0, i as int).push(s@[i as int]));
        i = i + 1;
    }
    assert(s@.subrange(0, s@.len() as int) == s@);
}

fn push_hex(out: &mut String, n: u16)
    ensures
        final(out)@ == old(out)@ + hex_digits(n as nat),
    decreases n,
{
    if n >= 16 {
        push_hex(out, n / 16);
    }
    push_char(out, digit((n % 16) as u8));
}

fn push_decimal(out: &mut String, n: usize)
    ensures
        final(out)@ == old(out)@ + decimal_digits(n as nat),
    decreases n,
{
    if n >= 10 {
        push_decimal(out, n / 10);
    }
    push_char(out, digit((n % 10) as u8));
}

proof fn lemma_hex_digits_len(n: nat)
    requires
        n < 0x10000,
    ensures
        1 <= hex_digits(n).len() <= 4,
        n < 16 ==> hex_digits(n).len() == 1,
        n < 256 ==> hex_digits(n).len() <= 2,
        n < 4096 ==> hex_digits(n).len() <= 3,
    decreases n,
{
    if n >= 16 {
        lemma_hex_digits_len(n / 16);
    }
}

fn push_repeat(out: &mut String, c: char, count: usize)
    ensures
        final(out)@ == old(out)@ + Seq::new(count as nat, |i: int| c),
{
    let mut i: usize = 0;
    while i < count
        invariant
            i <= count,
            out@ == old(out)@ + Seq::new(i as nat, |j: int| c),
        decreases count - i,
    {
        push_char(out, c);
        assert(Seq::new((i + 1) as nat, |j: int| c) == Seq::new(i as nat, |j: int| c).push(c));
        i = i + 1;
    }
}

fn push_padded(out: &mut String, s: &str, width: usize)
    ensures
        final(out)@ == old(out)@ + pad_right(s@, width as nat),
{
    let chars = crate::text::chars_of(s);
    push_seq(out, &chars);
    if chars.len() < width {
        push_repeat(out, ' ', width - chars.len());
    }
}

fn push_hex4(out: &mut String, n: u16)
    ensures
        final(out)@ == old(out)@ + zero_pad(hex_digits(n as nat), 4),
{
    proof {
        lemma_hex_digits_len(n as nat);
    }
    let zeros: usize = if n < 16 {
        3
    } else if n < 256 {
        2
    } else if n < 4096 {
        1
    } else {
        0
    };
    assert(zeros as int == 4 - hex_digits(n as nat).len()) by {
        if n >= 16 {
            lemma_hex_digits_len(n as nat / 16);
            if n >= 256 {
                lemma_hex_digits_len(n as nat / 256);
                assert(n as nat / 16 / 16 == n as nat / 256);
                if n >= 4096 {
                    lemma_hex_digits_len(n as nat / 4096);
                    assert(n as nat / 256 / 16 == n as nat / 4096);
                }
            }
        }
    }
    push_repeat(out, '0', zeros);
    push_hex(out, n);
}

/// The label `0x<first>:0x<second>`, each number in lower-case hexadecimal
/// without leading zeros.
pub fn pid_vid_to_hexstr(pid: u16, vid: u16) -> (r: String)
    ensures
        r@ == id_label(pid, vid),
{
    let mut r = String::new();
    push_char(&mut r, '0');
    push_char(&mut r, 'x');
    push_hex(&mut r, pid);
    push_char(&mut r, ':');
    push_char(&mut r, '0');
    push_char(&mut r, 'x');
    push_hex(&mut r, vid);
    assert(r@ =~= id_label(pid, vid));
    r
}

/// The line that lists catalog entry `d` at position `index`.
pub fn device_line(index: usize, d: &DeviceDescriptor) -> (r: String)
    ensures
        r@ == listing_line(index as nat, d@),
{
    let mut r = String::new();
    push_decimal(&mut r, index);
    push_char(&mut r, ':');
    push_char(&mut r, ' ');
    push_padded(&mut r, d.product_string.as_str(), 20);
    push_char(&mut r, ' ');
    push_padded(&mut r, d.manufacturer_string.as_str(), 40);
    push_char(&mut r, ' ');
    push_char(&mut r, '(');
    push_hex4(&mut r, d.vendor_id);
    push_char(&mut r, ':');
    push_hex4(&mut r, d.product_id);
    push_char(&mut r, ')');
    assert(r@ =~= listing_line(index as nat, d@));
    r
}

} // verus!
