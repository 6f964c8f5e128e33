use vstd::prelude::*;

verus! {

/// `String::push` appends one character.
pub assume_specification[ String::push ](s: &mut String, c: char)
    ensures
        final(s)@ == old(s)@.push(c),
;

/// What a sequence of strings holds, string by string.
pub open spec fn texts(strings: Seq<String>) -> Seq<Seq<char>> {
    strings.map_values(|s: String| s@)
}

/// The character that writes the digit `d`.
pub open spec fn digit(d: nat) -> char {
    seq!['0', '1', '2', '3', '4', '5', '6', '7', '8', '9'][d as int]
}

/// `n` written in decimal, without leading zeros.
pub open spec fn decimal(n: nat) -> Seq<char>
    decreases n,
{
    if n < 10 {
        seq![digit(n)]
    } else {
        decimal(n / 10).push(digit(n % 10))
    }
}

/// Four numbers written in decimal and joined by dots.
pub open spec fn dotted_quad(a: nat, b: nat, c: nat, d: nat) -> Seq<char> {
    decimal(a) + seq!['.'] + decimal(b) + seq!['.'] + decimal(c) + seq!['.'] + decimal(d)
}

/// `text` is an IP address: four integers from 0 to 255, in decimal,
/// separated by dots.
pub open spec fn is_ip_address(text: Seq<char>) -> bool {
    exists|a: nat, b: nat, c: nat, d: nat|
        a <= 255 && b <= 255 && c <= 255 && d <= 255 && text == #[trigger] dotted_quad(a, b, c, d)
}

fn digit_char(d: u8) -> (c: char)
    requires
        d < 10,
    ensures
        c == digit(d as nat),
{
    if d == 0 {
        '0'
    } else if d == 1 {
        '1'
    } else if d == 2 {
        '2'
    } else if d == 3 {
        '3'
    } else if d == 4 {
        '4'
    } else if d == 5 {
        '5'
    } else if d == 6 {
        '6'
    } else if d == 7 {
        '7'
    } else if d == 8 {
        '8'
    } else {
        '9'
    }
}

/// Appends `n` in decimal to `out`.
pub fn push_decimal(out: &mut String, n: u8)
    ensures
        final(out)@ == old(out)@ + decimal(n as nat),
{
    reveal_with_fuel(decimal, 3);
    if n >= 100 {
        out.push(digit_char(n / 100));
    }
    if n >= 10 {
        out.push(digit_char((n / 10) % 10));
    }
    out.push(digit_char(n % 10));
}

/// The dotted form of the address whose four bytes are `a`, `b`, `c`, `d`.
pub fn ip_text(a: u8, b: u8, c: u8, d: u8) -> (text: String)
    ensures
        text@ == dotted_quad(a as nat, b as nat, c as nat, d as nat),
        is_ip_address(text@),
{
    let mut text = String::new();
    push_decimal(&mut text, a);
    text.push('.');
    push_decimal(&mut text, b);
    text.push('.');
    push_decimal(&mut text, c);
    text.push('.');
    push_decimal(&mut text, d);
    proof {
        let (na, nb, nc, nd) = (a as nat, b as nat, c as nat, d as nat);
        assert(text@ =~= dotted_quad(na, nb, nc, nd));
        assert(na <= 255 && nb <= 255 && nc <= 255 && nd <= 255);
    }
    text
}

} // verus!
