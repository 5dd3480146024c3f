//! Text: the characters of strings, and numbers as digits.

use vstd::prelude::*;

verus! {

/// `String::push` appends the character to the end of the string, and
/// leaves the rest as it was.
pub assume_specification[ String::push ](s: &mut String, c: char)
    ensures
        final(s)@ == old(s)@.push(c),
;

/// The characters of `name`.
pub fn chars_of(name: &str) -> (v: Vec<char>)
    ensures
        v@ == name@,
{
    let mut v: Vec<char> = Vec::new();
    for c in it: name.chars()
        invariant
            v@ == it.seq().subrange(0, it.index() as int),
            it.seq() == name@,
    {
        v.push(c);
        assert(v@ =~= it.seq().subrange(0, it.index() + 1));
    }
    assert(v@ =~= name@);
    v
}

/// The text that `chars` spell.
pub fn string_of(chars: &Vec<char>) -> (s: String)
    ensures
        s@ == chars@,
{
    let mut s = String::new();
    let mut i: usize = 0;
    while i < chars.len()
        invariant
            i <= chars@.len(),
            s@ == chars@.subrange(0, i as int),
        decreases chars@.len() - i,
    {
        s.push(chars[i]);
        i += 1;
        assert(s@ =~= chars@.subrange(0, i as int));
    }
    assert(chars@.subrange(0, i as int) =~= chars@);
    s
}

/// The character of a decimal digit.
pub open spec fn digit_char(d: int) -> char {
    if d == 0 {
        '0'
    } else if d == 1 {
        '1'
    } else if d == 2 {
        '2'
    } else if d == 3 {
        '3'
    } else if d == 4 {
        '4'
    } else if d == 5 {
        '5'
    } else if d == 6 {
        '6'
    } else if d == 7 {
        '7'
    } else if d == 8 {
        '8'
    } else {
        '9'
    }
}

/// The decimal digits of `value`, with zeros in front of them where they
/// are fewer than `width`.
pub open spec fn decimal(value: nat, width: nat) -> Seq<char>
    decreases value + width,
{
    if value < 10 && width <= 1 {
        seq![digit_char(value as int)]
    } else {
        decimal(
            value / 10,
            if width > 0 {
                (width - 1) as nat
            } else {
                0
            },
        ).push(digit_char((value % 10) as int))
    }
}

/// The character of the digit `d`.
fn digit(d: u64) -> (c: char)
    requires
        d < 10,
    ensures
        c == digit_char(d as int),
{
    if d == 0 {
        '0'
    } else if d == 1 {
        '1'
    } else if d == 2 {
        '2'
    } else if d == 3 {
        '3'
    } else if d == 4 {
        '4'
    } else if d == 5 {
        '5'
    } else if d == 6 {
        '6'
    } else if d == 7 {
        '7'
    } else if d == 8 {
        '8'
    } else {
        '9'
    }
}

/// Appends the decimal digits of `value` to `out`, with zeros in front of
/// them where they are fewer than `width`.
pub fn push_decimal(out: &mut Vec<char>, value: u64, width: u32)
    ensures
        final(out)@ == old(out)@ + decimal(value as nat, width as nat),
    decreases value + width,
{
    if value < 10 && width <= 1 {
        out.push(digit(value));
        assert(out@ =~= old(out)@ + decimal(value as nat, width as nat));
    } else {
        let narrower = if width > 0 {
            width - 1
        } else {
            0
        };
        push_decimal(out, value / 10, narrower);
        out.push(digit(value % 10));
        assert(out@ =~= old(out)@ + decimal(value as nat, width as nat));
    }
}

/// The character of a hexadecimal digit, in lower case.
pub open spec fn hex_digit_char(d: int) -> char {
    if d < 10 {
        digit_char(d)
    } else if d == 10 {
        'a'
    } else if d == 11 {
        'b'
    } else if d == 12 {
        'c'
    } else if d == 13 {
        'd'
    } else if d == 14 {
        'e'
    } else {
        'f'
    }
}

/// The last `width` hexadecimal digits of `value`, zeros among them.
pub open spec fn hexadecimal(value: nat, width: nat) -> Seq<char>
    decreases width,
{
    if width == 0 {
        Seq::empty()
    } else {
        hexadecimal(value / 16, (width - 1) as nat).push(hex_digit_char((value % 16) as int))
    }
}

/// The character of the hexadecimal digit `d`.
fn hex_digit(d: u64) -> (c: char)
    requires
        d < 16,
    ensures
        c == hex_digit_char(d as int),
{
    if d < 10 {
        digit(d)
    } else if d == 10 {
        'a'
    } else if d == 11 {
        'b'
    } else if d == 12 {
        'c'
    } else if d == 13 {
        'd'
    } else if d == 14 {
        'e'
    } else {
        'f'
    }
}

/// Appends the last `width` hexadecimal digits of `value` to `out`.
pub fn push_hexadecimal(out: &mut Vec<char>, value: u64, width: u32)
    ensures
        final(out)@ == old(out)@ + hexadecimal(value as nat, width as nat),
    decreases width,
{
    if width == 0 {
        assert(out@ =~= old(out)@ + hexadecimal(value as nat, width as nat));
    } else {
        push_hexadecimal(out, value / 16, width - 1);
        out.push(hex_digit(value % 16));
        assert(out@ =~= old(out)@ + hexadecimal(value as nat, width as nat));
    }
}

/// Appends the characters of `text` to `out`.
pub fn push_text(out: &mut Vec<char>, text: &str)
    ensures
        final(out)@ == old(out)@ + text@,
{
    let chars = chars_of(text);
    let mut i: usize = 0;
    while i < chars.len()
        invariant
            i <= chars@.len(),
            chars@ == text@,
            out@ == old(out)@ + chars@.subrange(0, i as int),
        decreases chars@.len() - i,
    {
        out.push(chars[i]);
        i += 1;
        assert(out@ =~= old(out)@ + chars@.subrange(0, i as int));
    }
    assert(chars@.subrange(0, i as int) =~= chars@);
}

} // verus!
