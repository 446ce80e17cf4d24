//! Rendering of numbers and byte strings as text.
use vstd::prelude::*;
use vstd::string::*;

verus! {

/// Lower case digit of a number below sixteen.
pub open spec fn digit(d: nat) -> char {
    if d < 10 {
        (48 + d) as char
    } else {
        (87 + d) as char
    }
}

/// Digits of a number in a radix, most significant first, without leading zeros.
pub open spec fn digits(n: nat, radix: nat) -> Seq<char>
    recommends
        2 <= radix <= 16,
    decreases n,
{
    if radix < 2 || n < radix {
        seq![digit(n)]
    } else {
        proof {
            assert(n / radix < n) by (nonlinear_arith)
                requires
                    n >= radix,
                    radix >= 2,
            ;
        }
        digits(n / radix, radix).push(digit(n % radix))
    }
}

/// Decimal text of a natural number.
pub open spec fn decimal(n: nat) -> Seq<char> {
    digits(n, 10)
}

/// Decimal text of an integer, with a leading minus sign below zero.
pub open spec fn signed(n: int) -> Seq<char> {
    if n < 0 {
        "-"@ + decimal((-n) as nat)
    } else {
        decimal(n as nat)
    }
}

/// The low `width` hexadecimal digits of a number, most significant first.
pub open spec fn hex_fixed(n: nat, width: nat) -> Seq<char>
    decreases width,
{
    if width == 0 {
        Seq::empty()
    } else {
        hex_fixed(n / 16, (width - 1) as nat).push(digit(n % 16))
    }
}

/// Bytes as numbers in a radix between square brackets, separated by a comma and a space.
pub open spec fn byte_list(bytes: Seq<u8>, radix: nat) -> Seq<char> {
    "["@ + byte_items(bytes, radix) + "]"@
}

pub open spec fn byte_items(bytes: Seq<u8>, radix: nat) -> Seq<char>
    decreases bytes.len(),
{
    if bytes.len() == 0 {
        Seq::empty()
    } else if bytes.len() == 1 {
        digits(bytes[0] as nat, radix)
    } else {
        byte_items(bytes.drop_last(), radix) + ", "@ + digits(bytes.last() as nat, radix)
    }
}

/// Bytes as hexadecimal numbers between square brackets.
pub open spec fn hex_list(bytes: Seq<u8>) -> Seq<char> {
    byte_list(bytes, 16)
}

/// Bytes as decimal numbers between square brackets.
pub open spec fn decimal_list(bytes: Seq<u8>) -> Seq<char> {
    byte_list(bytes, 10)
}

fn digit_text(d: u8) -> (r: &'static str)
    requires
        d < 16,
    ensures
        r@ == seq![digit(d as nat)],
{
    proof {
        reveal_strlit("0");
        reveal_strlit("1");
        reveal_strlit("2");
        reveal_strlit("3");
        reveal_strlit("4");
        reveal_strlit("5");
        reveal_strlit("6");
        reveal_strlit("7");
        reveal_strlit("8");
        reveal_strlit("9");
        reveal_strlit("a");
        reveal_strlit("b");
        reveal_strlit("c");
        reveal_strlit("d");
        reveal_strlit("e");
        reveal_strlit("f");
    }
    let r = match d {
        0 => "0",
        1 => "1",
        2 => "2",
        3 => "3",
        4 => "4",
        5 => "5",
        6 => "6",
        7 => "7",
        8 => "8",
        9 => "9",
        10 => "a",
        11 => "b",
        12 => "c",
        13 => "d",
        14 => "e",
        _ => "f",
    };
    assert(r@ =~= seq![digit(d as nat)]);
    r
}

fn push_digits(out: &mut String, n: u128, radix: u128)
    requires
        2 <= radix <= 16,
    ensures
        final(out)@ == old(out)@ + digits(n as nat, radix as nat),
    decreases n,
{
    let ghost before = out@;
    if n < radix {
        out.append(digit_text(n as u8));
    } else {
        assert(n / radix < n) by (nonlinear_arith)
            requires
                n >= radix,
                radix >= 2,
        ;
        push_digits(out, n / radix, radix);
        let low = n % radix;
        out.append(digit_text(low as u8));
        assert(out@ =~= before + digits(n as nat, radix as nat));
    }
}

/// Appends the decimal text of a number.
pub fn push_decimal(out: &mut String, n: u128)
    ensures
        final(out)@ == old(out)@ + decimal(n as nat),
{
    push_digits(out, n, 10);
}

/// Appends the hexadecimal text of a number, without leading zeros.
pub fn push_hex(out: &mut String, n: u128)
    ensures
        final(out)@ == old(out)@ + digits(n as nat, 16),
{
    push_digits(out, n, 16);
}

/// Appends the decimal text of a signed number.
pub fn push_signed(out: &mut String, n: i64)
    ensures
        final(out)@ == old(out)@ + signed(n as int),
{
    let ghost before = out@;
    if n < 0 {
        out.append("-");
        let wide: i128 = n as i128;
        push_decimal(out, (0 - wide) as u128);
        assert(out@ =~= before + signed(n as int));
    } else {
        push_decimal(out, n as u128);
    }
}

/// Appends the low `width` hexadecimal digits of a number.
pub fn push_hex_fixed(out: &mut String, n: u128, width: u8)
    ensures
        final(out)@ == old(out)@ + hex_fixed(n as nat, width as nat),
    decreases width,
{
    let ghost before = out@;
    if width == 0 {
        assert(out@ =~= before + hex_fixed(n as nat, 0));
    } else {
        push_hex_fixed(out, n / 16, width - 1);
        let low = n % 16;
        out.append(digit_text(low as u8));
        assert(out@ =~= before + hex_fixed(n as nat, width as nat));
    }
}

fn push_byte_list(out: &mut String, bytes: &Vec<u8>, radix: u128)
    requires
        2 <= radix <= 16,
    ensures
        final(out)@ == old(out)@ + byte_list(bytes@, radix as nat),
{
    let ghost before = out@;
    let ghost base = radix as nat;
    out.append("[");
    let mut i: usize = 0;
    while i < bytes.len()
        invariant
            0 <= i <= bytes@.len(),
            2 <= radix <= 16,
            base == radix as nat,
            out@ == before + "["@ + byte_items(bytes@.take(i as int), base),
        decreases bytes@.len() - i,
    {
        if i > 0 {
            out.append(", ");
        }
        push_digits(out, bytes[i] as u128, radix);
        proof {
            let next = bytes@.take(i + 1);
            assert(next.drop_last() =~= bytes@.take(i as int));
            assert(next.last() == bytes@[i as int]);
            if i == 0 {
                assert(bytes@.take(0).len() == 0);
                assert(next[0] == bytes@[0]);
                assert(out@ =~= before + "["@ + byte_items(next, base));
            } else {
                assert(out@ =~= before + "["@ + byte_items(next, base));
            }
        }
        i += 1;
    }
    assert(bytes@.take(i as int) =~= bytes@);
    out.append("]");
    assert(out@ =~= before + byte_list(bytes@, base));
}

/// Appends the bytes as a bracketed list of hexadecimal numbers.
pub fn push_hex_list(out: &mut String, bytes: &Vec<u8>)
    ensures
        final(out)@ == old(out)@ + hex_list(bytes@),
{
    push_byte_list(out, bytes, 16);
}

/// Appends the bytes as a bracketed list of decimal numbers.
pub fn push_decimal_list(out: &mut String, bytes: &Vec<u8>)
    ensures
        final(out)@ == old(out)@ + decimal_list(bytes@),
{
    push_byte_list(out, bytes, 10);
}

} // verus!
