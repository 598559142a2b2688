//! Decimal digits appended to a `String`, the building block of every line
//! this crate renders.
use vstd::prelude::*;
use vstd::string::StringExecFns;

verus! {

/// The ASCII character of decimal digit `d`.
pub open spec fn digit_char(d: int) -> char {
    if d == 0 {
        '0'
    } else if d == 1 {
        '1'
    } else if d == 2 {
        '2'
    } else if d == 3 {
        '3'
    } else if d == 4 {
        '4'
    } else if d == 5 {
        '5'
    } else if d == 6 {
        '6'
    } else if d == 7 {
        '7'
    } else if d == 8 {
        '8'
    } else {
        '9'
    }
}

/// The last `width` decimal digits of `n`, most significant first, with
/// leading zeros.
pub open spec fn digits(n: nat, width: nat) -> Seq<char>
    decreases width,
{
    if width == 0 {
        Seq::empty()
    } else {
        digits(n / 10, (width - 1) as nat).push(digit_char((n % 10) as int))
    }
}

/// The number of decimal digits `n` is written with: one for zero.
pub open spec fn digit_count(n: nat) -> nat
    decreases n,
{
    if n < 10 { 1 } else { 1 + digit_count(n / 10) }
}

/// `n` in decimal, without leading zeros.
pub open spec fn decimal(n: nat) -> Seq<char> {
    digits(n, digit_count(n))
}

/// `String::push`, which appends one character: the string's characters
/// afterwards are the ones before followed by `c`.
#[verifier::external_body]
pub fn push_char(s: &mut String, c: char)
    ensures
        final(s)@ == old(s)@.push(c),
{
    s.push(c);
}

/// Appends one decimal digit.
pub fn push_digit(s: &mut String, d: u64)
    requires
        d < 10,
    ensures
        final(s)@ == old(s)@.push(digit_char(d as int)),
{
    let t: &str = if d == 0 {
        "0"
    } else if d == 1 {
        "1"
    } else if d == 2 {
        "2"
    } else if d == 3 {
        "3"
    } else if d == 4 {
        "4"
    } else if d == 5 {
        "5"
    } else if d == 6 {
        "6"
    } else if d == 7 {
        "7"
    } else if d == 8 {
        "8"
    } else {
        "9"
    };
    proof {
        reveal_strlit("0");
        reveal_strlit("1");
        reveal_strlit("2");
        reveal_strlit("3");
        reveal_strlit("4");
        reveal_strlit("5");
        reveal_strlit("6");
        reveal_strlit("7");
        reveal_strlit("8");
        reveal_strlit("9");
    }
    s.append(t);
    assert(final(s)@ =~= old(s)@.push(digit_char(d as int)));
}

/// Appends the last `width` decimal digits of `n`, zero-padded.
pub fn push_digits(s: &mut String, n: u64, width: u32)
    ensures
        final(s)@ == old(s)@ + digits(n as nat, width as nat),
    decreases width,
{
    if width == 0 {
        assert(old(s)@ + digits(n as nat, 0) =~= old(s)@);
        return;
    }
    push_digits(s, n / 10, width - 1);
    push_digit(s, n % 10);
    assert(final(s)@ =~= old(s)@ + digits(n as nat, width as nat));
}

/// Appends `n` in decimal.
pub fn push_decimal(s: &mut String, n: u64)
    ensures
        final(s)@ == old(s)@ + decimal(n as nat),
    decreases n,
{
    if n < 10 {
        push_digit(s, n);
        assert(decimal(n as nat) =~= seq![digit_char(n as int)]) by {
            reveal_with_fuel(digits, 2);
        }
        assert(final(s)@ =~= old(s)@ + decimal(n as nat));
    } else {
        push_decimal(s, n / 10);
        push_digit(s, n % 10);
        proof {
            lemma_decimal_step(n as nat);
        }
        assert(final(s)@ =~= old(s)@ + decimal(n as nat));
    }
}

proof fn lemma_digits_of_count(n: nat)
    ensures
        digits(n, digit_count(n)) == (if n < 10 {
            seq![digit_char(n as int)]
        } else {
            digits(n / 10, digit_count(n / 10)).push(digit_char((n % 10) as int))
        }),
{
    if n < 10 {
        reveal_with_fuel(digits, 2);
        assert(digits(n, 1) =~= seq![digit_char(n as int)]);
    }
}

proof fn lemma_decimal_step(n: nat)
    requires
        n >= 10,
    ensures
        decimal(n) == decimal(n / 10).push(digit_char((n % 10) as int)),
{
    lemma_digits_of_count(n);
}

/// The lower-case ASCII character of hexadecimal digit `d`.
pub open spec fn hex_char(d: int) -> char {
    if d < 10 {
        digit_char(d)
    } else if d == 10 {
        'a'
    } else if d == 11 {
        'b'
    } else if d == 12 {
        'c'
    } else if d == 13 {
        'd'
    } else if d == 14 {
        'e'
    } else {
        'f'
    }
}

/// `n` in lower-case hexadecimal, without leading zeros or prefix.
pub open spec fn hex(n: nat) -> Seq<char>
    decreases n,
{
    if n < 16 {
        seq![hex_char(n as int)]
    } else {
        hex(n / 16).push(hex_char((n % 16) as int))
    }
}

/// Appends one hexadecimal digit, lower case.
fn push_hex_digit(s: &mut String, d: u64)
    requires
        d < 16,
    ensures
        final(s)@ == old(s)@.push(hex_char(d as int)),
{
    if d < 10 {
        push_digit(s, d);
        return;
    }
    let t: &str = if d == 10 {
        "a"
    } else if d == 11 {
        "b"
    } else if d == 12 {
        "c"
    } else if d == 13 {
        "d"
    } else if d == 14 {
        "e"
    } else {
        "f"
    };
    proof {
        reveal_strlit("a");
        reveal_strlit("b");
        reveal_strlit("c");
        reveal_strlit("d");
        reveal_strlit("e");
        reveal_strlit("f");
    }
    s.append(t);
    assert(final(s)@ =~= old(s)@.push(hex_char(d as int)));
}

/// Appends `n` in lower-case hexadecimal.
pub fn push_hex(s: &mut String, n: u64)
    ensures
        final(s)@ == old(s)@ + hex(n as nat),
    decreases n,
{
    if n < 16 {
        push_hex_digit(s, n);
        assert(final(s)@ =~= old(s)@ + hex(n as nat));
    } else {
        push_hex(s, n / 16);
        push_hex_digit(s, n % 16);
        assert(final(s)@ =~= old(s)@ + hex(n as nat));
    }
}

/// The last `width` hexadecimal digits of `n`, lower case, most
/// significant first, with leading zeros.
pub open spec fn hex_digits(n: nat, width: nat) -> Seq<char>
    decreases width,
{
    if width == 0 {
        Seq::empty()
    } else {
        hex_digits(n / 16, (width - 1) as nat).push(hex_char((n % 16) as int))
    }
}

/// Appends the last `width` hexadecimal digits of `n`, zero-padded.
pub fn push_hex_digits(s: &mut String, n: u64, width: u32)
    ensures
        final(s)@ == old(s)@ + hex_digits(n as nat, width as nat),
    decreases width,
{
    if width == 0 {
        assert(old(s)@ + hex_digits(n as nat, 0) =~= old(s)@);
        return;
    }
    push_hex_digits(s, n / 16, width - 1);
    push_hex_digit(s, n % 16);
    assert(final(s)@ =~= old(s)@ + hex_digits(n as nat, width as nat));
}

/// `n` in decimal, with a leading `-` when negative.
pub open spec fn signed(n: int) -> Seq<char> {
    if n < 0 {
        seq!['-'] + decimal((-n) as nat)
    } else {
        decimal(n as nat)
    }
}

/// Appends a tab and then `n` in decimal.
pub fn push_tab_unsigned(s: &mut String, n: u64)
    ensures
        final(s)@ == old(s)@ + seq!['\t'] + signed(n as int),
{
    push_char(s, '\t');
    push_decimal(s, n);
    assert(final(s)@ =~= old(s)@ + seq!['\t'] + signed(n as int));
}

/// Appends a tab and then `n` in decimal, signed.
pub fn push_tab_signed(s: &mut String, n: i64)
    ensures
        final(s)@ == old(s)@ + seq!['\t'] + signed(n as int),
{
    push_char(s, '\t');
    if n < 0 {
        push_char(s, '-');
        let m: u64 = (0i128 - n as i128) as u64;
        push_decimal(s, m);
    } else {
        push_decimal(s, n as u64);
    }
    assert(final(s)@ =~= old(s)@ + seq!['\t'] + signed(n as int));
}

/// Bytes as characters: ASCII as itself, anything else as the replacement
/// character.
pub open spec fn ascii_text(bytes: Seq<u8>) -> Seq<char> {
    bytes.map_values(|b: u8| if b < 128 { b as char } else { '\u{FFFD}' })
}

/// Appends bytes as characters: ASCII as itself, anything else as the
/// replacement character.
pub fn push_ascii(s: &mut String, bytes: &[u8])
    ensures
        final(s)@ == old(s)@ + ascii_text(bytes@),
{
    let mut k: usize = 0;
    while k < bytes.len()
        invariant
            k <= bytes@.len(),
            s@ == old(s)@ + ascii_text(bytes@).subrange(0, k as int),
        decreases bytes@.len() - k,
    {
        let b = bytes[k];
        let c = if b < 128 { b as char } else { '\u{FFFD}' };
        push_char(s, c);
        proof {
            assert(ascii_text(bytes@).subrange(0, k + 1) =~= ascii_text(bytes@).subrange(0, k as int).push(
                ascii_text(bytes@)[k as int],
            ));
        }
        k += 1;
    }
    assert(ascii_text(bytes@).subrange(0, bytes@.len() as int) =~= ascii_text(bytes@));
}

} // verus!
