//! Text that the host shows: numbers, addresses and hexadecimal strings.

use vstd::prelude::*;

verus! {

/// The lower-case hexadecimal digit for a value below 16.
pub open spec fn digit_char(value: nat) -> char {
    if value < 10 {
        ('0' as nat + value) as char
    } else {
        ('a' as nat + (value - 10)) as char
    }
}

/// The digits of `value` in the given base, most significant first, without leading zeros.
pub open spec fn digits(value: nat, base: nat) -> Seq<char>
    decreases value,
{
    if base < 2 || value < base {
        seq![digit_char(value)]
    } else {
        proof {
            vstd::arithmetic::div_mod::lemma_div_decreases(value as int, base as int);
        }
        digits(value / base, base).push(digit_char(value % base))
    }
}

/// Decimal digits of `value`.
pub open spec fn decimal(value: nat) -> Seq<char> {
    digits(value, 10)
}

/// Two hexadecimal digits for each byte.
pub open spec fn hex_string(bytes: Seq<u8>) -> Seq<char> {
    Seq::new(
        2 * bytes.len(),
        |i: int|
            if i % 2 == 0 {
                digit_char((bytes[i / 2] / 16) as nat)
            } else {
                digit_char((bytes[i / 2] % 16) as nat)
            },
    )
}

/// An address as `0x` and at least six hexadecimal digits.
pub open spec fn address_string(value: nat) -> Seq<char> {
    let significant = digits(value, 16);
    let zeros = if significant.len() < 6 {
        (6 - significant.len()) as nat
    } else {
        0
    };
    seq!['0', 'x'] + Seq::new(zeros, |i: int| '0') + significant
}

/// Appends the digit for a value below 16.
fn push_digit(text: &mut String, value: u8)
    requires
        value < 16,
    ensures
        final(text)@ == old(text)@.push(digit_char(value as nat)),
{
    let digit: &str = match value {
        0 => "0",
        1 => "1",
        2 => "2",
        3 => "3",
        4 => "4",
        5 => "5",
        6 => "6",
        7 => "7",
        8 => "8",
        9 => "9",
        10 => "a",
        11 => "b",
        12 => "c",
        13 => "d",
        14 => "e",
        _ => "f",
    };
    proof {
        reveal_strlit("0");
        reveal_strlit("1");
        reveal_strlit("2");
        reveal_strlit("3");
        reveal_strlit("4");
        reveal_strlit("5");
        reveal_strlit("6");
        reveal_strlit("7");
        reveal_strlit("8");
        reveal_strlit("9");
        reveal_strlit("a");
        reveal_strlit("b");
        reveal_strlit("c");
        reveal_strlit("d");
        reveal_strlit("e");
        reveal_strlit("f");
        assert(digit@ =~= seq![digit_char(value as nat)]);
        assert(text@ + seq![digit_char(value as nat)] =~= text@.push(digit_char(value as nat)));
    }
    text.append(digit);
}

/// Appends the decimal digits of a number.
pub fn push_decimal(text: &mut String, value: u128)
    ensures
        final(text)@ == old(text)@ + decimal(value as nat),
    decreases value,
{
    if value >= 10 {
        push_decimal(text, value / 10);
    }
    push_digit(text, (value % 10) as u8);
    assert(text@ =~= old(text)@ + decimal(value as nat));
}

/// Appends the hexadecimal digits of a number, without leading zeros.
pub fn push_hexadecimal(text: &mut String, value: u64)
    ensures
        final(text)@ == old(text)@ + digits(value as nat, 16),
    decreases value,
{
    if value >= 16 {
        push_hexadecimal(text, value / 16);
    }
    push_digit(text, (value % 16) as u8);
    assert(text@ =~= old(text)@ + digits(value as nat, 16));
}

/// An address as `0x` and at least six hexadecimal digits.
pub fn address_text(value: u64) -> (res: String)
    ensures
        res@ == address_string(value as nat),
{
    let mut text: String = String::new();
    let mut floor: u64 = 0x100000;
    proof {
        reveal_strlit("0x");
        reveal_strlit("0");
        lemma_digit_count(value as nat);
        reveal_with_fuel(digits, 2);
    }
    text.append("0x");
    let ghost mut zeros: nat = 0;
    while floor > 1 && value < floor
        invariant
            floor == 0x100000 || floor == 0x10000 || floor == 0x1000 || floor == 0x100 || floor
                == 0x10 || floor == 1,
            floor == 0x100000 ==> zeros == 0,
            floor == 0x10000 ==> zeros == 1 && value < 0x100000,
            floor == 0x1000 ==> zeros == 2 && value < 0x10000,
            floor == 0x100 ==> zeros == 3 && value < 0x1000,
            floor == 0x10 ==> zeros == 4 && value < 0x100,
            floor == 1 ==> zeros == 5 && value < 0x10,
            "0"@ =~= seq!['0'],
            text@ =~= seq!['0', 'x'] + Seq::new(zeros, |i: int| '0'),
        decreases floor,
    {
        text.append("0");
        floor = floor / 16;
        proof {
            zeros = zeros + 1;
        }
    }
    push_hexadecimal(&mut text, value);
    assert(text@ =~= address_string(value as nat));
    text
}

/// How many hexadecimal digits a number has, up to six.
proof fn lemma_digit_count(value: nat)
    ensures
        value < 0x10 ==> digits(value, 16).len() == 1,
        0x10 <= value < 0x100 ==> digits(value, 16).len() == 2,
        0x100 <= value < 0x1000 ==> digits(value, 16).len() == 3,
        0x1000 <= value < 0x10000 ==> digits(value, 16).len() == 4,
        0x10000 <= value < 0x100000 ==> digits(value, 16).len() == 5,
        0x100000 <= value ==> digits(value, 16).len() >= 6,
    decreases value,
{
    if value >= 16 {
        lemma_digit_count(value / 16);
    }
}

/// `hex::encode`: two lower-case hexadecimal digits for each byte, high half first.
#[verifier::external_body]
fn hex_encode(bytes: &[u8]) -> (res: String)
    ensures
        res@ == hex_string(bytes@),
{
    hex::encode(bytes)
}

/// Bytes as the host prints keys and seeds.
pub fn hex_text(bytes: &[u8]) -> (res: String)
    ensures
        res@ == hex_string(bytes@),
{
    hex_encode(bytes)
}

/// The character for a digit, by its code: `0` to `9`, then `a` to `f`.
pub proof fn law_digit_codes(value: nat)
    requires
        value < 16,
    ensures
        value < 10 ==> digit_char(value) as nat == 48 + value,
        value >= 10 ==> digit_char(value) as nat == 97 + (value - 10),
{
}

/// A number below ten is written as its digit; any other is written as its tenth, rounded down,
/// followed by the digit that remains.
pub proof fn law_decimal(value: nat)
    ensures
        value < 10 ==> decimal(value).len() == 1 && decimal(value)[0] as nat == 48 + value,
        value >= 10 ==> {
            &&& decimal(value).len() == decimal(value / 10).len() + 1
            &&& decimal(value).drop_last() == decimal(value / 10)
            &&& decimal(value).last() as nat == 48 + value % 10
        },
{
    law_digit_codes(value % 10);
    if value >= 10 {
        assert(decimal(value).drop_last() =~= decimal(value / 10));
    }
}

/// The same in base sixteen.
pub proof fn law_hexadecimal(value: nat)
    ensures
        value < 16 ==> digits(value, 16).len() == 1,
        value < 10 ==> digits(value, 16)[0] as nat == 48 + value,
        10 <= value < 16 ==> digits(value, 16)[0] as nat == 97 + (value - 10),
        value >= 16 ==> {
            &&& digits(value, 16).len() == digits(value / 16, 16).len() + 1
            &&& digits(value, 16).drop_last() == digits(value / 16, 16)
            &&& value % 16 < 10 ==> digits(value, 16).last() as nat == 48 + value % 16
            &&& value % 16 >= 10 ==> digits(value, 16).last() as nat == 97 + (value % 16 - 10)
        },
{
    law_digit_codes(value % 16);
    if value >= 16 {
        assert(digits(value, 16).drop_last() =~= digits(value / 16, 16));
    }
}

/// A hexadecimal string has two characters for each byte, the high half first, from which the byte
/// can be read back.
pub proof fn law_hex_string(bytes: Seq<u8>)
    ensures
        hex_string(bytes).len() == 2 * bytes.len(),
        forall|i: int|
            #![trigger bytes[i]]
            0 <= i < bytes.len() ==> {
                let (high, low) = (hex_string(bytes)[2 * i], hex_string(bytes)[2 * i + 1]);
                &&& bytes[i] < 0xa0 ==> high as nat == 48 + bytes[i] / 16
                &&& bytes[i] >= 0xa0 ==> high as nat == 97 + (bytes[i] / 16 - 10)
                &&& bytes[i] % 16 < 10 ==> low as nat == 48 + bytes[i] % 16
                &&& bytes[i] % 16 >= 10 ==> low as nat == 97 + (bytes[i] % 16 - 10)
            },
{
    assert forall|i: int| #![trigger bytes[i]] 0 <= i < bytes.len() implies {
        let (high, low) = (hex_string(bytes)[2 * i], hex_string(bytes)[2 * i + 1]);
        &&& bytes[i] < 0xa0 ==> high as nat == 48 + bytes[i] / 16
        &&& bytes[i] >= 0xa0 ==> high as nat == 97 + (bytes[i] / 16 - 10)
        &&& bytes[i] % 16 < 10 ==> low as nat == 48 + bytes[i] % 16
        &&& bytes[i] % 16 >= 10 ==> low as nat == 97 + (bytes[i] % 16 - 10)
    } by {
        law_digit_codes((bytes[i] / 16) as nat);
        law_digit_codes((bytes[i] % 16) as nat);
        assert((2 * i) / 2 == i && (2 * i) % 2 == 0);
        assert((2 * i + 1) / 2 == i && (2 * i + 1) % 2 == 1);
    }
}

/// An address is `0x`, then zeros if it needs them to have six digits, then its digits.
pub proof fn law_address_string(value: nat)
    ensures
        ({
            let (address, significant) = (address_string(value), digits(value, 16));
            let start = address.len() - significant.len();
            &&& address[0] == '0'
            &&& address[1] == 'x'
            &&& start >= 2
            &&& address.skip(start) == significant
            &&& forall|i: int| 2 <= i < start ==> address[i] == '0'
            &&& significant.len() <= 6 ==> address.len() == 8
            &&& significant.len() > 6 ==> start == 2
        }),
{
    let (address, significant) = (address_string(value), digits(value, 16));
    assert(address.skip(address.len() - significant.len()) =~= significant);
}

} // verus!
