//! Decimal numbers as text.

use vstd::prelude::*;
use vstd::slice::slice_subrange;

use crate::text::CharSet;

verus! {

/// The digit that stands for `d`.
pub open spec fn digit_char(d: nat) -> char {
    ('0' as nat + d) as char
}

/// `n` in decimal notation, without leading zeros.
pub open spec fn decimal(n: nat) -> Seq<char>
    decreases n,
{
    if n < 10 {
        seq![digit_char(n)]
    } else {
        decimal(n / 10).push(digit_char(n % 10))
    }
}

/// `n` in decimal notation, with a sign where it is negative.
pub open spec fn signed_decimal(n: int) -> Seq<char> {
    if n < 0 {
        seq!['-'] + decimal((-n) as nat)
    } else {
        decimal(n as nat)
    }
}

/// Whether every character is an ASCII digit.
pub open spec fn all_digits(s: Seq<char>) -> bool {
    forall|i: int| 0 <= i < s.len() ==> CharSet::Digit.has(#[trigger] s[i])
}

/// The number that a run of digits denotes.
pub open spec fn digits_value(s: Seq<char>) -> nat
    decreases s.len(),
{
    if s.len() == 0 {
        0
    } else {
        digits_value(s.drop_last()) * 10 + (s.last() as nat - '0' as nat) as nat
    }
}

/// The number that a nonempty run of digits denotes, where it is no larger than `max`.
pub open spec fn digits_within(s: Seq<char>, max: nat) -> Option<nat> {
    if s.len() > 0 && all_digits(s) && digits_value(s) <= max {
        Some(digits_value(s))
    } else {
        None
    }
}

/// The port number that a text denotes: digits, with a plus sign before them if one likes.
pub open spec fn port_number(s: Seq<char>) -> Option<u16> {
    let digits = if s.len() > 0 && s[0] == '+' {
        s.skip(1)
    } else {
        s
    };
    match digits_within(digits, u16::MAX as nat) {
        Some(n) => Some(n as u16),
        None => None,
    }
}

/// The 32-bit number that a text denotes: digits, with a sign before them if one likes.
pub open spec fn signed_number(s: Seq<char>) -> Option<i32> {
    if s.len() > 0 && s[0] == '-' {
        match digits_within(s.skip(1), 0x8000_0000) {
            Some(n) => Some((-n) as i32),
            None => None,
        }
    } else {
        let digits = if s.len() > 0 && s[0] == '+' {
            s.skip(1)
        } else {
            s
        };
        match digits_within(digits, i32::MAX as nat) {
            Some(n) => Some(n as i32),
            None => None,
        }
    }
}

/// Cutting digits off the end does not make a number larger.
proof fn lemma_digits_value_take(s: Seq<char>, n: int)
    requires
        0 <= n <= s.len(),
    ensures
        digits_value(s.take(n)) <= digits_value(s),
    decreases s.len(),
{
    if n == s.len() {
        assert(s.take(n) =~= s);
    } else {
        lemma_digits_value_take(s.drop_last(), n);
        assert(s.drop_last().take(n) =~= s.take(n));
    }
}

/// Reading the decimal notation of a number gives the number back.
pub proof fn law_decimal_reads_back(n: nat)
    ensures
        decimal(n).len() > 0,
        all_digits(decimal(n)),
        digits_value(decimal(n)) == n,
    decreases n,
{
    if n < 10 {
        let s = decimal(n);
        assert(s.drop_last() =~= Seq::<char>::empty());
        assert(digits_value(s.drop_last()) == 0);
    } else {
        law_decimal_reads_back(n / 10);
        let s = decimal(n);
        assert(s.drop_last() =~= decimal(n / 10));
        assert forall|i: int| 0 <= i < s.len() implies CharSet::Digit.has(#[trigger] s[i]) by {
            if i < s.len() - 1 {
                assert(s[i] == decimal(n / 10)[i]);
            }
        }
    }
}

/// Every port number is read back from its decimal notation.
pub proof fn law_port_number_reads_back(port: u16)
    ensures
        port_number(decimal(port as nat)) == Some(port),
{
    law_decimal_reads_back(port as nat);
    let s = decimal(port as nat);
    assert(CharSet::Digit.has(s[0]));
}

/// Every 32-bit number is read back from its decimal notation.
pub proof fn law_signed_number_reads_back(n: i32)
    ensures
        signed_number(signed_decimal(n as int)) == Some(n),
{
    let s = signed_decimal(n as int);
    if n < 0 {
        law_decimal_reads_back((-n) as nat);
        assert(s.skip(1) =~= decimal((-n) as nat));
    } else {
        law_decimal_reads_back(n as nat);
        assert(CharSet::Digit.has(s[0]));
    }
}

/// Writes a number in decimal notation.
pub fn write_decimal(n: u64) -> (r: String)
    ensures
        r@ == decimal(n as nat),
    decreases n,
{
    let mut out = if n < 10 {
        String::new()
    } else {
        write_decimal(n / 10)
    };
    let digit = (48 + (n % 10) as u8) as char;
    out.push(digit);
    proof {
        assert(digit == digit_char(n as nat % 10));
        assert(Seq::<char>::empty().push(digit) =~= seq![digit]);
    }
    out
}

/// Writes a signed number in decimal notation.
pub fn write_signed(n: i32) -> (r: String)
    ensures
        r@ == signed_decimal(n as int),
{
    if n < 0 {
        let mut out = String::new();
        out.push('-');
        let magnitude = write_decimal((-(n as i64)) as u64);
        out.append(magnitude.as_str());
        proof {
            assert(Seq::<char>::empty().push('-') =~= seq!['-']);
        }
        out
    } else {
        write_decimal(n as u64)
    }
}

/// Reads a nonempty run of digits, where the number is no larger than `max`.
fn read_digits(s: &[char], max: u64) -> (r: Option<u64>)
    requires
        max <= 0x8000_0000,
    ensures
        match r {
            Some(n) => digits_within(s@, max as nat) == Some(n as nat),
            None => digits_within(s@, max as nat) is None,
        },
{
    if s.len() == 0 {
        return None;
    }
    let mut value: u64 = 0;
    let mut i: usize = 0;
    while i < s.len()
        invariant
            i <= s@.len(),
            max <= 0x8000_0000,
            value <= max,
            value == digits_value(s@.take(i as int)),
            all_digits(s@.take(i as int)),
        decreases s.len() - i,
    {
        let c = s[i];
        proof {
            assert(s@.take(i + 1).drop_last() =~= s@.take(i as int));
            assert(s@.take(i + 1).last() == c);
        }
        if !CharSet::Digit.contains(c) {
            proof {
                assert(s@[i as int] == c);
            }
            return None;
        }
        value = value * 10 + (c as u32 - 48) as u64;
        proof {
            assert forall|j: int| 0 <= j < i + 1 implies CharSet::Digit.has(
                #[trigger] s@.take(i + 1)[j],
            ) by {
                if j < i {
                    assert(s@.take(i as int)[j] == s@.take(i + 1)[j]);
                }
            }
        }
        i += 1;
        if value > max {
            proof {
                lemma_digits_value_take(s@, i as int);
            }
            return None;
        }
    }
    proof {
        assert(s@.take(i as int) =~= s@);
    }
    Some(value)
}

/// Reads a port number.
pub fn read_port_number(s: &[char]) -> (r: Option<u16>)
    ensures
        r == port_number(s@),
{
    let digits = if s.len() > 0 && s[0] == '+' {
        slice_subrange(s, 1, s.len())
    } else {
        s
    };
    match read_digits(digits, 65535) {
        Some(n) => Some(n as u16),
        None => None,
    }
}

/// Reads a signed number.
pub fn read_signed_number(s: &[char]) -> (r: Option<i32>)
    ensures
        r == signed_number(s@),
{
    if s.len() > 0 && s[0] == '-' {
        match read_digits(slice_subrange(s, 1, s.len()), 0x8000_0000) {
            Some(n) => Some((-(n as i64)) as i32),
            None => None,
        }
    } else {
        let digits = if s.len() > 0 && s[0] == '+' {
            slice_subrange(s, 1, s.len())
        } else {
            s
        };
        match read_digits(digits, 0x7fff_ffff) {
            Some(n) => Some(n as i32),
            None => None,
        }
    }
}

} // verus!
