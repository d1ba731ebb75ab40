//! Text in bytes.
use vstd::prelude::*;
use vstd::utf8;

verus! {

/// The text that `bytes` are the UTF-8 encoding of, by `String::from_utf8`: there is one if and
/// only if the bytes are valid UTF-8.
#[verifier::external_body]
pub(crate) fn from_utf8(bytes: Vec<u8>) -> (text: Option<String>)
    ensures
        match text {
            Some(s) => utf8::valid_utf8(bytes@) && s@ == utf8::decode_utf8(bytes@),
            None => !utf8::valid_utf8(bytes@),
        },
{
    String::from_utf8(bytes).ok()
}

/// The decimal digits of `n`, without leading zeros.
pub open spec fn decimal(n: nat) -> Seq<u8>
    decreases n,
{
    if n < 10 {
        seq![(0x30 + n) as u8]
    } else {
        decimal(n / 10).push((0x30 + n % 10) as u8)
    }
}

/// Appends the decimal digits of `n` to `out`.
pub fn push_decimal(out: &mut Vec<u8>, n: u16)
    ensures
        final(out)@ == old(out)@ + decimal(n as nat),
    decreases n,
{
    if n < 10 {
        out.push(0x30 + n as u8);
        assert(out@ =~= old(out)@ + decimal(n as nat));
    } else {
        push_decimal(out, n / 10);
        out.push(0x30 + (n % 10) as u8);
        assert(out@ =~= old(out)@ + decimal(n as nat));
    }
}

/// ASCII bytes are valid UTF-8.
pub proof fn law_ascii_is_utf8(b: Seq<u8>)
    requires
        forall|i: int| 0 <= i < b.len() ==> #[trigger] b[i] < 0x80,
    ensures
        utf8::valid_utf8(b),
    decreases b.len(),
{
    if b.len() > 0 {
        let first = b[0];
        assert(first < 0x80);
        assert(first & 0x7f == first) by (bit_vector)
            requires
                first < 0x80,
        ;
        assert(utf8::valid_first_scalar(b));
        let rest = utf8::pop_first_scalar(b);
        assert(rest =~= b.skip(1));
        assert forall|i: int| 0 <= i < rest.len() implies #[trigger] rest[i] < 0x80 by {
            assert(rest[i] == b[i + 1]);
        }
        law_ascii_is_utf8(rest);
    }
}

/// Decimal digits are ASCII.
pub proof fn law_decimal_is_ascii(n: nat)
    ensures
        forall|i: int| 0 <= i < decimal(n).len() ==> 0x30 <= #[trigger] decimal(n)[i] <= 0x39,
    decreases n,
{
    if n >= 10 {
        law_decimal_is_ascii(n / 10);
        let most = decimal(n / 10);
        assert forall|i: int| 0 <= i < decimal(n).len() implies 0x30 <= #[trigger] decimal(n)[i]
            <= 0x39 by {
            if i < most.len() {
                assert(decimal(n)[i] == most[i]);
            }
        }
    }
}

/// `d` is made of decimal digits, one at least.
pub open spec fn is_number(d: Seq<u8>) -> bool {
    d.len() > 0 && forall|i: int| 0 <= i < d.len() ==> 0x30 <= #[trigger] d[i] <= 0x39
}

/// The number that the decimal digits `d` spell.
pub open spec fn number(d: Seq<u8>) -> nat
    decreases d.len(),
{
    if d.len() == 0 {
        0
    } else {
        (number(d.drop_last()) * 10 + (d.last() - 0x30)) as nat
    }
}

/// What stands behind a plus sign, where there is one.
pub open spec fn unsigned(b: Seq<u8>) -> Seq<u8> {
    if b.len() > 0 && b[0] == 0x2b {
        b.skip(1)
    } else {
        b
    }
}

/// The 32-bit number that `b` spells: decimal digits, with or without a plus sign before them.
pub open spec fn spelled_u32(b: Seq<u8>) -> Option<u32> {
    if is_number(unsigned(b)) && number(unsigned(b)) <= u32::MAX {
        Some(number(unsigned(b)) as u32)
    } else {
        None
    }
}

proof fn lemma_number_grows(d: Seq<u8>, n: int)
    requires
        is_number(d),
        0 <= n <= d.len(),
    ensures
        number(d.take(n)) <= number(d),
    decreases d.len(),
{
    if n == d.len() {
        assert(d.take(n) =~= d);
    } else {
        assert(d.drop_last().take(n) =~= d.take(n));
        if d.drop_last().len() > 0 {
            assert forall|i: int| 0 <= i < d.drop_last().len() implies 0x30 <= #[trigger] d.drop_last()[i]
                <= 0x39 by {
                assert(d.drop_last()[i] == d[i]);
            }
            lemma_number_grows(d.drop_last(), n);
        }
        assert(0x30 <= d[d.len() - 1] <= 0x39);
    }
}

/// A digit more makes ten times the number and the digit.
pub proof fn law_number_is_positional(d: Seq<u8>, digit: u8)
    requires
        0x30 <= digit <= 0x39,
    ensures
        number(Seq::empty()) == 0,
        number(d.push(digit)) == 10 * number(d) + (digit - 0x30),
{
    assert(d.push(digit).drop_last() =~= d);
}

/// The decimal digits of a number spell it, and do not start with a zero but for zero itself.
pub proof fn law_decimal_spells_number(n: nat)
    ensures
        is_number(decimal(n)),
        number(decimal(n)) == n,
        decimal(n)[0] == 0x30 ==> n == 0,
        n == 0 ==> decimal(n).len() == 1,
    decreases n,
{
    law_decimal_is_ascii(n);
    if n < 10 {
        assert(decimal(n).drop_last() =~= Seq::empty());
        assert(number(decimal(n).drop_last()) == 0);
    } else {
        law_decimal_spells_number(n / 10);
        assert(decimal(n).drop_last() =~= decimal(n / 10));
        assert(decimal(n)[0] == decimal(n / 10)[0]);
    }
}

/// A number that 32 bits can hold is read from its digits, with or without a plus sign before them;
/// a larger one is not.
pub proof fn law_numbers_are_read_back(n: nat)
    ensures
        spelled_u32(decimal(n)) == (if n <= u32::MAX {
            Some(n as u32)
        } else {
            None
        }),
        spelled_u32(seq![0x2bu8] + decimal(n)) == spelled_u32(decimal(n)),
{
    law_decimal_spells_number(n);
    law_decimal_is_ascii(n);
    assert((seq![0x2bu8] + decimal(n)).skip(1) =~= decimal(n));
}

/// Nothing but digits, behind a plus sign or not, is read as a number, and it is the number that
/// the digits spell.
pub proof fn law_only_numbers_are_read(d: Seq<u8>)
    ensures
        d.len() == 0 ==> spelled_u32(d) is None && spelled_u32(seq![0x2bu8] + d) is None,
        (exists|i: int| 0 <= i < d.len() && !(0x30 <= #[trigger] d[i] <= 0x39)) ==> spelled_u32(
            seq![0x2bu8] + d,
        ) is None && (d[0] != 0x2b ==> spelled_u32(d) is None),
        spelled_u32(seq![0x2bu8] + d) matches Some(n) ==> n == number(d),
        d.len() > 0 && d[0] != 0x2b ==> (spelled_u32(d) matches Some(n) ==> n == number(d)),
{
    assert((seq![0x2bu8] + d).skip(1) =~= d);
}

/// The 32-bit number that `text` spells, if it spells one.
pub fn parse_u32(text: &str) -> (n: Option<u32>)
    ensures
        n == spelled_u32(utf8::encode_utf8(text@)),
{
    let b: &[u8] = text.as_bytes();
    let start: usize = if b.len() > 0 && b[0] == 0x2b {
        1
    } else {
        0
    };
    let ghost d = unsigned(b@);
    if start == b.len() {
        return None;
    }
    let mut sum: u32 = 0;
    let mut i: usize = start;
    assert(d.take(0) =~= Seq::<u8>::empty());
    while i < b.len()
        invariant
            b@ == utf8::encode_utf8(text@),
            d == unsigned(b@),
            d == b@.skip(start as int),
            start <= i <= b@.len(),
            sum == number(d.take(i - start)),
            forall|k: int| 0 <= k < i - start ==> 0x30 <= #[trigger] d[k] <= 0x39,
        decreases b@.len() - i,
    {
        let c: u8 = b[i];
        let ghost k = i - start;
        assert(d[k] == c);
        if c < 0x30 || c > 0x39 {
            return None;
        }
        let next: u64 = sum as u64 * 10 + (c - 0x30) as u64;
        proof {
            assert(d.take(k + 1).drop_last() =~= d.take(k));
            assert(d.take(k + 1).last() == c);
        }
        if next > 0xffff_ffff {
            proof {
                if is_number(d) {
                    lemma_number_grows(d, k + 1);
                }
            }
            return None;
        }
        sum = next as u32;
        i = i + 1;
    }
    assert(d.take(i - start) =~= d);
    Some(sum)
}

} // verus!
