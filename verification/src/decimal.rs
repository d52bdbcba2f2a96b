//! Decimal numbers as ASCII bytes: how a length is written into an object
//! header and read back from it.

use vstd::prelude::*;

verus! {

/// The decimal digits of `n`, most significant first, without leading zeros.
pub open spec fn decimal(n: nat) -> Seq<u8>
    decreases n,
{
    if n < 10 {
        seq![(48 + n) as u8]
    } else {
        decimal(n / 10).push((48 + n % 10) as u8)
    }
}

/// The byte is one of `0` to `9`.
pub open spec fn is_digit(b: u8) -> bool {
    48 <= b <= 57
}

/// Every byte of `s` is a decimal digit.
pub open spec fn is_digits(s: Seq<u8>) -> bool {
    forall|i: int| 0 <= i < s.len() ==> is_digit(#[trigger] s[i])
}

/// The number that a sequence of decimal digits stands for.
pub open spec fn digits_value(s: Seq<u8>) -> nat
    decreases s.len(),
{
    if s.len() == 0 {
        0
    } else {
        digits_value(s.drop_last()) * 10 + (s.last() - 48) as nat
    }
}

/// The digits of a size token: the token itself, or what follows one leading
/// plus sign.
pub open spec fn size_digits(s: Seq<u8>) -> Seq<u8> {
    if s.len() > 0 && s[0] == 43 {
        s.subrange(1, s.len() as int)
    } else {
        s
    }
}

/// The size that a token declares: one or more decimal digits, optionally
/// after a plus sign, whose value fits the machine's `usize`.
pub open spec fn parse_size(s: Seq<u8>) -> Option<nat> {
    let body = size_digits(s);
    if body.len() > 0 && is_digits(body) && digits_value(body) <= usize::MAX {
        Some(digits_value(body))
    } else {
        None
    }
}

/// A prefix of a digit sequence stands for no more than the whole.
pub proof fn lemma_value_monotone(s: Seq<u8>, k: int)
    requires
        is_digits(s),
        0 <= k <= s.len(),
    ensures
        digits_value(s.subrange(0, k)) <= digits_value(s),
    decreases s.len() - k,
{
    if k == s.len() {
        assert(s.subrange(0, k) =~= s);
    } else {
        let shorter = s.drop_last();
        assert(is_digit(s.last()));
        assert forall|i: int| 0 <= i < shorter.len() implies is_digit(#[trigger] shorter[i]) by {
            assert(shorter[i] == s[i]);
        }
        lemma_value_monotone(shorter, k);
        assert(shorter.subrange(0, k) =~= s.subrange(0, k));
    }
}

/// What is written for a number is all digits, never empty, and reads back as
/// the number.
pub proof fn lemma_decimal_reads_back(n: nat)
    ensures
        decimal(n).len() > 0,
        is_digits(decimal(n)),
        digits_value(decimal(n)) == n,
    decreases n,
{
    if n < 10 {
        let s = decimal(n);
        assert(s.drop_last() =~= Seq::<u8>::empty());
        assert(digits_value(s.drop_last()) == 0);
    } else {
        lemma_decimal_reads_back(n / 10);
        let s = decimal(n);
        let head = decimal(n / 10);
        assert(s.drop_last() =~= head);
        assert(s.last() == (48 + n % 10) as u8);
        assert forall|i: int| 0 <= i < s.len() implies is_digit(#[trigger] s[i]) by {
            if i < head.len() {
                assert(s[i] == head[i]);
            }
        }
    }
}

/// A number that fits `usize` is read back from what is written for it.
pub proof fn lemma_parse_of_decimal(n: nat)
    requires
        n <= usize::MAX,
    ensures
        parse_size(decimal(n)) == Some(n),
{
    lemma_decimal_reads_back(n);
    assert(is_digit(decimal(n)[0]));
}

/// Writes `n` in decimal.
pub fn decimal_text(n: usize) -> (text: Vec<u8>)
    ensures
        text@ == decimal(n as nat),
    decreases n,
{
    if n < 10 {
        let mut text: Vec<u8> = Vec::new();
        text.push(48 + (n as u8));
        assert(text@ =~= decimal(n as nat));
        text
    } else {
        let mut text = decimal_text(n / 10);
        text.push(48 + ((n % 10) as u8));
        text
    }
}

/// Reads a size token. `None` where the token is empty, holds anything but
/// digits after an optional plus sign, or names a number too large for
/// `usize`.
pub fn read_size(token: &[u8]) -> (size: Option<usize>)
    ensures
        match size {
            Some(n) => parse_size(token@) == Some(n as nat),
            None => parse_size(token@) is None,
        },
{
    let len = token.len();
    let start: usize = if len > 0 && token[0] == 43 {
        1
    } else {
        0
    };
    let ghost body = size_digits(token@);
    assert(body =~= token@.subrange(start as int, len as int));
    if start == len {
        return None;
    }
    let mut value: usize = 0;
    let mut i: usize = start;
    while i < len
        invariant
            start <= i <= len,
            len == token@.len(),
            body == size_digits(token@),
            body == token@.subrange(start as int, len as int),
            is_digits(body.subrange(0, i - start)),
            value as nat == digits_value(body.subrange(0, i - start)),
        decreases len - i,
    {
        let b: u8 = token[i];
        if b < 48 || b > 57 {
            assert(!is_digits(body)) by {
                assert(body[i - start] == b);
            }
            return None;
        }
        let d: usize = (b - 48) as usize;
        let ghost longer = body.subrange(0, i - start + 1);
        proof {
            assert(longer.drop_last() =~= body.subrange(0, i - start));
            assert(longer.last() == b);
            assert(digits_value(longer) == value as nat * 10 + d as nat);
            assert forall|k: int| 0 <= k < longer.len() implies is_digit(#[trigger] longer[k]) by {
                if k < i - start {
                    assert(body.subrange(0, i - start)[k] == longer[k]);
                }
            }
        }
        if value > (usize::MAX - d) / 10 {
            proof {
                assert(value as nat * 10 + d as nat > usize::MAX);
                if is_digits(body) {
                    lemma_value_monotone(body, i - start + 1);
                }
            }
            return None;
        }
        value = value * 10 + d;
        i += 1;
    }
    assert(body.subrange(0, i - start) =~= body);
    Some(value)
}

} // verus!
