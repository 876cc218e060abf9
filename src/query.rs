//! The query loop's logic: a line of input is read as a hexadecimal address
//! and answered from the trace store.

use vstd::prelude::*;
use crate::store::TraceStore;
use vstd::string::StringSliceAdditionalSpecFns;

verus! {

/// The value of the hexadecimal digit `c`, if it is one (either case).
pub open spec fn hex_digit(c: u8) -> Option<nat> {
    if 48 <= c <= 57 {
        Some((c - 48) as nat)
    } else if 97 <= c <= 102 {
        Some((c - 87) as nat)
    } else if 65 <= c <= 70 {
        Some((c - 55) as nat)
    } else {
        None
    }
}

/// Whether every byte of `s` is a hexadecimal digit.
pub open spec fn all_hex_digits(s: Seq<u8>) -> bool {
    forall|i: int| 0 <= i < s.len() ==> (#[trigger] hex_digit(s[i])) is Some
}

/// The number that the hexadecimal digits `s` write.
pub open spec fn hex_value(s: Seq<u8>) -> nat
    decreases s.len(),
{
    if s.len() == 0 {
        0
    } else {
        16 * hex_value(s.drop_last()) + hex_digit(s.last()).unwrap_or(0)
    }
}

/// The address that the text `s` writes in hexadecimal: digits of either
/// case after an optional `+`, at least one, whose value fits 64 bits.
pub open spec fn parsed_address(s: Seq<u8>) -> Option<u64> {
    let digits = if s.len() > 0 && s[0] == 43u8 {
        s.drop_first()
    } else {
        s
    };
    if digits.len() > 0 && all_hex_digits(digits) && hex_value(digits) <= u64::MAX {
        Some(hex_value(digits) as u64)
    } else {
        None
    }
}

/// Proof helper: the value of digits is at least that of any prefix.
proof fn lemma_hex_value_prefix(s: Seq<u8>, k: int)
    requires
        0 <= k <= s.len(),
    ensures
        hex_value(s.take(k)) <= hex_value(s),
    decreases s.len() - k,
{
    if k < s.len() {
        lemma_hex_value_prefix(s, k + 1);
        assert(s.take(k + 1).drop_last() =~= s.take(k));
        let v = hex_value(s.take(k));
        assert(v <= 16 * v) by (nonlinear_arith);
    } else {
        assert(s.take(k) =~= s);
    }
}

/// Reads `line` as a hexadecimal address.
pub fn parse_address(line: &str) -> (r: Option<u64>)
    ensures
        r == parsed_address(line.spec_bytes()),
{
    let bytes = line.as_bytes();
    let ghost s = bytes@;
    let mut start: usize = 0;
    if bytes.len() > 0 && bytes[0] == 43u8 {
        start = 1;
    }
    let ghost digits = s.skip(start as int);
    assert(digits =~= if s.len() > 0 && s[0] == 43u8 {
        s.drop_first()
    } else {
        s
    });
    if start >= bytes.len() {
        return None;
    }
    let mut value: u64 = 0;
    let mut i: usize = start;
    while i < bytes.len()
        invariant
            start <= i <= bytes.len(),
            bytes@ == s,
            s == line.spec_bytes(),
            digits == s.skip(start as int),
            digits == (if s.len() > 0 && s[0] == 43u8 {
                s.drop_first()
            } else {
                s
            }),
            digits.len() > 0,
            all_hex_digits(digits.take(i - start)),
            value as nat == hex_value(digits.take(i - start)),
        decreases bytes.len() - i,
    {
        let c = bytes[i];
        let ghost k = i - start;
        assert(digits[k] == c);
        assert(digits.take(k + 1).drop_last() =~= digits.take(k));
        let d: u64 = if 48 <= c && c <= 57 {
            (c - 48) as u64
        } else if 97 <= c && c <= 102 {
            (c - 87) as u64
        } else if 65 <= c && c <= 70 {
            (c - 55) as u64
        } else {
            assert(hex_digit(digits[k as int]) is None);
            assert(!all_hex_digits(digits));
            assert(parsed_address(s) is None);
            return None;
        };
        if value > (u64::MAX - d) / 16 {
            proof {
                assert(16 * (value as nat) + d > u64::MAX) by (nonlinear_arith)
                    requires
                        value > (u64::MAX - d) / 16,
                        d <= 15,
                ;
                lemma_hex_value_prefix(digits, k + 1);
                assert(digits.take(k + 1).take(k + 1) =~= digits.take(k + 1));
                if all_hex_digits(digits) {
                    assert(hex_digit(digits[k]) == Some(d as nat));
                    assert(hex_value(digits.take(k + 1)) == 16 * hex_value(digits.take(k)) + d);
                    assert(hex_value(digits) > u64::MAX);
                }
                assert(parsed_address(s) is None);
            }
            return None;
        }
        assert(16 * (value as nat) + d <= u64::MAX) by (nonlinear_arith)
            requires
                value <= (u64::MAX - d) / 16,
                d <= 15,
        ;
        value = value * 16 + d;
        assert(all_hex_digits(digits.take(k + 1))) by {
            assert forall|j: int| 0 <= j < k + 1 implies (#[trigger] hex_digit(
                digits.take(k + 1)[j],
            )) is Some by {
                if j < k {
                    assert(digits.take(k + 1)[j] == digits.take(k)[j]);
                }
            }
        }
        i = i + 1;
    }
    assert(digits.take(i - start) =~= digits);
    Some(value)
}

/// The answer to one line of the query loop.
pub enum QueryReply {
    /// The stack last recorded at the address.
    Found(Vec<u64>),
    /// Nothing is recorded at the address.
    NotFound(u64),
    /// The line is not a hexadecimal address.
    BadAddress,
}

/// Answers `line`: the stack recorded at the address it writes, or why
/// there is none.
pub fn answer_query(store: &TraceStore, line: &str) -> (r: QueryReply)
    ensures
        parsed_address(line.spec_bytes()) is None ==> r is BadAddress,
        parsed_address(line.spec_bytes()) matches Some(a) ==> (store@.contains_key(a) ==> (
        r matches QueryReply::Found(v) && v@ == store@[a])),
        parsed_address(line.spec_bytes()) matches Some(a) ==> (!store@.contains_key(a) ==> r
            == QueryReply::NotFound(a)),
{
    match parse_address(line) {
        None => QueryReply::BadAddress,
        Some(address) => match store.query(address) {
            Some(stack) => QueryReply::Found(stack),
            None => QueryReply::NotFound(address),
        },
    }
}

} // verus!
