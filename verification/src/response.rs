//! What the queue service's answers mean: the depth written in an attribute, the
//! batch of a receive call, and the kind of a service error.

use crate::error::QueueError;
use vstd::string::StringSliceAdditionalSpecFns;
use vstd::prelude::*;

verus! {

/// The most messages asked for in one receive call.
pub const MAX_BATCH_SIZE: i32 = 10;

/// `b` is one of the characters `0` to `9`.
pub open spec fn is_digit(b: u8) -> bool {
    48 <= b <= 57
}

/// Every byte is a decimal digit.
pub open spec fn all_digits(digits: Seq<u8>) -> bool {
    forall|i: int| 0 <= i < digits.len() ==> is_digit(#[trigger] digits[i])
}

/// The number that decimal digits write.
pub open spec fn digits_value(digits: Seq<u8>) -> nat
    decreases digits.len(),
{
    if digits.len() == 0 {
        0
    } else {
        digits_value(digits.drop_last()) * 10 + (digits.last() - 48) as nat
    }
}

/// How many bytes the sign takes: one for a leading `+` or `-`, else none.
pub open spec fn sign_len(text: Seq<u8>) -> int {
    if text.len() > 0 && (text[0] == 43 || text[0] == 45) {
        1
    } else {
        0
    }
}

/// The integer that `text` writes in decimal: an optional sign and then at least one
/// digit and nothing else, with a value that a 64-bit signed integer can hold.
pub open spec fn decimal_i64(text: Seq<u8>) -> Option<i64> {
    let digits = text.skip(sign_len(text));
    let magnitude = digits_value(digits) as int;
    let value = if text.len() > 0 && text[0] == 45 {
        -magnitude
    } else {
        magnitude
    };
    if digits.len() > 0 && all_digits(digits) && i64::MIN <= value <= i64::MAX {
        Some(value as i64)
    } else {
        None
    }
}

/// More digits never write a smaller number.
proof fn lemma_digits_value_grows(digits: Seq<u8>, k: int)
    requires
        0 <= k <= digits.len(),
        all_digits(digits),
    ensures
        digits_value(digits.take(k)) <= digits_value(digits),
    decreases digits.len() - k,
{
    if k == digits.len() {
        assert(digits.take(k) =~= digits);
    } else {
        lemma_digits_value_grows(digits, k + 1);
        assert(digits.take(k + 1).drop_last() =~= digits.take(k));
        assert(is_digit(digits[k]));
        assert(digits.take(k + 1).last() == digits[k]);
    }
}

/// Reads a decimal integer: an optional sign, then digits only. `None` for anything
/// else, and for a number that does not fit.
pub fn parse_decimal(text: &str) -> (number: Option<i64>)
    ensures
        number == decimal_i64(text.spec_bytes()),
{
    let bytes = text.as_bytes();
    let n = bytes.len();
    if n == 0 {
        return None;
    }
    let negative = bytes[0] == 45;
    let start: usize = if bytes[0] == 45 || bytes[0] == 43 {
        1
    } else {
        0
    };
    let ghost digits = bytes@.skip(start as int);
    let mut magnitude: u64 = 0;
    let mut i: usize = start;
    while i < n
        invariant
            n == bytes@.len(),
            bytes@ == text.spec_bytes(),
            start == sign_len(bytes@),
            start <= i <= n,
            digits == bytes@.skip(start as int),
            all_digits(digits.take(i - start)),
            magnitude == digits_value(digits.take(i - start)),
            magnitude <= 0x8000_0000_0000_0000,
        decreases n - i,
    {
        let b = bytes[i];
        assert(digits[i - start] == b);
        if b < 48 || b > 57 {
            assert(!is_digit(digits[i - start]));
            return None;
        }
        let digit: u64 = (b - 48) as u64;
        proof {
            assert(digits.take(i + 1 - start).drop_last() =~= digits.take(i - start));
            assert(digits.take(i + 1 - start).last() == b);
            assert(digits_value(digits.take(i + 1 - start)) == magnitude * 10 + digit);
        }
        if magnitude > (0x8000_0000_0000_0000 - digit) / 10 {
            proof {
                if all_digits(digits) {
                    lemma_digits_value_grows(digits, i + 1 - start);
                }
            }
            return None;
        }
        assert forall|k: int| 0 <= k < i + 1 - start implies is_digit(
            #[trigger] digits.take(i + 1 - start)[k],
        ) by {
            if k < i - start {
                assert(digits.take(i - start)[k] == digits[k]);
            }
        }
        magnitude = magnitude * 10 + digit;
        i = i + 1;
    }
    assert(digits.take(n - start) =~= digits);
    if i == start {
        return None;
    }
    if negative {
        if magnitude == 0x8000_0000_0000_0000 {
            Some(i64::MIN)
        } else {
            Some(0 - (magnitude as i64))
        }
    } else if magnitude > 0x7fff_ffff_ffff_ffff {
        None
    } else {
        Some(magnitude as i64)
    }
}

/// The depth that an answer to the depth query reports, given the text of its
/// attribute for the approximate number of messages, if it has one. An answer
/// without the attribute, or with one that is no integer, is of no use: the
/// service is taken to be unavailable.
pub open spec fn reported_depth(attribute: Option<Seq<u8>>) -> Result<i64, QueueError> {
    match attribute {
        None => Err(QueueError::Unavailable),
        Some(text) => match decimal_i64(text) {
            Some(depth) => Ok(depth),
            None => Err(QueueError::Unavailable),
        },
    }
}

/// The bytes of the text, if there is one.
pub open spec fn text_bytes(text: Option<&str>) -> Option<Seq<u8>> {
    match text {
        None => None,
        Some(text) => Some(text.spec_bytes()),
    }
}

/// Reads the depth out of the attribute of an answer to the depth query.
pub fn depth_from_attribute(attribute: Option<&str>) -> (depth: Result<i64, QueueError>)
    ensures
        depth == reported_depth(text_bytes(attribute)),
{
    match attribute {
        None => Err(QueueError::Unavailable),
        Some(text) => match parse_decimal(text) {
            Some(depth) => Ok(depth),
            None => Err(QueueError::Unavailable),
        },
    }
}

/// The batch of an answer to a receive call: its messages in their order, and the
/// empty batch where the answer names none.
pub fn batch_from_response<M>(messages: Option<Vec<M>>) -> (batch: Vec<M>)
    ensures
        batch@ == match messages {
            Some(messages) => messages@,
            None => Seq::empty(),
        },
{
    match messages {
        Some(messages) => messages,
        None => Vec::new(),
    }
}

/// The service's error code says that the caller was refused.
pub open spec fn is_refusal(code: Seq<char>) -> bool {
    ||| code == "AccessDenied"@
    ||| code == "AccessDeniedException"@
    ||| code == "InvalidSecurity"@
    ||| code == "KMS.AccessDeniedException"@
}

/// The kind of a failed call, given the service's error code if it sent one: a
/// refusal of the caller is `Unauthorized`; everything else, and a failure without
/// a code (the service was not reached), is `Unavailable`.
pub open spec fn error_kind(code: Option<Seq<char>>) -> QueueError {
    match code {
        Some(code) => if is_refusal(code) {
            QueueError::Unauthorized
        } else {
            QueueError::Unavailable
        },
        None => QueueError::Unavailable,
    }
}

/// The characters of the text, if there is one.
pub open spec fn text_chars(text: Option<&str>) -> Option<Seq<char>> {
    match text {
        None => None,
        Some(text) => Some(text@),
    }
}

fn same_text(left: &str, right: &str) -> (same: bool)
    ensures
        same == (left@ == right@),
{
    let left: String = left.to_owned();
    let right: String = right.to_owned();
    left == right
}

/// Tells a refusal from an outage by the service's error code.
pub fn classify_error(code: Option<&str>) -> (kind: QueueError)
    ensures
        kind == error_kind(text_chars(code)),
{
    match code {
        None => QueueError::Unavailable,
        Some(code) => {
            if same_text(code, "AccessDenied") || same_text(code, "AccessDeniedException")
                || same_text(code, "InvalidSecurity") || same_text(
                code,
                "KMS.AccessDeniedException",
            ) {
                QueueError::Unauthorized
            } else {
                QueueError::Unavailable
            }
        },
    }
}

} // verus!
