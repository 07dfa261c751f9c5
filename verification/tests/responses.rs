use sqs_drain::error::QueueError;
use sqs_drain::response::{
    batch_from_response, classify_error, depth_from_attribute, parse_decimal, MAX_BATCH_SIZE,
};

#[test]
fn decimal_numbers() {
    assert_eq!(parse_decimal("0"), Some(0));
    assert_eq!(parse_decimal("25"), Some(25));
    assert_eq!(parse_decimal("+25"), Some(25));
    assert_eq!(parse_decimal("-25"), Some(-25));
    assert_eq!(parse_decimal("-0"), Some(0));
    assert_eq!(parse_decimal("0007"), Some(7));
    assert_eq!(parse_decimal("1234567890123"), Some(1_234_567_890_123));
}

#[test]
fn decimal_limits() {
    assert_eq!(parse_decimal("9223372036854775807"), Some(i64::MAX));
    assert_eq!(parse_decimal("9223372036854775808"), None);
    assert_eq!(parse_decimal("-9223372036854775808"), Some(i64::MIN));
    assert_eq!(parse_decimal("-9223372036854775809"), None);
    assert_eq!(parse_decimal("+9223372036854775808"), None);
    assert_eq!(parse_decimal("18446744073709551616"), None);
    assert_eq!(parse_decimal("99999999999999999999999999999999"), None);
    assert_eq!(parse_decimal("000000000000000000000000000000012"), Some(12));
}

#[test]
fn decimal_rejects_what_is_no_number() {
    for text in ["", "+", "-", " 5", "5 ", "1 2", "12a", "a12", "--5", "+-5", "1.5", "0x10", "１２"] {
        assert_eq!(parse_decimal(text), None, "{:?}", text);
    }
}

#[test]
fn decimal_agrees_with_the_standard_library() {
    let samples = [
        "0", "7", "-7", "+7", "", "-", "+", "007", "-007", "9223372036854775807",
        "9223372036854775808", "-9223372036854775808", "-9223372036854775809", "12x", "x",
        " 1", "1 ", "+-1", "1_000", "٣",
    ];
    for text in samples {
        assert_eq!(parse_decimal(text), text.parse::<i64>().ok(), "{:?}", text);
    }
}

#[test]
fn depth_of_an_answer() {
    assert_eq!(depth_from_attribute(Some("25")), Ok(25));
    assert_eq!(depth_from_attribute(Some("0")), Ok(0));
    assert_eq!(depth_from_attribute(Some("-3")), Ok(-3));
    assert_eq!(depth_from_attribute(None), Err(QueueError::Unavailable));
    assert_eq!(depth_from_attribute(Some("")), Err(QueueError::Unavailable));
    assert_eq!(depth_from_attribute(Some("many")), Err(QueueError::Unavailable));
    assert_eq!(
        depth_from_attribute(Some("9223372036854775808")),
        Err(QueueError::Unavailable)
    );
}

#[test]
fn batch_of_an_answer() {
    assert_eq!(batch_from_response(Some(vec![3, 1, 2])), vec![3, 1, 2]);
    assert_eq!(batch_from_response(Some(Vec::<u8>::new())), Vec::<u8>::new());
    assert_eq!(batch_from_response(None::<Vec<u8>>), Vec::<u8>::new());
    assert_eq!(MAX_BATCH_SIZE, 10);
}

#[test]
fn kinds_of_errors() {
    assert_eq!(classify_error(Some("AccessDenied")), QueueError::Unauthorized);
    assert_eq!(classify_error(Some("AccessDeniedException")), QueueError::Unauthorized);
    assert_eq!(classify_error(Some("InvalidSecurity")), QueueError::Unauthorized);
    assert_eq!(classify_error(Some("KMS.AccessDeniedException")), QueueError::Unauthorized);
    assert_eq!(classify_error(Some("RequestThrottled")), QueueError::Unavailable);
    assert_eq!(
        classify_error(Some("AWS.SimpleQueueService.NonExistentQueue")),
        QueueError::Unavailable
    );
    assert_eq!(classify_error(Some("accessdenied")), QueueError::Unavailable);
    assert_eq!(classify_error(Some("")), QueueError::Unavailable);
    assert_eq!(classify_error(None), QueueError::Unavailable);
}
