use recursive_regex::just_string::JustStrDeserializer;
use recursive_regex::value::{Error, Request, Value};

#[test]
fn bool_success() {
    let true_strs = ["true", "tRuE", "T", "Yes", "y", "1"];
    for x in true_strs {
        let deserializer = JustStrDeserializer::new(x, 0);
        assert_eq!(deserializer.parse_bool(), Ok(true));
    }

    let false_strs = ["false", "FaLsE", "F", "No", "n", "0"];
    for x in false_strs {
        let deserializer = JustStrDeserializer::new(x, 0);
        assert_eq!(deserializer.parse_bool(), Ok(false));
    }
}

#[test]
fn bool_fail() {
    let fail_strs = ["frue", "talse", "2", "sure", "maybe", "tr", "fal"];
    for x in fail_strs {
        let deserializer = JustStrDeserializer::new(x, 0);
        assert!(deserializer.parse_bool().is_err());
    }
}

#[test]
fn char_success() {
    let strs_output = [("f", 'f'), (" ", ' '), ("H", 'H')];
    for (x, expected) in strs_output {
        let deserializer = JustStrDeserializer::new(x, 0);
        assert_eq!(deserializer.parse_char(), Ok(expected));
    }
}

#[test]
fn char_fail() {
    let fail_strs = ["false", "Hello", ""];
    for x in fail_strs {
        let deserializer = JustStrDeserializer::new(x, 0);
        assert!(deserializer.parse_char().is_err());
    }
}

#[test]
fn int_success() {
    let strs_output = [("123", 123), ("-432", -432)];
    for (x, expected) in strs_output {
        let deserializer = JustStrDeserializer::new(x, 0);
        assert_eq!(deserializer.parse_i64(), Ok(expected));
    }
}

#[test]
fn int_fail() {
    let fail_strs = ["123abc", "12.6"];
    for x in fail_strs {
        let deserializer = JustStrDeserializer::new(x, 0);
        assert!(deserializer.parse_i64().is_err());
    }
}

#[test]
fn char_multibyte() {
    let deserializer = JustStrDeserializer::new("é", 0);
    assert_eq!(deserializer.parse_char(), Ok('é'));
    let deserializer = JustStrDeserializer::new("éé", 0);
    assert!(deserializer.parse_char().is_err());
}

#[test]
fn int_edges() {
    assert_eq!(
        JustStrDeserializer::new("-9223372036854775808", 0).parse_i64(),
        Ok(i64::MIN)
    );
    assert_eq!(
        JustStrDeserializer::new("9223372036854775807", 0).parse_i64(),
        Ok(i64::MAX)
    );
    assert!(JustStrDeserializer::new("9223372036854775808", 0)
        .parse_i64()
        .is_err());
    assert_eq!(JustStrDeserializer::new("+77", 0).parse_i64(), Ok(77));
    assert!(JustStrDeserializer::new("", 0).parse_i64().is_err());
    assert!(JustStrDeserializer::new("-", 0).parse_i64().is_err());
}

#[test]
fn uint_edges() {
    assert_eq!(
        JustStrDeserializer::new("18446744073709551615", 0).parse_u64(),
        Ok(u64::MAX)
    );
    assert!(JustStrDeserializer::new("18446744073709551616", 0)
        .parse_u64()
        .is_err());
    assert!(JustStrDeserializer::new("-3", 0).parse_u64().is_err());
    assert_eq!(JustStrDeserializer::new("+52", 0).parse_u64(), Ok(52));
}

#[test]
fn parse_error_carries_substring() {
    let r = JustStrDeserializer::new("maybe", 0).parse_bool();
    match r {
        Err(Error::Parse { text, .. }) => assert_eq!(text, "maybe"),
        other => panic!("expected a parse error, got {:?}", other),
    }
}

#[test]
fn structured_request_at_scalar_layer_is_protocol_error() {
    let r = JustStrDeserializer::new("x", 0).deserialize(&Request::List(Box::new(Request::Int)));
    assert_eq!(r, Err(Error::Protocol));
    let r = JustStrDeserializer::new("x", 0).deserialize(&Request::Record(Vec::new()));
    assert_eq!(r, Err(Error::Protocol));
}

#[test]
fn scalar_layer_spans_whole_substring() {
    let r = JustStrDeserializer::new("hello", 7).deserialize(&Request::Span(Box::new(
        Request::Text,
    )));
    match r {
        Ok(Value::Span(spanned)) => {
            assert_eq!(spanned.begin(), 7);
            assert_eq!(spanned.end(), 12);
            assert_eq!(**spanned.value(), Value::Text("hello".to_string()));
        }
        other => panic!("expected a spanned value, got {:?}", other),
    }
}

#[test]
fn optional_is_present_at_scalar_layer() {
    let r = JustStrDeserializer::new("5", 0).deserialize(&Request::Optional(Box::new(
        Request::Int,
    )));
    assert_eq!(r, Ok(Value::Present(Box::new(Value::Int(5)))));
}

#[test]
fn unit_ignores_content() {
    let r = JustStrDeserializer::new("yf78iy f37y", 0).deserialize(&Request::Unit);
    assert_eq!(r, Ok(Value::Unit));
}
