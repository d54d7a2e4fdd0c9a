use stylus_trace_studio::json::{JsonNumber, JsonValue};
use stylus_trace_studio::parser::{
    extract_total_gas, parse_gas_value, parse_trace, validate_trace_format, ParseError,
};

fn num(n: u64) -> JsonValue {
    JsonValue::Number(JsonNumber::Unsigned(n))
}

fn text(s: &str) -> JsonValue {
    JsonValue::Str(s.to_string())
}

fn members(fields: Vec<(&str, JsonValue)>) -> Vec<(String, JsonValue)> {
    fields.into_iter().map(|(k, v)| (k.to_string(), v)).collect()
}

fn obj(fields: Vec<(&str, JsonValue)>) -> JsonValue {
    JsonValue::Object(members(fields))
}

#[test]
fn test_parse_gas_value() {
    assert_eq!(parse_gas_value("1000").unwrap(), 1000);
    assert_eq!(parse_gas_value("0x3e8").unwrap(), 1000);
    assert!(parse_gas_value("invalid").is_err());
}

#[test]
fn test_extract_total_gas() {
    let trace = members(vec![("gasUsed", num(50000))]);

    let gas = extract_total_gas(&trace).unwrap();
    assert_eq!(gas, 50000);
}

#[test]
fn test_extract_total_gas_hex() {
    let trace = members(vec![("gasUsed", text("0xc350"))]);

    let gas = extract_total_gas(&trace).unwrap();
    assert_eq!(gas, 50000);
}

#[test]
fn test_parse_trace_minimal() {
    let raw_trace = obj(vec![("gasUsed", num(100000)), ("structLogs", JsonValue::Array(vec![]))]);

    let parsed = parse_trace("0xabc123", &raw_trace).unwrap();
    assert_eq!(parsed.total_gas_used, 100000);
    assert_eq!(parsed.transaction_hash, "0xabc123");
}

#[test]
fn test_validate_trace_format() {
    let valid_trace = obj(vec![("gasUsed", num(1000))]);
    assert!(validate_trace_format(&valid_trace).is_ok());

    let invalid_trace = obj(vec![("random_field", text("value"))]);
    assert!(validate_trace_format(&invalid_trace).is_err());
}

#[test]
fn test_parse_camelcase_gas_cost() {
    let raw_trace = obj(vec![
        ("gasUsed", num(100)),
        (
            "structLogs",
            JsonValue::Array(vec![obj(vec![
                ("pc", num(0)),
                ("op", text("PUSH1")),
                ("gas", num(1000)),
                ("gasCost", num(3)),
                ("depth", num(1)),
            ])]),
        ),
    ]);

    let parsed = parse_trace("0xtest", &raw_trace).unwrap();
    assert_eq!(parsed.execution_steps.len(), 1);
    assert_eq!(parsed.execution_steps[0].gas_cost, 3);
}

#[test]
fn gas_value_edge_cases() {
    assert_eq!(parse_gas_value("0").unwrap(), 0);
    assert_eq!(parse_gas_value("18446744073709551615").unwrap(), u64::MAX);
    assert!(parse_gas_value("18446744073709551616").is_err());
    assert_eq!(parse_gas_value("0xFFFFFFFFFFFFFFFF").unwrap(), u64::MAX);
    assert!(parse_gas_value("0x").is_err());
    assert!(parse_gas_value("").is_err());
    assert!(parse_gas_value("-5").is_err());
    assert_eq!(parse_gas_value("+7").unwrap(), 7);
    assert!(matches!(parse_gas_value("12a"), Err(ParseError::InvalidFormat(_))));
}

#[test]
fn total_gas_aliases_in_order() {
    let trace = members(vec![("total_gas", num(9)), ("gas_used", num(5))]);
    assert_eq!(extract_total_gas(&trace).unwrap(), 5);
    let trace = members(vec![("gasUsed", text("bogus")), ("totalGas", text("77"))]);
    assert_eq!(extract_total_gas(&trace).unwrap(), 77);
    let trace = members(vec![("other", num(1))]);
    assert_eq!(extract_total_gas(&trace).unwrap(), 0);
}

#[test]
fn bare_array_trace_is_read_as_steps() {
    let raw = JsonValue::Array(vec![obj(vec![("op", text("ADD")), ("gasCost", num(3))])]);
    let parsed = parse_trace("0x1", &raw).unwrap();
    assert_eq!(parsed.total_gas_used, 0);
    assert_eq!(parsed.execution_steps.len(), 1);
    assert_eq!(parsed.execution_steps[0].op.as_deref(), Some("ADD"));
}

#[test]
fn scalar_trace_is_invalid_format() {
    let raw = num(5);
    assert!(matches!(parse_trace("0x1", &raw), Err(ParseError::InvalidFormat(_))));
    assert!(matches!(validate_trace_format(&raw), Err(ParseError::InvalidFormat(_))));
}

#[test]
fn step_with_both_cost_spellings_is_dropped() {
    let raw = JsonValue::Array(vec![
        obj(vec![("op", text("A")), ("gasCost", num(3)), ("gas_cost", num(3))]),
        obj(vec![("op", text("B")), ("gas_cost", num(4))]),
    ]);
    let parsed = parse_trace("0x1", &raw).unwrap();
    assert_eq!(parsed.execution_steps.len(), 1);
    assert_eq!(parsed.execution_steps[0].op.as_deref(), Some("B"));
}

#[test]
fn hostio_counts_from_steps() {
    let raw = JsonValue::Array(vec![
        obj(vec![("op", text("SLOAD")), ("gasCost", num(100))]),
        obj(vec![("op", text("SLOAD")), ("gasCost", num(100))]),
        obj(vec![("op", text("ADD")), ("gasCost", num(3))]),
        obj(vec![("op", text("LOG1")), ("gasCost", num(50))]),
    ]);
    let parsed = parse_trace("0x1", &raw).unwrap();
    let stats = &parsed.hostio_stats;
    assert_eq!(stats.total_calls(), 3);
    assert_eq!(stats.total_gas(), 250);
    assert_eq!(stats.count_for_type(stylus_trace_studio::hostio::HostIoType::StorageLoad), 2);
    assert_eq!(stats.count_for_type(stylus_trace_studio::hostio::HostIoType::Log), 1);
}

#[test]
fn object_without_gas_or_steps_is_invalid_format() {
    let empty = obj(vec![]);
    assert!(matches!(parse_trace("0x1", &empty), Err(ParseError::InvalidFormat(_))));
    let unrelated = obj(vec![("random_field", text("value"))]);
    assert!(matches!(parse_trace("0x1", &unrelated), Err(ParseError::InvalidFormat(_))));
}

#[test]
fn object_with_only_a_step_field_that_is_no_array_has_no_steps() {
    let raw = obj(vec![("trace", text("none"))]);
    let parsed = parse_trace("0x1", &raw).unwrap();
    assert_eq!(parsed.total_gas_used, 0);
    assert!(parsed.execution_steps.is_empty());
}
