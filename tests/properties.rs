use stylus_trace_studio::aggregator::{build_collapsed_stacks, merge_small_stacks, CollapsedStack};
use stylus_trace_studio::json::{JsonNumber, JsonValue};
use stylus_trace_studio::parser::{parse_trace, ParseError, ParsedTrace};
use stylus_trace_studio::profile::{check_profile_version, to_profile};
use stylus_trace_studio::ranker::calculate_hot_paths;

fn num(n: u64) -> JsonValue {
    JsonValue::Number(JsonNumber::Unsigned(n))
}

fn text(s: &str) -> JsonValue {
    JsonValue::Str(s.to_string())
}

fn obj(fields: Vec<(&str, JsonValue)>) -> JsonValue {
    JsonValue::Object(fields.into_iter().map(|(k, v)| (k.to_string(), v)).collect())
}

fn step(op: &str, depth: u64, cost: u64) -> JsonValue {
    obj(vec![("op", text(op)), ("depth", num(depth)), ("gasCost", num(cost))])
}

fn trace_of(steps: Vec<JsonValue>) -> ParsedTrace {
    let raw = obj(vec![("gasUsed", num(1000)), ("structLogs", JsonValue::Array(steps))]);
    parse_trace("0xfeed", &raw).unwrap()
}

fn weight_of(stacks: &[CollapsedStack], path: &str) -> Option<u64> {
    stacks.iter().find(|s| s.stack == path).map(|s| s.weight)
}

#[test]
fn weights_sum_to_costs_plus_apportioned_hostio_gas() {
    let parsed = trace_of(vec![
        step("main", 0, 100),
        step("SLOAD", 1, 200),
        step("SLOAD", 1, 200),
        step("ADD", 0, 0),
    ]);
    let stacks = build_collapsed_stacks(&parsed);
    let total: u64 = stacks.iter().map(|s| s.weight).sum();
    assert_eq!(total, 100 + 200 + 200 + 400);
    assert_eq!(weight_of(&stacks, "main"), Some(100));
    assert_eq!(weight_of(&stacks, "call;SLOAD"), Some(400));
    assert_eq!(weight_of(&stacks, "hostio;StorageLoad"), Some(400));
    assert_eq!(stacks.len(), 3);
}

#[test]
fn hostio_share_is_proportional_and_rounded_down() {
    let parsed = trace_of(vec![
        step("SLOAD", 0, 10),
        step("SSTORE", 0, 0),
        step("SSTORE", 0, 0),
    ]);
    let stacks = build_collapsed_stacks(&parsed);
    // host gas 10 over 3 calls: 10*1/3 = 3 and 10*2/3 = 6
    assert_eq!(weight_of(&stacks, "hostio;StorageLoad"), Some(3));
    assert_eq!(weight_of(&stacks, "hostio;StorageStore"), Some(6));
    assert_eq!(weight_of(&stacks, "SLOAD"), Some(10));
    assert_eq!(weight_of(&stacks, "SSTORE"), None);
}

#[test]
fn depth_walk_pushes_placeholder_frames() {
    let parsed = trace_of(vec![step("main", 0, 100), step("exec", 1, 50)]);
    let stacks = build_collapsed_stacks(&parsed);
    assert_eq!(stacks.len(), 2);
    assert_eq!(weight_of(&stacks, "main"), Some(100));
    assert_eq!(weight_of(&stacks, "call;exec"), Some(50));
}

#[test]
fn depth_walk_down_and_back_up() {
    let parsed = trace_of(vec![
        step("main", 0, 100),
        step("exec", 1, 50),
        step("inner", 2, 20),
        step("exec", 1, 10),
        step("main", 0, 5),
    ]);
    let stacks = build_collapsed_stacks(&parsed);
    assert_eq!(stacks.len(), 3);
    assert_eq!(weight_of(&stacks, "main"), Some(105));
    assert_eq!(weight_of(&stacks, "call;exec"), Some(60));
    assert_eq!(weight_of(&stacks, "call;call;inner"), Some(20));
}

#[test]
fn function_name_wins_over_mnemonic() {
    let raw = JsonValue::Array(vec![
        obj(vec![("op", text("CALL")), ("function", text("transfer")), ("gasCost", num(9))]),
        obj(vec![("gasCost", num(4))]),
    ]);
    let parsed = parse_trace("0x1", &raw).unwrap();
    let stacks = build_collapsed_stacks(&parsed);
    assert_eq!(weight_of(&stacks, "transfer"), Some(9));
    assert_eq!(weight_of(&stacks, "unknown"), Some(4));
}

#[test]
fn gas_cost_spellings_parse_alike() {
    let a = parse_trace("0x1", &JsonValue::Array(vec![obj(vec![("gasCost", num(7))])])).unwrap();
    let b = parse_trace("0x1", &JsonValue::Array(vec![obj(vec![("gas_cost", num(7))])])).unwrap();
    let (sa, sb) = (&a.execution_steps[0], &b.execution_steps[0]);
    assert_eq!(sa.gas_cost, 7);
    assert_eq!(
        (sa.pc, sa.gas, sa.gas_cost, &sa.op, sa.depth, &sa.function),
        (sb.pc, sb.gas, sb.gas_cost, &sb.op, sb.depth, &sb.function)
    );
}

#[test]
fn hex_and_decimal_total_gas_agree() {
    let hex = parse_trace("0x1", &obj(vec![("gasUsed", text("0x3e8"))])).unwrap();
    let dec = parse_trace("0x1", &obj(vec![("gasUsed", text("1000"))])).unwrap();
    assert_eq!(hex.total_gas_used, 1000);
    assert_eq!(dec.total_gas_used, 1000);
}

#[test]
fn zero_cost_steps_make_no_path() {
    let parsed = trace_of(vec![step("idle", 0, 0), step("work", 0, 8), step("idle", 2, 0)]);
    let stacks = build_collapsed_stacks(&parsed);
    assert_eq!(stacks.len(), 1);
    assert_eq!(weight_of(&stacks, "work"), Some(8));
    assert!(stacks.iter().all(|s| s.weight > 0));
}

#[test]
fn merging_keeps_total_weight() {
    for threshold in [0u64, 1, 10, 15, 16, 500, 1001, u64::MAX] {
        let stacks = vec![
            CollapsedStack::new("big_stack".to_string(), 1000),
            CollapsedStack::new("small_stack_1".to_string(), 10),
            CollapsedStack::new("small_stack_2".to_string(), 15),
            CollapsedStack::new("medium_stack".to_string(), 500),
        ];
        let merged = merge_small_stacks(stacks, threshold);
        let total: u64 = merged.iter().map(|s| s.weight).sum();
        assert_eq!(total, 1525);
    }
}

#[test]
fn ranking_is_deterministic() {
    let stacks = vec![
        CollapsedStack::new("b".to_string(), 10),
        CollapsedStack::new("a".to_string(), 10),
        CollapsedStack::new("c".to_string(), 30),
        CollapsedStack::new("d".to_string(), 5),
    ];
    let first = calculate_hot_paths(&stacks, 100, 3);
    let second = calculate_hot_paths(&stacks, 100, 3);
    let names: Vec<&str> = first.iter().map(|h| h.stack.as_str()).collect();
    assert_eq!(names, vec!["c", "a", "b"]);
    let again: Vec<&str> = second.iter().map(|h| h.stack.as_str()).collect();
    assert_eq!(names, again);
    let mut reversed = stacks.clone();
    reversed.reverse();
    let third = calculate_hot_paths(&reversed, 100, 3);
    let other: Vec<&str> = third.iter().map(|h| h.stack.as_str()).collect();
    assert_eq!(names, other);
    assert_eq!(first[0].percentage_hundredths, 3000);
    assert_eq!(first[1].gas, 10);
}

#[test]
fn percentage_is_zero_without_total() {
    let stacks = vec![CollapsedStack::new("x".to_string(), 10)];
    let ranked = calculate_hot_paths(&stacks, 0, 10);
    assert_eq!(ranked.len(), 1);
    assert_eq!(ranked[0].percentage_hundredths, 0);
    let ranked = calculate_hot_paths(&stacks, 3, 10);
    assert_eq!(ranked[0].percentage_hundredths, 33333);
}

#[test]
fn all_malformed_steps_fail() {
    let raw = obj(vec![
        ("gasUsed", num(5)),
        ("structLogs", JsonValue::Array(vec![num(1), text("x"), obj(vec![("depth", text("deep"))])])),
    ]);
    assert!(matches!(parse_trace("0x1", &raw), Err(ParseError::InvalidFormat(_))));
}

#[test]
fn some_malformed_steps_keep_the_valid_ones() {
    let raw = obj(vec![(
        "steps",
        JsonValue::Array(vec![
            step("first", 0, 1),
            obj(vec![("gasCost", JsonValue::Number(JsonNumber::Negative(-1)))]),
            obj(vec![("depth", num(5_000_000_000))]),
            JsonValue::Null,
            step("second", 0, 2),
        ]),
    )]);
    let parsed = parse_trace("0x1", &raw).unwrap();
    let ops: Vec<Option<&str>> = parsed.execution_steps.iter().map(|s| s.op.as_deref()).collect();
    assert_eq!(ops, vec![Some("first"), Some("second")]);
}

#[test]
fn minimal_trace_end_to_end() {
    let raw = obj(vec![("gasUsed", num(100000)), ("structLogs", JsonValue::Array(vec![]))]);
    let parsed = parse_trace("0xabc", &raw).unwrap();
    assert_eq!(parsed.total_gas_used, 100000);
    assert!(parsed.execution_steps.is_empty());
    let stacks = build_collapsed_stacks(&parsed);
    assert!(stacks.is_empty());
    let hot = calculate_hot_paths(&stacks, parsed.total_gas_used, 10);
    assert!(hot.is_empty());
    let profile = to_profile(&parsed, hot);
    assert_eq!(profile.version, "1.0.0");
    assert_eq!(profile.transaction_hash, "0xabc");
    assert_eq!(profile.total_gas, 100000);
    assert!(profile.hot_paths.is_empty());
    assert!(profile.hostio_summary.by_type.is_empty());
    assert!(!profile.generated_at.is_empty());
}

#[test]
fn profile_counts_by_kind_name() {
    let parsed = trace_of(vec![step("SLOAD", 0, 4), step("CALL", 0, 6), step("SLOAD", 0, 4)]);
    let profile = to_profile(&parsed, vec![]);
    assert_eq!(
        profile.hostio_summary.by_type,
        vec![("StorageLoad".to_string(), 2), ("Call".to_string(), 1)]
    );
    assert_eq!(profile.hostio_summary.total_calls, 3);
    assert_eq!(profile.hostio_summary.total_hostio_gas, 14);
}

#[test]
fn other_profile_versions_are_refused() {
    assert!(check_profile_version("1.0.0").is_ok());
    assert!(matches!(check_profile_version("2.0.0"), Err(ParseError::UnsupportedVersion(_))));
}

#[test]
fn rank_stacks_orders_heaviest_first_then_by_text() {
    let stacks = vec![
        CollapsedStack::new("m".to_string(), 1),
        CollapsedStack::new("b".to_string(), 9),
        CollapsedStack::new("a".to_string(), 9),
    ];
    let ranked = stylus_trace_studio::ranker::rank_stacks(&stacks);
    let names: Vec<&str> = ranked.iter().map(|s| s.stack.as_str()).collect();
    assert_eq!(names, vec!["a", "b", "m"]);
}

#[test]
fn empty_record_is_a_default_step_and_other_shapes_are_dropped() {
    let raw = JsonValue::Array(vec![
        num(3),
        text("step"),
        JsonValue::Null,
        obj(vec![("depth", text("x"))]),
        obj(vec![]),
    ]);
    let parsed = parse_trace("0x1", &raw).unwrap();
    assert_eq!(parsed.execution_steps.len(), 1);
    let s = &parsed.execution_steps[0];
    assert_eq!((s.pc, s.gas, s.gas_cost, s.depth), (0, 0, 0, 0));
    assert!(s.op.is_none() && s.function.is_none());
}

#[test]
fn a_step_on_a_host_path_shares_it_with_the_host_share() {
    // One step whose function name is a host path and whose mnemonic is a
    // host interaction: its cost (2^63) fits in u64, and so does host gas *
    // count, yet its path receives the cost twice and saturates.
    let half = 1u64 << 63;
    let raw = JsonValue::Array(vec![obj(vec![
        ("op", text("SLOAD")),
        ("function", text("hostio;StorageLoad")),
        ("gasCost", num(half)),
    ])]);
    let parsed = parse_trace("0x1", &raw).unwrap();
    assert_eq!(parsed.hostio_stats.total_gas(), half);
    let stacks = build_collapsed_stacks(&parsed);
    assert_eq!(stacks.len(), 1);
    assert_eq!(stacks[0].stack, "hostio;StorageLoad");
    assert_eq!(stacks[0].weight, u64::MAX);
}
