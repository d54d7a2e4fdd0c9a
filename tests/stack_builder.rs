use stylus_trace_studio::aggregator::{
    build_stack_string, merge_small_stacks, update_call_stack, CollapsedStack,
};

#[test]
fn test_collapsed_stack_to_line() {
    let stack = CollapsedStack::new("main;execute;storage_read".to_string(), 1000);
    assert_eq!(stack.to_line(), "main;execute;storage_read 1000");
}

#[test]
fn test_build_stack_string() {
    let call_stack = vec!["main".to_string(), "execute".to_string()];
    let result = build_stack_string(&call_stack, "storage_read");
    assert_eq!(result, "main;execute;storage_read");
}

#[test]
fn test_build_stack_string_empty() {
    let call_stack: Vec<String> = vec![];
    let result = build_stack_string(&call_stack, "main");
    assert_eq!(result, "main");
}

#[test]
fn test_update_call_stack_deeper() {
    let mut stack = vec!["main".to_string()];
    update_call_stack(&mut stack, 3);
    assert_eq!(stack.len(), 3);
}

#[test]
fn test_update_call_stack_shallower() {
    let mut stack = vec!["main".to_string(), "child".to_string(), "grandchild".to_string()];
    update_call_stack(&mut stack, 1);
    assert_eq!(stack.len(), 1);
    assert_eq!(stack[0], "main");
}

#[test]
fn test_merge_small_stacks() {
    let stacks = vec![
        CollapsedStack::new("big_stack".to_string(), 1000),
        CollapsedStack::new("small_stack_1".to_string(), 10),
        CollapsedStack::new("small_stack_2".to_string(), 15),
        CollapsedStack::new("medium_stack".to_string(), 500),
    ];

    let merged = merge_small_stacks(stacks, 100);

    // Should have: big_stack (1000), medium_stack (500), other (25)
    assert_eq!(merged.len(), 3);

    let other = merged.iter().find(|s| s.stack == "other").unwrap();
    assert_eq!(other.weight, 25);
}

#[test]
fn update_call_stack_names_placeholders_by_position() {
    let mut stack = vec!["main".to_string()];
    update_call_stack(&mut stack, 3);
    assert_eq!(stack, vec!["main".to_string(), "frame_1".to_string(), "frame_2".to_string()]);
}

#[test]
fn merge_small_stacks_without_small_paths_adds_no_other() {
    let stacks = vec![
        CollapsedStack::new("a".to_string(), 5),
        CollapsedStack::new("b".to_string(), 7),
    ];
    let merged = merge_small_stacks(stacks, 5);
    assert_eq!(merged.len(), 2);
    assert!(merged.iter().all(|s| s.stack != "other"));
}

#[test]
fn merge_small_stacks_threshold_zero_keeps_everything() {
    let stacks = vec![
        CollapsedStack::new("a".to_string(), 0),
        CollapsedStack::new("b".to_string(), 3),
    ];
    let merged = merge_small_stacks(stacks, 0);
    assert_eq!(merged.len(), 2);
    assert_eq!(merged[0].stack, "a");
    assert_eq!(merged[1].weight, 3);
}

#[test]
fn to_line_of_zero_weight() {
    let stack = CollapsedStack::new("main".to_string(), 0);
    assert_eq!(stack.to_line(), "main 0");
}
