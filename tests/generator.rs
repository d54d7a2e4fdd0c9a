use stylus_trace_studio::aggregator::CollapsedStack;
use stylus_trace_studio::flamegraph::{
    flamegraph_input, generate_text_summary, palette_scheme, parse_palette,
    stacks_to_collapsed_format, FlamegraphError, FlamegraphPalette,
};

#[test]
fn test_stacks_to_collapsed_format() {
    let stacks = vec![
        CollapsedStack::new("main;execute".to_string(), 5000),
        CollapsedStack::new("main;storage".to_string(), 3000),
    ];

    let collapsed = stacks_to_collapsed_format(&stacks);

    assert_eq!(collapsed, "main;execute 5000\nmain;storage 3000");
}

#[test]
fn test_generate_text_summary() {
    let stacks = vec![
        CollapsedStack::new("main;execute".to_string(), 5000),
        CollapsedStack::new("main;storage".to_string(), 3000),
        CollapsedStack::new("main;compute".to_string(), 2000),
    ];

    let summary = generate_text_summary(&stacks, 2);

    assert!(summary.contains("5000"));
    assert!(summary.contains("main;execute"));
    assert!(summary.contains("and 1 more stacks"));
}

#[test]
fn text_summary_exact_layout() {
    let stacks = vec![CollapsedStack::new("main".to_string(), 42)];
    let summary = generate_text_summary(&stacks, 5);
    let expected = format!(
        "Top Gas Consumers:\n{}\n  1.         42 gas | main",
        "\u{2500}".repeat(80)
    );
    assert_eq!(summary, expected);
}

#[test]
fn flamegraph_input_rejects_empty_stacks() {
    let stacks: Vec<CollapsedStack> = vec![];
    assert!(matches!(flamegraph_input(&stacks), Err(FlamegraphError::EmptyStacks)));
}

#[test]
fn flamegraph_input_is_collapsed_text() {
    let stacks = vec![
        CollapsedStack::new("main".to_string(), 1000),
        CollapsedStack::new("main;execute".to_string(), 500),
    ];
    let text = flamegraph_input(&stacks).unwrap();
    assert_eq!(text, "main 1000\nmain;execute 500");
}

#[test]
fn palette_names_in_any_case() {
    assert_eq!(parse_palette("MEM"), FlamegraphPalette::Mem);
    assert_eq!(parse_palette("Java"), FlamegraphPalette::Java);
    assert_eq!(parse_palette("consistent"), FlamegraphPalette::Consistent);
    assert_eq!(parse_palette("rainbow"), FlamegraphPalette::Hot);
    assert_eq!(palette_scheme(FlamegraphPalette::Consistent), "aqua");
}
