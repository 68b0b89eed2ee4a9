use edgen_core::llm::{ASSISTANT_TAG, SYSTEM_TAG, TOOL_TAG, USER_TAG};

#[test]
// The fake test serves for trying simple things out
fn fake_test() {
    println!("hello fake!");
}

#[test]
fn context_tags_are_distinct_markers() {
    assert_eq!(ASSISTANT_TAG, "<|ASSISTANT|>");
    assert_eq!(USER_TAG, "<|USER|>");
    assert_eq!(TOOL_TAG, "<|TOOL|>");
    assert_eq!(SYSTEM_TAG, "<|SYSTEM|>");
}
