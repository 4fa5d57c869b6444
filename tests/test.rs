#[test]
fn test() {
    assert_eq!(21 + 21, 42)
}
