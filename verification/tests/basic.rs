#[test]
fn basic() {}
