use rlox::report::{error, report};

#[test]
fn report_keeps_line_context_and_message() {
    let d = report(3, "at 'x'".to_string(), "something".to_string());
    assert_eq!(d.line, 3);
    assert_eq!(d.context, "at 'x'");
    assert_eq!(d.message, "something");
}

#[test]
fn error_has_empty_context() {
    let d = error(2, "Unexpected character.".to_string());
    assert_eq!(d.line, 2);
    assert_eq!(d.context, "");
    assert_eq!(d.message, "Unexpected character.");
}
