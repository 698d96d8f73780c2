use cipher::error::AppError;

#[test]
fn error_holds_context_and_detail() {
    let e = AppError::from_str("usage", "missing command");
    assert_eq!(e.context(), "usage");
    assert_eq!(e.detail(), "missing command");
}

#[test]
fn error_from_another_error_takes_its_rendering() {
    let cause = "12x".parse::<u32>().unwrap_err();
    let rendering = cause.to_string();
    let e = AppError::from_error("number", cause);
    assert_eq!(e.context(), "number");
    assert_eq!(e.detail(), &rendering);
    let e = AppError::from_error("text", "as it is");
    assert_eq!(e, AppError::from_str("text", "as it is"));
}

#[test]
fn error_is_rendered_on_one_line() {
    let e = AppError::from_str("parsing", "expected /SECURE but found /CIPHER");
    assert_eq!(
        e.message(),
        "error: context: parsing detail: expected /SECURE but found /CIPHER"
    );
    assert_eq!(AppError::from_str("", "").message(), "error: context:  detail: ");
}

#[test]
fn errors_compare_by_both_texts() {
    let e = AppError::from_str("a", "b");
    assert_eq!(e.clone(), e);
    assert_ne!(e, AppError::from_str("a", "c"));
    assert_ne!(e, AppError::from_str("c", "b"));
}
