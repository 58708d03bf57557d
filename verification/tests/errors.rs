use mal_rust::error::MalError;

#[test]
fn every_failure_has_its_line() {
    assert_eq!(
        MalError::ParseFailure("Sequence ended abruptly".to_string()).message(),
        "Parse failure: Sequence ended abruptly"
    );
    assert_eq!(
        MalError::MapKeyError("Odd number of elements".to_string()).message(),
        "Map key error: Odd number of elements"
    );
    assert_eq!(
        MalError::SymbolNotFound("x".to_string()).message(),
        "Symbol: 'x' not found"
    );
    assert_eq!(
        MalError::ArityMismatch("def!".to_string()).message(),
        "Arity mismatch: def!"
    );
    assert_eq!(
        MalError::TypeMismatch("+ (1 \"a\")".to_string()).message(),
        "Type mismatch: + (1 \"a\")"
    );
    assert_eq!(
        MalError::NotCallable("3".to_string()).message(),
        "Cannot evaluate anything other than a function: 3"
    );
    assert_eq!(
        MalError::Arithmetic("/ (1 0)".to_string()).message(),
        "Arithmetic failure: / (1 0)"
    );
    assert_eq!(MalError::DepthExceeded.message(), "Evaluation nested too deep");
}

#[test]
fn failures_compare_by_kind_and_text() {
    assert_eq!(
        MalError::SymbolNotFound("x".to_string()),
        MalError::SymbolNotFound("x".to_string())
    );
    assert_ne!(
        MalError::SymbolNotFound("x".to_string()),
        MalError::SymbolNotFound("y".to_string())
    );
    assert_ne!(
        MalError::TypeMismatch("x".to_string()),
        MalError::ArityMismatch("x".to_string())
    );
    assert_eq!(MalError::DepthExceeded.clone(), MalError::DepthExceeded);
}
