use clarity_repl::annotation::AnnotationKind;
use clarity_repl::annotation::WarningKind;

#[test]
fn parse_unchecked_data() {
    match "unchecked_data".parse::<WarningKind>() {
        Ok(WarningKind::UncheckedData) => (),
        _ => panic!("failed to parse warning kind correectly"),
    };
}

#[test]
fn parse_warning_error() {
    match "invalid_string".parse::<WarningKind>() {
        Err(_) => (),
        _ => panic!("failed to return error for bad string"),
    };
}

#[test]
fn parse_allow_unchecked_data() {
    match "allow(unchecked_data)".parse::<AnnotationKind>() {
        Ok(AnnotationKind::Allow(WarningKind::UncheckedData)) => (),
        _ => panic!("failed to parse annotation kind correectly"),
    };
}

#[test]
fn parse_annotation_kind_error() {
    match "invalid_string".parse::<AnnotationKind>() {
        Err(_) => (),
        _ => panic!("failed to return error for bad string"),
    };
}

#[test]
fn parse_annotation_kind_error2() {
    match "invalid(string)".parse::<AnnotationKind>() {
        Err(_) => (),
        _ => panic!("failed to return error for bad string"),
    };
}

#[test]
fn parse_annotation_kind_empty() {
    match "".parse::<AnnotationKind>() {
        Err(_) => (),
        _ => panic!("failed to return error for bad string"),
    };
}

#[test]
fn parse_unchecked_params() {
    match "allow(unchecked_params)".parse::<AnnotationKind>() {
        Ok(AnnotationKind::Allow(WarningKind::UncheckedParams)) => (),
        _ => panic!("failed to parse annotation kind"),
    };
}

#[test]
fn annotation_error_messages() {
    assert_eq!(
        "invalid_string".parse::<WarningKind>().unwrap_err(),
        "'invalid_string' is not a valid warning identifier"
    );
    assert_eq!(
        "invalid(string)".parse::<AnnotationKind>().unwrap_err(),
        "unrecognized annotation"
    );
    assert_eq!(
        "allow(nothing)".parse::<AnnotationKind>().unwrap_err(),
        "missing value for 'allow' annotation"
    );
    assert_eq!("".parse::<AnnotationKind>().unwrap_err(), "malformed annotation");
    // The pattern matches the first word anywhere in the text.
    match "  allow(unchecked_data) trailing".parse::<AnnotationKind>() {
        Ok(AnnotationKind::Allow(WarningKind::UncheckedData)) => (),
        _ => panic!("expected the first word to be read"),
    };
}
