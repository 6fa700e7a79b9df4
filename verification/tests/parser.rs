use yara_x::parser::{Parser, ReportBuilder, SourceCode, Span};

#[test]
fn a_new_parser_has_no_colors() {
    assert!(!Parser::new().has_colors());
    assert!(!Parser::default().has_colors());
}

#[test]
fn colorize_errors_sets_the_colors() {
    let mut parser = Parser::new();
    assert!(parser.colorize_errors(true).has_colors());
    assert!(parser.has_colors());
    assert!(!parser.colorize_errors(false).has_colors());
    assert!(!parser.has_colors());
}

#[test]
fn a_report_builder_decides_on_the_colors() {
    let mut plain = ReportBuilder::new();
    assert!(!plain.has_colors());
    let mut colored = ReportBuilder::new();
    colored.with_colors(true);
    assert!(colored.has_colors());
    assert!(!plain.with_colors(false).has_colors());

    let mut parser = Parser::new();
    parser.colorize_errors(true).set_report_builder(&plain);
    assert!(!parser.has_colors());

    let mut parser = Parser::new();
    parser.set_report_builder(&colored).colorize_errors(false);
    assert!(parser.has_colors());
}

#[test]
fn source_code_from_a_string_is_valid() {
    let mut src = SourceCode::from("rule test { condition: true }");
    assert_eq!(src.valid(), Some("rule test { condition: true }"));
    assert_eq!(src.raw(), b"rule test { condition: true }");
    assert!(src.validate_utf8().is_ok());
    assert_eq!(src.check_utf8(), Ok(()));
}

#[test]
fn source_code_from_bytes_is_validated_on_demand() {
    let mut src = SourceCode::from("☃βツ".as_bytes());
    assert_eq!(src.valid(), None);
    assert!(src.validate_utf8().is_ok());
    assert_eq!(src.valid(), Some("☃βツ"));
    assert_eq!(src.raw(), "☃βツ".as_bytes());
    assert!(src.validate_utf8().is_ok());
}

#[test]
fn invalid_bytes_are_reported_with_their_place_and_length() {
    let mut src = SourceCode::from(b"foobar\xF1\x80\x80quux".as_slice());
    let err = src.validate_utf8().unwrap_err();
    assert_eq!(err.valid_up_to(), 6);
    assert_eq!(err.error_len(), Some(3));
    assert_eq!(err.span(), Span { start: 6, end: 9 });
    assert_eq!(src.valid(), None);
    assert_eq!(src.check_utf8(), Err(Span { start: 6, end: 9 }));

    let mut src = SourceCode::from(b"foobar\xFF\xFFquux".as_slice());
    let err = src.validate_utf8().unwrap_err();
    assert_eq!(err.valid_up_to(), 6);
    assert_eq!(err.error_len(), Some(1));
    assert_eq!(err.span(), Span { start: 6, end: 7 });

    let mut src = SourceCode::from(b"\xFF".as_slice());
    assert_eq!(src.check_utf8(), Err(Span { start: 0, end: 1 }));
}

#[test]
fn a_character_cut_off_at_the_end_gives_an_empty_span() {
    let mut src = SourceCode::from(b"foobar\xF1\x80\x80".as_slice());
    let err = src.validate_utf8().unwrap_err();
    assert_eq!(err.valid_up_to(), 6);
    assert_eq!(err.error_len(), None);
    assert_eq!(err.span(), Span { start: 6, end: 6 });
    assert_eq!(src.check_utf8(), Err(Span { start: 6, end: 6 }));
}

#[test]
fn the_origin_is_kept_with_the_code() {
    let src = SourceCode::from("rule test { condition: true }").origin("some_file.yar");
    assert_eq!(src.get_origin(), Some("some_file.yar"));
    assert_eq!(src.valid(), Some("rule test { condition: true }"));
    let src = src.origin("other.yar");
    assert_eq!(src.get_origin(), Some("other.yar"));
    assert_eq!(SourceCode::from(b"abc".as_slice()).get_origin(), None);
}

#[test]
fn empty_source_code_is_valid() {
    let mut src = SourceCode::from(b"".as_slice());
    assert_eq!(src.check_utf8(), Ok(()));
    assert_eq!(src.valid(), Some(""));
}

#[test]
fn a_copy_of_source_code_is_the_same_code() {
    let mut src = SourceCode::from("☃".as_bytes()).origin("snow.yar");
    let copy = src.clone();
    assert_eq!(copy.raw(), src.raw());
    assert_eq!(copy.valid(), None);
    assert_eq!(copy.get_origin(), Some("snow.yar"));
    assert!(src.validate_utf8().is_ok());
    assert_eq!(src.clone().valid(), Some("☃"));
}
