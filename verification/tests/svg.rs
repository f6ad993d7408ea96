use purepic::svg::{tokenize_path, view_box_fields, PathToken, ViewBoxError};

fn describe(tokens: &[PathToken]) -> Vec<String> {
    tokens
        .iter()
        .map(|token| match token {
            PathToken::Command(command) => format!("{command}"),
            PathToken::Number(number) => format!("#{number}"),
        })
        .collect()
}

#[test]
fn closed_line_path_splits_into_commands_and_numbers() {
    let tokens = tokenize_path("M 4 4 L 20 4 L 20 20 L 4 20 Z").unwrap();
    assert_eq!(
        describe(&tokens),
        ["M", "#4", "#4", "L", "#20", "#4", "L", "#20", "#20", "L", "#4", "#20", "Z"]
    );
}

#[test]
fn signs_start_new_numbers_and_commas_separate() {
    let tokens = tokenize_path("m1.5-2,+3c0-1.25.5 4").unwrap();
    assert_eq!(
        describe(&tokens),
        ["m", "#1.5", "#-2", "#+3", "c", "#0", "#-1.25.5", "#4"]
    );
}

#[test]
fn unicode_white_space_separates_numbers() {
    let tokens = tokenize_path("M\u{3000}1\u{00A0}2\n3\tz").unwrap();
    assert_eq!(describe(&tokens), ["M", "#1", "#2", "#3", "z"]);
}

#[test]
fn unsupported_characters_are_reported_by_position() {
    assert!(matches!(tokenize_path("M 1 2 L 3 ; 4"), Err(10)));
    assert!(matches!(tokenize_path("M 1 2 # 3 ; 4"), Err(6)));
}

#[test]
fn view_box_fields_are_read_from_the_root_element() {
    let source = r#"<?xml version="1.0"?><svg xmlns="http://www.w3.org/2000/svg" viewBox="0 0, 1024  1024"><path d="M0 0"/></svg>"#;
    assert_eq!(view_box_fields(source).unwrap(), ["0", "0", "1024", "1024"]);
}

#[test]
fn missing_view_box_parts_are_reported() {
    assert_eq!(view_box_fields("<html></html>"), Err(ViewBoxError::MissingRoot));
    assert_eq!(view_box_fields("<svg viewBox=\"0 0 1 1\""), Err(ViewBoxError::IncompleteRoot));
    assert_eq!(view_box_fields("<svg width=\"4\"><g viewBox=\"0 0 1 1\"/>"), Err(ViewBoxError::MissingViewBox));
    assert_eq!(view_box_fields("<svg viewBox=\"0 0 1 1>"), Err(ViewBoxError::IncompleteViewBox));
}

#[test]
fn path_data_is_collected_from_every_path() {
    let source = r#"<svg viewBox="0 0 24 24"><path d="M1 1L2 2"/><path fill="none" d="M3 3z"/></svg>"#;
    let values = purepic::svg::path_data_values(source).unwrap();
    assert_eq!(values, ["M1 1L2 2", "M3 3z"]);
    assert_eq!(purepic::svg::path_data_values("<svg/>").unwrap(), Vec::<String>::new());
    assert_eq!(purepic::svg::path_data_values(r#"<path d="M1 1"#), None);
}
