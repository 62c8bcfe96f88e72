use braidinfer_runtime::arith::{div_ceil, product};
use braidinfer_runtime::json::{embedded_config, non_null};
use braidinfer_runtime::text::{
    decimal_text, joined, parse_number, same_text, split_at_first, trim,
};

#[test]
fn a_text_is_split_at_the_first_occurrence() {
    assert_eq!(split_at_first("a-b-c", "-"), Some(("a", "b-c")));
    assert_eq!(split_at_first("abc", "-"), None);
    assert_eq!(split_at_first("-x", "-"), Some(("", "x")));
    assert_eq!(
        split_at_first("model.layers.0.mlp", "layers.0."),
        Some(("model.", "mlp"))
    );
}

#[test]
fn texts_are_joined_and_compared() {
    assert_eq!(joined("layers.", "7"), "layers.7");
    assert!(same_text("rnf4", "rnf4"));
    assert!(!same_text("rnf4", "RNF4"));
}

#[test]
fn numbers_are_written_without_leading_zeros() {
    assert_eq!(decimal_text(0), "0");
    assert_eq!(decimal_text(10), "10");
    assert_eq!(decimal_text(9007), "9007");
}

#[test]
fn numbers_are_read_as_the_standard_library_does() {
    for s in ["0", "17", "+17", "007", "", "+", "-1", "1x", " 1", "99999999999999999999999"] {
        assert_eq!(parse_number(s, usize::MAX), s.parse::<usize>().ok(), "{s:?}");
    }
    assert_eq!(parse_number("4294967295", u32::MAX as usize), Some(4294967295));
    assert_eq!(parse_number("4294967296", u32::MAX as usize), None);
}

#[test]
fn a_written_number_is_read_back() {
    for n in [0usize, 5, 64, 8192, usize::MAX] {
        assert_eq!(parse_number(&decimal_text(n), usize::MAX), Some(n));
    }
}

#[test]
fn white_space_is_trimmed_as_the_standard_library_does() {
    for s in ["  0-3\t", "x", "", " \u{2003}a b\u{a0}", "\n\n", "\u{200b}z"] {
        assert_eq!(trim(s), s.trim(), "{s:?}");
    }
}

#[test]
fn the_embedded_description_is_found() {
    let text = "{\"model_config\": {\"hidden_size\": 8}, \"other\": 1}";
    assert_eq!(embedded_config(text).as_deref(), Some("{\"hidden_size\":8}"));
}

#[test]
fn no_description_without_the_member() {
    assert_eq!(embedded_config("{\"other\": 1}"), None);
    assert_eq!(embedded_config("{\"model_config\": null}"), None);
    assert_eq!(embedded_config("[1, 2]"), None);
    assert_eq!(embedded_config("{not json"), None);
    assert_eq!(embedded_config(""), None);
}

#[test]
fn only_a_null_member_is_dropped() {
    assert_eq!(non_null(Some("null".to_string())), None);
    assert_eq!(non_null(Some("\"null\"".to_string())).as_deref(), Some("\"null\""));
    assert_eq!(non_null(None), None);
}

#[test]
fn products_and_quotients() {
    assert_eq!(product(&[6, 2, 64, 512, 4]), 6 * 2 * 64 * 512 * 4);
    assert_eq!(product(&[usize::MAX, 0, usize::MAX]), 0);
    assert_eq!(div_ceil(64, 64), 1);
    assert_eq!(div_ceil(65, 64), 2);
    assert_eq!(div_ceil(0, 64), 0);
}
