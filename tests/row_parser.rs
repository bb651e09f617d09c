use anonymiser::row_parser::{
    decode_field, decode_row, encode_field, encode_row, split_row, MalformedField, MalformedRow,
};

fn chars(s: &str) -> Vec<char> {
    s.chars().collect()
}

#[test]
fn null_marker_decodes_to_null_and_back() {
    let raw = chars("\\N");
    let decoded = decode_field(&raw).unwrap();
    assert_eq!(decoded, None);
    assert_eq!(encode_field(&decoded), raw);
}

#[test]
fn escaped_specials_round_trip_exactly() {
    let raw = chars("a\\tb\\nc\\rd\\\\e\\\\N");
    let decoded = decode_field(&raw).unwrap();
    assert_eq!(decoded, Some(chars("a\tb\nc\rd\\e\\N")));
    assert_eq!(encode_field(&decoded), raw);
}

#[test]
fn text_equal_to_null_marker_is_escaped() {
    let value = Some(chars("\\N"));
    let raw = encode_field(&value);
    assert_eq!(raw, chars("\\\\N"));
    assert_eq!(decode_field(&raw).unwrap(), value);
}

#[test]
fn empty_field_is_not_null() {
    let raw: Vec<char> = Vec::new();
    assert_eq!(decode_field(&raw).unwrap(), Some(Vec::new()));
    assert_eq!(encode_field(&Some(Vec::new())), raw);
}

#[test]
fn plain_text_is_unchanged() {
    let raw = chars("héllo wörld");
    let decoded = decode_field(&raw).unwrap();
    assert_eq!(decoded, Some(raw.clone()));
    assert_eq!(encode_field(&decoded), raw);
}

#[test]
fn unknown_escape_is_malformed() {
    assert_eq!(
        decode_field(&chars("ab\\x")),
        Err(MalformedField { position: 2 })
    );
}

#[test]
fn trailing_backslash_is_malformed() {
    assert_eq!(
        decode_field(&chars("ab\\")),
        Err(MalformedField { position: 2 })
    );
}

#[test]
fn unescaped_tab_is_malformed() {
    assert_eq!(
        decode_field(&chars("a\tb")),
        Err(MalformedField { position: 1 })
    );
}

#[test]
fn row_splits_at_tabs_and_joins_back() {
    let line = chars("1\t\\N\tjohn\\tsmith\t");
    let fields = decode_row(&line).unwrap();
    assert_eq!(
        fields,
        vec![
            Some(chars("1")),
            None,
            Some(chars("john\tsmith")),
            Some(Vec::new())
        ]
    );
    assert_eq!(encode_row(&fields), line);
}

#[test]
fn raw_fields_of_a_row() {
    assert_eq!(
        split_row(&chars("a\t\tb\\n")),
        vec![chars("a"), Vec::new(), chars("b\\n")]
    );
    assert_eq!(split_row(&Vec::new()), vec![Vec::<char>::new()]);
}

#[test]
fn malformed_field_in_row_is_located() {
    assert_eq!(
        decode_row(&chars("ok\tbad\\q")),
        Err(MalformedRow { field: 1, position: 3 })
    );
}
