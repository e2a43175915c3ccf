use chat_log_parser_lib::repair::{unfuck_facebook_unicode_escapes, RepairError};

#[test]
fn test_unfuck_facebook_unicode_escapes_basic() {
    let input = b"asdf";
    assert_eq!(unfuck_facebook_unicode_escapes(input).unwrap(), "asdf");
    let input = b"\\u0041A";
    assert_eq!(unfuck_facebook_unicode_escapes(input).unwrap(), "AA");
    let input = b"Rados\\u00c5\\u0082aw";
    assert_eq!(unfuck_facebook_unicode_escapes(input).unwrap(), "Rados\u{142}aw");
    let input = b"No to trzeba ostatnie treningi zrobi\\u00c4\\u0087 xD";
    assert_eq!(
        unfuck_facebook_unicode_escapes(input).unwrap(),
        "No to trzeba ostatnie treningi zrobi\u{107} xD"
    );
}

#[test]
fn test_unfuck_facebook_unicode_escapes_boundaries() {
    let input = b"\\u0041";
    assert_eq!(unfuck_facebook_unicode_escapes(input).unwrap(), "A");

    let input = b"\\\\u0041A";
    assert_eq!(unfuck_facebook_unicode_escapes(input).unwrap(), "\\\\u0041A");
}

#[test]
fn repair_is_identity_on_backslash_free_text() {
    let input = b"hello world 123 !@#$%&*()_+ json";
    assert_eq!(
        unfuck_facebook_unicode_escapes(input).unwrap(),
        "hello world 123 !@#$%&*()_+ json"
    );
    assert_eq!(unfuck_facebook_unicode_escapes(b"").unwrap(), "");
}

#[test]
fn repair_decodes_three_and_four_byte_characters() {
    // Three tokens carrying E2 82 AC, the UTF-8 bytes of the euro sign.
    let input = b"x\\u00e2\\u0082\\u00acy";
    assert_eq!(unfuck_facebook_unicode_escapes(input).unwrap(), "x\u{20ac}y");
    // Four tokens carrying F0 9F 98 80, the UTF-8 bytes of one emoji.
    let input = b"\\u00f0\\u009f\\u0098\\u0080";
    assert_eq!(unfuck_facebook_unicode_escapes(input).unwrap(), "\u{1f600}");
}

#[test]
fn repair_reports_invalid_utf8_run() {
    // A lone token carrying FF, which no UTF-8 text contains.
    let input = b"\\u00ff";
    assert_eq!(
        unfuck_facebook_unicode_escapes(input),
        Err(RepairError::MalformedEscapeSequence)
    );
}

#[test]
fn repair_leaves_truncated_trailing_escape_as_literal_text() {
    let input = b"abc\\u00";
    assert_eq!(unfuck_facebook_unicode_escapes(input).unwrap(), "abc\\u00");
    let input = b"\\u0";
    assert_eq!(unfuck_facebook_unicode_escapes(input).unwrap(), "\\u0");
    let input = b"\\";
    assert_eq!(unfuck_facebook_unicode_escapes(input).unwrap(), "\\");
    // Four characters that are not hex digits leave the escape as literal
    // text as well.
    let input = b"\\uzzzz";
    assert_eq!(unfuck_facebook_unicode_escapes(input).unwrap(), "\\uzzzz");
}

#[test]
fn repair_decodes_after_an_even_run_of_backslashes() {
    // Two literal backslashes, then an escape token: the token follows an
    // even backslash count and decodes.
    let input = b"\\\\\\u0041";
    assert_eq!(unfuck_facebook_unicode_escapes(input).unwrap(), "\\\\A");
}
