use czytaj::sanitize_html;

#[test]
fn test_sanitize_removes_scripts() {
    let input = "Hello <script>alert('XSS')</script> World";
    let result = sanitize_html(input);
    assert!(!result.contains("script"));
    assert!(!result.contains("XSS"));
}

#[test]
fn test_sanitize_removes_event_handlers() {
    let input = r#"<div onclick="alert('XSS')">Click me</div>"#;
    let result = sanitize_html(input);
    assert!(!result.contains("onclick"));
}

#[test]
fn script_block_leaves_surrounding_text() {
    assert_eq!(sanitize_html("Hello <script>alert('XSS')</script> World"), "Hello  World");
}

#[test]
fn script_block_is_case_insensitive_and_takes_attributes() {
    assert_eq!(sanitize_html("a<SCRIPT type=\"x\">evil()</ScRiPt>b"), "ab");
}

#[test]
fn script_block_with_attributes_and_markup_in_its_body_vanishes() {
    let input = "a <script type=\"text/javascript\">\nif (x < 2) { go('<b>'); }\n</script> c";
    assert_eq!(sanitize_html(input), "a  c");
}

#[test]
fn script_block_spanning_lines_is_removed_whole() {
    assert_eq!(sanitize_html("a<script>\nvar x = 1;\nsteal(x);\n</script>b"), "ab");
    assert_eq!(sanitize_html("a<style>\np { color: red }\n</style>b"), "ab");
}

#[test]
fn style_and_iframe_blocks_are_removed() {
    assert_eq!(sanitize_html("<style>p{color:red}</style>Text<iframe src=\"x\">inner</iframe>"), "Text");
}

#[test]
fn event_handler_is_removed_inside_surviving_text() {
    assert_eq!(sanitize_html("x onload = 'go()' y"), "x  y");
}

#[test]
fn event_handler_names_take_unicode_word_characters() {
    assert_eq!(sanitize_html("a on\u{e9}t=\"1\"b"), "a b");
}

#[test]
fn unquoted_handler_text_is_kept() {
    assert_eq!(sanitize_html("once=5"), "once=5");
}

#[test]
fn script_scheme_is_removed() {
    assert_eq!(sanitize_html("go JavaScript:alert(1)"), "go alert(1)");
}

#[test]
fn tags_are_stripped_and_text_kept() {
    assert_eq!(sanitize_html("<p>Hello <b>bold</b> world</p>"), "Hello bold world");
}

#[test]
fn unclosed_angle_bracket_is_left() {
    assert_eq!(sanitize_html("1 < 2"), "1 < 2");
    assert_eq!(sanitize_html("a <> b"), "a <> b");
}

#[test]
fn entities_are_decoded() {
    assert_eq!(sanitize_html("Fish &amp; Chips &#39;n&#39; more"), "Fish & Chips 'n' more");
}

#[test]
fn escaped_markup_is_decoded_after_tags_are_stripped() {
    assert_eq!(sanitize_html("&lt;b&gt;"), "<b>");
}

#[test]
fn whitespace_is_trimmed() {
    assert_eq!(sanitize_html("  \n\t <p> text </p> \u{a0}"), "text");
}

#[test]
fn empty_and_blank_inputs_give_empty_text() {
    assert_eq!(sanitize_html(""), "");
    assert_eq!(sanitize_html("   "), "");
    assert_eq!(sanitize_html("<br/>"), "");
}

#[test]
fn output_is_capped_at_five_hundred_characters() {
    let long = "é".repeat(600);
    let out = sanitize_html(&long);
    assert_eq!(out.chars().count(), 500);
    assert_eq!(out, "é".repeat(500));
    let exact = "x".repeat(500);
    assert_eq!(sanitize_html(&exact), exact);
}

#[test]
fn sanitizing_clean_output_again_changes_nothing() {
    let once = sanitize_html("<div class=\"a\" onclick=\"b()\"><script>c()</script>Plain <i>text</i></div>");
    assert_eq!(once, "Plain text");
    assert_eq!(sanitize_html(&once), once);
}

#[test]
fn handler_tag_amid_text_vanishes() {
    let out = sanitize_html("Hello <a onclick=\"steal()\">there");
    assert_eq!(out, "Hello there");
    assert!(!out.contains("onclick"));
}

#[test]
fn script_scheme_inside_an_attribute_goes_with_the_tag() {
    assert_eq!(sanitize_html("<a href=\"javascript:run()\">link</a>"), "link");
}

#[test]
fn long_unclosed_markup_is_handled_quickly() {
    let opens = "<script".repeat(50_000);
    let expected: String = opens.chars().take(500).collect();
    assert_eq!(sanitize_html(&opens), expected);
    let blocks = format!("{}\n", "<script>x".repeat(50_000));
    let expected: String = "x".repeat(50_000).chars().take(500).collect();
    assert_eq!(sanitize_html(&blocks), expected);
    let spaces = format!("{}on{}", " ".repeat(200_000), " onx='".repeat(20_000));
    assert_eq!(sanitize_html(&spaces), "on");
    let unclosed = format!(" onx='{}", " on1=".repeat(100_000));
    let expected: String = unclosed.trim().chars().take(500).collect();
    assert_eq!(sanitize_html(&unclosed), expected);
}

#[test]
fn handler_value_closes_with_its_own_quote() {
    assert_eq!(sanitize_html("<a onclick='x\">y'>z"), "z");
    assert_eq!(sanitize_html("<a onclick=\"it's\">z"), "z");
}
