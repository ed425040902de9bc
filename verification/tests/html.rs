use mail_mcp::html::{decode_html_entities, html_to_text};

#[test]
fn html_body_becomes_readable_text() {
    assert_eq!(
        html_to_text("<h1>Hello</h1><p>One &amp; two<br>three</p>"),
        "Hello\nOne & two\nthree"
    );
}

#[test]
fn entities_are_decoded_in_turn() {
    assert_eq!(decode_html_entities("a&nbsp;b &lt;c&gt; &quot;d&quot; &#39;e&#x27;"), "a b <c> \"d\" 'e'");
    assert_eq!(decode_html_entities("&amp;lt;"), "<");
    assert_eq!(decode_html_entities("no entity"), "no entity");
}

#[test]
fn only_block_tags_break_lines() {
    assert_eq!(html_to_text("a<b>b</b>c"), "abc");
    assert_eq!(html_to_text("a<DIV>b</DIV >c"), "a\nb\nc");
    assert_eq!(html_to_text("<ul><li>one</li><li>two</li></ul>"), "one\ntwo");
    assert_eq!(html_to_text("a<h4>b</h4>"), "ab");
    assert_eq!(html_to_text("a<//br>b"), "a\nb");
}

#[test]
fn unfinished_markup_is_dropped() {
    assert_eq!(html_to_text("text <p unfinished"), "text");
    assert_eq!(html_to_text("a < b <c> d"), "a  d");
    assert_eq!(html_to_text("5 > 3"), "5 > 3");
}

#[test]
fn blank_lines_and_indentation_vanish() {
    assert_eq!(html_to_text("<p>  one  </p>\r\n\r\n   <p>two</p>"), "one\ntwo");
    assert_eq!(html_to_text(""), "");
}

#[test]
fn a_plain_line_is_kept() {
    assert_eq!(html_to_text("just a line"), "just a line");
}

#[test]
fn plain_text_keeps_its_lines() {
    let text = html_to_text("  one \r\n\n\ttwo > 1\n \nthree");
    assert_eq!(text, "one\ntwo > 1\nthree");
    assert_eq!(html_to_text(&text), text);
    assert_eq!(html_to_text(" \n\t\n"), "");
}
