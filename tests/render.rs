use kuchiki::traits::TendrilSink;
use cohoard::{join_lines, markdown_to_html, rewrite_html_tags, sanitize, SanitizeError};

#[test]
fn plain_text_keeps_its_text() {
    assert_eq!(markdown_to_html("hello world"), "hello world\n");
}

#[test]
fn rewrite_leaves_plain_html() {
    assert_eq!(rewrite_html_tags("a <b>c</b> &lt;p&gt;"), "a <b>c</b> &lt;p&gt;");
}

#[test]
fn rewrite_replaces_each_tag() {
    assert_eq!(rewrite_html_tags("<p>a</p>"), "a");
    assert_eq!(rewrite_html_tags("<u>a</u>"), "<span class=\"cohoard-underline\">a</span>");
    assert_eq!(rewrite_html_tags("<pre><code>a</code></pre>"), "<div class=\"cohoard-codeblock\">a</div>");
    assert_eq!(
        rewrite_html_tags("<pre><code class=\"language-rust\">a</code></pre>"),
        "<div class=\"cohoard-codeblock language-rust\">a</div>"
    );
    assert_eq!(rewrite_html_tags("<code>a</code>"), "<span class=\"cohoard-code\">a</span>");
}

#[test]
fn markdown_inline_code_and_emphasis() {
    assert_eq!(
        markdown_to_html("*a* `b` ~~c~~"),
        "<em>a</em> <span class=\"cohoard-code\">b</span> <del>c</del>\n"
    );
}

#[test]
fn markdown_code_block_with_language() {
    assert_eq!(
        markdown_to_html("```rust\nlet x = 1;\n```"),
        "<div class=\"cohoard-codeblock language-rust\">let x = 1;\n</div>\n"
    );
}

#[test]
fn markdown_underline_tag_becomes_span() {
    assert_eq!(markdown_to_html("<u>x</u>"), "<span class=\"cohoard-underline\">x</span>\n");
}

#[test]
fn join_lines_puts_line_feeds_between() {
    assert_eq!(join_lines(&vec![]), "");
    assert_eq!(join_lines(&vec!["a".to_string()]), "a");
    assert_eq!(join_lines(&vec!["a".to_string(), "b".to_string(), "".to_string()]), "a\nb\n");
}

#[test]
fn sanitize_unwraps_document_shell() {
    assert_eq!(sanitize("<div>hi</div>").ok().unwrap(), "<div>hi</div>");
}

#[test]
fn sanitize_strips_class_and_id() {
    let out = sanitize("<div class=\"a\" id=\"b\" title=\"t\"><span class=\"c\">x</span></div>").ok().unwrap();
    assert_eq!(out, "<div title=\"t\"><span>x</span></div>");
}

#[test]
fn sanitize_inlines_styles() {
    let out = sanitize("<style>.n { color: red }</style><p class=\"n\">x</p>").ok().unwrap();
    assert!(!out.contains("<style"));
    assert!(!out.contains("class"));
    assert!(out.contains("color"));
    assert!(out.contains("red"));
    assert!(out.contains(">x</p>"));
}

#[test]
fn sanitize_refuses_linked_stylesheet() {
    match sanitize("<link rel=\"stylesheet\" href=\"a.css\"><p>x</p>") {
        Err(SanitizeError::StyleInline(_)) => {}
        _ => panic!("expected a style inlining error"),
    }
}

#[test]
fn sanitize_joins_body_children_with_line_feeds() {
    assert_eq!(sanitize("<p>a</p><p>b</p>").ok().unwrap(), "<p>a</p>\n<p>b</p>");
}

#[test]
fn sanitize_keeps_other_attributes() {
    assert_eq!(
        sanitize("<p class=\"a\" id=\"b\" title=\"c\">x</p>").ok().unwrap(),
        "<p title=\"c\">x</p>"
    );
}

#[test]
fn remove_class_and_id_keeps_the_rest_of_the_document() {
    let mut doc = kuchiki::parse_html().one("<div id=\"i\" lang=\"en\"><b class=\"k\">t</b> u</div>");
    assert_eq!(cohoard::remove_class_and_id_attributes(&mut doc), Ok(()));
    assert_eq!(
        doc.to_string(),
        "<html><head></head><body><div lang=\"en\"><b>t</b> u</div></body></html>"
    );
}
