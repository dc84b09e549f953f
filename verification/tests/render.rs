use ferriki::render::{hast_node_to_html, render_hast, render_html, HastNode, RenderOptions};
use ferriki::tokens::{HighlightToken, HighlightTokensResult};

fn token(content: &str, offset: usize, color: &str, font_style: i32) -> HighlightToken {
    HighlightToken { content: content.to_owned(), offset, color: color.to_owned(), font_style, token_type: None }
}

/// The tokens that highlighting `console.log("Hi")` as JavaScript with the
/// nord theme gives.
fn console_log_tokens() -> HighlightTokensResult {
    HighlightTokensResult {
        tokens: vec![vec![
            token("console", 0, "#D8DEE9", 0),
            token(".", 7, "#ECEFF4", 0),
            token("log", 8, "#88C0D0", 0),
            token("(", 11, "#D8DEE9FF", 0),
            token("\"", 12, "#ECEFF4", 0),
            token("Hi", 13, "#A3BE8C", 0),
            token("\"", 15, "#ECEFF4", 0),
            token(")", 16, "#D8DEE9FF", 0),
        ]],
        foreground: "#d8dee9ff".to_owned(),
        background: "#2e3440ff".to_owned(),
        theme_name: "nord".to_owned(),
    }
}

/// The tokens that highlighting `a < b\n` as JavaScript with the nord theme
/// gives: two lines, the second empty.
fn comparison_tokens() -> HighlightTokensResult {
    HighlightTokensResult {
        tokens: vec![
            vec![
                token("a", 0, "#D8DEE9", 0),
                token(" ", 1, "#D8DEE9FF", 0),
                token("<", 2, "#81A1C1", 0),
                token(" ", 3, "#D8DEE9FF", 0),
                token("b", 4, "#D8DEE9", 0),
            ],
            vec![],
        ],
        foreground: "#d8dee9ff".to_owned(),
        background: "#2e3440ff".to_owned(),
        theme_name: "nord".to_owned(),
    }
}

fn children(node: &HastNode) -> &Vec<HastNode> {
    match node {
        HastNode::Root { children } => children,
        HastNode::Element { children, .. } => children,
        HastNode::Text { .. } => panic!("a text node has no children"),
    }
}

fn texts(node: &HastNode, out: &mut Vec<String>) {
    match node {
        HastNode::Text { value } => out.push(value.clone()),
        HastNode::Root { children } | HastNode::Element { children, .. } => {
            for child in children {
                texts(child, out);
            }
        }
    }
}

#[test]
fn renders_shiki_classic_html() {
    let html = render_html(&console_log_tokens(), &RenderOptions::new());

    assert_eq!(
        html,
        "<pre class=\"shiki nord\" style=\"background-color:#2e3440ff;color:#d8dee9ff\" tabindex=\"0\"><code><span class=\"line\"><span style=\"color:#D8DEE9\">console</span><span style=\"color:#ECEFF4\">.</span><span style=\"color:#88C0D0\">log</span><span style=\"color:#D8DEE9FF\">(</span><span style=\"color:#ECEFF4\">\"</span><span style=\"color:#A3BE8C\">Hi</span><span style=\"color:#ECEFF4\">\"</span><span style=\"color:#D8DEE9FF\">)</span></span></code></pre>"
    );
}

#[test]
fn renders_hast_lines_and_escapes_source_only_in_html() {
    let result = comparison_tokens();
    let hast = render_hast(&result, &RenderOptions::new());
    let html = render_html(&result, &RenderOptions::new());

    assert!(matches!(hast, HastNode::Root { .. }));
    let pre = &children(&hast)[0];
    let code = &children(pre)[0];
    match &children(code)[2] {
        HastNode::Element { properties, .. } => {
            assert_eq!(properties, &vec![("class".to_owned(), "line".to_owned())]);
        }
        other => panic!("unexpected node {:?}", other),
    }
    assert!(html.contains("&#x3C;"));
    let mut values = Vec::new();
    texts(&hast, &mut values);
    assert!(values.iter().any(|v| v.contains('<')));
    assert!(!values.iter().any(|v| v.contains("&#x3C;")));
}

#[test]
fn renders_root_style_tabindex_and_whitespace_choices() {
    let mut options = RenderOptions::new();
    options.include_root_style = false;
    options.tabindex = None;
    options.merge_whitespaces = false;
    let html = render_html(&comparison_tokens(), &options);
    assert!(html.starts_with("<pre class=\"shiki nord\"><code>"));
    assert!(html.contains("<span style=\"color:#D8DEE9FF\"> </span>"));
    assert!(html.ends_with("<span class=\"line\"></span></code></pre>"));

    // with whitespace merged, a blank token joins the token after it
    let merged = render_html(&comparison_tokens(), &RenderOptions::new());
    assert!(merged.contains("<span style=\"color:#81A1C1\"> &#x3C;</span>"));
}

#[test]
fn text_nodes_render_escaped_and_elements_with_attributes() {
    let node = HastNode::Element {
        tag_name: "span".to_owned(),
        properties: vec![("title".to_owned(), "a\"b&c".to_owned())],
        children: vec![HastNode::Text { value: "x<y&z".to_owned() }],
    };
    assert_eq!(hast_node_to_html(&node), "<span title=\"a&#x22;b&#x26;c\">x&#x3C;y&#x26;z</span>");
}
