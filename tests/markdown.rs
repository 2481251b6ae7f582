use chat_server::{
    group_list, parse_header, parse_inner, parse_list, parse_md, parse_paragraph, Config, HtmlRenderer,
    MarkdownElement, MarkdownError, Renderer,
};

#[test]
fn test_parse_md_ok() {
    let content = "### Some header".to_string();

    let res = parse_md(content, &Config::default()).unwrap();

    assert_eq!(res.len(), 1);

    match &res[0] {
        MarkdownElement::Header(count, text) => {
            assert_eq!(*count, 3);
            assert_eq!(text, "Some header");
        }
        _ => panic!("Expected a header element"),
    }
}

#[test]
fn test_parse_md_invalid_header() {
    let content = "######## Some header".to_string();

    let result = parse_md(content, &Config::default());
    assert!(result.is_err());
}

#[test]
fn test_various_header_levels() {
    for level in 1..=6 {
        let markdown = format!("{} Header Level {}", "#".repeat(level), level);
        let config = Config::default();
        let result = parse_md(markdown, &config).unwrap();

        assert_eq!(result.len(), 1);
        match &result[0] {
            MarkdownElement::Header(parsed_level, _) => {
                assert_eq!(*parsed_level, level as u8);
            }
            _ => panic!("Expected header"),
        }
    }
}

#[test]
fn test_mixed_content() {
    let content = r#"# Title
Paragraph 1

## Subtitle
- Item 1
- Item 2

Another paragraph."#
        .to_string();

    let result = parse_md(content, &Config::default()).unwrap();

    // Should have: Header, Paragraph, Header, 2 Lists, Paragraph
    assert_eq!(result.len(), 6);
}

#[test]
fn parse_md_reports_the_depth_of_a_too_deep_header() {
    let config = Config::new("in.md", "out.html").with_max_header_level(2);
    match parse_md("# ok\n### too deep\n".to_string(), &config) {
        Err(MarkdownError::HeaderTooDeep(k)) => assert_eq!(k, 3),
        Ok(_) => panic!("expected an error"),
    }
}

#[test]
fn parse_md_elements_and_texts() {
    let res = parse_md("  -   item one \n\n plain text \r\n#   Head  ".to_string(), &Config::default()).unwrap();
    assert_eq!(res.len(), 3);
    assert!(matches!(&res[0], MarkdownElement::List(t) if t == "item one"));
    assert!(matches!(&res[1], MarkdownElement::Paragraph(t) if t == "plain text"));
    assert!(matches!(&res[2], MarkdownElement::Header(1, t) if t == "Head"));
}

#[test]
fn parse_md_empty_document() {
    assert_eq!(parse_md(String::new(), &Config::default()).unwrap().len(), 0);
}

#[test]
fn config_builders() {
    let c = Config::new("a.md", "a.html")
        .with_full_html(true)
        .with_max_header_level(4)
        .with_input_path("b.md")
        .with_output_path("b.html");
    assert_eq!(c.input_path, "b.md");
    assert_eq!(c.output_path, "b.html");
    assert!(c.full_html_document);
    assert_eq!(c.max_header_level, 4);
    let d = Config::default();
    assert_eq!(d.input_path, "test.md");
    assert_eq!(d.output_path, "output.html");
    assert!(!d.full_html_document);
    assert_eq!(d.max_header_level, 6);
}

#[test]
fn inline_formatting_becomes_html() {
    assert_eq!(parse_inner("a **b** c"), "a <strong>b</strong> c");
    assert_eq!(parse_inner("*i* and `x`"), "<em>i</em> and <code>x</code>");
    assert_eq!(parse_inner("[site](http://x.y)"), "<a href=\"http://x.y\">site</a>");
    assert_eq!(parse_inner("plain"), "plain");
}

#[test]
fn element_html() {
    assert_eq!(parse_header(2, "Hi *there*"), "<h2>Hi <em>there</em></h2>");
    assert_eq!(parse_header(12, "x"), "<h12>x</h12>");
    assert_eq!(parse_paragraph("p"), "<p>p</p>");
    assert_eq!(parse_list("l"), "<li>l</li>");
}

#[test]
fn group_list_wraps_runs_of_items() {
    let v: Vec<String> = ["<h1>T</h1>", "<li>a</li>", "<li>b</li>", "<p>x</p>", "<li>c</li>"]
        .iter()
        .map(|s| s.to_string())
        .collect();
    assert_eq!(
        group_list(&v),
        vec!["<h1>T</h1>", "<ul>\n<li>a</li>\n<li>b</li>\n</ul>", "<p>x</p>", "<ul>\n<li>c</li>\n</ul>"]
    );
    assert_eq!(group_list(&vec![]), Vec::<String>::new());
}

#[test]
fn render_document() {
    let renderer = HtmlRenderer::new(Config::default());
    let elements = parse_md(
        "# Test Header\n\nThis is a test paragraph with **bold** text.\n\n- First item\n- Second item\n".to_string(),
        &Config::default(),
    )
    .unwrap();
    let html = renderer.render(&elements).unwrap();
    assert_eq!(
        html,
        "<h1>Test Header</h1>\n<p>This is a test paragraph with <strong>bold</strong> text.</p>\n<ul>\n<li>First item</li>\n<li>Second item</li>\n</ul>"
    );
    let one = renderer.render_element(&MarkdownElement::Paragraph("x".to_string())).unwrap();
    assert_eq!(one, "<p>x</p>");
}
