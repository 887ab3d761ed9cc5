use mdbook_timeline::{
    compute_gap_label, join_desc_block, md_inline, parse_entries, render_desc_html, render_entry,
    TimelineEntry,
};

    #[test]
    fn test_parse_single_entry() {
        let input = r#"
{{label}}2024{{/label}}
{{card-start}}
#### Executive Director
company: Global Tech Solutions
location: London, UK
desc: Leading the transformation.
tags: AI | Strategy | Leadership
active: true
{{card-end}}
"#;
        let entries = parse_entries(input);
        assert_eq!(entries.len(), 1);
        let e = &entries[0];
        assert_eq!(e.label, "2024");
        assert_eq!(e.title.as_deref(), Some("Executive Director"));
        assert_eq!(e.company.as_deref(), Some("Global Tech Solutions"));
        assert_eq!(e.location.as_deref(), Some("London, UK"));
        assert!(e.active);
        assert_eq!(e.tags.len(), 3);
        assert_eq!(e.tags[0], "AI");
    }

    #[test]
    fn test_parse_multiple_entries() {
        let input = r#"
{{label}}2024{{/label}}
{{card-start}}
#### Role A
company: Company A
{{card-end}}

{{label}}2021{{/label}}
{{card-start}}
#### Role B
company: Company B
{{card-end}}
"#;
        let entries = parse_entries(input);
        assert_eq!(entries.len(), 2);
        assert_eq!(entries[0].label, "2024");
        assert_eq!(entries[1].label, "2021");
    }

    #[test]
    fn test_parse_minimal_entry() {
        let input = r#"
{{label}}2020{{/label}}
{{card-start}}
#### Just a title
{{card-end}}
"#;
        let entries = parse_entries(input);
        assert_eq!(entries.len(), 1);
        assert_eq!(entries[0].title.as_deref(), Some("Just a title"));
        assert!(!entries[0].active);
    }

    #[test]
    fn test_compute_gap_label() {
        assert_eq!(
            compute_gap_label("2024", "2021"),
            Some("3 Years".to_string())
        );
        assert_eq!(
            compute_gap_label("2021", "2020"),
            Some("1 Year".to_string())
        );
        assert_eq!(
            compute_gap_label("2020", "2021"),
            Some("< 1 Year".to_string())
        );
        assert_eq!(compute_gap_label("Ancient", "Medieval"), None);
    }

    #[test]
    fn test_html_in_values_is_preserved() {
        let input = r#"
{{label}}<script>alert(1)</script>{{/label}}
{{card-start}}
#### <b>Bold Title</b>
company: Evil & Co.
tags: XSS | <img onerror=alert(1)>
{{card-end}}
"#;
        let entries = parse_entries(input);
        // Values are not escaped by parse_card: HTML from other
        // preprocessors (e.g. inplace-note) must be preserved.
        assert_eq!(entries[0].label, "<script>alert(1)</script>");
        assert_eq!(entries[0].title.as_deref(), Some("<b>Bold Title</b>"));
        assert_eq!(entries[0].company.as_deref(), Some("Evil & Co."));
        assert_eq!(entries[0].tags[0], "XSS");
        assert_eq!(entries[0].tags[1], "<img onerror=alert(1)>");
    }

    #[test]
    fn test_tags_pipe_separated() {
        let input = r#"
{{label}}2023{{/label}}
{{card-start}}
#### Role
tags: Rust | mdBook | Preprocessor
{{card-end}}
"#;
        let entries = parse_entries(input);
        assert_eq!(entries[0].tags, vec!["Rust", "mdBook", "Preprocessor"]);
    }

    #[test]
    fn test_md_inline_basic() {
        // bold, italics, strikethrough, inline code, links, underline HTML
        assert_eq!(md_inline("**bold**"), "<strong>bold</strong>");
        assert_eq!(md_inline("*italic*"), "<em>italic</em>");
        assert_eq!(md_inline("~~strike~~"), "<del>strike</del>");
        assert_eq!(md_inline("`code`"), "<code>code</code>");
        assert_eq!(
            md_inline("[site](https://example.com)"),
            r#"<a href="https://example.com">site</a>"#
        );
        // `<u>` is a raw inline HTML tag, so it passes straight through.
        assert_eq!(md_inline("<u>under</u>"), "<u>under</u>");
    }

    #[test]
    fn test_render_desc_markdown() {
        let entry = TimelineEntry {
            label: "2024".to_string(),
            title: Some("**Executive** Director".to_string()),
            company: Some("Global *Tech*".to_string()),
            location: Some("London, UK".to_string()),
            desc: Some(
                "Leading **the** transformation with *AI* and ~~legacy~~ systems.".to_string(),
            ),
            tags: vec!["AI".to_string()],
            active: true,
            images: Vec::new(),
        };
        let html = render_entry(&entry);
        assert!(html.contains("<h3><strong>Executive</strong> Director</h3>"));
        assert!(html.contains("Global <em>Tech</em>"));
        assert!(html.contains(
            "<p class=\"tl-desc\">Leading <strong>the</strong> transformation with <em>AI</em> \
             and <del>legacy</del> systems.</p>"
        ));
    }

    #[test]
    fn test_md_inline_preserves_html_ampersand() {
        // `&` should be escaped in the rendered HTML, not passed raw.
        assert_eq!(md_inline("Evil & Co."), "Evil &amp; Co.");
    }

    #[test]
    fn test_parse_multiline_desc_block() {
        let input = r#"
{{label}}2024{{/label}}
{{card-start}}
#### Director
company: Global Tech
desc:
    First paragraph with **bold**.
    Second line of the first paragraph.

    Second paragraph with *italic*.
tags: AI | Strategy | Leadership
active: true
{{card-end}}
"#;
        let entries = parse_entries(input);
        assert_eq!(entries.len(), 1);
        let e = &entries[0];
        assert_eq!(
            e.desc.as_deref(),
            Some(
                "First paragraph with **bold**.\nSecond line of the first paragraph.\n\n\
                 Second paragraph with *italic*."
            )
        );
        // Fields after the block must still be detected.
        assert_eq!(e.tags, vec!["AI", "Strategy", "Leadership"]);
        assert!(e.active);
        assert_eq!(e.company.as_deref(), Some("Global Tech"));
    }

    #[test]
    fn test_parse_multiline_desc_keeps_subsequent_fields() {
        // Fields after an indented desc block must not be swallowed.
        let input = r#"
{{label}}2024{{/label}}
{{card-start}}
#### Director
desc:
    Only paragraph here.
company: After Block
location: Paris
{{card-end}}
"#;
        let entries = parse_entries(input);
        assert_eq!(entries[0].desc.as_deref(), Some("Only paragraph here."));
        assert_eq!(entries[0].company.as_deref(), Some("After Block"));
        assert_eq!(entries[0].location.as_deref(), Some("Paris"));
    }

    #[test]
    fn test_parse_desc_mixed_same_line_and_block() {
        // A value on the `desc:` line plus indented continuation lines.
        let input = r#"
{{label}}2024{{/label}}
{{card-start}}
#### Director
desc: Opening sentence.
    Continued on the next indented line.
{{card-end}}
"#;
        let entries = parse_entries(input);
        assert_eq!(
            entries[0].desc.as_deref(),
            Some("Opening sentence.\nContinued on the next indented line.")
        );
    }

    #[test]
    fn test_render_desc_paragraphs() {
        // Single paragraph stays a `<p class="tl-desc">`.
        let single = render_desc_html("Just **one** paragraph.");
        assert_eq!(
            single,
            "<p class=\"tl-desc\">Just <strong>one</strong> paragraph.</p>"
        );

        // Multiple paragraphs wrap in `<div class="tl-desc">`.
        let multi = render_desc_html("First paragraph.\n\nSecond paragraph.");
        assert!(multi.starts_with("<div class=\"tl-desc\">"));
        assert!(multi.contains("<p>First paragraph.</p>"));
        assert!(multi.contains("<p>Second paragraph.</p>"));
        assert!(multi.ends_with("</div>"));
    }

    #[test]
    fn test_join_desc_block() {
        assert_eq!(join_desc_block(vec![]), "");
        assert_eq!(join_desc_block(vec!["a".into(), "b".into()]), "a\nb");
        assert_eq!(
            join_desc_block(vec!["a".into(), "".into(), "b".into()]),
            "a\n\nb"
        );
        // Leading/trailing blanks and run-on blanks are dropped.
        assert_eq!(
            join_desc_block(vec!["".into(), "a".into(), "".into(), "".into(), "b".into(), "".into()]),
            "a\n\nb"
        );
    }
