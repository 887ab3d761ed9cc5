use mdbook_timeline::assets::{TIMELINE_CSS, TIMELINE_JS};
use mdbook_timeline::card::{is_desc_key, set_field};
use mdbook_timeline::markdown::{paragraph_count, unwrap_paragraph_html};
use mdbook_timeline::{
    compute_gap_label, indentation_of, join_desc_block, labels_gap_fit, md_html, md_inline, parse_card,
    parse_entries, render_entry, render_gap, render_timeline, TimelineConfig, TimelineEntry,
    TimelinePreprocessor,
};

fn entry(label: &str, title: Option<&str>) -> TimelineEntry {
    TimelineEntry {
        label: label.to_string(),
        title: title.map(|t| t.to_string()),
        company: None,
        location: None,
        desc: None,
        tags: Vec::new(),
        active: false,
        images: Vec::new(),
    }
}

fn style(content: &str) -> String {
    format!("<style>\n{}\n</style>\n{}", TIMELINE_CSS, content)
}

fn script(content: &str) -> String {
    format!("{}\n<script>\n{}\n</script>", content, TIMELINE_JS)
}

#[test]
fn gap_label_signs_and_spacing() {
    assert_eq!(compute_gap_label("+5", "-3"), Some("8 Years".to_string()));
    assert_eq!(compute_gap_label("2020", "2020"), Some("< 1 Year".to_string()));
    assert_eq!(compute_gap_label(" 2020", "2019"), None);
    assert_eq!(compute_gap_label("", "2019"), None);
    assert_eq!(compute_gap_label("-", "1"), None);
    assert_eq!(compute_gap_label("2024 Q1", "2023 Q3"), None);
    assert_eq!(compute_gap_label("100", "0"), Some("100 Years".to_string()));
}

#[test]
fn gap_label_i64_range() {
    assert_eq!(compute_gap_label("9223372036854775808", "0"), None);
    assert_eq!(
        compute_gap_label("-9223372036854775808", "0"),
        Some("< 1 Year".to_string())
    );
    assert_eq!(
        compute_gap_label("9223372036854775807", "0"),
        Some("9223372036854775807 Years".to_string())
    );
    assert_eq!(compute_gap_label("0009", "0007"), Some("2 Years".to_string()));
}

#[test]
fn gap_markup() {
    let a = entry("2024", None);
    let b = entry("2021", None);
    let c = entry("Medieval", None);
    assert_eq!(
        render_gap(&a, &b, 4),
        "<div class=\"tl-duration-gap\" data-gap=\"4\" data-label=\"3 Years\"></div>"
    );
    assert_eq!(render_gap(&a, &c, 0), "");
}

#[test]
fn indentation_counts_whitespace_characters() {
    assert_eq!(indentation_of("  \tx"), 3);
    assert_eq!(indentation_of(""), 0);
    assert_eq!(indentation_of("x  "), 0);
    assert_eq!(indentation_of("\u{3000}x"), 1);
    assert_eq!(indentation_of("   "), 3);
}

#[test]
fn join_desc_single_paragraph_law() {
    assert_eq!(
        join_desc_block(vec!["one".into(), "two".into(), "three".into()]),
        "one\ntwo\nthree"
    );
    assert_eq!(join_desc_block(vec!["".into(), "".into()]), "");
    assert_eq!(
        join_desc_block(vec!["a".into(), "".into(), "".into(), "".into(), "b".into()]),
        join_desc_block(vec!["a".into(), "".into(), "b".into()])
    );
}

#[test]
fn card_keys_are_case_insensitive() {
    let e = parse_card("L", "COMPANY: Acme\n  Location  :  Paris \nActive: TRUE\n");
    assert_eq!(e.label, "L");
    assert_eq!(e.company.as_deref(), Some("Acme"));
    assert_eq!(e.location.as_deref(), Some("Paris"));
    assert!(e.active);
    let e = parse_card("L", "active: yes\n");
    assert!(!e.active);
}

#[test]
fn card_last_value_wins_and_unknown_keys_ignored() {
    let e = parse_card("L", "company: A\ncompany: B\nurl: http://x\n#### One\n#### Two\n");
    assert_eq!(e.company.as_deref(), Some("B"));
    assert_eq!(e.title.as_deref(), Some("Two"));
    assert_eq!(e.desc, None);
    assert!(e.tags.is_empty());
}

#[test]
fn card_tags_drop_empty_pieces() {
    let e = parse_card("L", "tags: a || b |  \n");
    assert_eq!(e.tags, vec!["a", "b"]);
    let e = parse_card("L", "tags:\n");
    assert!(e.tags.is_empty());
}

#[test]
fn card_images() {
    let e = parse_card(
        "L",
        "![Data center](https://example.com/a.png)\n![ a ]( u ) and ![b](v)\n![none]()\n",
    );
    assert_eq!(
        e.images,
        vec![
            ("https://example.com/a.png".to_string(), "Data center".to_string()),
            ("u".to_string(), "a".to_string()),
            ("v".to_string(), "b".to_string()),
        ]
    );
}

#[test]
fn card_image_on_field_line() {
    let e = parse_card("L", "desc: see ![pic](p.png)\n");
    assert_eq!(e.images, vec![("p.png".to_string(), "pic".to_string())]);
    assert_eq!(e.desc.as_deref(), Some("see ![pic](p.png)"));
}

#[test]
fn card_crlf_lines() {
    let e = parse_card("L", "#### Title\r\ncompany: Acme\r\n");
    assert_eq!(e.title.as_deref(), Some("Title"));
    assert_eq!(e.company.as_deref(), Some("Acme"));
}

#[test]
fn card_desc_block_edges() {
    let card = "  desc:\n\n      first\n\n\n      second\n\n  company: After\n      not desc\n";
    let e = parse_card("L", card);
    assert_eq!(e.desc.as_deref(), Some("first\n\nsecond"));
    assert_eq!(e.company.as_deref(), Some("After"));
    let e = parse_card("L", "description: only\n");
    assert_eq!(e.desc.as_deref(), Some("only"));
    let e = parse_card("L", "desc:\n");
    assert_eq!(e.desc.as_deref(), Some(""));
}

#[test]
fn entries_need_all_four_markers() {
    assert!(parse_entries("{{label}}2024{{/label}}{{card-start}}#### A").is_empty());
    assert!(parse_entries("{{label}}2024{{card-start}}#### A{{card-end}}").is_empty());
    assert!(parse_entries("").is_empty());
    let es = parse_entries("junk {{label}} 1 {{/label}}x{{card-start}}#### A{{card-end}} tail");
    assert_eq!(es.len(), 1);
    assert_eq!(es[0].label, "1");
    assert_eq!(es[0].title.as_deref(), Some("A"));
}

#[test]
fn entries_take_nearest_markers() {
    let es = parse_entries(
        "{{label}}a{{/label}}{{label}}b{{/label}}{{card-start}}#### T{{card-end}}{{card-end}}",
    );
    assert_eq!(es.len(), 1);
    assert_eq!(es[0].label, "a");
    assert_eq!(es[0].title.as_deref(), Some("T"));
}

#[test]
fn markdown_block_html() {
    assert_eq!(md_html("a\n\nb"), "<p>a</p>\n<p>b</p>");
    assert_eq!(md_html("  plain  "), "<p>plain</p>");
    assert_eq!(md_inline("# Heading"), "<h1>Heading</h1>");
    assert_eq!(md_inline(""), "");
}

#[test]
fn entry_markup_minimal() {
    let mut e = entry("2024", Some("Role"));
    e.company = Some("Acme".to_string());
    assert_eq!(
        render_entry(&e),
        "<div class=\"tl-entry\"><div class=\"tl-label-wrap\"><span class=\"tl-label\">2024</span></div>\
         <div class=\"tl-card\"><div class=\"tl-card-title\"><h3>Role</h3></div>\
         <div class=\"tl-company\">Acme</div></div></div>"
    );
}

#[test]
fn entry_markup_full() {
    let e = TimelineEntry {
        label: "2020".to_string(),
        title: None,
        company: None,
        location: Some("Paris".to_string()),
        desc: Some("A.\n\nB.".to_string()),
        tags: vec!["x".to_string(), "*y*".to_string()],
        active: true,
        images: vec![("u.png".to_string(), "alt".to_string())],
    };
    assert_eq!(
        render_entry(&e),
        "<div class=\"tl-entry active\"><div class=\"tl-label-wrap\"><span class=\"tl-label\">2020</span></div>\
         <div class=\"tl-card\"><div class=\"tl-card-title\"><h3>Untitled</h3>\
         <span class=\"tl-badge-active\">Active</span></div>\
         <div class=\"tl-company\"><span class=\"tl-location\">Paris</span></div>\
         <div class=\"tl-desc\"><p>A.</p>\n<p>B.</p></div>\
         <div class=\"tl-image\"><img src=\"u.png\" alt=\"alt\" /></div>\
         <div class=\"tl-tags\"><span class=\"tl-tag\">x</span><span class=\"tl-tag\"><em>y</em></span></div>\
         </div></div>"
    );
}

#[test]
fn entry_company_and_location() {
    let mut e = entry("1", Some("T"));
    e.company = Some("C".to_string());
    e.location = Some("L".to_string());
    let html = render_entry(&e);
    assert!(html.contains(
        "<div class=\"tl-company\">C <span class=\"tl-location\">\u{2022} L</span></div>"
    ));
}

#[test]
fn timeline_markup_with_gaps_and_frame() {
    let config = TimelineConfig::from_settings(
        None,
        None,
        Some("<section>".to_string()),
        Some("</section>".to_string()),
    );
    let es = vec![entry("2024", Some("A")), entry("2021", Some("B"))];
    let html = render_timeline(&es, 7, &config);
    let expected = format!(
        "<section>\n<div class=\"tl\" id=\"tl-7\">{}{}{}</div>\n</section>",
        render_entry(&es[0]),
        "<div class=\"tl-duration-gap\" data-gap=\"0\" data-label=\"3 Years\"></div>",
        render_entry(&es[1])
    );
    assert_eq!(html, expected);
}

#[test]
fn timeline_markup_without_gaps() {
    let config = TimelineConfig::from_settings(None, Some(false), None, None);
    let es = vec![entry("2024", Some("A")), entry("2021", Some("B"))];
    let html = render_timeline(&es, 1, &config);
    assert!(!html.contains("tl-duration-gap"));
    assert!(html.starts_with("<div class=\"tl\" id=\"tl-1\">"));
}

#[test]
fn config_markers() {
    let c = TimelineConfig::from_settings(Some("  journey ".to_string()), None, None, None);
    assert_eq!(c.markers(), &vec!["timeline".to_string(), "journey".to_string()]);
    assert!(c.duration_gaps());
    let c = TimelineConfig::from_settings(Some("timeline".to_string()), Some(false), None, None);
    assert_eq!(c.markers(), &vec!["timeline".to_string()]);
    assert!(!c.duration_gaps());
    let c = TimelineConfig::from_settings(Some("   ".to_string()), None, None, None);
    assert_eq!(c.markers(), &vec!["timeline".to_string()]);
    assert_eq!(c.before(), &None);
}

#[test]
fn renderer_support_and_name() {
    let p = TimelinePreprocessor::new();
    assert!(p.supports_renderer("html"));
    assert!(p.supports_renderer("markdown"));
    assert!(!p.supports_renderer("epub"));
    assert!(!p.supports_renderer("HTML"));
    assert_eq!(p.name(), "timeline-preprocessor");
}

const BLOCK: &str = "{{timeline}}\n{{label}}2024{{/label}}\n{{card-start}}\n#### A\n{{card-end}}\n{{/timeline}}";

#[test]
fn book_without_timelines_is_unchanged() {
    let config = TimelineConfig::from_settings(None, None, None, None);
    let chapters = vec!["# Intro".to_string(), "class=\"tl\" text".to_string(), "{{timeline}} open only".to_string()];
    let out = TimelinePreprocessor::new().run(&config, chapters.clone());
    assert_eq!(out, Some(chapters));
}

#[test]
fn style_goes_to_every_timeline_chapter() {
    let config = TimelineConfig::from_settings(None, None, None, None);
    let chapters = vec![
        "no timeline".to_string(),
        format!("before\n{}\nafter", BLOCK),
        BLOCK.to_string(),
        "mentions class=\"tl\"".to_string(),
    ];
    let out = TimelinePreprocessor::new().run(&config, chapters).unwrap();
    let es = parse_entries("\n{{label}}2024{{/label}}\n{{card-start}}\n#### A\n{{card-end}}\n");
    let tl = render_timeline(&es, 1, &config);
    assert_eq!(out.len(), 4);
    assert_eq!(out[0], "no timeline");
    assert_eq!(out[1], script(&style(&format!("before\n{}\nafter", tl))));
    assert_eq!(out[2], script(&style(&tl)));
    assert_eq!(out[3], script("mentions class=\"tl\""));
}

#[test]
fn blocks_in_a_chapter_are_numbered() {
    let config = TimelineConfig::from_settings(Some("era".to_string()), None, None, None);
    let era = BLOCK.replace("timeline", "era");
    let chapter = format!("{}\n{}\n{}", BLOCK, BLOCK, era);
    let out = TimelinePreprocessor::new().run(&config, vec![chapter]).unwrap();
    assert!(out[0].contains("id=\"tl-1\""));
    assert!(out[0].contains("id=\"tl-2\""));
    assert!(out[0].contains("id=\"tl-3\""));
    assert!(!out[0].contains("{{era}}"));
    assert!(out[0].starts_with("<style>\n"));
}

#[test]
fn overflowing_gap_gives_no_result() {
    let chapter = "{{timeline}}{{label}}9223372036854775807{{/label}}{{card-start}}{{card-end}}\
                   {{label}}-1{{/label}}{{card-start}}{{card-end}}{{/timeline}}"
        .to_string();
    let with_gaps = TimelineConfig::from_settings(None, None, None, None);
    assert_eq!(TimelinePreprocessor::new().run(&with_gaps, vec![chapter.clone()]), None);
    let without = TimelineConfig::from_settings(None, Some(false), None, None);
    assert!(TimelinePreprocessor::new().run(&without, vec![chapter]).is_some());
}

#[test]
fn example_journey_page() {
    let page = "{{journey}}\n\n{{label}}2024 Q1{{/label}}\n{{card-start}}\n#### v2.0\ncompany: mdBook Timeline\ntags: Rust | mdBook\nactive: true\n{{card-end}}\n\n{{label}}2023 Q3{{/label}}\n{{card-start}}\n#### v1.0\n{{card-end}}\n\n{{/journey}}\n\n---\n";
    let config = TimelineConfig::from_settings(Some("journey".to_string()), None, None, None);
    let out = TimelinePreprocessor::new().run(&config, vec![page.to_string()]).unwrap();
    let c = &out[0];
    assert!(c.starts_with("<style>\n"));
    assert!(c.contains("<div class=\"tl\" id=\"tl-1\">"));
    assert!(c.contains("<div class=\"tl-entry active\">"));
    assert!(c.contains("<span class=\"tl-tag\">Rust</span><span class=\"tl-tag\">mdBook</span>"));
    assert!(!c.contains("data-gap"));
    assert!(c.contains("</div>\n\n---\n"));
    assert!(c.ends_with("</script>"));
}

#[test]
fn entries_ignore_leading_text_law() {
    let block = "{{label}}2024{{/label}}\n{{card-start}}\n#### A\ncompany: C\n{{card-end}}";
    let plain = parse_entries(block);
    let prefixed = parse_entries(&format!("Intro text, no braces here.\n\n{}", block));
    assert_eq!(plain.len(), 1);
    assert_eq!(prefixed.len(), 1);
    assert_eq!(plain[0].label, prefixed[0].label);
    assert_eq!(plain[0].title, prefixed[0].title);
    assert_eq!(plain[0].company, prefixed[0].company);
}

#[test]
fn unwrap_paragraph_cases() {
    assert_eq!(unwrap_paragraph_html("<p> a </p>"), "a");
    assert_eq!(unwrap_paragraph_html("<p></p>"), "");
    assert_eq!(unwrap_paragraph_html("<p>a</p>\n<p>b</p>"), "a</p>\n<p>b");
    assert_eq!(unwrap_paragraph_html("<h1>x</h1>"), "<h1>x</h1>");
    assert_eq!(unwrap_paragraph_html("<p>"), "<p>");
}

#[test]
fn paragraph_count_cases() {
    assert_eq!(paragraph_count(""), 0);
    assert_eq!(paragraph_count("<p>a</p>"), 1);
    assert_eq!(paragraph_count("<p>a</p>\n<p>b</p><p>"), 3);
    assert_eq!(paragraph_count("<pre>"), 0);
}

#[test]
fn field_keys() {
    assert!(is_desc_key("desc"));
    assert!(is_desc_key("description"));
    assert!(!is_desc_key("Desc"));
    let mut e = entry("L", None);
    let val: Vec<char> = "True".chars().collect();
    set_field(&mut e, "active", &val);
    assert!(e.active);
    let val: Vec<char> = "x | y".chars().collect();
    set_field(&mut e, "tags", &val);
    assert_eq!(e.tags, vec!["x", "y"]);
    set_field(&mut e, "Company", &val);
    assert_eq!(e.company, None);
    set_field(&mut e, "company", &val);
    assert_eq!(e.company.as_deref(), Some("x | y"));
}

#[test]
fn readme_design_example() {
    let block = r#"

{{label}}2024{{/label}}
{{card-start}}
#### Executive Director of Innovation
company: Global Tech Solutions
location: London, UK
desc: Leading the transformation of archival systems through AI-driven indexing.
tags: Strategic Planning | AI Systems | Team Leadership
active: true
{{card-end}}

{{label}}2021{{/label}}
{{card-start}}
#### Senior Product Architect
company: CloudStream Infrastructure
desc: Spearheaded the migration of legacy data centers to a unified cloud architecture.
tags: Architecture | Migration
![Data center](https://images.unsplash.com/photo-1558494949-ef010cbdcc31?w=900&q=60)
{{card-end}}

"#;
    let es = parse_entries(block);
    assert_eq!(es.len(), 2);
    assert_eq!(es[0].tags, vec!["Strategic Planning", "AI Systems", "Team Leadership"]);
    assert!(es[0].active);
    assert!(!es[1].active);
    assert_eq!(
        es[1].images,
        vec![(
            "https://images.unsplash.com/photo-1558494949-ef010cbdcc31?w=900&q=60".to_string(),
            "Data center".to_string()
        )]
    );
    assert_eq!(
        es[1].desc.as_deref(),
        Some("Spearheaded the migration of legacy data centers to a unified cloud architecture.")
    );
    let config = TimelineConfig::from_settings(None, None, None, None);
    let html = render_timeline(&es, 1, &config);
    assert!(html.contains("data-gap=\"0\" data-label=\"3 Years\""));
}

#[test]
fn gap_fit_of_labels() {
    assert!(labels_gap_fit("2024", "2021"));
    assert!(labels_gap_fit("Ancient", "9223372036854775807"));
    assert!(labels_gap_fit("9223372036854775807", "0"));
    assert!(!labels_gap_fit("9223372036854775807", "-1"));
    assert!(!labels_gap_fit("-9223372036854775808", "1"));
    assert!(labels_gap_fit("-9223372036854775808", "0"));
}

#[test]
fn join_desc_empty_only_for_blank_lines() {
    assert_eq!(join_desc_block(vec!["".into(), "".into(), "".into()]), "");
    assert_ne!(join_desc_block(vec!["".into(), "x".into(), "".into()]), "");
}

#[test]
fn card_label_kept_verbatim() {
    let e = parse_card("  **2024** ", "\n   \n\t\n");
    assert_eq!(e.label, "  **2024** ");
    assert_eq!(e.title, None);
    assert_eq!(e.company, None);
    assert_eq!(e.location, None);
    assert_eq!(e.desc, None);
    assert!(e.tags.is_empty());
    assert!(!e.active);
    assert!(e.images.is_empty());
}

#[test]
fn unclosed_blocks_leave_book_unchanged() {
    let config = TimelineConfig::from_settings(Some("era".to_string()), None, None, None);
    let chapters = vec![
        "{{timeline}} never closed, class=\"tl\"".to_string(),
        "{{/era}} before {{era}}".to_string(),
    ];
    let out = TimelinePreprocessor::new().run(&config, chapters.clone());
    assert_eq!(out, Some(chapters));
}
