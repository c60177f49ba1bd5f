use protogen::research::{
    extract_between, parse_ddg_html, research_context, research_queries, strip_tags,
};

fn block(title: &str, snippet: &str, url: &str) -> String {
    format!(
        "<div class=\"result__body\"><a href=\"{url}\" class=\"result__a\">{title}</a>\
         <a class=\"result__snippet\">{snippet}</a></div>"
    )
}

#[test]
fn text_between_markers() {
    assert_eq!(extract_between("a<b>c</b>", "<b>", "</b>"), Some("c".to_string()));
    assert_eq!(extract_between("</b><b>c", "<b>", "</b>"), None);
    assert_eq!(extract_between("x", "<b>", "</b>"), None);
    assert_eq!(extract_between("aXbYcY", "X", "Y"), Some("b".to_string()));
    assert_eq!(extract_between("\u{e9}[\u{fc}]", "[", "]"), Some("\u{fc}".to_string()));
}

#[test]
fn tags_are_stripped() {
    assert_eq!(strip_tags(" <b>Hypr</b>land <i>x</i> "), "Hyprland x");
    assert_eq!(strip_tags("a > b < c"), "a  b");
    assert_eq!(strip_tags("<only tags>"), "");
    assert!(!strip_tags("<<a>>b<c").contains(['<', '>']));
    assert_eq!(strip_tags(" no tags, only blanks\t"), "no tags, only blanks");
    for text in [" <b>Hypr</b>land <i>x</i> ", "a > b < c", "<b> </b>x <", ""] {
        let once = strip_tags(text);
        assert_eq!(strip_tags(&once), once);
    }
}

#[test]
fn result_pages_are_read() {
    let html = format!(
        "<html>{}{}{}{}</html>",
        block("<b>Hyprland</b> wiki", "How to <i>install</i>", "https://wiki"),
        block("", "no title", "https://x"),
        block("Second", "two", "https://two"),
        block("Third", "three", "https://three"),
    );
    let results = parse_ddg_html(&html, 3);
    assert_eq!(results.len(), 2);
    assert_eq!(results[0].title, "Hyprland wiki");
    assert_eq!(results[0].snippet, "How to install");
    assert_eq!(results[0].url, "https://wiki");
    assert_eq!(results[1].title, "Second");
    assert_eq!(parse_ddg_html(&html, 10).len(), 3);
    assert_eq!(parse_ddg_html(&html, 0).len(), 0);
    assert!(parse_ddg_html("<html>other markup</html>", 3).is_empty());
}

#[test]
fn queries_name_the_distribution() {
    assert_eq!(
        research_queries("install hyprland", "arch"),
        vec![
            "install hyprland arch package name",
            "install hyprland arch wiki OR official docs",
        ]
    );
}

#[test]
fn context_has_one_line_per_result() {
    let pages = vec![
        Some(block("A", "a", "u") + &block("B", "b", "v")),
        None,
        Some("nothing".to_string()),
        Some(block("C", "c", "w")),
    ];
    assert_eq!(research_context(&pages), "- A (u): a\n- B (v): b\n- C (w): c");
    assert_eq!(research_context(&vec![None, None]), "");
    let many = (0..5).map(|i| block(&i.to_string(), "s", "u")).collect::<String>();
    assert_eq!(research_context(&vec![Some(many)]).lines().count(), 3);
}
