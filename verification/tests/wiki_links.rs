use freenet_wiki_common::wiki_links::{extract_wiki_links, get_linked_pages, html_escape, render_wiki_links};

#[test]
fn test_simple_link() {
    let content = "See [[Home Page]] for more.";
    let links = extract_wiki_links(content);

    assert_eq!(links.len(), 1);
    assert_eq!(links[0].path.as_str(), "home page");
    assert_eq!(links[0].display, None);
}

#[test]
fn test_link_with_display_text() {
    let content = "Check out the [[docs/api|API Documentation]].";
    let links = extract_wiki_links(content);

    assert_eq!(links.len(), 1);
    assert_eq!(links[0].path.as_str(), "docs/api");
    assert_eq!(links[0].display, Some("API Documentation".to_string()));
}

#[test]
fn test_multiple_links() {
    let content = "See [[Home]] and [[About]] pages.";
    let links = extract_wiki_links(content);

    assert_eq!(links.len(), 2);
    assert_eq!(links[0].path.as_str(), "home");
    assert_eq!(links[1].path.as_str(), "about");
}

#[test]
fn test_render_simple_link() {
    let content = "See [[Home Page]] for more.";
    let rendered = render_wiki_links(content);

    assert_eq!(rendered, "See <a href=\"#/home page\">Home Page</a> for more.");
}

#[test]
fn test_render_link_with_display() {
    let content = "Check [[docs/api|the API]].";
    let rendered = render_wiki_links(content);

    assert_eq!(rendered, "Check <a href=\"#/docs/api\">the API</a>.");
}

#[test]
fn test_html_escape_in_display() {
    let content = "See [[test|<script>alert('xss')</script>]].";
    let rendered = render_wiki_links(content);

    assert!(rendered.contains("&lt;script&gt;"));
    assert!(!rendered.contains("<script>"));
}

#[test]
fn test_no_links() {
    let content = "No links here.";
    let links = extract_wiki_links(content);
    assert!(links.is_empty());

    let rendered = render_wiki_links(content);
    assert_eq!(rendered, content);
}

#[test]
fn test_get_linked_pages() {
    let content = "Links to [[Home]], [[About]], and [[Home]] again.";
    let pages = get_linked_pages(content);

    assert_eq!(pages.len(), 2);
    assert!(pages.iter().any(|p| p.as_str() == "home"));
    assert!(pages.iter().any(|p| p.as_str() == "about"));
}

#[test]
fn link_offsets_are_byte_positions() {
    let links = extract_wiki_links("é [[A]]");
    assert_eq!(links.len(), 1);
    assert_eq!(links[0].start, 3);
    assert_eq!(links[0].end, 8);
}

#[test]
fn unclosed_link_runs_to_the_end() {
    let links = extract_wiki_links("x [[Open");
    assert_eq!(links.len(), 1);
    assert_eq!(links[0].path.as_str(), "open");
    assert_eq!(links[0].end, 8);
}

#[test]
fn linked_pages_are_sorted() {
    let pages = get_linked_pages("[[b]] [[a]] [[c]] [[a]]");
    let names: Vec<&str> = pages.iter().map(|p| p.as_str()).collect();
    assert_eq!(names, vec!["a", "b", "c"]);
}

#[test]
fn html_escape_exact() {
    assert_eq!(html_escape("<a href=\"x\">'&'</a>"), "&lt;a href=&quot;x&quot;&gt;'&amp;'&lt;/a&gt;");
    assert_eq!(html_escape("plain"), "plain");
}

#[test]
fn render_escapes_the_display_text() {
    assert_eq!(render_wiki_links("[[A&B]]"), "<a href=\"#/a&b\">A&amp;B</a>");
    assert_eq!(render_wiki_links("x [[Open"), "x <a href=\"#/open\">Op</a>");
}
