use boreal::web::markdown::{parse_markdown, Emit, MarkdownEvent, MarkdownTag};
use boreal::web::notes::{autolink, render, rewrite_events, sanitize_note, MARKDOWN_OPTIONS};

#[test]
fn markdown_links_and_untrusted_html() {
    let html = render(
        "**bold** [site](https://example.org) https://example.com\n\n<script>alert(1)</script>\n\n[bad](javascript:alert%281%29)",
    );
    assert!(html.contains("<strong>bold</strong>"));
    assert!(html.contains("href=\"https://example.org\""));
    assert!(html.contains("href=\"https://example.com\""));
    assert!(html.contains("target=\"_blank\""));
    assert!(html.contains("noopener noreferrer"));
    assert!(!html.contains("<script>"));
    assert!(!html.contains("href=\"javascript:"));
    assert!(!render("`https://example.org`").contains("<a"));
}

fn shown(emits: &[Emit]) -> String {
    emits
        .iter()
        .map(|e| match e {
            Emit::Text(t) => t.clone(),
            _ => String::new(),
        })
        .collect()
}

#[test]
fn autolink_links_web_and_mail_addresses_and_keeps_the_text() {
    let text = "see https://example.org or write to ada@example.org today";
    let emits = autolink(text);
    assert_eq!(shown(&emits), text);
    assert!(matches!(&emits[0], Emit::Text(t) if t == "see "));
    assert!(matches!(&emits[1], Emit::StartInlineLink { url, title, id } if url == "https://example.org" && title.is_empty() && id.is_empty()));
    assert!(matches!(&emits[2], Emit::Text(t) if t == "https://example.org"));
    assert!(matches!(&emits[3], Emit::EndLink));
    assert!(matches!(&emits[4], Emit::Text(t) if t == " or write to "));
    assert!(matches!(&emits[5], Emit::StartInlineLink { url, .. } if url == "mailto:ada@example.org"));
    assert!(matches!(&emits[6], Emit::Text(t) if t == "ada@example.org"));
    assert!(matches!(&emits[7], Emit::EndLink));
    assert!(matches!(&emits[8], Emit::Text(t) if t == " today"));
    assert_eq!(emits.len(), 9);
    let plain = autolink("nothing to link");
    assert_eq!(plain.len(), 1);
    assert!(matches!(&plain[0], Emit::Text(t) if t == "nothing to link"));
    let only = autolink("https://example.org");
    assert!(matches!(&only[0], Emit::Text(t) if t.is_empty()));
    assert!(matches!(&only[4], Emit::Text(t) if t.is_empty()));
}

#[test]
fn rewriting_shows_html_as_text_and_leaves_links_and_code_alone() {
    let events = vec![
        (MarkdownEvent::Start, Some(MarkdownTag::Paragraph)),
        (MarkdownEvent::Html("<b>x</b>".into()), None),
        (MarkdownEvent::Start, Some(MarkdownTag::Link)),
        (MarkdownEvent::Text("https://inside.example".into()), None),
        (MarkdownEvent::End, Some(MarkdownTag::Link)),
        (MarkdownEvent::InlineHtml("<i>".into()), None),
        (MarkdownEvent::Start, Some(MarkdownTag::Emphasis)),
        (MarkdownEvent::Text("plain".into()), None),
    ];
    let emits = rewrite_events(&events);
    assert_eq!(emits.len(), 8);
    assert!(matches!(emits[0], Emit::Same(0)));
    assert!(matches!(&emits[1], Emit::Text(t) if t == "<b>x</b>"));
    assert!(matches!(emits[2], Emit::Same(2)));
    assert!(matches!(emits[3], Emit::Same(3)));
    assert!(matches!(emits[4], Emit::Same(4)));
    assert!(matches!(&emits[5], Emit::Text(t) if t == "<i>"));
    assert!(matches!(emits[6], Emit::Same(6)));
    assert!(matches!(&emits[7], Emit::Text(t) if t == "plain"));
}

#[test]
fn parsing_gives_each_event_with_its_element() {
    let events = parse_markdown("*a* [l](u) `c`\n\n<b>", MARKDOWN_OPTIONS);
    assert!(matches!(events[0], (MarkdownEvent::Start, Some(MarkdownTag::Paragraph))));
    assert!(matches!(events[1], (MarkdownEvent::Start, Some(MarkdownTag::Emphasis))));
    assert!(matches!(&events[2], (MarkdownEvent::Text(t), None) if t == "a"));
    assert!(matches!(events[3], (MarkdownEvent::End, Some(MarkdownTag::Emphasis))));
    assert!(matches!(&events[4], (MarkdownEvent::Text(t), None) if t == " "));
    assert!(matches!(events[5], (MarkdownEvent::Start, Some(MarkdownTag::Link))));
    assert!(matches!(&events[6], (MarkdownEvent::Text(t), None) if t == "l"));
    assert!(matches!(events[7], (MarkdownEvent::End, Some(MarkdownTag::Link))));
    assert!(matches!(&events[9], (MarkdownEvent::Code(t), None) if t == "c"));
    assert!(matches!(events[10], (MarkdownEvent::End, Some(MarkdownTag::Paragraph))));
    assert!(matches!(events[11], (MarkdownEvent::Start, Some(MarkdownTag::HtmlBlock))));
    assert!(matches!(&events[12], (MarkdownEvent::Html(t), None) if t.starts_with("<b>")));
    assert!(matches!(events[13], (MarkdownEvent::End, Some(MarkdownTag::HtmlBlock))));
    assert_eq!(events.len(), 14);
}

#[test]
fn sanitizing_keeps_safe_links_and_drops_scripts() {
    let html = sanitize_note("<p><a href=\"https://a.example\">a</a><a href=\"/relative\">r</a><script>x</script></p>");
    assert!(html.contains("href=\"https://a.example\""));
    assert!(html.contains("target=\"_blank\""));
    assert!(html.contains("rel=\"noopener noreferrer\""));
    assert!(!html.contains("/relative"));
    assert!(!html.contains("<script>"));
}

#[test]
fn rendering_keeps_markdown_and_shows_html_as_text() {
    let html = render("| a | b |\n|---|---|\n| 1 | ~~2~~ |\n\n- [x] done\n\nmail ada@example.org <b>x</b>");
    assert!(html.contains("<table>"));
    assert!(html.contains("<del>2</del>"));
    assert!(html.contains("href=\"mailto:ada@example.org\""));
    assert!(html.contains("&lt;b&gt;x&lt;/b&gt;"));
}
