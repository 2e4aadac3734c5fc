use rendermd::alerts::{alert_bodies, alert_variants, detect_alert_opener, preprocess_alerts, strip_blockquote_prefix};
use rendermd::emoji::{lookup_emoji, preprocess_emoji, replace_shortcodes_in_line};
use rendermd::html::{html_escape, uri_escape};
use rendermd::mermaid::preprocess_mermaid_blocks;
use rendermd::preview::{preview_alert_bodies, preview_source};
use rendermd::page::{insert_before_body_end, html_page, syntect_theme, APP_NAME, MERMAID_INIT_JS};

/// Renders an alert body with the preview's GFM extensions. Raw-HTML
/// pass-through is left off here, which the checks below do not need.
fn render_body(md: &str) -> String {
    let mut o = comrak::Options::default();
    o.extension.strikethrough = true;
    o.extension.table = true;
    o.extension.autolink = true;
    o.extension.tasklist = true;
    o.extension.superscript = true;
    o.parse.smart = true;
    comrak::markdown_to_html(md, &o)
}

/// Renders a document body with the preview's options and syntax
/// highlighting (raw HTML left off, as above).
fn render_document(md: &str, dark: bool) -> String {
    let mut o = comrak::Options::default();
    o.extension.strikethrough = true;
    o.extension.table = true;
    o.extension.autolink = true;
    o.extension.tasklist = true;
    o.extension.superscript = true;
    o.extension.footnotes = true;
    o.extension.description_lists = true;
    o.extension.header_id_prefix = Some(String::new());
    o.parse.smart = true;
    o.render.github_pre_lang = true;
    let adapter = comrak::plugins::syntect::SyntectAdapter::new(Some(syntect_theme(dark)));
    let mut plugins = comrak::options::Plugins::default();
    plugins.render.codefence_syntax_highlighter = Some(&adapter);
    comrak::markdown_to_html_with_plugins(md, &o, &plugins)
}

fn alerts(text: &str) -> String {
    let bodies = alert_bodies(text);
    let rendered: Vec<String> = bodies.iter().map(|b| render_body(b)).collect();
    preprocess_alerts(text, &rendered)
}

const BUNDLE: &str = "/* mermaid bundle stand-in */ var mermaid = {};";

/// The preview pipeline: the library's preview source and page around
/// comrak's rendering.
fn render(text: &str, dir: Option<&str>, dark: bool, title: &str) -> String {
    let rendered: Vec<String> = preview_alert_bodies(text).iter().map(|b| render_body(b)).collect();
    let (pre, had) = preview_source(text, &rendered);
    let body = render_document(&pre, dark);
    html_page(&body, had, BUNDLE, dir, dark, title)
}

#[test]
fn preprocess_no_fences() {
    let (out, had) = preprocess_mermaid_blocks("# hi\n\nplain text\n");
    assert!(!had);
    assert!(out.contains("# hi"));
    assert!(out.contains("plain text"));
    assert!(!out.contains("class=\"mermaid\""));
}

#[test]
fn preprocess_simple_block() {
    let input = "before\n\n```mermaid\nflowchart TD\n  A --> B\n```\n\nafter\n";
    let (out, had) = preprocess_mermaid_blocks(input);
    assert!(had);
    assert!(out.contains(r#"<pre class="mermaid">"#));
    assert!(out.contains("</pre>"));
    assert!(out.contains("flowchart TD"));
    assert!(out.contains("A --&gt; B"), "diagram body should be HTML-escaped");
    assert!(out.contains("before") && out.contains("after"));
}

#[test]
fn preprocess_blank_lines_inside() {
    let input = "```mermaid\nflowchart TD\n  A --> B\n\n  C --> D\n```\n";
    let (out, _) = preprocess_mermaid_blocks(input);
    let open = out.find(r#"<pre class="mermaid">"#).expect("opening tag present");
    let close = out.find("</pre>").expect("closing tag present");
    assert!(open < close);
    let body = &out[open..close];
    assert!(body.contains("A --&gt; B"));
    assert!(body.contains("C --&gt; D"));
}

#[test]
fn preprocess_unclosed_fence() {
    let input = "before\n\n```mermaid\nflowchart TD\n  A --> B\n";
    let (out, had) = preprocess_mermaid_blocks(input);
    assert!(!had, "unclosed fence shouldn't count as a mermaid block");
    assert!(out.contains("```mermaid"));
    assert!(out.contains("flowchart TD"));
    assert!(!out.contains(r#"<pre class="mermaid">"#));
}

#[test]
fn preprocess_indented_fence_current_behavior() {
    let input = "    ```mermaid\n    flowchart TD\n    ```\n";
    let (_, had) = preprocess_mermaid_blocks(input);
    assert!(had, "current implementation matches indented fences");
}

#[test]
fn preprocess_html_escapes_diagram() {
    let input = "```mermaid\nA[<b>x</b> & \"y\"]\n```\n";
    let (out, _) = preprocess_mermaid_blocks(input);
    assert!(out.contains("&lt;b&gt;"));
    assert!(out.contains("&amp;"));
    assert!(out.contains("&quot;"));
    assert!(!out.contains("<b>x</b>"));
}

#[test]
fn preprocess_mermaid_exact_output() {
    let (out, had) = preprocess_mermaid_blocks("a\n```mermaid\nx<y\n```\nb");
    assert!(had);
    assert_eq!(out, "a\n\n<pre class=\"mermaid\">\nx&lt;y\n</pre>\n\nb\n");
    let (out, had) = preprocess_mermaid_blocks("```mermaid\nq\n");
    assert!(!had);
    assert_eq!(out, "```mermaid\nq\n");
}

#[test]
fn html_escape_entities() {
    assert_eq!(html_escape("&"), "&amp;");
    assert_eq!(html_escape("<"), "&lt;");
    assert_eq!(html_escape(">"), "&gt;");
    assert_eq!(html_escape("\""), "&quot;");
    assert_eq!(html_escape("'"), "&#39;");
    assert_eq!(html_escape("a < b && c > d"), "a &lt; b &amp;&amp; c &gt; d");
}

#[test]
fn uri_escape_percent_encodes() {
    assert_eq!(uri_escape("/tmp/a b", "/"), "/tmp/a%20b");
    assert_eq!(uri_escape("/tmp/a b", ""), "%2Ftmp%2Fa%20b");
    assert_eq!(uri_escape("Az09-._~", ""), "Az09-._~");
    assert_eq!(uri_escape("é<", ""), "%C3%A9%3C");
}

#[test]
fn render_smoke_no_mermaid() {
    let html = render("# hello\n\ntext", None, false, "doc");
    assert!(html.contains("<h1"));
    assert!(html.contains("hello"));
    let bundle_fingerprint = &BUNDLE[..30.min(BUNDLE.len())];
    assert!(
        !html.contains(bundle_fingerprint),
        "Mermaid bundle should not be injected when no mermaid blocks are present"
    );
}

#[test]
fn render_injects_mermaid_when_present() {
    let html = render("```mermaid\nflowchart TD\n  A --> B\n```\n", None, false, "doc");
    assert!(html.contains("mermaid.run()"), "init script should be injected");
    let bundle_fingerprint = &BUNDLE[..30.min(BUNDLE.len())];
    assert!(html.contains(bundle_fingerprint), "bundle should be injected");
}

#[test]
fn render_base_href_set_when_dir_given() {
    let html = render("hi", Some("/tmp/somewhere"), false, "doc");
    assert!(html.contains(r#"<base href="file:///tmp/somewhere/">"#));
}

#[test]
fn render_base_href_empty_when_no_dir() {
    let html = render("hi", None, false, "doc");
    assert!(html.contains(r#"<base href="">"#));
}

#[test]
fn render_dark_theme_picks_dark_css() {
    let dark = render("hi", None, true, "doc");
    let light = render("hi", None, false, "doc");
    assert_ne!(dark, light);
    assert!(dark.contains(":root"));
    assert!(light.contains(":root"));
}

#[test]
fn render_mermaid_theme_follows_dark_flag() {
    let input = "```mermaid\nflowchart TD\nA --> B\n```\n";
    let dark = render(input, None, true, "doc");
    let light = render(input, None, false, "doc");
    assert!(dark.contains("theme: 'dark'"));
    assert!(light.contains("theme: 'default'"));
}

#[test]
fn page_title_escaped_or_app_name() {
    let page = html_page("<p>x</p>", false, "", None, false, "a<b");
    assert!(page.contains("<title>a&lt;b</title>"));
    assert!(page.contains("<p>x</p>"));
    let page = html_page("", false, "", None, false, "");
    assert!(page.contains(&format!("<title>{}</title>", APP_NAME)));
    assert!(!page.contains("{BODY}"));
    assert!(!page.contains("{MERMAID_SCRIPT}"));
}

#[test]
fn page_mermaid_script_uses_theme() {
    let page = html_page("", true, "BUNDLE", None, true, "t");
    let init = MERMAID_INIT_JS.replace("{THEME}", "dark");
    assert!(page.contains(&format!("<script>BUNDLE</script>\n<script>{}</script>", init)));
}

#[test]
fn syntect_theme_follows_dark_flag() {
    assert_eq!(syntect_theme(true), "base16-ocean.dark");
    assert_eq!(syntect_theme(false), "InspiredGitHub");
}

#[test]
fn emoji_replaces_known_shortcode() {
    let out = replace_shortcodes_in_line("Ship it :rocket:!");
    assert_eq!(out, "Ship it 🚀!");
}

#[test]
fn emoji_passes_unknown_shortcode_through() {
    let out = replace_shortcodes_in_line("This :notarealemoji: stays");
    assert_eq!(out, "This :notarealemoji: stays");
}

#[test]
fn emoji_handles_multiple_per_line() {
    let out = replace_shortcodes_in_line(":rocket: and :tada: and :+1:");
    assert_eq!(out, "🚀 and 🎉 and 👍");
}

#[test]
fn emoji_handles_aliases() {
    assert_eq!(replace_shortcodes_in_line(":+1:"), "👍");
    assert_eq!(replace_shortcodes_in_line(":thumbsup:"), "👍");
}

#[test]
fn emoji_skipped_inside_fenced_block() {
    let input = "before :rocket:\n\n```\n:rocket: in code\n```\n\nafter :tada:\n";
    let out = preprocess_emoji(input);
    assert!(out.contains("before 🚀"));
    assert!(out.contains(":rocket: in code"), "fence content should be left alone");
    assert!(out.contains("after 🎉"));
}

#[test]
fn emoji_skipped_inside_mermaid_fence() {
    let input = "```mermaid\nflowchart TD\n  A[:rocket:] --> B\n```\n";
    let out = preprocess_emoji(input);
    assert!(out.contains(":rocket:"), "mermaid fence content should be untouched");
}

#[test]
fn emoji_lone_colons_pass_through() {
    let out = replace_shortcodes_in_line("ratio 4:3 and time 12:30:45");
    assert_eq!(out, "ratio 4:3 and time 12:30:45");
}

#[test]
fn emoji_lookup_table() {
    assert_eq!(lookup_emoji("rocket"), Some("🚀"));
    assert_eq!(lookup_emoji("shit"), Some("💩"));
    assert_eq!(lookup_emoji("chocolate_bar"), Some("🍫"));
    assert_eq!(lookup_emoji("tada_party"), Some("🥳"));
    assert_eq!(lookup_emoji("Rocket"), None);
    assert_eq!(lookup_emoji(""), None);
}

#[test]
fn emoji_edge_cases() {
    assert_eq!(replace_shortcodes_in_line("::"), "::");
    assert_eq!(replace_shortcodes_in_line(":rocket"), ":rocket");
    assert_eq!(replace_shortcodes_in_line("::rocket:"), ":🚀");
    assert_eq!(replace_shortcodes_in_line(":rocket::fire:"), "🚀🔥");
    assert_eq!(preprocess_emoji("a :fire:\r\nb"), "a 🔥\nb\n");
    assert_eq!(preprocess_emoji(""), "");
}

#[test]
fn alert_note_emits_div() {
    let out = alerts("> [!NOTE]\n> Hello there.\n");
    assert!(out.contains(r#"<div class="alert alert-note">"#));
    assert!(out.contains("<span>Note</span>"));
    assert!(out.contains("Hello there."));
}

#[test]
fn alert_each_variant_recognized() {
    for (token, variant, label, _) in alert_variants() {
        let input = format!("> {}\n> body\n", token);
        let out = alerts(&input);
        assert!(out.contains(&format!(r#"alert-{}""#, variant)), "missing class for {}", token);
        assert!(out.contains(&format!("<span>{}</span>", label)), "missing label for {}", token);
    }
}

#[test]
fn alert_collects_multiline_body() {
    let input = "> [!WARNING]\n> first line\n> second line\n> third line\n";
    let out = alerts(input);
    let div_start = out.find("<div class=\"alert").unwrap();
    let line_end = out[div_start..].find('\n').map(|i| div_start + i).unwrap_or(out.len());
    let alert_line = &out[div_start..line_end];
    assert!(alert_line.contains("first line"));
    assert!(alert_line.contains("second line"));
    assert!(alert_line.contains("third line"));
    assert!(alert_line.ends_with("</div>"));
}

#[test]
fn alert_terminates_at_non_blockquote_line() {
    let input = "> [!NOTE]\n> inside\nafter\n";
    let out = alerts(input);
    let div_start = out.find("<div class=\"alert").unwrap();
    let line_end = out[div_start..].find('\n').map(|i| div_start + i).unwrap_or(out.len());
    let alert_line = &out[div_start..line_end];
    assert!(alert_line.contains("inside"));
    assert!(!alert_line.contains("after"));
    assert!(out[line_end..].contains("after"));
}

#[test]
fn alert_unknown_variant_passes_through_as_blockquote() {
    let input = "> [!FOOBAR]\n> body\n";
    let out = alerts(input);
    assert!(out.contains("[!FOOBAR]"));
    assert!(!out.contains("class=\"alert"));
}

#[test]
fn alert_case_sensitive_matches_github() {
    let out = alerts("> [!note]\n> body\n");
    assert!(!out.contains("class=\"alert"));
}

#[test]
fn alert_inline_emoji_in_body_renders() {
    let input = "> [!TIP]\n> Ship it 🚀\n";
    let out = alerts(input);
    assert!(out.contains("🚀"));
}

#[test]
fn alert_bodies_and_assembly_exact() {
    let text = "x\n  >  [!TIP]  \n> one\n>two\n>  three\ny\n";
    assert_eq!(alert_bodies(text), vec!["one\ntwo\n three".to_string()]);
    let out = preprocess_alerts(text, &vec!["<p>A</p>\n<p>B</p>\n".to_string()]);
    let (_, _, _, icon) = alert_variants()[1];
    let expected = format!(
        "x\n\n<div class=\"alert alert-tip\"><div class=\"alert-title\">{} <span>Tip</span></div><p>A</p> <p>B</p> </div>\n\ny\n",
        icon
    );
    assert_eq!(out, expected);
}

#[test]
fn alert_opener_and_prefix_helpers() {
    assert_eq!(detect_alert_opener(" > [!CAUTION] ").map(|v| v.1), Some("caution"));
    assert!(detect_alert_opener("[!NOTE]").is_none());
    assert!(detect_alert_opener("> [!NOTE] x").is_none());
    assert_eq!(strip_blockquote_prefix("  > quoted"), "quoted");
    assert_eq!(strip_blockquote_prefix(">  two"), " two");
    assert_eq!(strip_blockquote_prefix("plain"), "plain");
}

#[test]
fn fragment_goes_before_first_body_close() {
    let page = "<html><body><p>x</p></body></html>";
    assert_eq!(
        insert_before_body_end(page, "<div>rail</div>"),
        "<html><body><p>x</p><div>rail</div>\n</body></html>"
    );
    assert_eq!(
        insert_before_body_end("a</body>b</body>", "X"),
        "aX\n</body>b</body>"
    );
    assert_eq!(insert_before_body_end("<p>no end</p>", "X"), "<p>no end</p>");
    assert_eq!(insert_before_body_end("</body>", ""), "\n</body>");
}

#[test]
fn emoji_keys_are_lowercase_names() {
    assert_eq!(lookup_emoji("Rocket"), None);
    assert_eq!(lookup_emoji("ROCKET"), None);
    assert_eq!(lookup_emoji(""), None);
    assert_eq!(replace_shortcodes_in_line("a :+1: b :-1: :100:"), "a 👍 b 👎 💯");
}
