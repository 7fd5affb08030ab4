use quickmd::markdown::{render, Renderer};

#[test]
fn heading_level_one() {
    assert_eq!(render("# Hello"), "<h1>Hello</h1>\n");
}

#[test]
fn heading_deeper_levels() {
    assert_eq!(render("## Sub"), "<h2>Sub</h2>\n");
    assert_eq!(render("### Third"), "<h3>Third</h3>\n");
    assert_eq!(render("###### Sixth"), "<h6>Sixth</h6>\n");
}

#[test]
fn seven_hashes_is_a_paragraph() {
    assert_eq!(render("####### seven"), "<p>####### seven</p>\n");
}

#[test]
fn hash_without_space_is_a_paragraph() {
    assert_eq!(render("#Hello"), "<p>#Hello</p>\n");
}

#[test]
fn plain_line_is_a_paragraph() {
    assert_eq!(render("Hello"), "<p>Hello</p>\n");
}

#[test]
fn empty_input_renders_empty() {
    assert_eq!(render(""), "");
}

#[test]
fn blank_lines_separate_blocks() {
    assert_eq!(
        render("# Hello\n\nWorld"),
        "<h1>Hello</h1>\n<p>World</p>\n"
    );
}

#[test]
fn trailing_newline_adds_nothing() {
    assert_eq!(render("Hello\n"), "<p>Hello</p>\n");
}

#[test]
fn markup_characters_are_escaped() {
    assert_eq!(
        render("a < b & c > d"),
        "<p>a &lt; b &amp; c &gt; d</p>\n"
    );
    assert_eq!(render("# a&b"), "<h1>a&amp;b</h1>\n");
}

#[test]
fn unrecognized_constructs_pass_through() {
    assert_eq!(render("*stars* `code`"), "<p>*stars* `code`</p>\n");
}

#[test]
fn non_ascii_input_is_handled() {
    assert_eq!(render("h\u{e9}llo \u{2713}"), "<p>h\u{e9}llo \u{2713}</p>\n");
}

#[test]
fn malformed_markdown_never_fails() {
    let nasty = "####\n#\n\n\n<><><>&&&\n# \n## x\n\u{1f600}#";
    let out = render(nasty);
    assert!(out.contains("&lt;&gt;&lt;&gt;&lt;&gt;&amp;&amp;&amp;"));
}

#[test]
fn render_is_idempotent() {
    let inputs = ["# Hello", "", "a&b\nc<d", "####### x\n\n\n# y"];
    for m in inputs {
        assert_eq!(render(m), render(m));
    }
}

#[test]
fn renderer_remembers_display_path() {
    let r = Renderer::new(String::from("/notes/today.md"));
    assert_eq!(r.display_md_path, "/notes/today.md");
    assert_eq!(r.run("# Hello"), "<h1>Hello</h1>\n");
}
