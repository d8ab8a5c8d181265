use ao3_scraper::dom::Document;
use ao3_scraper::extract::extract_single_chapter_content;
use ao3_scraper::text::prefix_lines;

fn md(body: &str) -> String {
    let html = format!("<html><body><div class=\"userstuff\">{}</div></body></html>", body);
    let doc = Document::parse(&html);
    extract_single_chapter_content(&doc)
}

#[test]
fn paragraphs_and_emphasis() {
    assert_eq!(md("<p>Hello <em>world</em></p><p>Second</p>"), "Hello *world*\n\nSecond");
    assert_eq!(md("<p><strong>bold</strong> and <b>b</b> and <i>i</i></p>"), "**bold** and **b** and *i*");
    assert_eq!(md("<p><s>a</s><strike>b</strike><del>c</del></p>"), "~~a~~~~b~~~~c~~");
    assert_eq!(md("<p><u>u</u><sup>2</sup><sub>3</sub></p>"), "<u>u</u><sup>2</sup><sub>3</sub>");
    assert_eq!(md("<p>x<code>y</code></p>"), "x`y`");
}

#[test]
fn line_breaks_and_rules() {
    assert_eq!(md("<p>a<br>b</p>"), "a\nb");
    assert_eq!(md("<p>a</p><hr><p>b</p>"), "a\n\n---\n\nb");
}

#[test]
fn links_and_images() {
    assert_eq!(md("<p><a href=\"/works/1\">x</a></p>"), "[x](https://archiveofourown.org/works/1)");
    assert_eq!(md("<p><a href=\"http://e.org\">x</a></p>"), "[x](http://e.org)");
    assert_eq!(md("<p><a>x</a></p>"), "[x](#)");
    assert_eq!(md("<p><img src=\"/i.png\" alt=\"pic\"></p>"), "![pic](https://archiveofourown.org/i.png)");
    assert_eq!(md("<p><img></p>"), "![]()");
}

#[test]
fn headings() {
    assert_eq!(md("<h2>Title</h2><p>x</p>"), "## Title\n\nx");
    assert_eq!(md("<h6>Six</h6>"), "###### Six");
    assert_eq!(md("<h3 class=\"landmark heading\">Chapter Text</h3><p>x</p>"), "x");
    assert_eq!(md("<h3 class=\"heading\">Notes</h3><p>x</p>"), "x");
}

#[test]
fn quotes() {
    assert_eq!(md("<blockquote><p>q</p></blockquote>"), "> \n\n> q");
    assert_eq!(md("<blockquote>a<br>b</blockquote>"), "> a\n> b");
}

#[test]
fn lists() {
    assert_eq!(md("<ul><li>one</li><li>two</li></ul>"), "- one\n- two");
    assert_eq!(md("<ol><li>one</li><li>two</li></ol>"), "1. one\n1. two");
    assert_eq!(md("<ul><li>a<ul><li>b</li></ul></li></ul>"), "- a\n\n  - b");
}

#[test]
fn code_blocks_and_center() {
    assert_eq!(md("<pre>x = 1</pre>"), "```\nx = 1\n```");
    assert_eq!(md("<center>mid</center>"), "<center>\n\nmid\n\n</center>");
}

#[test]
fn containers_and_landmarks() {
    assert_eq!(md("<div><span>a</span><span class=\"landmark\">skip</span></div>"), "a");
    assert_eq!(md("<div class=\"landmark\">skip</div><p>kept</p>"), "kept");
    assert_eq!(md("<p><font>plain</font></p>"), "plain");
}

#[test]
fn whitespace_text_nodes() {
    // A text node of white space is kept only where it holds a space.
    assert_eq!(md("<p>a<em>b</em> <em>c</em></p>"), "a*b* *c*");
    assert_eq!(md("<p>a</p>\n<p>b</p>"), "a\n\nb");
}

#[test]
fn tables() {
    assert_eq!(
        md("<table><tr><th>A</th><th>B</th></tr><tr><td>1</td><td>2</td></tr></table>"),
        "| A | B |\n| --- | --- |\n| 1 | 2 |"
    );
    assert_eq!(
        md("<table><tr><td>1</td></tr><tr><td>2</td><td><b>3</b></td></tr></table>"),
        "| 1 |  |\n| --- | --- |\n| 2 | **3** |"
    );
    assert_eq!(md("<table></table><p>x</p>"), "x");
    assert_eq!(md("<table><tr></tr></table><p>x</p>"), "x");
}

#[test]
fn no_content() {
    let doc = Document::parse("<html><body><p>x</p></body></html>");
    assert_eq!(extract_single_chapter_content(&doc), "No content found.");
}

#[test]
fn blank_line_runs_are_shortened() {
    let out = md("<p>a</p><p></p><p></p><p>b</p>");
    assert_eq!(out, "a\n\nb");
    assert!(!out.contains("\n\n\n"));
}

#[test]
fn prefixing_lines() {
    assert_eq!(prefix_lines("a\nb", "> "), "> a\n> b");
    assert_eq!(prefix_lines("a\r\n\nb\n", "> "), "> a\n> \n> b");
    assert_eq!(prefix_lines("", "> "), "");
    assert_eq!(prefix_lines("x\r", "- "), "- x\r");
}

