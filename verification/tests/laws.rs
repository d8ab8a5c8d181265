use ao3_scraper::dom::Document;
use ao3_scraper::extract::extract_single_chapter_content;
use ao3_scraper::stats::Stats;
use ao3_scraper::text::{prefix_lines, trim_str};
use ao3_scraper::work::{chapter_file_name, extract_work_id, full_work_url};

fn md(body: &str) -> String {
    let html = format!("<html><body><div class=\"userstuff\">{}</div></body></html>", body);
    extract_single_chapter_content(&Document::parse(&html))
}

#[test]
fn converted_text_is_trimmed_and_has_no_blank_runs() {
    let out = md("<p>  a  </p><br><br><br><p></p><hr><p>b</p><pre>\n\n\n\nc</pre>");
    assert!(!out.contains("\n\n\n"));
    assert_eq!(out, out.trim());
    assert_eq!(out, "a  \n\n---\n\nb\n\n```\n\nc\n```");
}

#[test]
fn set_then_read_statistics() {
    let mut stats = Stats::new();
    stats.insert("Words".to_string(), "10".to_string());
    stats.insert("Kudos".to_string(), "1".to_string());
    assert_eq!(stats.get("Words").map(|s| s.as_str()), Some("10"));
    stats.insert("Words".to_string(), "20".to_string());
    assert_eq!(stats.get("Words").map(|s| s.as_str()), Some("20"));
    assert_eq!(stats.get("Kudos").map(|s| s.as_str()), Some("1"));
    assert_eq!(stats.len(), 2);
}

#[test]
fn work_id_read_back_from_address() {
    for id in ["1", "42", "27526954", "0007"] {
        assert_eq!(extract_work_id(&full_work_url(id)), Some(id.to_string()));
    }
}

#[test]
fn prefixed_lines_are_the_lines_prefixed() {
    let text = "one\n\ntwo\nthree\n";
    let out = prefix_lines(text, "> ");
    let got: Vec<&str> = out.lines().collect();
    let want: Vec<String> = text.lines().map(|l| format!("> {}", l)).collect();
    assert_eq!(got, want);
}

#[test]
fn chapter_names_are_distinct() {
    let names: Vec<String> = (0..120).map(chapter_file_name).collect();
    for i in 0..names.len() {
        for j in 0..i {
            assert_ne!(names[i], names[j]);
        }
    }
}

#[test]
fn malformed_pages_still_parse() {
    let doc = Document::parse("<div class=\"userstuff\"><p>open <b>bold <i>both</p>tail");
    assert_eq!(extract_single_chapter_content(&doc), "open **bold *both***\n***tail***");
}

#[test]
fn nested_tables() {
    assert_eq!(
        md("<table><tr><td>x</td><td><table><tr><td>in</td></tr></table></td></tr></table>"),
        "| x | | in |\n| --- | | in |\n| --- | --- | --- |\n| in |  |  |"
    );
}

#[test]
fn trimming_white_space() {
    assert_eq!(trim_str(" \t\n x y \u{3000}"), "x y");
    assert_eq!(trim_str("   "), "");
}

#[test]
fn work_ids_with_unicode_digits() {
    assert_eq!(
        extract_work_id("é archiveofourown.org/works/x archiveofourown.org/works/\u{0661}\u{0662}3?"),
        Some("\u{0661}\u{0662}3".to_string())
    );
    assert_eq!(extract_work_id("título archiveofourown.org/works/"), None);
}

#[test]
fn prefix_lines_with_empty_prefix_gives_the_text_back() {
    assert_eq!(prefix_lines("a\n\nb c\nd", ""), "a\n\nb c\nd");
    assert_eq!(prefix_lines("", ""), "");
}
