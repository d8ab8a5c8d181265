use ao3_scraper::dom::Document;
use ao3_scraper::extract::{
    extract_chapters, extract_metadata, extract_single_chapter_content, extract_tag_list,
    extract_tag_list_vec,
};
use ao3_scraper::meta::{format_metadata_md, WorkMeta};
use ao3_scraper::stats::Stats;
use ao3_scraper::work::{
    chapter_file_name, chapter_files, chapter_markdown, extract_work_id, full_work_url,
    pause_after, work_dir_name,
};

const PAGE: &str = "<!DOCTYPE html><html><head><title>t</title></head><body>\
<dl class=\"work meta group\">\
<dt class=\"rating tags\">Rating:</dt><dd class=\"rating tags\"><ul class=\"commas\"><li><a class=\"tag\" href=\"/tags/T\">Teen And Up Audiences</a></li></ul></dd>\
<dt class=\"warning tags\">Archive Warning:</dt><dd class=\"warning tags\"><ul><li><a class=\"tag\">No Archive Warnings Apply</a></li></ul></dd>\
<dt class=\"category tags\">Category:</dt><dd class=\"category tags\"><ul><li><a class=\"tag\">Gen</a></li></ul></dd>\
<dt class=\"fandom tags\">Fandom:</dt><dd class=\"fandom tags\"><ul><li><a class=\"tag\">F1</a></li><li><a class=\"tag\">F2</a></li></ul></dd>\
<dt class=\"freeform tags\">Additional Tags:</dt><dd class=\"freeform tags\"><ul><li><a class=\"tag\">Fluff</a></li></ul></dd>\
<dt class=\"language\">Language:</dt><dd class=\"language\"> English </dd>\
<dt class=\"stats\">Stats:</dt><dd class=\"stats\"><dl class=\"stats\">\
<dt class=\"published\">Published:</dt><dd class=\"published\">2020-01-01</dd>\
<dt class=\"words\">Words:</dt><dd class=\"words\">1,000</dd>\
<dt class=\"chapters\">Chapters:</dt><dd class=\"chapters\">2/2</dd>\
<dt class=\"kudos\">Kudos:</dt><dd class=\"kudos\">5</dd>\
<dt class=\"status\">Completed:</dt><dd class=\"status\">2020-02-02</dd>\
</dl></dd></dl>\
<div class=\"preface group\"><h2 class=\"title heading\">  My Title </h2>\
<h3 class=\"byline heading\"><a rel=\"author\" href=\"/users/x\">Author1</a>, <a rel=\"author\" href=\"/users/y\">Author2</a></h3>\
<div class=\"summary module\"><h3 class=\"heading\">Summary:</h3><blockquote class=\"userstuff\"><p>Sum <em>text</em></p></blockquote></div>\
<div class=\"notes module\"><h3 class=\"heading\">Notes:</h3><blockquote class=\"userstuff\"><p>Note text</p></blockquote></div>\
</div>\
<div id=\"chapters\">\
<div class=\"chapter\" id=\"chapter-1\"><div class=\"chapter preface group\"><h3 class=\"title\"><a href=\"/works/1/chapters/1\">Chapter 1</a>: Beginning</h3>\
<div class=\"notes module\"><h3 class=\"heading\">Notes:</h3><blockquote class=\"userstuff\"><p>Line one</p><p>Line two</p></blockquote></div></div>\
<div class=\"userstuff module\" role=\"article\"><h3 class=\"landmark heading\" id=\"work\">Chapter Text</h3><p>Hello <strong>bold</strong></p></div>\
<div class=\"chapter preface group\"><div class=\"end notes module\"><h3 class=\"heading\">Notes:</h3><blockquote class=\"userstuff\"><p>Bye</p></blockquote></div></div></div>\
<div class=\"chapter\" id=\"chapter-2\"><div class=\"userstuff module\" role=\"article\"><p>Second</p></div></div>\
</div>\
<div class=\"afterword preface group\"><div class=\"end notes module\"><blockquote class=\"userstuff\"><p>Work end</p></blockquote></div></div>\
</body></html>";

fn strings(v: &[&str]) -> Vec<String> {
    v.iter().map(|s| s.to_string()).collect()
}

#[test]
fn metadata_of_a_work() {
    let doc = Document::parse(PAGE);
    let meta = extract_metadata(&doc);
    assert_eq!(meta.title, "My Title");
    assert_eq!(meta.authors, strings(&["Author1", "Author2"]));
    assert_eq!(meta.rating, "Teen And Up Audiences");
    assert_eq!(meta.warnings, strings(&["No Archive Warnings Apply"]));
    assert_eq!(meta.categories, strings(&["Gen"]));
    assert_eq!(meta.fandoms, strings(&["F1", "F2"]));
    assert!(meta.relationships.is_empty());
    assert!(meta.characters.is_empty());
    assert_eq!(meta.additional_tags, strings(&["Fluff"]));
    assert_eq!(meta.language, "English");
    assert!(meta.series.is_empty());
    assert_eq!(meta.stats.len(), 5);
    assert_eq!(meta.stats.get("Words").map(|s| s.as_str()), Some("1,000"));
    assert_eq!(meta.stats.get("Chapters").map(|s| s.as_str()), Some("2/2"));
    assert_eq!(meta.summary, "Sum *text*");
    assert_eq!(meta.notes_begin, "Note text");
    assert_eq!(meta.notes_end, "Work end");
    assert_eq!(meta.published, "2020-01-01");
    assert_eq!(meta.updated, "");
    assert_eq!(meta.status, "2020-02-02");
}

#[test]
fn tag_lists() {
    let doc = Document::parse(PAGE);
    assert_eq!(extract_tag_list(&doc, "dd.fandom"), "F1, F2");
    assert_eq!(extract_tag_list(&doc, "dd.language"), "English");
    assert_eq!(extract_tag_list(&doc, "dd.series"), "");
    assert_eq!(extract_tag_list_vec(&doc, "dd.language"), strings(&["English"]));
    assert!(extract_tag_list_vec(&doc, "dd.relationship").is_empty());
}

#[test]
fn author_fallbacks() {
    let links = Document::parse("<html><body><h3 class=\"byline\"><a href=\"/u\"> Anon </a><a> </a></h3></body></html>");
    assert_eq!(extract_metadata(&links).authors, strings(&["Anon"]));
    let plain = Document::parse("<html><body><h3 class=\"byline\"> Somebody </h3></body></html>");
    assert_eq!(extract_metadata(&plain).authors, strings(&["Somebody"]));
    let none = Document::parse("<html><body><p>x</p></body></html>");
    let meta = extract_metadata(&none);
    assert!(meta.authors.is_empty());
    assert_eq!(meta.title, "");
    assert_eq!(meta.status, "");
}

#[test]
fn status_falls_back_to_status_stat() {
    let page = "<html><body><dl class=\"stats\"><dt>Status:</dt><dd>Complete</dd><dt>Updated:</dt><dd>2021</dd><dt>Extra</dt></dl></body></html>";
    let meta = extract_metadata(&Document::parse(page));
    assert_eq!(meta.status, "Complete");
    assert_eq!(meta.updated, "2021");
    assert_eq!(meta.stats.len(), 2);
}

#[test]
fn chapters_with_notes() {
    let doc = Document::parse(PAGE);
    let chapters = extract_chapters(&doc);
    assert_eq!(chapters.len(), 2);
    assert_eq!(chapters[0].0, "Chapter 1: Beginning");
    assert_eq!(
        chapters[0].1,
        "> **Chapter Notes:**\n>\n> Line one\n> \n> Line two\n\n---\n\nHello **bold**\n\n---\n\n> **End Notes:**\n>\n> Bye"
    );
    assert_eq!(chapters[1].0, "");
    assert_eq!(chapters[1].1, "Second");
}

#[test]
fn chapter_files_of_a_work() {
    let doc = Document::parse(PAGE);
    let chapters = extract_chapters(&doc);
    let files = chapter_files(&doc, &chapters);
    assert_eq!(files.len(), 2);
    assert_eq!(files[0].0, "chapter1.md");
    assert!(files[0].1.starts_with("# Chapter 1: Beginning\n\n> **Chapter Notes:**"));
    assert_eq!(files[1], ("chapter2.md".to_string(), "Second".to_string()));
}

#[test]
fn single_chapter_work() {
    let doc = Document::parse("<html><body><div class=\"userstuff\"><p>Only</p></div></body></html>");
    let chapters = extract_chapters(&doc);
    assert!(chapters.is_empty());
    assert_eq!(extract_single_chapter_content(&doc), "Only");
    let files = chapter_files(&doc, &chapters);
    assert_eq!(files, vec![("chapter1.md".to_string(), "Only".to_string())]);
}

#[test]
fn chapter_pages_and_names() {
    assert_eq!(chapter_markdown("T", "body"), "# T\n\nbody");
    assert_eq!(chapter_markdown("", "body"), "body");
    assert_eq!(chapter_file_name(0), "chapter1.md");
    assert_eq!(chapter_file_name(9), "chapter10.md");
    assert_eq!(chapter_file_name(122), "chapter123.md");
}

#[test]
fn pauses_between_files() {
    assert!(pause_after(0, 2));
    assert!(!pause_after(1, 2));
    assert!(!pause_after(0, 1));
}

#[test]
fn work_ids() {
    assert_eq!(
        extract_work_id("https://archiveofourown.org/works/27526954/chapters/67317511"),
        Some("27526954".to_string())
    );
    assert_eq!(extract_work_id("archiveofourown.org/works/12345"), Some("12345".to_string()));
    assert_eq!(extract_work_id("https://example.org/works/12345"), None);
    assert_eq!(extract_work_id("https://archiveofourown.org/works/abc"), None);
    assert_eq!(
        full_work_url("12345"),
        "https://archiveofourown.org/works/12345?view_full_work=true&view_adult=true"
    );
    assert_eq!(extract_work_id(&full_work_url("42")), Some("42".to_string()));
}

#[test]
fn directory_names() {
    assert_eq!(work_dir_name("A/B: C?"), "AB C");
    assert_eq!(work_dir_name("Plain Title"), "Plain Title");
}

fn sample_meta() -> WorkMeta {
    let mut stats = Stats::new();
    stats.insert("Published".to_string(), "2020-01-01".to_string());
    stats.insert("Words".to_string(), "1,000".to_string());
    stats.insert("Language".to_string(), "x".to_string());
    stats.insert("Hits".to_string(), "7".to_string());
    stats.insert("Kudos".to_string(), "5".to_string());
    WorkMeta {
        title: "T".to_string(),
        authors: strings(&["A", "B"]),
        rating: "General".to_string(),
        warnings: strings(&["W"]),
        categories: vec![],
        fandoms: strings(&["F"]),
        relationships: strings(&["R1", "R2"]),
        characters: vec![],
        additional_tags: strings(&["t1", "t2"]),
        language: "English".to_string(),
        series: vec![],
        stats,
        summary: "Sum".to_string(),
        notes_begin: String::new(),
        notes_end: "End".to_string(),
        published: "2020-01-01".to_string(),
        updated: String::new(),
        status: "Done".to_string(),
    }
}

#[test]
fn metadata_page() {
    let expected = "# T\n\n\
**Author(s):** A, B\n\n\
---\n\n\
## Work Information\n\n\
| Field | Value |\n\
| --- | --- |\n\
| **Rating** | General |\n\
| **Archive Warnings** | W |\n\
| **Fandoms** | F |\n\
| **Relationships** | R1, R2 |\n\
| **Language** | English |\n\
| **Published** | 2020-01-01 |\n\
| **Status** | Done |\n\
\n\
## Stats\n\n\
| Stat | Value |\n\
| --- | --- |\n\
| **Words** | 1,000 |\n\
| **Kudos** | 5 |\n\
| **Hits** | 7 |\n\
| **Language** | x |\n\
\n\
## Tags\n\n\
- t1\n\
- t2\n\
\n\
## Summary\n\n\
Sum\n\n\
## Notes (End)\n\n\
End\n\n";
    assert_eq!(format_metadata_md(&sample_meta()), expected);
}

#[test]
fn metadata_page_of_extracted_work() {
    let doc = Document::parse(PAGE);
    let md = format_metadata_md(&extract_metadata(&doc));
    assert!(md.starts_with("# My Title\n\n**Author(s):** Author1, Author2\n\n"));
    assert!(md.contains("| **Categories** | Gen |\n"));
    assert!(md.contains("| **Status** | 2020-02-02 |\n"));
    assert!(!md.contains("| **Updated**"));
    assert!(md.contains("| **Words** | 1,000 |\n| **Chapters** | 2/2 |\n| **Kudos** | 5 |\n\n"));
    assert!(md.ends_with("## Notes (Beginning)\n\nNote text\n\n## Notes (End)\n\nWork end\n\n"));
}

#[test]
fn stats_keep_first_place_and_last_value() {
    let mut stats = Stats::new();
    stats.insert("a".to_string(), "1".to_string());
    stats.insert("b".to_string(), "2".to_string());
    stats.insert("a".to_string(), "3".to_string());
    assert_eq!(stats.len(), 2);
    assert_eq!(stats.get("a").map(|s| s.as_str()), Some("3"));
    assert_eq!(stats.get("b").map(|s| s.as_str()), Some("2"));
    assert_eq!(stats.get("c"), None);
    let (k, v) = stats.entry(0);
    assert_eq!((k.as_str(), v.as_str()), ("a", "3"));
}

#[test]
fn page_level_selection_follows_parser_creation_order() {
    // The second title is misplaced inside the table, so the parser moves it before
    // the table; it was still created after the title in the cell.
    let doc = Document::parse(
        "<html><body><table><tr><td><h2 class=\"title\">In cell</h2></td></tr>\
<h2 class=\"title\">Moved</h2></table></body></html>",
    );
    let meta = extract_metadata(&doc);
    assert_eq!(meta.title, "In cell");
}

#[test]
fn directory_names_stay_within_the_length_limit() {
    let long = "é".repeat(200);
    let name = work_dir_name(&long);
    assert!(name.len() <= 255);
    assert_eq!(name, "é".repeat(127));
}
