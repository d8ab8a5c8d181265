//! The metadata of a work, and its Markdown page.
use crate::stats::{stat_get, Stats};
use crate::text::{
    contains_seq,join, join_strings, strings_view};
use vstd::prelude::*;

verus! {

/// What the work's page says about it.
pub struct WorkMeta {
    pub title: String,
    pub authors: Vec<String>,
    pub rating: String,
    pub warnings: Vec<String>,
    pub categories: Vec<String>,
    pub fandoms: Vec<String>,
    pub relationships: Vec<String>,
    pub characters: Vec<String>,
    pub additional_tags: Vec<String>,
    pub language: String,
    pub series: Vec<String>,
    pub stats: Stats,
    pub summary: String,
    pub notes_begin: String,
    pub notes_end: String,
    pub published: String,
    pub updated: String,
    pub status: String,
}

pub struct MetaView {
    pub title: Seq<char>,
    pub authors: Seq<Seq<char>>,
    pub rating: Seq<char>,
    pub warnings: Seq<Seq<char>>,
    pub categories: Seq<Seq<char>>,
    pub fandoms: Seq<Seq<char>>,
    pub relationships: Seq<Seq<char>>,
    pub characters: Seq<Seq<char>>,
    pub additional_tags: Seq<Seq<char>>,
    pub language: Seq<char>,
    pub series: Seq<Seq<char>>,
    pub stats: Seq<(Seq<char>, Seq<char>)>,
    pub summary: Seq<char>,
    pub notes_begin: Seq<char>,
    pub notes_end: Seq<char>,
    pub published: Seq<char>,
    pub updated: Seq<char>,
    pub status: Seq<char>,
}

impl View for WorkMeta {
    type V = MetaView;

    open spec fn view(&self) -> MetaView {
        MetaView {
            title: self.title@,
            authors: strings_view(self.authors@),
            rating: self.rating@,
            warnings: strings_view(self.warnings@),
            categories: strings_view(self.categories@),
            fandoms: strings_view(self.fandoms@),
            relationships: strings_view(self.relationships@),
            characters: strings_view(self.characters@),
            additional_tags: strings_view(self.additional_tags@),
            language: self.language@,
            series: strings_view(self.series@),
            stats: self.stats@,
            summary: self.summary@,
            notes_begin: self.notes_begin@,
            notes_end: self.notes_end@,
            published: self.published@,
            updated: self.updated@,
            status: self.status@,
        }
    }
}

pub open spec fn comma() -> Seq<char> {
    ", "@
}

/// A row `| **label** | value |` of a two-column table.
pub open spec fn table_row(label: Seq<char>, value: Seq<char>) -> Seq<char> {
    "| **"@ + label + "** | "@ + value + " |\n"@
}

/// The row for a list, only where the list is not empty.
pub open spec fn list_row_if_any(label: Seq<char>, items: Seq<Seq<char>>) -> Seq<char> {
    if items.len() > 0 {
        table_row(label, join(items, comma()))
    } else {
        seq![]
    }
}

/// The row for a value, only where it is not empty.
pub open spec fn row_if_any(label: Seq<char>, value: Seq<char>) -> Seq<char> {
    if value.len() > 0 {
        table_row(label, value)
    } else {
        seq![]
    }
}

/// The statistics that come first, in this order.
pub open spec fn standard_stat_names() -> Seq<Seq<char>> {
    seq!["Words"@, "Chapters"@, "Comments"@, "Kudos"@, "Bookmarks"@, "Hits"@]
}

/// The names that the page shows elsewhere, or first.
pub open spec fn is_listed_elsewhere(k: Seq<char>) -> bool {
    ||| standard_stat_names().contains(k)
    ||| k == "Published"@
    ||| k == "Updated"@
    ||| k == "Completed"@
    ||| k == "Status"@
}

/// The rows of the first `n` standard statistics that the work has.
pub open spec fn standard_stat_rows(stats: Seq<(Seq<char>, Seq<char>)>, n: int) -> Seq<char>
    decreases n,
{
    if n <= 0 {
        seq![]
    } else {
        standard_stat_rows(stats, n - 1) + match stat_get(stats, standard_stat_names()[n - 1]) {
            Some(v) => table_row(standard_stat_names()[n - 1], v),
            None => seq![],
        }
    }
}

/// The rows of the other statistics among the first `n` pairs, in their order.
pub open spec fn other_stat_rows(stats: Seq<(Seq<char>, Seq<char>)>, n: int) -> Seq<char>
    decreases n,
{
    if n <= 0 {
        seq![]
    } else {
        other_stat_rows(stats, n - 1) + if is_listed_elsewhere(stats[n - 1].0) {
            seq![]
        } else {
            table_row(stats[n - 1].0, stats[n - 1].1)
        }
    }
}

/// The first `n` items, each as a bullet line.
pub open spec fn bullets(items: Seq<Seq<char>>, n: int) -> Seq<char>
    decreases n,
{
    if n <= 0 {
        seq![]
    } else {
        bullets(items, n - 1) + "- "@ + items[n - 1] + "\n"@
    }
}

/// A section of bullets under a heading, only where there are items.
pub open spec fn bullet_section(heading: Seq<char>, items: Seq<Seq<char>>) -> Seq<char> {
    if items.len() > 0 {
        heading + bullets(items, items.len() as int) + "\n"@
    } else {
        seq![]
    }
}

/// A section of text under a heading, only where there is text.
pub open spec fn text_section(heading: Seq<char>, text: Seq<char>) -> Seq<char> {
    if text.len() > 0 {
        heading + text + "\n\n"@
    } else {
        seq![]
    }
}

/// The title and the authors.
pub open spec fn header_md(m: MetaView) -> Seq<char> {
    "# "@ + m.title + "\n\n"@ + "**Author(s):** "@ + join(m.authors, comma()) + "\n\n"@
}

/// The table of the work's information.
pub open spec fn info_md(m: MetaView) -> Seq<char> {
    "---\n\n"@ + "## Work Information\n\n"@ + "| Field | Value |\n"@ + "| --- | --- |\n"@
        + table_row("Rating"@, m.rating) + table_row("Archive Warnings"@, join(m.warnings, comma()))
        + list_row_if_any("Categories"@, m.categories) + table_row(
        "Fandoms"@,
        join(m.fandoms, comma()),
    ) + list_row_if_any("Relationships"@, m.relationships) + list_row_if_any(
        "Characters"@,
        m.characters,
    ) + table_row("Language"@, m.language) + row_if_any("Published"@, m.published) + row_if_any(
        "Updated"@,
        m.updated,
    ) + row_if_any("Status"@, m.status) + "\n"@
}

/// The table of statistics: the standard ones first, then the others in their order.
pub open spec fn stats_md(m: MetaView) -> Seq<char> {
    "## Stats\n\n"@ + "| Stat | Value |\n"@ + "| --- | --- |\n"@ + standard_stat_rows(m.stats, 6)
        + other_stat_rows(m.stats, m.stats.len() as int) + "\n"@
}

/// Tags, series, summary and notes.
pub open spec fn sections_md(m: MetaView) -> Seq<char> {
    bullet_section("## Tags\n\n"@, m.additional_tags) + bullet_section("## Series\n\n"@, m.series)
        + text_section("## Summary\n\n"@, m.summary) + text_section(
        "## Notes (Beginning)\n\n"@,
        m.notes_begin,
    ) + text_section("## Notes (End)\n\n"@, m.notes_end)
}

/// The Markdown page of a work's metadata.
pub open spec fn metadata_md(m: MetaView) -> Seq<char> {
    header_md(m) + info_md(m) + stats_md(m) + sections_md(m)
}

fn push_table_row(md: &mut String, label: &str, value: &str)
    ensures
        final(md)@ == old(md)@ + table_row(label@, value@),
{
    md.append("| **");
    md.append(label);
    md.append("** | ");
    md.append(value);
    md.append(" |\n");
}

fn push_list_row_if_any(md: &mut String, label: &str, items: &Vec<String>)
    ensures
        final(md)@ == old(md)@ + list_row_if_any(label@, strings_view(items@)),
{
    if items.len() > 0 {
        let joined = join_strings(items, ", ");
        push_table_row(md, label, joined.as_str());
    } else {
        assert(md@ =~= md@ + Seq::<char>::empty());
    }
}

fn push_row_if_any(md: &mut String, label: &str, value: &String)
    ensures
        final(md)@ == old(md)@ + row_if_any(label@, value@),
{
    if !value.as_str().is_empty() {
        push_table_row(md, label, value.as_str());
    } else {
        assert(md@ =~= md@ + Seq::<char>::empty());
    }
}

fn push_bullet_section(md: &mut String, heading: &str, items: &Vec<String>)
    ensures
        final(md)@ == old(md)@ + bullet_section(heading@, strings_view(items@)),
{
    let ghost o = md@;
    let ghost iv = strings_view(items@);
    if items.len() == 0 {
        assert(md@ =~= o + Seq::<char>::empty());
        return;
    }
    md.append(heading);
    let mut k: usize = 0;
    while k < items.len()
        invariant
            iv == strings_view(items@),
            k <= items.len(),
            md@ == o + heading@ + bullets(iv, k as int),
        decreases items.len() - k,
    {
        md.append("- ");
        md.append(items[k].as_str());
        md.append("\n");
        k = k + 1;
    }
    md.append("\n");
}

fn push_text_section(md: &mut String, heading: &str, text: &String)
    ensures
        final(md)@ == old(md)@ + text_section(heading@, text@),
{
    if !text.as_str().is_empty() {
        md.append(heading);
        md.append(text.as_str());
        md.append("\n\n");
    } else {
        assert(md@ =~= md@ + Seq::<char>::empty());
    }
}

fn push_header(md: &mut String, meta: &WorkMeta)
    ensures
        final(md)@ == old(md)@ + header_md(meta@),
{
    md.append("# ");
    md.append(meta.title.as_str());
    md.append("\n\n");
    md.append("**Author(s):** ");
    let authors = join_strings(&meta.authors, ", ");
    md.append(authors.as_str());
    md.append("\n\n");
}

fn push_info(md: &mut String, meta: &WorkMeta)
    ensures
        final(md)@ == old(md)@ + info_md(meta@),
{
    let ghost o = md@;
    md.append("---\n\n");
    md.append("## Work Information\n\n");
    md.append("| Field | Value |\n");
    md.append("| --- | --- |\n");
    push_table_row(md, "Rating", meta.rating.as_str());
    let warnings = join_strings(&meta.warnings, ", ");
    push_table_row(md, "Archive Warnings", warnings.as_str());
    push_list_row_if_any(md, "Categories", &meta.categories);
    let fandoms = join_strings(&meta.fandoms, ", ");
    push_table_row(md, "Fandoms", fandoms.as_str());
    push_list_row_if_any(md, "Relationships", &meta.relationships);
    push_list_row_if_any(md, "Characters", &meta.characters);
    push_table_row(md, "Language", meta.language.as_str());
    push_row_if_any(md, "Published", &meta.published);
    push_row_if_any(md, "Updated", &meta.updated);
    push_row_if_any(md, "Status", &meta.status);
    md.append("\n");
    assert(md@ =~= o + info_md(meta@));
}

fn standard_stat_name(i: usize) -> (s: &'static str)
    requires
        i < 6,
    ensures
        s@ == standard_stat_names()[i as int],
{
    if i == 0 {
        "Words"
    } else if i == 1 {
        "Chapters"
    } else if i == 2 {
        "Comments"
    } else if i == 3 {
        "Kudos"
    } else if i == 4 {
        "Bookmarks"
    } else {
        "Hits"
    }
}

fn listed_elsewhere(k: &str) -> (b: bool)
    ensures
        b == is_listed_elsewhere(k@),
{
    let mut i: usize = 0;
    while i < 6
        invariant
            i <= 6,
            forall|j: int| 0 <= j < i ==> standard_stat_names()[j] != k@,
        decreases 6 - i,
    {
        if crate::text::str_eq(standard_stat_name(i), k) {
            assert(standard_stat_names()[i as int] == k@);
            return true;
        }
        i = i + 1;
    }
    assert(!standard_stat_names().contains(k@)) by {
        if standard_stat_names().contains(k@) {
            let j: int = choose|j: int| 0 <= j < 6 && standard_stat_names()[j] == k@;
            assert(standard_stat_names()[j] != k@);
        }
    }
    crate::text::str_eq(k, "Published") || crate::text::str_eq(k, "Updated")
        || crate::text::str_eq(k, "Completed") || crate::text::str_eq(k, "Status")
}

fn push_stats(md: &mut String, meta: &WorkMeta)
    ensures
        final(md)@ == old(md)@ + stats_md(meta@),
{
    let stats = &meta.stats;
    let ghost o = md@;
    md.append("## Stats\n\n");
    md.append("| Stat | Value |\n");
    md.append("| --- | --- |\n");
    let ghost b = md@;
    let mut i: usize = 0;
    while i < 6
        invariant
            i <= 6,
            md@ == b + standard_stat_rows(stats@, i as int),
        decreases 6 - i,
    {
        let key = standard_stat_name(i);
        match stats.get(key) {
            Some(val) => {
                push_table_row(md, key, val.as_str());
            },
            None => {},
        }
        i = i + 1;
    }
    let ghost c = md@;
    let mut j: usize = 0;
    while j < stats.len()
        invariant
            j <= stats@.len(),
            md@ == c + other_stat_rows(stats@, j as int),
        decreases stats@.len() - j,
    {
        let (k, v) = stats.entry(j);
        if !listed_elsewhere(k.as_str()) {
            push_table_row(md, k.as_str(), v.as_str());
        }
        j = j + 1;
    }
    md.append("\n");
    assert(md@ =~= o + stats_md(meta@));
}

fn push_sections(md: &mut String, meta: &WorkMeta)
    ensures
        final(md)@ == old(md)@ + sections_md(meta@),
{
    let ghost o = md@;
    push_bullet_section(md, "## Tags\n\n", &meta.additional_tags);
    push_bullet_section(md, "## Series\n\n", &meta.series);
    push_text_section(md, "## Summary\n\n", &meta.summary);
    push_text_section(md, "## Notes (Beginning)\n\n", &meta.notes_begin);
    push_text_section(md, "## Notes (End)\n\n", &meta.notes_end);
    assert(md@ =~= o + sections_md(meta@));
}

/// The Markdown page of a work's metadata: title, authors, a table of the work's
/// information, a table of its statistics, its tags, series, summary and notes.
pub fn format_metadata_md(meta: &WorkMeta) -> (md: String)
    ensures
        md@ == metadata_md(meta@),
{
    let ghost m = meta@;
    let mut md = String::new();
    push_header(&mut md, meta);
    let ghost a = md@;
    push_info(&mut md, meta);
    let ghost b = md@;
    push_stats(&mut md, meta);
    let ghost c = md@;
    push_sections(&mut md, meta);
    assert(md@ =~= Seq::<char>::empty() + header_md(m) + info_md(m) + stats_md(m) + sections_md(m));
    md
}

/// A text holds what ends it.
proof fn lemma_contains_end(a: Seq<char>, x: Seq<char>)
    ensures
        contains_seq(a + x, x),
{
    assert((a + x).subrange(a.len() as int, (a.len() + x.len()) as int) =~= x);
}

/// What a text holds, the text holds with more before or after it.
proof fn lemma_contains_grow(s: Seq<char>, x: Seq<char>, a: Seq<char>, b: Seq<char>)
    requires
        contains_seq(s, x),
    ensures
        contains_seq(a + s, x),
        contains_seq(s + b, x),
{
    let i = choose|i: int| 0 <= i && i + x.len() <= s.len() && #[trigger] s.subrange(i, i + x.len()) == x;
    assert((a + s).subrange(a.len() + i, a.len() + i + x.len()) =~= s.subrange(i, i + x.len()));
    assert((s + b).subrange(i, i + x.len()) =~= s.subrange(i, i + x.len()));
}

/// What the Work Information table holds, the page holds.
proof fn lemma_info_in_page(m: MetaView, x: Seq<char>)
    requires
        contains_seq(info_md(m), x),
    ensures
        contains_seq(metadata_md(m), x),
{
    let h = header_md(m);
    let info = info_md(m);
    let sm = stats_md(m);
    let sc = sections_md(m);
    lemma_contains_grow(info, x, h, sm);
    lemma_contains_grow(h + info, x, seq![], sm);
    lemma_contains_grow(h + info + sm, x, seq![], sc);
}

/// The rows of the Work Information table before the language row.
pub open spec fn rows_before_language(m: MetaView) -> Seq<char> {
    "---\n\n"@ + "## Work Information\n\n"@ + "| Field | Value |\n"@ + "| --- | --- |\n"@
        + table_row("Rating"@, m.rating) + table_row("Archive Warnings"@, join(m.warnings, comma()))
        + list_row_if_any("Categories"@, m.categories) + table_row(
        "Fandoms"@,
        join(m.fandoms, comma()),
    ) + list_row_if_any("Relationships"@, m.relationships) + list_row_if_any(
        "Characters"@,
        m.characters,
    )
}

proof fn lemma_info_split(m: MetaView)
    ensures
        info_md(m) == rows_before_language(m) + (table_row("Language"@, m.language) + row_if_any(
            "Published"@,
            m.published,
        ) + row_if_any("Updated"@, m.updated) + row_if_any("Status"@, m.status) + "\n"@),
{
    let a = rows_before_language(m);
    let b = table_row("Language"@, m.language) + row_if_any("Published"@, m.published) + row_if_any(
        "Updated"@,
        m.updated,
    ) + row_if_any("Status"@, m.status) + "\n"@;
    assert(info_md(m) =~= a + b);
}

/// The end of the Work Information table: the language row, then a row for the
/// publication date, one for the date of the last update and one for the status,
/// in that order, each only where its value is not empty, then the blank line that
/// ends the table.
pub proof fn lemma_date_rows(m: MetaView)
    ensures
        ({
            let p = if m.published.len() > 0 {
                "| **Published** | "@ + m.published + " |\n"@
            } else {
                Seq::<char>::empty()
            };
            let u = if m.updated.len() > 0 {
                "| **Updated** | "@ + m.updated + " |\n"@
            } else {
                Seq::<char>::empty()
            };
            let st = if m.status.len() > 0 {
                "| **Status** | "@ + m.status + " |\n"@
            } else {
                Seq::<char>::empty()
            };
            contains_seq(
                metadata_md(m),
                "| **Language** | "@ + m.language + " |\n"@ + p + u + st + "\n"@,
            )
        }),
{
    reveal_strlit("| **");
    reveal_strlit("** | ");
    reveal_strlit("Language");
    reveal_strlit("Published");
    reveal_strlit("Updated");
    reveal_strlit("Status");
    reveal_strlit("| **Language** | ");
    reveal_strlit("| **Published** | ");
    reveal_strlit("| **Updated** | ");
    reveal_strlit("| **Status** | ");
    let p = row_if_any("Published"@, m.published);
    let u = row_if_any("Updated"@, m.updated);
    let st = row_if_any("Status"@, m.status);
    assert(table_row("Language"@, m.language) =~= "| **Language** | "@ + m.language + " |\n"@);
    assert(m.published.len() > 0 ==> p =~= "| **Published** | "@ + m.published + " |\n"@);
    assert(m.updated.len() > 0 ==> u =~= "| **Updated** | "@ + m.updated + " |\n"@);
    assert(m.status.len() > 0 ==> st =~= "| **Status** | "@ + m.status + " |\n"@);
    let b = table_row("Language"@, m.language) + p + u + st + "\n"@;
    lemma_info_split(m);
    lemma_contains_end(rows_before_language(m), b);
    lemma_info_in_page(m, b);
}

/// What a text holds, a text that holds it holds too.
proof fn lemma_contains_trans(s: Seq<char>, x: Seq<char>, y: Seq<char>)
    requires
        contains_seq(s, x),
        contains_seq(x, y),
    ensures
        contains_seq(s, y),
{
    let i = choose|i: int| 0 <= i && i + x.len() <= s.len() && #[trigger] s.subrange(i, i + x.len()) == x;
    let j = choose|j: int| 0 <= j && j + y.len() <= x.len() && #[trigger] x.subrange(j, j + y.len()) == y;
    assert(s.subrange(i + j, i + j + y.len()) =~= x.subrange(j, j + y.len()));
}

/// The page has a row for the publication date, one for the date of the last update
/// and one for the status wherever that value is not empty; where two of them are
/// not empty, their rows stand next to each other, in that order.
pub proof fn lemma_date_rows_present(m: MetaView)
    ensures
        ({
            let md = metadata_md(m);
            let published = "| **Published** | "@ + m.published + " |\n"@;
            let updated = "| **Updated** | "@ + m.updated + " |\n"@;
            let status = "| **Status** | "@ + m.status + " |\n"@;
            &&& m.published.len() > 0 ==> contains_seq(md, published)
            &&& m.updated.len() > 0 ==> contains_seq(md, updated)
            &&& m.status.len() > 0 ==> contains_seq(md, status)
        }),
{
    lemma_date_rows(m);
    let md = metadata_md(m);
    let published = "| **Published** | "@ + m.published + " |\n"@;
    let updated = "| **Updated** | "@ + m.updated + " |\n"@;
    let status = "| **Status** | "@ + m.status + " |\n"@;
    let l = "| **Language** | "@ + m.language + " |\n"@;
    let p = if m.published.len() > 0 { published } else { Seq::<char>::empty() };
    let u = if m.updated.len() > 0 { updated } else { Seq::<char>::empty() };
    let st = if m.status.len() > 0 { status } else { Seq::<char>::empty() };
    let nl = "\n"@;
    let b = l + p + u + st + nl;
    assert(contains_seq(md, b));
    if m.published.len() > 0 {
        lemma_contains_end(l, p);
        lemma_contains_grow(l + p, p, seq![], u);
        lemma_contains_grow(l + p + u, p, seq![], st);
        lemma_contains_grow(l + p + u + st, p, seq![], nl);
        lemma_contains_trans(md, b, published);
    }
    if m.updated.len() > 0 {
        lemma_contains_end(l + p, u);
        lemma_contains_grow(l + p + u, u, seq![], st);
        lemma_contains_grow(l + p + u + st, u, seq![], nl);
        lemma_contains_trans(md, b, updated);
    }
    if m.status.len() > 0 {
        lemma_contains_end(l + p + u, st);
        lemma_contains_grow(l + p + u + st, st, seq![], nl);
        lemma_contains_trans(md, b, status);
    }
}

/// Where two of the dates and the status are not empty, their rows stand next to
/// each other: the publication date before the date of the last update, and that
/// before the status.
pub proof fn lemma_date_rows_adjacent(m: MetaView)
    ensures
        ({
            let md = metadata_md(m);
            let published = "| **Published** | "@ + m.published + " |\n"@;
            let updated = "| **Updated** | "@ + m.updated + " |\n"@;
            let status = "| **Status** | "@ + m.status + " |\n"@;
            &&& m.published.len() > 0 && m.updated.len() > 0 ==> contains_seq(md, published + updated)
            &&& m.updated.len() > 0 && m.status.len() > 0 ==> contains_seq(md, updated + status)
        }),
{
    lemma_date_rows(m);
    let md = metadata_md(m);
    let published = "| **Published** | "@ + m.published + " |\n"@;
    let updated = "| **Updated** | "@ + m.updated + " |\n"@;
    let status = "| **Status** | "@ + m.status + " |\n"@;
    let l = "| **Language** | "@ + m.language + " |\n"@;
    let p = if m.published.len() > 0 { published } else { Seq::<char>::empty() };
    let u = if m.updated.len() > 0 { updated } else { Seq::<char>::empty() };
    let st = if m.status.len() > 0 { status } else { Seq::<char>::empty() };
    let nl = "\n"@;
    let b = l + p + u + st + nl;
    if m.published.len() > 0 && m.updated.len() > 0 {
        assert(l + (p + u) =~= l + p + u);
        lemma_contains_end(l, p + u);
        lemma_contains_grow(l + p + u, p + u, seq![], st);
        lemma_contains_grow(l + p + u + st, p + u, seq![], nl);
        lemma_contains_trans(md, b, published + updated);
    }
    if m.updated.len() > 0 && m.status.len() > 0 {
        assert((l + p) + (u + st) =~= l + p + u + st);
        lemma_contains_end(l + p, u + st);
        lemma_contains_grow(l + p + u + st, u + st, seq![], nl);
        lemma_contains_trans(md, b, updated + status);
    }
}

/// The rows for the categories, the relationships and the characters: each list, joined
/// by ", ", has its row in the page wherever it is not empty.
pub proof fn lemma_list_rows_present(m: MetaView)
    ensures
        ({
            let md = metadata_md(m);
            &&& m.categories.len() > 0 ==> contains_seq(
                md,
                "| **Categories** | "@ + join(m.categories, ", "@) + " |\n"@,
            )
            &&& m.relationships.len() > 0 ==> contains_seq(
                md,
                "| **Relationships** | "@ + join(m.relationships, ", "@) + " |\n"@,
            )
            &&& m.characters.len() > 0 ==> contains_seq(
                md,
                "| **Characters** | "@ + join(m.characters, ", "@) + " |\n"@,
            )
        }),
{
    reveal_strlit("| **");
    reveal_strlit("** | ");
    reveal_strlit("Categories");
    reveal_strlit("Relationships");
    reveal_strlit("Characters");
    reveal_strlit("| **Categories** | ");
    reveal_strlit("| **Relationships** | ");
    reveal_strlit("| **Characters** | ");
    let a0 = "---\n\n"@ + "## Work Information\n\n"@ + "| Field | Value |\n"@ + "| --- | --- |\n"@
        + table_row("Rating"@, m.rating) + table_row("Archive Warnings"@, join(m.warnings, comma()));
    let cats = list_row_if_any("Categories"@, m.categories);
    let fan = table_row("Fandoms"@, join(m.fandoms, comma()));
    let rels = list_row_if_any("Relationships"@, m.relationships);
    let chars = list_row_if_any("Characters"@, m.characters);
    let rows = rows_before_language(m);
    assert(rows == a0 + cats + fan + rels + chars);
    let b = table_row("Language"@, m.language) + row_if_any("Published"@, m.published) + row_if_any(
        "Updated"@,
        m.updated,
    ) + row_if_any("Status"@, m.status) + "\n"@;
    lemma_info_split(m);
    if m.categories.len() > 0 {
        assert(cats =~= "| **Categories** | "@ + join(m.categories, ", "@) + " |\n"@);
        lemma_contains_end(a0, cats);
        lemma_contains_grow(a0 + cats, cats, seq![], fan);
        lemma_contains_grow(a0 + cats + fan, cats, seq![], rels);
        lemma_contains_grow(a0 + cats + fan + rels, cats, seq![], chars);
        lemma_contains_grow(rows, cats, seq![], b);
        lemma_info_in_page(m, cats);
    }
    if m.relationships.len() > 0 {
        assert(rels =~= "| **Relationships** | "@ + join(m.relationships, ", "@) + " |\n"@);
        lemma_contains_end(a0 + cats + fan, rels);
        lemma_contains_grow(a0 + cats + fan + rels, rels, seq![], chars);
        lemma_contains_grow(rows, rels, seq![], b);
        lemma_info_in_page(m, rels);
    }
    if m.characters.len() > 0 {
        assert(chars =~= "| **Characters** | "@ + join(m.characters, ", "@) + " |\n"@);
        lemma_contains_end(a0 + cats + fan + rels, chars);
        lemma_contains_grow(rows, chars, seq![], b);
        lemma_info_in_page(m, chars);
    }
}

} // verus!
