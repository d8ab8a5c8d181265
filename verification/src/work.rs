//! What the program makes of a work: its id and address, its directory, and the
//! files of its chapters.
use crate::dom::{opt_view, Document};
use crate::extract::{extract_single_chapter_content, pairs_view, single_chapter_of};
use crate::text::{contains_seq, decimal, digit_char, push_decimal};
use vstd::prelude::*;
use vstd::string::StringSliceAdditionalSpecFns;

verus! {

/// The text that precedes a work's id in its address.
pub open spec fn work_marker() -> Seq<char> {
    "archiveofourown.org/works/"@
}

pub open spec fn is_ascii_digit(c: char) -> bool {
    '0' <= c && c <= '9'
}

pub open spec fn is_ascii_text(s: Seq<char>) -> bool {
    forall|i: int| 0 <= i < s.len() ==> #[trigger] s[i] <= '\u{7f}'
}

/// Whether `c`, a character beyond ASCII, is one of Unicode's decimal digits (general
/// category `Nd`), which is what the `regex` crate's `\d` matches beyond ASCII.
pub uninterp spec fn beyond_ascii_decimal_digit(c: char) -> bool;

/// A character that the `regex` crate's `\d` (Unicode's `\p{Nd}`) matches: among ASCII
/// characters `0` to `9` alone, beyond ASCII the other decimal digits of Unicode.
pub open spec fn is_regex_digit(c: char) -> bool {
    if c <= '\u{7f}' {
        is_ascii_digit(c)
    } else {
        beyond_ascii_decimal_digit(c)
    }
}

/// The number of digits (`is_regex_digit`) at the start of `s`.
pub open spec fn digit_run(s: Seq<char>) -> int
    decreases s.len(),
{
    if s.len() > 0 && is_regex_digit(s[0]) {
        1 + digit_run(s.drop_first())
    } else {
        0
    }
}

/// The marker stands at `i` and a digit follows it.
pub open spec fn id_at(url: Seq<char>, i: int) -> bool {
    &&& 0 <= i
    &&& i + work_marker().len() < url.len()
    &&& url.subrange(i, i + work_marker().len()) == work_marker()
    &&& is_regex_digit(url[i + work_marker().len()])
}

/// The digits after the first marker of `url` that a digit follows: all the digits
/// that stand there in a row.
pub open spec fn work_id_in(url: Seq<char>) -> Option<Seq<char>> {
    if exists|i: int| id_at(url, i) {
        let i: int = choose|i: int| id_at(url, i) && forall|j: int| 0 <= j < i ==> !id_at(url, j);
        let rest = url.skip(i + work_marker().len());
        Some(rest.take(digit_run(rest)))
    } else {
        None
    }
}

pub open spec fn work_id_pattern() -> Seq<char> {
    "archiveofourown\\.org/works/(\\d+)"@
}

/// `regex::Regex::new(pattern)`, `Regex::captures(text)` and the text of group 1,
/// for the pattern `archiveofourown\.org/works/(\d+)` alone. The regex documentation
/// gives the result: `captures` finds the leftmost match, which starts at the first
/// place where the marker stands with a digit after it; `\d+` is greedy, so the group
/// holds all the digits that follow there; and `\d` is Unicode's `\p{Nd}`, which the
/// contract spells out for ASCII and names (`beyond_ascii_decimal_digit`) beyond it.
#[verifier::external_body]
fn regex_first_capture(pattern: &str, text: &str) -> (r: Option<String>)
    requires
        pattern@ == work_id_pattern(),
    ensures
        opt_view(r) == work_id_in(text@),
        r matches Some(id) ==> forall|k: int| 0 <= k < id@.len() ==> (#[trigger] id@[k] <= '\u{7f}'
            && is_ascii_digit(id@[k])) || (id@[k] > '\u{7f}' && beyond_ascii_decimal_digit(id@[k])),
{
    regex::Regex::new(pattern).unwrap().captures(text).and_then(|c| c.get(1)).map(
        |m| m.as_str().to_string(),
    )
}

/// The id of the work that `url` points to: the digits after the first
/// `archiveofourown.org/works/` that digits follow.
pub fn extract_work_id(url: &str) -> (id: Option<String>)
    ensures
        opt_view(id) == work_id_in(url@),
        id matches Some(s) ==> forall|k: int| 0 <= k < s@.len() ==> is_regex_digit(#[trigger] s@[k]),
{
    proof {
        reveal_strlit("archiveofourown\\.org/works/(\\d+)");
    }
    regex_first_capture("archiveofourown\\.org/works/(\\d+)", url)
}

/// The address of the whole work, all chapters on one page, adult content shown.
pub open spec fn full_work_url_spec(id: Seq<char>) -> Seq<char> {
    "https://archiveofourown.org/works/"@ + id + "?view_full_work=true&view_adult=true"@
}

/// The address of the whole work with the given id.
pub fn full_work_url(work_id: &str) -> (url: String)
    ensures
        url@ == full_work_url_spec(work_id@),
{
    let mut url = String::from_str("https://archiveofourown.org/works/");
    url.append(work_id);
    url.append("?view_full_work=true&view_adult=true");
    url
}

proof fn lemma_digit_run(d: Seq<char>, t: Seq<char>)
    requires
        forall|i: int| 0 <= i < d.len() ==> is_regex_digit(#[trigger] d[i]),
        t.len() > 0,
        !is_regex_digit(t[0]),
    ensures
        digit_run(d + t) == d.len(),
    decreases d.len(),
{
    if d.len() == 0 {
        assert(d + t =~= t);
    } else {
        lemma_digit_run(d.drop_first(), t);
        assert((d + t).drop_first() =~= d.drop_first() + t);
    }
}

/// An id of ASCII digits is what `extract_work_id` reads back from the address
/// that `full_work_url` makes of it: the address is ASCII, and the digits after its
/// first marker are the id.
pub proof fn lemma_work_id_round_trip(id: Seq<char>)
    requires
        id.len() > 0,
        forall|i: int| 0 <= i < id.len() ==> is_ascii_digit(#[trigger] id[i]),
    ensures
        is_ascii_text(full_work_url_spec(id)),
        work_id_in(full_work_url_spec(id)) == Some(id),
{
    reveal_strlit("https://archiveofourown.org/works/");
    reveal_strlit("?view_full_work=true&view_adult=true");
    reveal_strlit("archiveofourown.org/works/");
    let head: Seq<char> = "https://archiveofourown.org/works/"@;
    let tail: Seq<char> = "?view_full_work=true&view_adult=true"@;
    let url = full_work_url_spec(id);
    assert(url == head + id + tail);
    assert(head.len() == 34);
    assert(work_marker().len() == 26);
    assert forall|i: int| 0 <= i < url.len() implies #[trigger] url[i] <= '\u{7f}' by {
        if i < 34 {
            assert(url[i] == head[i]);
        } else if i < 34 + id.len() {
            assert(url[i] == id[i - 34]);
        } else {
            assert(url[i] == tail[i - 34 - id.len()]);
        }
    }
    assert(url.subrange(8, 34) =~= work_marker());
    assert(url[34] == id[0]);
    assert(id_at(url, 8));
    assert forall|j: int| 0 <= j < 8 implies !id_at(url, j) by {
        assert(url[j] == head[j]);
        if id_at(url, j) {
            assert(url.subrange(j, j + 26)[0] == work_marker()[0]);
        }
    }
    let i: int = choose|i: int| id_at(url, i) && forall|j: int| 0 <= j < i ==> !id_at(url, j);
    assert(i == 8) by {
        if i < 8 {
            assert(!id_at(url, i));
        } else if i > 8 {
            assert(!id_at(url, 8));
        }
    }
    let rest = url.skip(34);
    assert(rest =~= id + tail);
    lemma_digit_run(id, tail);
    assert(rest.take(id.len() as int) =~= id);
}

/// A character that `sanitize_filename` never leaves in a name.
pub open spec fn is_unsafe_in_file_name(c: char) -> bool {
    ||| c == '/'
    ||| c == '?'
    ||| c == '<'
    ||| c == '>'
    ||| c == '\\'
    ||| c == ':'
    ||| c == '*'
    ||| c == '|'
    ||| c == '"'
    ||| (c as u32) < 0x20
    ||| (0x80 <= (c as u32) && (c as u32) <= 0x9f)
}

/// The index of the first '.', or the length where there is none.
pub open spec fn dot_index(s: Seq<char>) -> int
    decreases s.len(),
{
    if s.len() == 0 {
        0
    } else if s[0] == '.' {
        0
    } else {
        1 + dot_index(s.drop_first())
    }
}

/// The part of a name before its first '.'.
pub open spec fn device_part(name: Seq<char>) -> Seq<char> {
    name.take(dot_index(name))
}

/// `s` is `lower` up to the case of ASCII letters (`upper` is `lower` in capitals).
pub open spec fn same_ignoring_case(s: Seq<char>, lower: Seq<char>, upper: Seq<char>) -> bool {
    &&& s.len() == lower.len()
    &&& forall|i: int| 0 <= i < s.len() ==> #[trigger] s[i] == lower[i] || s[i] == upper[i]
}

/// A Windows device name: `con`, `prn`, `aux`, `nul`, `com0`..`com9`, `lpt0`..`lpt9`,
/// in any case.
pub open spec fn is_device_name(b: Seq<char>) -> bool {
    ||| same_ignoring_case(b, "con"@, "CON"@)
    ||| same_ignoring_case(b, "prn"@, "PRN"@)
    ||| same_ignoring_case(b, "aux"@, "AUX"@)
    ||| same_ignoring_case(b, "nul"@, "NUL"@)
    ||| (b.len() == 4 && is_ascii_digit(b[3]) && (same_ignoring_case(b.take(3), "com"@, "COM"@)
        || same_ignoring_case(b.take(3), "lpt"@, "LPT"@)))
}

/// A name that `sanitize_filename` keeps as it is on every platform: no unsafe
/// character, no trailing '.' or ' ' (so not made of dots alone), and a part before
/// the first '.' that is ASCII and no Windows device name.
pub open spec fn kept_as_is(name: Seq<char>) -> bool {
    &&& forall|i: int| 0 <= i < name.len() ==> !is_unsafe_in_file_name(#[trigger] name[i])
    &&& name.len() > 0 ==> name.last() != '.' && name.last() != ' '
    &&& is_ascii_text(device_part(name))
    &&& !is_device_name(device_part(name))
}

/// `name` with every character of `is_unsafe_in_file_name` taken out, the others kept
/// in order.
pub open spec fn without_unsafe(name: Seq<char>) -> Seq<char> {
    name.filter(|c: char| !is_unsafe_in_file_name(c))
}

/// A name with no unsafe character is its own `without_unsafe`.
proof fn lemma_without_unsafe_of_safe(name: Seq<char>)
    requires
        forall|i: int| 0 <= i < name.len() ==> !is_unsafe_in_file_name(#[trigger] name[i]),
    ensures
        without_unsafe(name) == name,
    decreases name.len(),
{
    reveal(Seq::filter);
    if name.len() > 0 {
        let init = name.drop_last();
        assert forall|i: int| 0 <= i < init.len() implies !is_unsafe_in_file_name(
            #[trigger] init[i],
        ) by {
            assert(init[i] == name[i]);
        }
        lemma_without_unsafe_of_safe(init);
        assert(init.push(name.last()) =~= name);
    }
}

/// `sanitize_filename::sanitize`. What it returns depends on the platform (on
/// Windows it also removes device names and trailing dots and spaces), so the
/// contract states what holds on every platform: no character of
/// `is_unsafe_in_file_name` is left, and where the name with those characters taken
/// out (`without_unsafe`) is `kept_as_is` and the name is at most 255 bytes long in
/// UTF-8, that is what comes back: the later steps (names made of dots, the Windows
/// steps, the 255-byte cut) leave such a name alone; and on every platform what comes
/// back is at most 255 bytes long in UTF-8, the last step cutting a longer name at a
/// character boundary. What comes back for other names
/// (which characters are kept, where the 255-byte cut falls) is left unsaid.
#[verifier::external_body]
fn sanitize_file_name(name: &str) -> (r: String)
    ensures
        forall|i: int| 0 <= i < r@.len() ==> !is_unsafe_in_file_name(#[trigger] r@[i]),
        vstd::utf8::encode_utf8(r@).len() <= 255,
        kept_as_is(without_unsafe(name@)) && name.spec_bytes().len() <= 255 ==> r@
            == without_unsafe(name@),
{
    sanitize_filename::sanitize(name)
}

/// The name of the directory that receives a work's files: the title without the
/// characters a file name cannot hold. Where what is left is a safe name and the title
/// is at most 255 bytes long, the name is exactly what is left; a title that is
/// already a safe name is the name itself. The name is never longer than 255 bytes.
pub fn work_dir_name(title: &str) -> (name: String)
    ensures
        forall|i: int| 0 <= i < name@.len() ==> !is_unsafe_in_file_name(#[trigger] name@[i]),
        vstd::utf8::encode_utf8(name@).len() <= 255,
        kept_as_is(without_unsafe(title@)) && title.spec_bytes().len() <= 255 ==> name@
            == without_unsafe(title@),
        kept_as_is(title@) && title.spec_bytes().len() <= 255 ==> name@ == title@,
{
    let name = sanitize_file_name(title);
    proof {
        if kept_as_is(title@) {
            lemma_without_unsafe_of_safe(title@);
        }
    }
    name
}

/// `chapter<n>.md` for the chapter at `index`, counting from 1.
pub open spec fn chapter_file_name_spec(index: nat) -> Seq<char> {
    "chapter"@ + decimal(index + 1) + ".md"@
}

proof fn lemma_digit_char_injective(x: nat, y: nat)
    requires
        x < 10,
        y < 10,
        digit_char(x) == digit_char(y),
    ensures
        x == y,
{
}

proof fn lemma_decimal_len(n: nat)
    ensures
        decimal(n).len() >= 1,
        n >= 10 ==> decimal(n).len() >= 2,
    decreases n,
{
    if n >= 10 {
        lemma_decimal_len(n / 10);
    }
}

/// Different numbers have different decimal digits.
pub proof fn lemma_decimal_injective(a: nat, b: nat)
    requires
        decimal(a) == decimal(b),
    ensures
        a == b,
    decreases a,
{
    lemma_decimal_len(a);
    lemma_decimal_len(b);
    if a < 10 && b < 10 {
        assert(decimal(a) == seq![digit_char(a)]);
        assert(decimal(b) == seq![digit_char(b)]);
        assert(seq![digit_char(a)][0] == digit_char(a));
        assert(seq![digit_char(b)][0] == digit_char(b));
        assert(decimal(a)[0] == decimal(b)[0]);
        lemma_digit_char_injective(a, b);
    } else if a >= 10 && b >= 10 {
        let da = decimal(a);
        let db = decimal(b);
        assert(da.drop_last() =~= decimal(a / 10));
        assert(db.drop_last() =~= decimal(b / 10));
        assert(da.last() == db.last());
        lemma_digit_char_injective(a % 10, b % 10);
        lemma_decimal_injective(a / 10, b / 10);
        assert(a == 10 * (a / 10) + a % 10) by (nonlinear_arith);
        assert(b == 10 * (b / 10) + b % 10) by (nonlinear_arith);
    } else {
        assert(decimal(a).len() != decimal(b).len());
    }
}

/// Each chapter gets a file of its own: different positions give different names.
pub proof fn lemma_chapter_names_distinct(i: nat, j: nat)
    requires
        i != j,
    ensures
        chapter_file_name_spec(i) != chapter_file_name_spec(j),
{
    reveal_strlit("chapter");
    reveal_strlit(".md");
    if chapter_file_name_spec(i) == chapter_file_name_spec(j) {
        let a = chapter_file_name_spec(i);
        let da = decimal(i + 1);
        let db = decimal(j + 1);
        assert(a.len() == 10 + da.len());
        assert(chapter_file_name_spec(j).len() == 10 + db.len());
        assert(a.subrange(7, 7 + da.len() as int) =~= da);
        assert(chapter_file_name_spec(j).subrange(7, 7 + db.len() as int) =~= db);
        lemma_decimal_injective(i + 1, j + 1);
    }
}

/// The file name of the chapter at `index`.
pub fn chapter_file_name(index: usize) -> (name: String)
    requires
        index < usize::MAX,
    ensures
        name@ == chapter_file_name_spec(index as nat),
{
    let mut name = String::from_str("chapter");
    push_decimal(&mut name, index + 1);
    name.append(".md");
    name
}

/// A chapter's page: its title as a heading where it has one, then its Markdown.
pub open spec fn chapter_page(title: Seq<char>, content: Seq<char>) -> Seq<char> {
    if title.len() > 0 {
        "# "@ + title + "\n\n"@ + content
    } else {
        content
    }
}

/// The page of a chapter.
pub fn chapter_markdown(title: &str, content: &str) -> (md: String)
    ensures
        md@ == chapter_page(title@, content@),
{
    let mut md = String::new();
    if !title.is_empty() {
        md.append("# ");
        md.append(title);
        md.append("\n\n");
    }
    md.append(content);
    md
}

/// The files of a work's chapters: one per chapter, or, where the page has no
/// chapter element, a single `chapter1.md` with its text.
pub open spec fn chapter_files_spec(chapters: Seq<(Seq<char>, Seq<char>)>, single: Seq<char>) -> Seq<
    (Seq<char>, Seq<char>),
> {
    if chapters.len() == 0 {
        seq![(chapter_file_name_spec(0), single)]
    } else {
        Seq::new(
            chapters.len(),
            |i: int| (chapter_file_name_spec(i as nat), chapter_page(chapters[i].0, chapters[i].1)),
        )
    }
}

/// The files (name, content) to write for the chapters of the work on `doc`.
pub fn chapter_files(doc: &Document, chapters: &Vec<(String, String)>) -> (files: Vec<(String, String)>)
    ensures
        chapters@.len() == 0 ==> pairs_view(files@) == chapter_files_spec(
            pairs_view(chapters@),
            single_chapter_of(*doc),
        ),
        chapters@.len() > 0 ==> pairs_view(files@) == chapter_files_spec(
            pairs_view(chapters@),
            seq![],
        ),
{
    let mut files: Vec<(String, String)> = Vec::new();
    if chapters.len() == 0 {
        let content = extract_single_chapter_content(doc);
        let name = chapter_file_name(0);
        files.push((name, content));
        assert(pairs_view(files@) =~= chapter_files_spec(pairs_view(chapters@), single_chapter_of(*doc)));
        return files;
    }
    let ghost want = chapter_files_spec(pairs_view(chapters@), seq![]);
    let mut i: usize = 0;
    while i < chapters.len()
        invariant
            i <= chapters.len(),
            chapters.len() > 0,
            want == chapter_files_spec(pairs_view(chapters@), seq![]),
            pairs_view(files@) == want.take(i as int),
        decreases chapters.len() - i,
    {
        let name = chapter_file_name(i);
        let md = chapter_markdown(chapters[i].0.as_str(), chapters[i].1.as_str());
        let ghost entry = (name@, md@);
        let ghost before = files@;
        files.push((name, md));
        assert(pairs_view(chapters@)[i as int] == (chapters@[i as int].0@, chapters@[i as int].1@));
        assert(want[i as int] == entry);
        assert(pairs_view(files@) =~= pairs_view(before).push(entry));
        assert(want.take(i + 1) =~= want.take(i as int).push(want[i as int]));
        i = i + 1;
    }
    assert(want.take(chapters.len() as int) =~= want);
    files
}

/// Whether to wait after writing file `index` of `count`: between files, not after the last.
pub fn pause_after(index: usize, count: usize) -> (pause: bool)
    ensures
        pause == (index + 1 < count),
{
    index < count && index < count - 1
}

/// The files of a work: one per chapter, in the chapters' order, the one for the
/// chapter at index `i` named `chapter<i + 1>.md` and holding the chapter's text,
/// under the heading `# <title>` and a blank line wherever the title is not empty;
/// a page without chapters gives the single file `chapter1.md` with its text.
pub proof fn lemma_chapter_files_shape(chapters: Seq<(Seq<char>, Seq<char>)>, single: Seq<char>)
    ensures
        chapters.len() == 0 ==> chapter_files_spec(chapters, single) == seq![
            ("chapter1.md"@, single),
        ],
        chapters.len() > 0 ==> chapter_files_spec(chapters, single).len() == chapters.len(),
        chapters.len() > 0 ==> forall|i: int|
            0 <= i < chapters.len() ==> (#[trigger] chapter_files_spec(chapters, single)[i]).0
                == "chapter"@ + decimal((i + 1) as nat) + ".md"@,
        chapters.len() > 0 ==> forall|i: int|
            0 <= i < chapters.len() && chapters[i].0.len() > 0 ==> (#[trigger] chapter_files_spec(
                chapters,
                single,
            )[i]).1 == "# "@ + chapters[i].0 + "\n\n"@ + chapters[i].1,
        chapters.len() > 0 ==> forall|i: int|
            0 <= i < chapters.len() && chapters[i].0.len() == 0 ==> (#[trigger] chapter_files_spec(
                chapters,
                single,
            )[i]).1 == chapters[i].1,
{
    reveal_strlit("chapter");
    reveal_strlit(".md");
    reveal_strlit("chapter1.md");
    assert(decimal(1) == seq!['1']);
    assert(chapter_file_name_spec(0) =~= "chapter1.md"@);
}

} // verus!
