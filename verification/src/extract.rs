//! Reading a work's page: its metadata and its chapters.
use crate::dom::{arena_before, flatten, Document, Node, NodeView};
use crate::markdown::{html_node_to_md, node_md, TableFlags, TableSel};
use crate::meta::{MetaView, WorkMeta};
use crate::query::{
    collect_matches, first_in, lemma_matches_pos, matches_in, refs_view, select, select_in, text, text_of,
};
use crate::stats::{stat_get, stat_insert, Stats};
use crate::text::{join, join_strings, prefix_lines, prefix_lines_spec, strings_view, trim, trim_end_char, trim_end_matches_char, trim_string};
use vstd::prelude::*;

verus! {

/// For each step of the walk through the page: whether it opens an element that
/// the CSS selector `sel` matches.
pub open spec fn sel_flags(doc: Document, sel: Seq<char>) -> Seq<bool> {
    crate::dom::selector_matches(doc.source(), sel)
}

/// `t` with `n` put before the first node that the parser created after `n`, or
/// at the end.
pub open spec fn insert_by_creation(html: Seq<char>, t: Seq<NodeView>, n: NodeView) -> Seq<NodeView>
    decreases t.len(),
{
    if t.len() == 0 {
        seq![n]
    } else if arena_before(html, n.pos, t[0].pos) {
        seq![n] + t
    } else {
        seq![t[0]] + insert_by_creation(html, t.drop_first(), n)
    }
}

/// The nodes `s` of the page parsed from `html` in the order in which the parser
/// created them, which is the order of the tree's arena.
pub open spec fn by_creation(html: Seq<char>, s: Seq<NodeView>) -> Seq<NodeView>
    decreases s.len(),
{
    if s.len() == 0 {
        seq![]
    } else {
        insert_by_creation(html, by_creation(html, s.drop_last()), s.last())
    }
}

/// The elements of the page that the selector whose answers are `flags` matches, in
/// the order in which `scraper`'s `Html::select` yields them: it walks the tree's
/// arena, where the nodes stand in the order the parser created them.
pub open spec fn doc_picks(doc: Document, flags: Seq<bool>) -> Seq<NodeView> {
    by_creation(doc.source(), matches_in(doc.nodes(), flags))
}

/// The first node of a list, where there is one.
pub open spec fn first_of(s: Seq<NodeView>) -> Option<NodeView> {
    if s.len() > 0 {
        Some(s[0])
    } else {
        None
    }
}

/// The elements of the page that `sel` matches, in the order `Html::select` gives.
pub open spec fn doc_matches(doc: Document, sel: Seq<char>) -> Seq<NodeView> {
    doc_picks(doc, sel_flags(doc, sel))
}

/// The first element of the page that `sel` matches, as `Html::select` gives it.
pub open spec fn first_match(doc: Document, sel: Seq<char>) -> Option<NodeView> {
    first_of(doc_matches(doc, sel))
}

/// The first element under `n` that `sel` matches.
pub open spec fn first_under(doc: Document, n: NodeView, sel: Seq<char>) -> Option<NodeView> {
    first_in(n.children, sel_flags(doc, sel))
}

/// The tables' rows and cells of the page.
pub open spec fn table_sel(doc: Document) -> TableSel {
    TableSel { tr: sel_flags(doc, "tr"@), th: sel_flags(doc, "th"@), td: sel_flags(doc, "td"@) }
}

/// The trimmed text of an element.
pub open spec fn trimmed_text(n: NodeView) -> Seq<char> {
    trim(text_of(n))
}

/// The trimmed text of each element.
pub open spec fn texts(s: Seq<NodeView>) -> Seq<Seq<char>> {
    s.map_values(|n: NodeView| trimmed_text(n))
}

/// The texts that are not empty, in order.
pub open spec fn non_empty(s: Seq<Seq<char>>) -> Seq<Seq<char>>
    decreases s.len(),
{
    if s.len() == 0 {
        seq![]
    } else {
        non_empty(s.drop_last()) + if s.last().len() > 0 {
            seq![s.last()]
        } else {
            seq![]
        }
    }
}

/// The tags (`a.tag`) under an element.
pub open spec fn tag_texts(doc: Document, e: NodeView) -> Seq<Seq<char>> {
    texts(select_in(e, sel_flags(doc, "a.tag"@)))
}

/// A tag field as one text: the tags of the first element that `sel` matches,
/// joined by ", ", or its whole text where it has no tag.
pub open spec fn tag_list(doc: Document, sel: Seq<char>) -> Seq<char> {
    match first_match(doc, sel) {
        Some(e) => if tag_texts(doc, e).len() == 0 {
            trimmed_text(e)
        } else {
            join(tag_texts(doc, e), ", "@)
        },
        None => seq![],
    }
}

/// A tag field as a list: the tags of the first element that `sel` matches, or
/// its whole text where it has no tag and the text is not empty.
pub open spec fn tag_list_vec(doc: Document, sel: Seq<char>) -> Seq<Seq<char>> {
    match first_match(doc, sel) {
        Some(e) => if tag_texts(doc, e).len() == 0 {
            if trimmed_text(e).len() == 0 {
                seq![]
            } else {
                seq![trimmed_text(e)]
            }
        } else {
            tag_texts(doc, e)
        },
        None => seq![],
    }
}

/// The authors: the author links of the byline, else its non-empty links, else
/// its text where that is not empty.
pub open spec fn authors_of(doc: Document) -> Seq<Seq<char>> {
    let by_rel = texts(doc_matches(doc, "h3.byline a[rel='author']"@));
    let links = non_empty(texts(doc_matches(doc, "h3.byline a"@)));
    if by_rel.len() > 0 {
        by_rel
    } else if links.len() > 0 {
        links
    } else {
        match first_match(doc, "h3.byline"@) {
            Some(b) => if trimmed_text(b).len() > 0 {
                seq![trimmed_text(b)]
            } else {
                seq![]
            },
            None => seq![],
        }
    }
}

/// The first `n` pairs set one after the other.
pub open spec fn insert_pairs(keys: Seq<Seq<char>>, values: Seq<Seq<char>>, n: int) -> Seq<
    (Seq<char>, Seq<char>),
>
    decreases n,
{
    if n <= 0 {
        seq![]
    } else {
        stat_insert(insert_pairs(keys, values, n - 1), keys[n - 1], values[n - 1])
    }
}

pub open spec fn min(a: int, b: int) -> int {
    if a < b {
        a
    } else {
        b
    }
}

/// The statistics: in the first `dl.stats`, the texts of its `dt` (without a
/// trailing ':') paired in order with those of its `dd`.
pub open spec fn stats_of(doc: Document) -> Seq<(Seq<char>, Seq<char>)> {
    match first_match(doc, "dl.stats"@) {
        Some(dl) => {
            let keys = texts(select_in(dl, sel_flags(doc, "dt"@))).map_values(
                |k: Seq<char>| trim_end_char(k, ':'),
            );
            let values = texts(select_in(dl, sel_flags(doc, "dd"@)));
            insert_pairs(keys, values, min(keys.len() as int, values.len() as int))
        },
        None => seq![],
    }
}

/// The Markdown of the first element that `sel` matches, or nothing.
pub open spec fn md_of_first(doc: Document, sel: Seq<char>) -> Seq<char> {
    match first_match(doc, sel) {
        Some(e) => node_md(e, table_sel(doc)),
        None => seq![],
    }
}

pub open spec fn value_or_empty(o: Option<Seq<char>>) -> Seq<char> {
    match o {
        Some(v) => v,
        None => seq![],
    }
}

/// The metadata that the page shows.
pub open spec fn meta_of(doc: Document) -> MetaView {
    let stats = stats_of(doc);
    MetaView {
        title: match first_match(doc, "h2.title"@) {
            Some(e) => trimmed_text(e),
            None => seq![],
        },
        authors: authors_of(doc),
        rating: tag_list(doc, "dd.rating"@),
        warnings: tag_list_vec(doc, "dd.warning"@),
        categories: tag_list_vec(doc, "dd.category"@),
        fandoms: tag_list_vec(doc, "dd.fandom"@),
        relationships: tag_list_vec(doc, "dd.relationship"@),
        characters: tag_list_vec(doc, "dd.character"@),
        additional_tags: tag_list_vec(doc, "dd.freeform"@),
        language: tag_list(doc, "dd.language"@),
        series: tag_list_vec(doc, "dd.series"@),
        stats,
        summary: md_of_first(doc, "div.preface .summary blockquote"@),
        notes_begin: md_of_first(doc, "div.preface .notes blockquote"@),
        notes_end: md_of_first(doc, "div.afterword .end.notes blockquote"@),
        published: value_or_empty(stat_get(stats, "Published"@)),
        updated: value_or_empty(stat_get(stats, "Updated"@)),
        status: match stat_get(stats, "Completed"@) {
            Some(v) => v,
            None => value_or_empty(stat_get(stats, "Status"@)),
        },
    }
}

/// Where `insert_by_creation` puts `n`: before the first node of `t`, from `j` on,
/// that the parser created after `n`.
proof fn lemma_insert_by_creation_at(html: Seq<char>, t: Seq<NodeView>, n: NodeView, j: int)
    requires
        0 <= j <= t.len(),
        forall|m: int| 0 <= m < j ==> !arena_before(html, n.pos, #[trigger] t[m].pos),
        j == t.len() || arena_before(html, n.pos, t[j].pos),
    ensures
        insert_by_creation(html, t, n) == t.insert(j, n),
    decreases j,
{
    if j == 0 {
        assert(t.insert(0, n) =~= seq![n] + t);
    } else {
        let r = t.drop_first();
        assert(!arena_before(html, n.pos, t[0].pos));
        assert forall|m: int| 0 <= m < j - 1 implies !arena_before(html, n.pos, #[trigger] r[m].pos) by {
            assert(r[m] == t[m + 1]);
        }
        if j - 1 < r.len() {
            assert(r[j - 1] == t[j]);
        }
        lemma_insert_by_creation_at(html, r, n, j - 1);
        assert(t.insert(j, n) =~= seq![t[0]] + r.insert(j - 1, n));
    }
}

/// The nodes of `found` in the order the parser created them.
fn sort_by_creation<'a>(doc: &'a Document, found: &Vec<&'a Node>) -> (res: Vec<&'a Node>)
    requires
        forall|k: int| 0 <= k < found.len() ==> #[trigger] found@[k]@.pos < flatten(doc.nodes()).len(),
    ensures
        refs_view(res@) == by_creation(doc.source(), refs_view(found@)),
{
    let ghost src = doc.source();
    let ghost len = flatten(doc.nodes()).len();
    assert forall|k: int| 0 <= k < found.len() implies (#[trigger] found@[k]).pos < len by {
        assert(found@[k]@.pos < len);
    }
    let ghost all = refs_view(found@);
    let mut out: Vec<&'a Node> = Vec::new();
    assert(refs_view(out@) =~= by_creation(src, all.take(0)));
    let mut i: usize = 0;
    while i < found.len()
        invariant
            i <= found.len(),
            src == doc.source(),
            len == flatten(doc.nodes()).len(),
            all == refs_view(found@),
            forall|k: int| 0 <= k < found.len() ==> (#[trigger] found@[k]).pos < len,
            forall|k: int| 0 <= k < out.len() ==> (#[trigger] out@[k]).pos < len,
            refs_view(out@) == by_creation(src, all.take(i as int)),
        decreases found.len() - i,
    {
        let x = found[i];
        assert(found@[i as int].pos < len);
        let mut j: usize = 0;
        while j < out.len() && !doc.created_before(x.pos, out[j].pos)
            invariant
                j <= out.len(),
                src == doc.source(),
                len == flatten(doc.nodes()).len(),
                x.pos < len,
                forall|k: int| 0 <= k < out.len() ==> (#[trigger] out@[k]).pos < len,
                forall|m: int| 0 <= m < j ==> !arena_before(src, x@.pos, #[trigger] out@[m]@.pos),
            decreases out.len() - j,
        {
            j = j + 1;
        }
        let ghost t = refs_view(out@);
        proof {
            assert forall|m: int| 0 <= m < j implies !arena_before(src, x@.pos, #[trigger] t[m].pos) by {
                assert(t[m] == out@[m]@);
            }
            if j < out.len() {
                assert(t[j as int] == out@[j as int]@);
            }
            lemma_insert_by_creation_at(src, t, x@, j as int);
            assert(all.take(i + 1).drop_last() =~= all.take(i as int));
            assert(all.take(i + 1).last() == x@);
        }
        out.insert(j, x);
        assert(refs_view(out@) =~= t.insert(j as int, x@));
        i = i + 1;
    }
    assert(all.take(found.len() as int) =~= all);
    out
}

/// The elements of the page that the selector whose answers are `flags` matches, in
/// the order `Html::select` gives them.
fn doc_select<'a>(doc: &'a Document, flags: &Vec<bool>) -> (res: Vec<&'a Node>)
    ensures
        refs_view(res@) == doc_picks(*doc, flags@),
{
    let mut found: Vec<&'a Node> = Vec::new();
    let forest = doc.forest();
    collect_matches(forest, flags, &mut found);
    assert(refs_view(Seq::<&'a Node>::empty()) =~= Seq::<NodeView>::empty());
    proof {
        lemma_matches_pos(doc.nodes(), flags@, 0);
        assert forall|k: int| 0 <= k < found.len() implies #[trigger] found@[k]@.pos < flatten(
            doc.nodes(),
        ).len() by {
            assert(refs_view(found@)[k] == found@[k]@);
        }
    }
    sort_by_creation(doc, &found)
}

/// The first element of a list, as `Iterator::next` gives it.
fn first<'a>(nodes: &Vec<&'a Node>) -> (res: Option<&'a Node>)
    ensures
        match res {
            Some(n) => refs_view(nodes@).len() > 0 && n@ == refs_view(nodes@)[0],
            None => refs_view(nodes@).len() == 0,
        },
{
    if nodes.len() > 0 {
        Some(nodes[0])
    } else {
        None
    }
}

/// The trimmed text of each element.
fn trimmed_texts(nodes: &Vec<&Node>) -> (res: Vec<String>)
    ensures
        strings_view(res@) == texts(refs_view(nodes@)),
{
    let mut res: Vec<String> = Vec::new();
    let mut k: usize = 0;
    while k < nodes.len()
        invariant
            k <= nodes.len(),
            strings_view(res@) == texts(refs_view(nodes@)).take(k as int),
        decreases nodes.len() - k,
    {
        let t = text(nodes[k]);
        let tt = trim_string(&t);
        let ghost before = res@;
        res.push(tt);
        assert(refs_view(nodes@)[k as int] == nodes@[k as int]@);
        assert(texts(refs_view(nodes@))[k as int] == trimmed_text(nodes@[k as int]@));
        assert(strings_view(res@) =~= strings_view(before).push(tt@));
        assert(texts(refs_view(nodes@)).take(k + 1) =~= texts(refs_view(nodes@)).take(k as int).push(tt@));
        k = k + 1;
    }
    assert(texts(refs_view(nodes@)).take(nodes.len() as int) =~= texts(refs_view(nodes@)));
    res
}

/// The table flags of the page.
pub fn table_flags(doc: &Document) -> (tf: TableFlags)
    ensures
        tf@ == table_sel(*doc),
{
    TableFlags { tr: doc.flags("tr"), th: doc.flags("th"), td: doc.flags("td") }
}


/// The texts that are not empty, in order.
fn keep_non_empty(v: &Vec<String>) -> (res: Vec<String>)
    ensures
        strings_view(res@) == non_empty(strings_view(v@)),
{
    let ghost sv = strings_view(v@);
    let mut res: Vec<String> = Vec::new();
    let mut k: usize = 0;
    assert(sv.take(0) =~= Seq::<Seq<char>>::empty());
    while k < v.len()
        invariant
            sv == strings_view(v@),
            k <= v.len(),
            strings_view(res@) == non_empty(sv.take(k as int)),
        decreases v.len() - k,
    {
        let ghost before = res@;
        assert(sv.take(k + 1).drop_last() =~= sv.take(k as int));
        assert(sv.take(k + 1).last() == v@[k as int]@);
        if !v[k].as_str().is_empty() {
            res.push(v[k].clone());
            assert(strings_view(res@) =~= strings_view(before).push(v@[k as int]@));
        } else {
            assert(strings_view(res@) =~= strings_view(before) + Seq::<Seq<char>>::empty());
        }
        k = k + 1;
    }
    assert(sv.take(v.len() as int) =~= sv);
    res
}

/// `tag_list` for the selector whose answers are `flags`, with the answers for `a.tag`.
fn tag_list_with(doc: &Document, flags: &Vec<bool>, tag_flags: &Vec<bool>) -> (res: String)
    requires
        tag_flags@ == sel_flags(*doc, "a.tag"@),
    ensures
        res@ == match first_of(doc_picks(*doc, flags@)) {
            Some(e) => if tag_texts(*doc, e).len() == 0 {
                trimmed_text(e)
            } else {
                join(tag_texts(*doc, e), ", "@)
            },
            None => seq![],
        },
{
    let found = doc_select(doc, flags);
    match first(&found) {
        Some(e) => {
            let tags = trimmed_texts(&select(e, tag_flags));
            if tags.len() == 0 {
                trim_string(&text(e))
            } else {
                join_strings(&tags, ", ")
            }
        },
        None => String::new(),
    }
}

/// `tag_list_vec` for the selector whose answers are `flags`, with the answers for `a.tag`.
fn tag_list_vec_with(doc: &Document, flags: &Vec<bool>, tag_flags: &Vec<bool>) -> (res: Vec<String>)
    requires
        tag_flags@ == sel_flags(*doc, "a.tag"@),
    ensures
        strings_view(res@) == match first_of(doc_picks(*doc, flags@)) {
            Some(e) => if tag_texts(*doc, e).len() == 0 {
                if trimmed_text(e).len() == 0 {
                    seq![]
                } else {
                    seq![trimmed_text(e)]
                }
            } else {
                tag_texts(*doc, e)
            },
            None => seq![],
        },
{
    let found = doc_select(doc, flags);
    match first(&found) {
        Some(e) => {
            let tags = trimmed_texts(&select(e, tag_flags));
            if tags.len() == 0 {
                let t = trim_string(&text(e));
                if t.as_str().is_empty() {
                    let v: Vec<String> = Vec::new();
                    assert(strings_view(v@) =~= Seq::<Seq<char>>::empty());
                    v
                } else {
                    let ghost tv = t@;
                    let mut v: Vec<String> = Vec::new();
                    v.push(t);
                    assert(strings_view(v@) =~= seq![tv]);
                    v
                }
            } else {
                tags
            }
        },
        None => {
            let v: Vec<String> = Vec::new();
            assert(strings_view(v@) =~= Seq::<Seq<char>>::empty());
            v
        },
    }
}

/// The tags of the first element that `selector` matches, joined by ", ", or
/// its whole text where it has no tag; empty where nothing matches.
pub fn extract_tag_list(doc: &Document, selector: &str) -> (res: String)
    ensures
        res@ == tag_list(*doc, selector@),
{
    let flags = doc.flags(selector);
    let tag_flags = doc.flags("a.tag");
    tag_list_with(doc, &flags, &tag_flags)
}

/// The tags of the first element that `selector` matches, or its whole text
/// where it has no tag and that text is not empty; empty where nothing matches.
pub fn extract_tag_list_vec(doc: &Document, selector: &str) -> (res: Vec<String>)
    ensures
        strings_view(res@) == tag_list_vec(*doc, selector@),
{
    let flags = doc.flags(selector);
    let tag_flags = doc.flags("a.tag");
    tag_list_vec_with(doc, &flags, &tag_flags)
}

/// The authors of the work.
fn extract_authors(doc: &Document) -> (res: Vec<String>)
    ensures
        strings_view(res@) == authors_of(*doc),
{
    let by_rel_flags = doc.flags("h3.byline a[rel='author']");
    let by_rel = trimmed_texts(&doc_select(doc, &by_rel_flags));
    if by_rel.len() > 0 {
        return by_rel;
    }
    let link_flags = doc.flags("h3.byline a");
    let links = keep_non_empty(&trimmed_texts(&doc_select(doc, &link_flags)));
    if links.len() > 0 {
        return links;
    }
    let byline_flags = doc.flags("h3.byline");
    let bylines = doc_select(doc, &byline_flags);
    let mut res: Vec<String> = Vec::new();
    match first(&bylines) {
        Some(b) => {
            let t = trim_string(&text(b));
            if !t.as_str().is_empty() {
                let ghost tv = t@;
                res.push(t);
                assert(strings_view(res@) =~= seq![tv]);
            } else {
                assert(strings_view(res@) =~= Seq::<Seq<char>>::empty());
            }
        },
        None => {
            assert(strings_view(res@) =~= Seq::<Seq<char>>::empty());
        },
    }
    res
}

/// The statistics of the work.
fn extract_stats(doc: &Document) -> (res: Stats)
    ensures
        res@ == stats_of(*doc),
{
    let dl_flags = doc.flags("dl.stats");
    let dls = doc_select(doc, &dl_flags);
    match first(&dls) {
        None => Stats::new(),
        Some(dl) => {
            let dt_flags = doc.flags("dt");
            let dd_flags = doc.flags("dd");
            let dt_texts = trimmed_texts(&select(dl, &dt_flags));
            let dds = trimmed_texts(&select(dl, &dd_flags));
            let ghost keys = strings_view(dt_texts@).map_values(|k: Seq<char>| trim_end_char(k, ':'));
            let mut dts: Vec<String> = Vec::new();
            let mut k: usize = 0;
            while k < dt_texts.len()
                invariant
                    k <= dt_texts.len(),
                    keys == strings_view(dt_texts@).map_values(|k: Seq<char>| trim_end_char(k, ':')),
                    strings_view(dts@) == keys.take(k as int),
                decreases dt_texts.len() - k,
            {
                let key = trim_end_matches_char(dt_texts[k].as_str(), ':');
                let ghost before = dts@;
                dts.push(key);
                assert(strings_view(dt_texts@)[k as int] == dt_texts@[k as int]@);
                assert(keys[k as int] == trim_end_char(dt_texts@[k as int]@, ':'));
                assert(strings_view(dts@) =~= strings_view(before).push(keys[k as int]));
                assert(keys.take(k + 1) =~= keys.take(k as int).push(keys[k as int]));
                k = k + 1;
            }
            assert(keys.take(dt_texts.len() as int) =~= keys);
            let n: usize = if dts.len() < dds.len() {
                dts.len()
            } else {
                dds.len()
            };
            let mut stats = Stats::new();
            let mut i: usize = 0;
            while i < n
                invariant
                    i <= n,
                    n <= dts.len(),
                    n <= dds.len(),
                    stats@ == insert_pairs(strings_view(dts@), strings_view(dds@), i as int),
                decreases n - i,
            {
                stats.insert(dts[i].clone(), dds[i].clone());
                i = i + 1;
            }
            stats
        },
    }
}

/// The Markdown of the first element that `selector` matches, or nothing.
fn first_md(doc: &Document, selector: &str, tf: &TableFlags) -> (res: String)
    requires
        tf@ == table_sel(*doc),
    ensures
        res@ == md_of_first(*doc, selector@),
{
    let flags = doc.flags(selector);
    let found = doc_select(doc, &flags);
    match first(&found) {
        Some(e) => html_node_to_md(e, tf),
        None => String::new(),
    }
}

fn value_or_empty_exec(v: Option<&String>) -> (res: String)
    ensures
        res@ == value_or_empty(match v {
            Some(s) => Some(s@),
            None => None,
        }),
{
    match v {
        Some(s) => s.clone(),
        None => String::new(),
    }
}

/// The metadata that the work's page shows.
pub fn extract_metadata(doc: &Document) -> (meta: WorkMeta)
    ensures
        meta@ == meta_of(*doc),
{
    let tf = table_flags(doc);
    let title_flags = doc.flags("h2.title");
    let titles = doc_select(doc, &title_flags);
    let title = match first(&titles) {
        Some(e) => trim_string(&text(e)),
        None => String::new(),
    };
    let authors = extract_authors(doc);
    let tags = doc.flags("a.tag");
    let rating = tag_list_with(doc, &doc.flags("dd.rating"), &tags);
    let warnings = tag_list_vec_with(doc, &doc.flags("dd.warning"), &tags);
    let categories = tag_list_vec_with(doc, &doc.flags("dd.category"), &tags);
    let fandoms = tag_list_vec_with(doc, &doc.flags("dd.fandom"), &tags);
    let relationships = tag_list_vec_with(doc, &doc.flags("dd.relationship"), &tags);
    let characters = tag_list_vec_with(doc, &doc.flags("dd.character"), &tags);
    let additional_tags = tag_list_vec_with(doc, &doc.flags("dd.freeform"), &tags);
    let language = tag_list_with(doc, &doc.flags("dd.language"), &tags);
    let series = tag_list_vec_with(doc, &doc.flags("dd.series"), &tags);
    let stats = extract_stats(doc);
    let summary = first_md(doc, "div.preface .summary blockquote", &tf);
    let notes_begin = first_md(doc, "div.preface .notes blockquote", &tf);
    let notes_end = first_md(doc, "div.afterword .end.notes blockquote", &tf);
    let published = value_or_empty_exec(stats.get("Published"));
    let updated = value_or_empty_exec(stats.get("Updated"));
    let status = match stats.get("Completed") {
        Some(v) => v.clone(),
        None => value_or_empty_exec(stats.get("Status")),
    };
    WorkMeta {
        title,
        authors,
        rating,
        warnings,
        categories,
        fandoms,
        relationships,
        characters,
        additional_tags,
        language,
        series,
        stats,
        summary,
        notes_begin,
        notes_end,
        published,
        updated,
        status,
    }
}


/// The Markdown of the first element under `c` that `sel` matches, or nothing.
pub open spec fn md_under(doc: Document, c: NodeView, sel: Seq<char>) -> Seq<char> {
    match first_under(doc, c, sel) {
        Some(e) => node_md(e, table_sel(doc)),
        None => seq![],
    }
}

/// The chapter's opening notes as a quote, then a rule; nothing where there are none.
pub open spec fn begin_notes(notes: Seq<char>) -> Seq<char> {
    if notes.len() > 0 {
        "> **Chapter Notes:**\n>\n"@ + prefix_lines_spec(notes, "> "@) + "\n\n---\n\n"@
    } else {
        seq![]
    }
}

/// A rule, then the chapter's end notes as a quote; nothing where there are none.
pub open spec fn end_notes(notes: Seq<char>) -> Seq<char> {
    if notes.len() > 0 {
        "\n\n---\n\n> **End Notes:**\n>\n"@ + prefix_lines_spec(notes, "> "@)
    } else {
        seq![]
    }
}

/// The title of a chapter element and its Markdown: notes, text, end notes.
pub open spec fn chapter_of(doc: Document, c: NodeView) -> (Seq<char>, Seq<char>) {
    let title = match first_under(doc, c, "h3.title"@) {
        Some(e) => trimmed_text(e),
        None => seq![],
    };
    let content = md_under(doc, c, "div.userstuff[role='article']"@);
    let notes_begin = md_under(doc, c, "div.preface div.notes blockquote.userstuff"@);
    let notes_end = md_under(doc, c, "div.end.notes blockquote"@);
    (title, begin_notes(notes_begin) + content + end_notes(notes_end))
}

/// The chapters of the page: each element whose id starts with `chapter-`, in order.
pub open spec fn chapters_of(doc: Document) -> Seq<(Seq<char>, Seq<char>)> {
    doc_matches(doc, "div[id^='chapter-']"@).map_values(|c: NodeView| chapter_of(doc, c))
}

pub open spec fn pairs_view(v: Seq<(String, String)>) -> Seq<(Seq<char>, Seq<char>)> {
    v.map_values(|p: (String, String)| (p.0@, p.1@))
}

/// The Markdown of the first element under `c` that the selector matches, or nothing.
fn md_under_exec(c: &Node, flags: &Vec<bool>, tf: &TableFlags) -> (res: String)
    ensures
        res@ == match first_in(c@.children, flags@) {
            Some(e) => node_md(e, tf@),
            None => seq![],
        },
{
    let found = select(c, flags);
    match first(&found) {
        Some(e) => html_node_to_md(e, tf),
        None => String::new(),
    }
}

/// The chapters of the page: for each, its title and its Markdown.
pub fn extract_chapters(doc: &Document) -> (chapters: Vec<(String, String)>)
    ensures
        pairs_view(chapters@) == chapters_of(*doc),
{
    let chapter_flags = doc.flags("div[id^='chapter-']");
    let found = doc_select(doc, &chapter_flags);
    let mut result: Vec<(String, String)> = Vec::new();
    if found.len() == 0 {
        assert(pairs_view(result@) =~= chapters_of(*doc));
        return result;
    }
    let tf = table_flags(doc);
    let title_flags = doc.flags("h3.title");
    let content_flags = doc.flags("div.userstuff[role='article']");
    let begin_flags = doc.flags("div.preface div.notes blockquote.userstuff");
    let end_flags = doc.flags("div.end.notes blockquote");
    let ghost all = chapters_of(*doc);
    let mut k: usize = 0;
    while k < found.len()
        invariant
            k <= found.len(),
            refs_view(found@) == doc_matches(*doc, "div[id^='chapter-']"@),
            all == chapters_of(*doc),
            tf@ == table_sel(*doc),
            title_flags@ == sel_flags(*doc, "h3.title"@),
            content_flags@ == sel_flags(*doc, "div.userstuff[role='article']"@),
            begin_flags@ == sel_flags(*doc, "div.preface div.notes blockquote.userstuff"@),
            end_flags@ == sel_flags(*doc, "div.end.notes blockquote"@),
            pairs_view(result@) == all.take(k as int),
        decreases found.len() - k,
    {
        let chapter_el = found[k];
        assert(refs_view(found@)[k as int] == chapter_el@);
        let titles = select(chapter_el, &title_flags);
        let title = match first(&titles) {
            Some(e) => trim_string(&text(e)),
            None => String::new(),
        };
        let content = md_under_exec(chapter_el, &content_flags, &tf);
        let chapter_notes_begin = md_under_exec(chapter_el, &begin_flags, &tf);
        let chapter_notes_end = md_under_exec(chapter_el, &end_flags, &tf);
        let mut full_content = String::new();
        if !chapter_notes_begin.as_str().is_empty() {
            full_content.append("> **Chapter Notes:**\n>\n");
            let quoted = prefix_lines(chapter_notes_begin.as_str(), "> ");
            full_content.append(quoted.as_str());
            full_content.append("\n\n---\n\n");
        }
        full_content.append(content.as_str());
        if !chapter_notes_end.as_str().is_empty() {
            full_content.append("\n\n---\n\n> **End Notes:**\n>\n");
            let quoted = prefix_lines(chapter_notes_end.as_str(), "> ");
            full_content.append(quoted.as_str());
        }
        let ghost entry = (title@, full_content@);
        proof {
            assert(all[k as int] == chapter_of(*doc, chapter_el@));
            assert(full_content@ =~= begin_notes(chapter_notes_begin@) + content@ + end_notes(
                chapter_notes_end@,
            ));
            assert(entry == all[k as int]);
        }
        let ghost before = result@;
        result.push((title, full_content));
        assert(pairs_view(result@) =~= pairs_view(before).push(entry));
        assert(all.take(k + 1) =~= all.take(k as int).push(all[k as int]));
        k = k + 1;
    }
    assert(all.take(found.len() as int) =~= all);
    result
}

/// The Markdown of a work without chapter elements: its first `div.userstuff`.
pub open spec fn single_chapter_of(doc: Document) -> Seq<char> {
    match first_match(doc, "div.userstuff"@) {
        Some(e) => node_md(e, table_sel(doc)),
        None => "No content found."@,
    }
}

/// The Markdown of the first `div.userstuff` of the page, or "No content found.".
pub fn extract_single_chapter_content(doc: &Document) -> (content: String)
    ensures
        content@ == single_chapter_of(*doc),
{
    let flags = doc.flags("div.userstuff");
    let found = doc_select(doc, &flags);
    match first(&found) {
        Some(e) => {
            let tf = table_flags(doc);
            html_node_to_md(e, &tf)
        },
        None => String::from_str("No content found."),
    }
}

/// Each chapter that `extract_chapters` gives has the title of the first `h3.title`
/// under the chapter element (trimmed), and as its Markdown the chapter's text, with
/// its opening notes, where they are not empty, quoted before it under
/// "Chapter Notes" and followed by a rule, and its end notes, where they are not
/// empty, quoted after it under a rule and "End Notes". Each part comes whether or not
/// the other one does.
pub proof fn lemma_chapter_parts(doc: Document, k: int)
    requires
        0 <= k < doc_matches(doc, "div[id^='chapter-']"@).len(),
    ensures
        chapters_of(doc).len() == doc_matches(doc, "div[id^='chapter-']"@).len(),
        ({
            let c = doc_matches(doc, "div[id^='chapter-']"@)[k];
            let text = md_under(doc, c, "div.userstuff[role='article']"@);
            let nb = md_under(doc, c, "div.preface div.notes blockquote.userstuff"@);
            let ne = md_under(doc, c, "div.end.notes blockquote"@);
            let head = "> **Chapter Notes:**\n>\n"@ + prefix_lines_spec(nb, "> "@) + "\n\n---\n\n"@;
            let tail = "\n\n---\n\n> **End Notes:**\n>\n"@ + prefix_lines_spec(ne, "> "@);
            let md = chapters_of(doc)[k].1;
            &&& chapters_of(doc)[k].0 == match first_under(doc, c, "h3.title"@) {
                Some(e) => trim(text_of(e)),
                None => Seq::<char>::empty(),
            }
            &&& nb.len() > 0 && ne.len() > 0 ==> md == head + text + tail
            &&& nb.len() > 0 && ne.len() == 0 ==> md == head + text
            &&& nb.len() == 0 && ne.len() > 0 ==> md == text + tail
            &&& nb.len() == 0 && ne.len() == 0 ==> md == text
        }),
{
    let c = doc_matches(doc, "div[id^='chapter-']"@)[k];
    let text = md_under(doc, c, "div.userstuff[role='article']"@);
    let nb = md_under(doc, c, "div.preface div.notes blockquote.userstuff"@);
    let ne = md_under(doc, c, "div.end.notes blockquote"@);
    assert(chapters_of(doc)[k] == chapter_of(doc, c));
    let md = chapters_of(doc)[k].1;
    assert(md == begin_notes(nb) + text + end_notes(ne));
    if nb.len() == 0 {
        assert(begin_notes(nb) + text =~= text);
    }
    if ne.len() == 0 {
        assert(begin_notes(nb) + text + end_notes(ne) =~= begin_notes(nb) + text);
    }
}

/// Each tag field of the metadata comes from the first element of the page that its
/// own selector picks (`dd.rating`, `dd.warning`, `dd.category`, `dd.fandom`,
/// `dd.relationship`, `dd.character`, `dd.freeform`, `dd.language`, `dd.series`): it is
/// empty where the page has no such element, and holds the texts of the `a.tag`
/// links in that element where it has any (joined by ", " for the rating and the
/// language). The title is the trimmed text of the first `h2.title`.
pub proof fn lemma_metadata_fields(doc: Document)
    ensures
        match first_match(doc, "dd.warning"@) {
            Some(e) => tag_texts(doc, e).len() > 0 ==> meta_of(doc).warnings == tag_texts(doc, e),
            None => meta_of(doc).warnings.len() == 0,
        },
        match first_match(doc, "dd.category"@) {
            Some(e) => tag_texts(doc, e).len() > 0 ==> meta_of(doc).categories == tag_texts(doc, e),
            None => meta_of(doc).categories.len() == 0,
        },
        match first_match(doc, "dd.fandom"@) {
            Some(e) => tag_texts(doc, e).len() > 0 ==> meta_of(doc).fandoms == tag_texts(doc, e),
            None => meta_of(doc).fandoms.len() == 0,
        },
        match first_match(doc, "dd.relationship"@) {
            Some(e) => tag_texts(doc, e).len() > 0 ==> meta_of(doc).relationships == tag_texts(doc, e),
            None => meta_of(doc).relationships.len() == 0,
        },
        match first_match(doc, "dd.character"@) {
            Some(e) => tag_texts(doc, e).len() > 0 ==> meta_of(doc).characters == tag_texts(doc, e),
            None => meta_of(doc).characters.len() == 0,
        },
        match first_match(doc, "dd.freeform"@) {
            Some(e) => tag_texts(doc, e).len() > 0 ==> meta_of(doc).additional_tags == tag_texts(doc, e),
            None => meta_of(doc).additional_tags.len() == 0,
        },
        match first_match(doc, "dd.series"@) {
            Some(e) => tag_texts(doc, e).len() > 0 ==> meta_of(doc).series == tag_texts(doc, e),
            None => meta_of(doc).series.len() == 0,
        },
        match first_match(doc, "dd.rating"@) {
            Some(e) => tag_texts(doc, e).len() > 0 ==> meta_of(doc).rating == join(tag_texts(doc, e), ", "@),
            None => meta_of(doc).rating.len() == 0,
        },
        match first_match(doc, "dd.language"@) {
            Some(e) => tag_texts(doc, e).len() > 0 ==> meta_of(doc).language == join(tag_texts(doc, e), ", "@),
            None => meta_of(doc).language.len() == 0,
        },
        match first_match(doc, "h2.title"@) {
            Some(e) => meta_of(doc).title == trim(text_of(e)),
            None => meta_of(doc).title.len() == 0,
        },
{
}

} // verus!
