//! Queries on the document tree: the elements that a selector picks, and the
//! text that a node holds.
use crate::dom::{
    flatten, forest_view, is_match, lemma_flatten_len, lemma_forest_view_index, positions_from, KindView, Node,
    NodeKind, NodeView,
};
use vstd::prelude::*;

verus! {

/// The nodes of the forest that match, in document order (each node before its
/// descendants, which come before its later siblings).
pub open spec fn matches_in(f: Seq<NodeView>, flags: Seq<bool>) -> Seq<NodeView>
    decreases f,
{
    if f.len() == 0 {
        seq![]
    } else {
        own_match(f[0], flags) + matches_in(f[0].children, flags) + matches_in(
            f.drop_first(),
            flags,
        )
    }
}

pub open spec fn own_match(n: NodeView, flags: Seq<bool>) -> Seq<NodeView> {
    if is_match(n, flags) {
        seq![n]
    } else {
        seq![]
    }
}

/// What `ElementRef::select` yields from `n`: its matching descendants, in order.
pub open spec fn select_in(n: NodeView, flags: Seq<bool>) -> Seq<NodeView> {
    matches_in(n.children, flags)
}

/// The first matching node of the forest, where there is one.
pub open spec fn first_in(f: Seq<NodeView>, flags: Seq<bool>) -> Option<NodeView> {
    if matches_in(f, flags).len() > 0 {
        Some(matches_in(f, flags)[0])
    } else {
        None
    }
}

/// The text of every text node of the forest, in document order.
pub open spec fn text_in(f: Seq<NodeView>) -> Seq<char>
    decreases f,
{
    if f.len() == 0 {
        seq![]
    } else {
        own_text(f[0]) + text_in(f[0].children) + text_in(f.drop_first())
    }
}

pub open spec fn own_text(n: NodeView) -> Seq<char> {
    match n.kind {
        KindView::Text(s) => s,
        _ => seq![],
    }
}

/// What `ElementRef::text` concatenates for the element `n`.
pub open spec fn text_of(n: NodeView) -> Seq<char> {
    text_in(n.children)
}

/// Every node that `matches_in` picks from a forest whose walk starts at `start`
/// has its `Open` token within that walk.
pub proof fn lemma_matches_pos(f: Seq<NodeView>, flags: Seq<bool>, start: int)
    requires
        positions_from(f, start),
    ensures
        forall|k: int|
            0 <= k < matches_in(f, flags).len() ==> start <= #[trigger] matches_in(f, flags)[k].pos
                < start + flatten(f).len(),
    decreases f,
{
    lemma_flatten_len(f);
    if f.len() > 0 {
        let c = f[0].children;
        let r = f.drop_first();
        let lc = flatten(c).len();
        lemma_matches_pos(c, flags, start + 1);
        lemma_matches_pos(r, flags, start + 2 + lc);
        let o = own_match(f[0], flags);
        let mc = matches_in(c, flags);
        let mr = matches_in(r, flags);
        assert(matches_in(f, flags) == o + mc + mr);
        assert forall|k: int| 0 <= k < matches_in(f, flags).len() implies start
            <= #[trigger] matches_in(f, flags)[k].pos < start + flatten(f).len() by {
            if k < o.len() {
                assert(matches_in(f, flags)[k] == f[0]);
            } else if k < o.len() + mc.len() {
                assert(matches_in(f, flags)[k] == mc[k - o.len()]);
            } else {
                assert(matches_in(f, flags)[k] == mr[k - o.len() - mc.len()]);
            }
        }
    }
}

pub open spec fn refs_view<'a>(s: Seq<&'a Node>) -> Seq<NodeView> {
    s.map_values(|r: &'a Node| r@)
}

pub proof fn lemma_matches_in_push(f: Seq<NodeView>, n: NodeView, flags: Seq<bool>)
    ensures
        matches_in(f.push(n), flags) == matches_in(f, flags) + own_match(n, flags)
            + matches_in(n.children, flags),
    decreases f.len(),
{
    if f.len() == 0 {
        assert(f.push(n).drop_first() =~= Seq::<NodeView>::empty());
        assert(f.push(n)[0] == n);
        assert(matches_in(Seq::<NodeView>::empty(), flags) =~= Seq::<NodeView>::empty());
        assert(matches_in(f, flags) =~= Seq::<NodeView>::empty());
        assert(matches_in(f.push(n), flags) =~= own_match(n, flags) + matches_in(n.children, flags));
    } else {
        lemma_matches_in_push(f.drop_first(), n, flags);
        assert(f.push(n).drop_first() =~= f.drop_first().push(n));
        assert(f.push(n)[0] == f[0]);
        assert(matches_in(f.push(n), flags) =~= matches_in(f, flags) + own_match(n, flags)
            + matches_in(n.children, flags));
    }
}

pub proof fn lemma_text_in_push(f: Seq<NodeView>, n: NodeView)
    ensures
        text_in(f.push(n)) == text_in(f) + own_text(n) + text_in(n.children),
    decreases f.len(),
{
    if f.len() == 0 {
        assert(f.push(n).drop_first() =~= Seq::<NodeView>::empty());
        assert(f.push(n)[0] == n);
        assert(text_in(Seq::<NodeView>::empty()) =~= Seq::<char>::empty());
        assert(text_in(f) =~= Seq::<char>::empty());
        assert(text_in(f.push(n)) =~= own_text(n) + text_in(n.children));
    } else {
        lemma_text_in_push(f.drop_first(), n);
        assert(f.push(n).drop_first() =~= f.drop_first().push(n));
        assert(f.push(n)[0] == f[0]);
        assert(text_in(f.push(n)) =~= text_in(f) + own_text(n) + text_in(n.children));
    }
}

/// Appends to `out` the nodes of the forest that match, in document order.
pub fn collect_matches<'a>(f: &'a Vec<Node>, flags: &Vec<bool>, out: &mut Vec<&'a Node>)
    ensures
        refs_view(final(out)@) == refs_view(old(out)@) + matches_in(forest_view(f@), flags@),
    decreases f@,
{
    let ghost fv = forest_view(f@);
    proof {
        lemma_forest_view_index(f@);
    }
    let mut k: usize = 0;
    while k < f.len()
        invariant
            k <= f.len(),
            fv == forest_view(f@),
            fv.len() == f@.len(),
            forall|m: int| 0 <= m < f@.len() ==> #[trigger] fv[m] == f@[m]@,
            refs_view(out@) == refs_view(old(out)@) + matches_in(fv.take(k as int), flags@),
        decreases f.len() - k,
    {
        let node = &f[k];
        let ghost before = out@;
        proof {
            lemma_matches_in_push(fv.take(k as int), fv[k as int], flags@);
            assert(fv.take(k + 1) =~= fv.take(k as int).push(fv[k as int]));
        }
        let matched = match &node.kind {
            NodeKind::Element(_) => node.pos < flags.len() && flags[node.pos],
            _ => false,
        };
        if matched {
            out.push(node);
            assert(refs_view(out@) =~= refs_view(before) + seq![node@]);
        } else {
            assert(refs_view(out@) =~= refs_view(before));
        }
        assert(own_match(fv[k as int], flags@) == (if matched { seq![node@] } else { seq![] }));
        collect_matches(&node.children, flags, out);
        k = k + 1;
    }
    assert(fv.take(f.len() as int) =~= fv);
}

/// Appends to `out` the text of every text node of the forest, in document order.
pub fn collect_text(f: &Vec<Node>, out: &mut String)
    ensures
        final(out)@ == old(out)@ + text_in(forest_view(f@)),
    decreases f@,
{
    let ghost fv = forest_view(f@);
    proof {
        lemma_forest_view_index(f@);
    }
    let mut k: usize = 0;
    while k < f.len()
        invariant
            k <= f.len(),
            fv == forest_view(f@),
            fv.len() == f@.len(),
            forall|m: int| 0 <= m < f@.len() ==> #[trigger] fv[m] == f@[m]@,
            out@ == old(out)@ + text_in(fv.take(k as int)),
        decreases f.len() - k,
    {
        let node = &f[k];
        proof {
            lemma_text_in_push(fv.take(k as int), fv[k as int]);
            assert(fv.take(k + 1) =~= fv.take(k as int).push(fv[k as int]));
        }
        match &node.kind {
            NodeKind::Text(s) => {
                out.append(s.as_str());
            },
            _ => {},
        }
        collect_text(&node.children, out);
        k = k + 1;
    }
    assert(fv.take(f.len() as int) =~= fv);
}

/// The descendants of `n` that match, in document order.
pub fn select<'a>(n: &'a Node, flags: &Vec<bool>) -> (res: Vec<&'a Node>)
    ensures
        refs_view(res@) == select_in(n@, flags@),
{
    let mut out: Vec<&'a Node> = Vec::new();
    collect_matches(&n.children, flags, &mut out);
    assert(refs_view(Seq::<&'a Node>::empty()) =~= Seq::<NodeView>::empty());
    out
}

/// The text that the descendant text nodes of `n` hold, in document order.
pub fn text(n: &Node) -> (res: String)
    ensures
        res@ == text_of(n@),
{
    let mut out = String::new();
    collect_text(&n.children, &mut out);
    out
}

} // verus!
