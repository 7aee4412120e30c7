//! What holds of every anchor read from `document.xml`: it carries what its target type
//! promises, its raw text is never empty (and absent for images), and no two anchors belong
//! to the same comment.
use vstd::prelude::*;

use crate::anchors::{
    pop_headings, update_heading_stack,
    add_text_for, add_text_upto, append_to_active, assemble, empty_state, fallback_for_ids,
    fallback_paragraph, fallback_upto, inferred_anchor, locate_ids, locate_one, locate_paragraph,
    locate_upto, range_start, scan_document, spec_document_anchors, walk, walk_children,
    AnchorStateView,
};
use crate::parse::{ParsedAnchorTargetType, ParsedAnchorView};
use crate::sorted_map::{
    key_index, lemma_insert_sorted, lemma_lower_bound_range, lemma_remove_sorted, lemma_sorted_distinct, lower_bound, sorted_keys,
};
use crate::xml::{is_el, next_child, root_element, subtree_end, XmlNodeView, NS_W};

verus! {

/// The attachments of an anchor agree with its target type: a table anchor has a table and no
/// image, an image anchor an image and no table, a text anchor neither.
pub open spec fn kind_matches(a: ParsedAnchorView) -> bool {
    match a.target_type {
        ParsedAnchorTargetType::Text => a.image is None && a.table is None,
        ParsedAnchorTargetType::Image => a.image is Some && a.table is None,
        ParsedAnchorTargetType::Table => a.image is None && a.table is Some,
    }
}

pub open spec fn all_kinds_match(anchors: Seq<ParsedAnchorView>) -> bool {
    forall|k: int| 0 <= k < anchors.len() ==> #[trigger] kind_matches(anchors[k])
}

/// What the walk over comment ranges keeps: the keys line up with their entries, and every
/// recorded anchor is a table anchor.
pub open spec fn walk_inv(s: AnchorStateView) -> bool {
    &&& keyed(s)
    &&& forall|k: int| 0 <= k < s.anchors.len() ==> (#[trigger] s.anchors[k]).target_type == ParsedAnchorTargetType::Table
        && kind_matches(s.anchors[k]) && s.anchors[k].raw_text is None && s.anchors[k].locator.table_cell is None
}

/// An anchor's raw text is never empty, and an image anchor has none and belongs to a comment
/// that received no range text.
pub open spec fn text_ok(a: ParsedAnchorView, buffer_keys: Seq<Seq<char>>) -> bool {
    &&& (a.raw_text matches Some(x) ==> x.len() > 0)
    &&& (a.target_type == ParsedAnchorTargetType::Image ==> a.raw_text is None && !buffer_keys.contains(a.comment_id))
}

/// The keys line up with their entries and stay sorted, and each anchor is filed under its
/// own comment id.
pub open spec fn keyed(s: AnchorStateView) -> bool {
    &&& s.anchor_keys.len() == s.anchors.len()
    &&& s.buffer_keys.len() == s.buffer_texts.len()
    &&& sorted_keys(s.anchor_keys)
    &&& sorted_keys(s.buffer_keys)
    &&& forall|k: int| 0 <= k < s.anchors.len() ==> (#[trigger] s.anchors[k]).comment_id == s.anchor_keys[k]
}

/// What the later passes keep: the keys line up with their anchors, whose kinds match.
pub open spec fn scan_inv(s: AnchorStateView) -> bool {
    &&& keyed(s)
    &&& all_kinds_match(s.anchors)
    &&& forall|k: int| 0 <= k < s.anchors.len() ==> #[trigger] text_ok(s.anchors[k], s.buffer_keys)
}

proof fn walk_gives_scan_inv(s: AnchorStateView)
    requires
        walk_inv(s),
    ensures
        scan_inv(s),
{
    assert forall|k: int| 0 <= k < s.anchors.len() implies #[trigger] text_ok(s.anchors[k], s.buffer_keys) by {
        assert(s.anchors[k].raw_text is None);
    }
}

proof fn add_text_for_keeps(s: AnchorStateView, id: Seq<char>, text: Seq<char>)
    requires
        walk_inv(s),
    ensures
        walk_inv(add_text_for(s, id, text)),
        add_text_for(s, id, text).table_stack == s.table_stack,
        add_text_for(s, id, text).active == s.active,
{
    lemma_lower_bound_range(s.buffer_keys, id);
    if key_index(s.buffer_keys, id) is None {
        lemma_insert_sorted(s.buffer_keys, id);
    }
    let s1 = match key_index(s.buffer_keys, id) {
        Some(p) => AnchorStateView { buffer_texts: s.buffer_texts.update(p, s.buffer_texts[p] + text), ..s },
        None => {
            let p = lower_bound(s.buffer_keys, id);
            AnchorStateView { buffer_keys: s.buffer_keys.insert(p, id), buffer_texts: s.buffer_texts.insert(p, text), ..s }
        },
    };
    assert(walk_inv(s1));
    lemma_lower_bound_range(s1.anchor_keys, id);
    let r = add_text_for(s, id, text);
    if s1.table_stack.len() > 0 {
        match key_index(s1.anchor_keys, id) {
            Some(p) => {
                assert forall|k: int| 0 <= k < r.anchors.len() implies (#[trigger] r.anchors[k]).target_type == ParsedAnchorTargetType::Table
                    && kind_matches(r.anchors[k]) && r.anchors[k].raw_text is None && r.anchors[k].locator.table_cell is None
                    && r.anchors[k].comment_id == r.anchor_keys[k] by {
                    if k != p {
                        assert(r.anchors[k] == s1.anchors[k]);
                    }
                }
            },
            None => {
                let p = lower_bound(s1.anchor_keys, id);
                lemma_insert_sorted(s1.anchor_keys, id);
                assert forall|k: int| 0 <= k < r.anchors.len() implies (#[trigger] r.anchors[k]).target_type == ParsedAnchorTargetType::Table
                    && kind_matches(r.anchors[k]) && r.anchors[k].raw_text is None && r.anchors[k].locator.table_cell is None
                    && r.anchors[k].comment_id == r.anchor_keys[k] by {
                    if k < p {
                        assert(r.anchors[k] == s1.anchors[k]);
                    } else if k > p {
                        assert(r.anchors[k] == s1.anchors[k - 1]);
                    }
                }
            },
        }
    }
}

proof fn add_text_upto_keeps(s: AnchorStateView, ids: Seq<Seq<char>>, text: Seq<char>, n: int)
    requires
        walk_inv(s),
    ensures
        walk_inv(add_text_upto(s, ids, text, n)),
        add_text_upto(s, ids, text, n).table_stack == s.table_stack,
        add_text_upto(s, ids, text, n).active == s.active,
    decreases n,
{
    if n > 0 {
        add_text_upto_keeps(s, ids, text, n - 1);
        add_text_for_keeps(add_text_upto(s, ids, text, n - 1), ids[n - 1], text);
    }
}

proof fn append_keeps(s: AnchorStateView, text: Seq<char>)
    requires
        walk_inv(s),
    ensures
        walk_inv(append_to_active(s, text)),
{
    if s.active.len() > 0 && text.len() > 0 {
        add_text_upto_keeps(s, s.active, text, s.active.len() as int);
    }
}

proof fn range_start_keeps(t: Seq<XmlNodeView>, i: int, id: Seq<char>, s: AnchorStateView)
    requires
        walk_inv(s),
    ensures
        walk_inv(range_start(t, i, id, s)),
{
    lemma_lower_bound_range(s.anchor_keys, id);
    let r = range_start(t, i, id, s);
    if s.table_stack.len() > 0 && key_index(s.anchor_keys, id) is None {
        let p = lower_bound(s.anchor_keys, id);
        lemma_insert_sorted(s.anchor_keys, id);
        assert forall|k: int| 0 <= k < r.anchors.len() implies (#[trigger] r.anchors[k]).target_type == ParsedAnchorTargetType::Table
            && kind_matches(r.anchors[k]) && r.anchors[k].raw_text is None && r.anchors[k].locator.table_cell is None
                    && r.anchors[k].comment_id == r.anchor_keys[k] by {
            if k < p {
                assert(r.anchors[k] == s.anchors[k]);
            } else if k > p {
                assert(r.anchors[k] == s.anchors[k - 1]);
            }
        }
    }
}

proof fn walk_keeps(t: Seq<XmlNodeView>, i: int, e: int, s: AnchorStateView)
    requires
        walk_inv(s),
    ensures
        walk_inv(walk(t, i, e, s)),
    decreases e - i, 0int,
{
    if !(0 <= i < e <= t.len()) {
    } else if is_el(t, i, NS_W@, "tbl"@) {
        let index = s.next_table_index + 1;
        let s1 = AnchorStateView { next_table_index: index, table_stack: s.table_stack.push(index as usize), ..s };
        walk_children_keeps(t, e, i + 1, s1);
    } else if is_el(t, i, NS_W@, "commentRangeStart"@) {
        if let Some(id) = crate::xml::node_attr(t, i, NS_W@, "id"@) {
            range_start_keeps(t, i, id, s);
        }
    } else if is_el(t, i, NS_W@, "commentRangeEnd"@) {
    } else {
        let s1 = if is_el(t, i, NS_W@, "t"@) {
            append_to_active(s, match t[i].text { Some(x) => x, None => Seq::<char>::empty() })
        } else {
            s
        };
        append_keeps(s, match t[i].text { Some(x) => x, None => Seq::<char>::empty() });
        let s2 = if is_el(t, i, NS_W@, "tab"@) { append_to_active(s1, "\t"@) } else { s1 };
        append_keeps(s1, "\t"@);
        let s3 = if is_el(t, i, NS_W@, "br"@) || is_el(t, i, NS_W@, "cr"@) { append_to_active(s2, "\n"@) } else { s2 };
        append_keeps(s2, "\n"@);
        walk_children_keeps(t, e, i + 1, s3);
        append_keeps(walk_children(t, e, i + 1, s3), "\n"@);
    }
}

proof fn walk_children_keeps(t: Seq<XmlNodeView>, e: int, j: int, s: AnchorStateView)
    requires
        walk_inv(s),
    ensures
        walk_inv(walk_children(t, e, j, s)),
    decreases e - j, 1int,
{
    if 0 <= j < e <= t.len() {
        let ej = next_child(t, e, j);
        walk_keeps(t, j, ej, s);
        walk_children_keeps(t, e, ej, walk(t, j, ej, s));
    }
}

proof fn inferred_anchor_kind(t: Seq<XmlNodeView>, p: int)
    ensures
        inferred_anchor(t, p) matches Some(a) ==> kind_matches(a)
            && a.locator.table_cell is None
            && (a.raw_text matches Some(x) ==> x.len() > 0)
            && (a.target_type == ParsedAnchorTargetType::Image ==> a.raw_text is None),
{
}

proof fn fallback_for_ids_keeps(s: AnchorStateView, ids: Seq<Seq<char>>, a: ParsedAnchorView, n: int)
    requires
        scan_inv(s),
        kind_matches(a),
        a.raw_text matches Some(x) ==> x.len() > 0,
        a.target_type == ParsedAnchorTargetType::Image ==> a.raw_text is None,
    ensures
        scan_inv(fallback_for_ids(s, ids, a, n)),
        fallback_for_ids(s, ids, a, n).buffer_keys == s.buffer_keys,
        fallback_for_ids(s, ids, a, n).buffer_texts == s.buffer_texts,
    decreases n,
{
    if n > 0 {
        fallback_for_ids_keeps(s, ids, a, n - 1);
        let s1 = fallback_for_ids(s, ids, a, n - 1);
        let id = ids[n - 1];
        lemma_lower_bound_range(s1.anchor_keys, id);
        if !(key_index(s1.buffer_keys, id) is Some || key_index(s1.anchor_keys, id) is Some) {
            let p = lower_bound(s1.anchor_keys, id);
            lemma_insert_sorted(s1.anchor_keys, id);
            lemma_insert_sorted(s1.buffer_keys, id);
            let r = fallback_for_ids(s, ids, a, n);
            assert forall|k: int| 0 <= k < r.anchors.len() implies #[trigger] kind_matches(r.anchors[k])
                && r.anchors[k].comment_id == r.anchor_keys[k] && text_ok(r.anchors[k], r.buffer_keys) by {
                if k < p {
                    assert(r.anchors[k] == s1.anchors[k]);
                } else if k > p {
                    assert(r.anchors[k] == s1.anchors[k - 1]);
                }
            }
        }
    }
}

proof fn fallback_upto_keeps(t: Seq<XmlNodeView>, n: int, s: AnchorStateView)
    requires
        scan_inv(s),
    ensures
        scan_inv(fallback_upto(t, n, s)),
    decreases n,
{
    if n > 0 {
        fallback_upto_keeps(t, n - 1, s);
        let s1 = fallback_upto(t, n - 1, s);
        if is_el(t, n - 1, NS_W@, "p"@) {
            let ids = crate::anchors::paragraph_comment_ids(t, n - 1);
            inferred_anchor_kind(t, n - 1);
            if ids.len() > 0 {
                if let Some(a) = inferred_anchor(t, n - 1) {
                    fallback_for_ids_keeps(s1, ids, a, ids.len() as int);
                }
            }
        }
    }
}

proof fn locate_one_keeps(
    s: AnchorStateView,
    id: Seq<char>,
    path: Seq<Seq<char>>,
    before: Option<Seq<char>>,
    after: Option<Seq<char>>,
    cell: Option<crate::parse::ParsedTableCellLocator>,
)
    requires
        scan_inv(s),
    ensures
        scan_inv(locate_one(s, id, path, before, after, cell)),
{
    lemma_lower_bound_range(s.anchor_keys, id);
    let r = locate_one(s, id, path, before, after, cell);
    match key_index(s.anchor_keys, id) {
        Some(q) => {
            assert forall|k: int| 0 <= k < r.anchors.len() implies #[trigger] kind_matches(r.anchors[k])
                && r.anchors[k].comment_id == r.anchor_keys[k] && text_ok(r.anchors[k], r.buffer_keys) by {
                if k != q {
                    assert(r.anchors[k] == s.anchors[k]);
                } else {
                    assert(kind_matches(s.anchors[q]));
                    assert(text_ok(s.anchors[q], s.buffer_keys));
                }
            }
        },
        None => {
            let q = lower_bound(s.anchor_keys, id);
            lemma_insert_sorted(s.anchor_keys, id);
            assert forall|k: int| 0 <= k < r.anchors.len() implies #[trigger] kind_matches(r.anchors[k])
                && r.anchors[k].comment_id == r.anchor_keys[k] && text_ok(r.anchors[k], r.buffer_keys) by {
                if k < q {
                    assert(r.anchors[k] == s.anchors[k]);
                } else if k > q {
                    assert(r.anchors[k] == s.anchors[k - 1]);
                }
            }
        },
    }
}

proof fn locate_ids_keeps(
    t: Seq<XmlNodeView>,
    p: int,
    s: AnchorStateView,
    ids: Seq<Seq<char>>,
    n: int,
    path: Seq<Seq<char>>,
    text: Option<Seq<char>>,
    cell: Option<crate::parse::ParsedTableCellLocator>,
)
    requires
        scan_inv(s),
    ensures
        scan_inv(locate_ids(t, p, s, ids, n, path, text, cell)),
    decreases n,
{
    if n > 0 {
        locate_ids_keeps(t, p, s, ids, n - 1, path, text, cell);
        let s1 = locate_ids(t, p, s, ids, n - 1, path, text, cell);
        let id = ids[n - 1];
        let snippet = match crate::anchors::direct_text(t, p, id) {
            Some(x) => Some(x),
            None => text,
        };
        let ctx = crate::anchors::context_for(snippet, text);
        locate_one_keeps(s1, id, path, ctx.0, ctx.1, cell);
    }
}

proof fn locate_upto_keeps(t: Seq<XmlNodeView>, n: int, s: AnchorStateView)
    requires
        scan_inv(s),
    ensures
        scan_inv(locate_upto(t, n, s).1),
    decreases n,
{
    if n > 0 {
        locate_upto_keeps(t, n - 1, s);
        let prev = locate_upto(t, n - 1, s);
        if is_el(t, n - 1, NS_W@, "p"@) {
            let p = n - 1;
            let h = crate::anchors::update_heading_stack(prev.0, crate::anchors::heading_info(t, p));
            let path = h.map_values(|e: (usize, Seq<char>)| e.1);
            let text = crate::text::spec_empty_to_none(crate::xml::node_text(t, p));
            let ids = crate::anchors::paragraph_comment_ids(t, p);
            locate_ids_keeps(t, p, prev.1, ids, ids.len() as int, path, text, crate::anchors::table_cell_locator(t, p));
        }
    }
}

proof fn assemble_keeps(bk: Seq<Seq<char>>, bt: Seq<Seq<char>>, ak: Seq<Seq<char>>, av: Seq<ParsedAnchorView>)
    requires
        ak.len() == av.len(),
        all_kinds_match(av),
    ensures
        all_kinds_match(assemble(bk, bt, ak, av)),
    decreases bk.len(),
{
    if bk.len() > 0 && bt.len() > 0 {
        let id = bk[0];
        let raw = crate::text::spec_empty_to_none(bt[0]);
        let r = assemble(bk, bt, ak, av);
        lemma_lower_bound_range(ak, id);
        match key_index(ak, id) {
            Some(k) => {
                let rest_av = av.remove(k);
                assert forall|q: int| 0 <= q < rest_av.len() implies #[trigger] kind_matches(rest_av[q]) by {
                    if q < k {
                        assert(rest_av[q] == av[q]);
                    } else {
                        assert(rest_av[q] == av[q + 1]);
                    }
                }
                assemble_keeps(bk.drop_first(), bt.drop_first(), ak.remove(k), rest_av);
                let tail = assemble(bk.drop_first(), bt.drop_first(), ak.remove(k), rest_av);
                assert forall|q: int| 0 <= q < r.len() implies #[trigger] kind_matches(r[q]) by {
                    if q > 0 {
                        assert(r[q] == tail[q - 1]);
                    } else {
                        assert(kind_matches(av[k]));
                    }
                }
            },
            None => {
                assemble_keeps(bk.drop_first(), bt.drop_first(), ak, av);
                let tail = assemble(bk.drop_first(), bt.drop_first(), ak, av);
                assert forall|q: int| 0 <= q < r.len() implies #[trigger] kind_matches(r[q]) by {
                    if q > 0 {
                        assert(r[q] == tail[q - 1]);
                    }
                }
            },
        }
    }
}

/// Anchor kinds: every anchor read from `document.xml` carries what its target type promises.
/// A table anchor has its table index and no image data, an image anchor has its image data and
/// no table, and a text anchor has neither.
pub proof fn anchors_carry_what_their_kind_promises(t: Seq<XmlNodeView>, k: int)
    requires
        0 <= k < spec_document_anchors(t).0.len(),
    ensures
        kind_matches(spec_document_anchors(t).0[k]),
{
    let s0 = empty_state();
    let s1 = match root_element(t) {
        Some(r) => walk(t, r, subtree_end(t, r), s0),
        None => s0,
    };
    if let Some(r) = root_element(t) {
        walk_keeps(t, r, subtree_end(t, r), s0);
    }
    let s2 = fallback_upto(t, t.len() as int, s1);
    walk_gives_scan_inv(s1);
    fallback_upto_keeps(t, t.len() as int, s1);
    locate_upto_keeps(t, t.len() as int, s2);
    let s = scan_document(t);
    assemble_keeps(s.buffer_keys, s.buffer_texts, s.anchor_keys, s.anchors);
}

/// The anchors put together in the end belong to distinct comments, each of which received
/// range text or has a recorded anchor.
proof fn assemble_ids_distinct(bk: Seq<Seq<char>>, bt: Seq<Seq<char>>, ak: Seq<Seq<char>>, av: Seq<ParsedAnchorView>)
    requires
        ak.len() == av.len(),
        sorted_keys(bk),
        sorted_keys(ak),
        forall|k: int| 0 <= k < av.len() ==> (#[trigger] av[k]).comment_id == ak[k],
    ensures
        forall|i: int, j: int| 0 <= i < j < assemble(bk, bt, ak, av).len()
            ==> (#[trigger] assemble(bk, bt, ak, av)[i]).comment_id != (#[trigger] assemble(bk, bt, ak, av)[j]).comment_id,
        forall|i: int| 0 <= i < assemble(bk, bt, ak, av).len()
            ==> bk.contains((#[trigger] assemble(bk, bt, ak, av)[i]).comment_id) || ak.contains(assemble(bk, bt, ak, av)[i].comment_id),
    decreases bk.len(),
{
    let r = assemble(bk, bt, ak, av);
    if bk.len() == 0 || bt.len() == 0 {
        assert forall|i: int, j: int| 0 <= i < j < r.len() implies (#[trigger] r[i]).comment_id != (#[trigger] r[j]).comment_id by {
            lemma_sorted_distinct(ak, i, j);
        }
        assert forall|i: int| 0 <= i < r.len() implies bk.contains((#[trigger] r[i]).comment_id) || ak.contains(r[i].comment_id) by {
            assert(ak[i] == r[i].comment_id);
        }
    } else {
        let id = bk[0];
        let bk1 = bk.drop_first();
        lemma_remove_sorted(bk, 0);
        assert(bk.remove(0) =~= bk1);
        // the head's id occurs nowhere else among the range keys
        assert forall|q: int| 0 <= q < bk1.len() implies #[trigger] bk1[q] != id by {
            lemma_sorted_distinct(bk, 0, q + 1);
        }
        lemma_lower_bound_range(ak, id);
        match key_index(ak, id) {
            Some(k) => {
                let ak1 = ak.remove(k);
                let av1 = av.remove(k);
                lemma_remove_sorted(ak, k);
                assert forall|q: int| 0 <= q < av1.len() implies (#[trigger] av1[q]).comment_id == ak1[q] by {
                    if q < k {
                        assert(av1[q] == av[q]);
                    } else {
                        assert(av1[q] == av[q + 1]);
                    }
                }
                assert forall|q: int| 0 <= q < ak1.len() implies #[trigger] ak1[q] != id by {
                    if q < k {
                        lemma_sorted_distinct(ak, q, k);
                    } else {
                        lemma_sorted_distinct(ak, q + 1, k);
                    }
                }
                assemble_ids_distinct(bk1, bt.drop_first(), ak1, av1);
                let tail = assemble(bk1, bt.drop_first(), ak1, av1);
                assert(r == seq![ParsedAnchorView { comment_id: id, raw_text: crate::text::spec_empty_to_none(bt[0]), ..av[k] }] + tail);
                assert forall|i: int| 0 <= i < r.len() implies bk.contains((#[trigger] r[i]).comment_id) || ak.contains(r[i].comment_id) by {
                    if i == 0 {
                        assert(bk[0] == r[0].comment_id);
                    } else {
                        assert(r[i] == tail[i - 1]);
                        if bk1.contains(tail[i - 1].comment_id) {
                            let w = choose|w: int| 0 <= w < bk1.len() && bk1[w] == tail[i - 1].comment_id;
                            assert(bk[w + 1] == bk1[w]);
                        } else {
                            let w = choose|w: int| 0 <= w < ak1.len() && ak1[w] == tail[i - 1].comment_id;
                            if w < k {
                                assert(ak[w] == ak1[w]);
                            } else {
                                assert(ak[w + 1] == ak1[w]);
                            }
                        }
                    }
                }
                assert forall|i: int, j: int| 0 <= i < j < r.len() implies (#[trigger] r[i]).comment_id != (#[trigger] r[j]).comment_id by {
                    assert(r[j] == tail[j - 1]);
                    if i > 0 {
                        assert(r[i] == tail[i - 1]);
                    } else {
                        let x = tail[j - 1].comment_id;
                        if bk1.contains(x) {
                            let w = choose|w: int| 0 <= w < bk1.len() && bk1[w] == x;
                            assert(bk1[w] != id);
                        } else {
                            let w = choose|w: int| 0 <= w < ak1.len() && ak1[w] == x;
                            assert(ak1[w] != id);
                        }
                    }
                }
            },
            None => {
                lemma_insert_sorted(ak, id);
                assemble_ids_distinct(bk1, bt.drop_first(), ak, av);
                let tail = assemble(bk1, bt.drop_first(), ak, av);
                assert(r == seq![crate::anchors::plain_text_anchor(id, crate::text::spec_empty_to_none(bt[0]))] + tail);
                assert forall|i: int| 0 <= i < r.len() implies bk.contains((#[trigger] r[i]).comment_id) || ak.contains(r[i].comment_id) by {
                    if i == 0 {
                        assert(bk[0] == r[0].comment_id);
                    } else {
                        assert(r[i] == tail[i - 1]);
                        if bk1.contains(tail[i - 1].comment_id) {
                            let w = choose|w: int| 0 <= w < bk1.len() && bk1[w] == tail[i - 1].comment_id;
                            assert(bk[w + 1] == bk1[w]);
                        }
                    }
                }
                assert forall|i: int, j: int| 0 <= i < j < r.len() implies (#[trigger] r[i]).comment_id != (#[trigger] r[j]).comment_id by {
                    assert(r[j] == tail[j - 1]);
                    if i > 0 {
                        assert(r[i] == tail[i - 1]);
                    } else {
                        let x = tail[j - 1].comment_id;
                        if bk1.contains(x) {
                            let w = choose|w: int| 0 <= w < bk1.len() && bk1[w] == x;
                            assert(bk1[w] != id);
                        }
                    }
                }
            },
        }
    }
}

/// One anchor per comment: no two anchors read from `document.xml` belong to the same
/// comment.
pub proof fn one_anchor_per_comment(t: Seq<XmlNodeView>, i: int, j: int)
    requires
        0 <= i < j < spec_document_anchors(t).0.len(),
    ensures
        spec_document_anchors(t).0[i].comment_id != spec_document_anchors(t).0[j].comment_id,
{
    let s0 = empty_state();
    let s1 = match root_element(t) {
        Some(r) => walk(t, r, subtree_end(t, r), s0),
        None => s0,
    };
    if let Some(r) = root_element(t) {
        walk_keeps(t, r, subtree_end(t, r), s0);
    }
    let s2 = fallback_upto(t, t.len() as int, s1);
    walk_gives_scan_inv(s1);
    fallback_upto_keeps(t, t.len() as int, s1);
    locate_upto_keeps(t, t.len() as int, s2);
    let s = scan_document(t);
    assemble_ids_distinct(s.buffer_keys, s.buffer_texts, s.anchor_keys, s.anchors);
}

/// The anchors put together in the end have no empty raw text, and image anchors have none.
proof fn assemble_text_ok(bk: Seq<Seq<char>>, bt: Seq<Seq<char>>, ak: Seq<Seq<char>>, av: Seq<ParsedAnchorView>)
    requires
        ak.len() == av.len(),
        forall|k: int| 0 <= k < av.len() ==> (#[trigger] av[k]).comment_id == ak[k],
        forall|k: int| 0 <= k < av.len() ==> #[trigger] text_ok(av[k], bk),
    ensures
        forall|i: int| 0 <= i < assemble(bk, bt, ak, av).len() ==> ({
            let a = #[trigger] assemble(bk, bt, ak, av)[i];
            &&& (a.raw_text matches Some(x) ==> x.len() > 0)
            &&& (a.target_type == ParsedAnchorTargetType::Image ==> a.raw_text is None)
        }),
    decreases bk.len(),
{
    let r = assemble(bk, bt, ak, av);
    if bk.len() == 0 || bt.len() == 0 {
        assert forall|i: int| 0 <= i < r.len() implies ({
            let a = #[trigger] r[i];
            &&& (a.raw_text matches Some(x) ==> x.len() > 0)
            &&& (a.target_type == ParsedAnchorTargetType::Image ==> a.raw_text is None)
        }) by {
            assert(text_ok(av[i], bk));
        }
    } else {
        let id = bk[0];
        let bk1 = bk.drop_first();
        lemma_lower_bound_range(ak, id);
        // what is absent from the range keys is absent from their tail too
        assert forall|k: int| 0 <= k < av.len() && !bk.contains(#[trigger] av[k].comment_id) implies !bk1.contains(av[k].comment_id) by {
            if bk1.contains(av[k].comment_id) {
                let w = choose|w: int| 0 <= w < bk1.len() && bk1[w] == av[k].comment_id;
                assert(bk[w + 1] == bk1[w]);
            }
        }
        match key_index(ak, id) {
            Some(k) => {
                let ak1 = ak.remove(k);
                let av1 = av.remove(k);
                assert(text_ok(av[k], bk));
                assert(bk[0] == av[k].comment_id);
                assert forall|q: int| 0 <= q < av1.len() implies (#[trigger] av1[q]).comment_id == ak1[q] && text_ok(av1[q], bk1) by {
                    let q0 = if q < k { q } else { q + 1 };
                    assert(av1[q] == av[q0]);
                    assert(text_ok(av[q0], bk));
                }
                assemble_text_ok(bk1, bt.drop_first(), ak1, av1);
                let tail = assemble(bk1, bt.drop_first(), ak1, av1);
                assert forall|i: int| 0 <= i < r.len() implies ({
                    let a = #[trigger] r[i];
                    &&& (a.raw_text matches Some(x) ==> x.len() > 0)
                    &&& (a.target_type == ParsedAnchorTargetType::Image ==> a.raw_text is None)
                }) by {
                    if i > 0 {
                        assert(r[i] == tail[i - 1]);
                    }
                }
            },
            None => {
                assert forall|q: int| 0 <= q < av.len() implies #[trigger] text_ok(av[q], bk1) by {
                    assert(text_ok(av[q], bk));
                }
                assemble_text_ok(bk1, bt.drop_first(), ak, av);
                let tail = assemble(bk1, bt.drop_first(), ak, av);
                assert forall|i: int| 0 <= i < r.len() implies ({
                    let a = #[trigger] r[i];
                    &&& (a.raw_text matches Some(x) ==> x.len() > 0)
                    &&& (a.target_type == ParsedAnchorTargetType::Image ==> a.raw_text is None)
                }) by {
                    if i > 0 {
                        assert(r[i] == tail[i - 1]);
                    }
                }
            },
        }
    }
}

/// Anchor text: no anchor read from `document.xml` has empty raw text, and an image anchor has
/// no raw text at all.
pub proof fn anchor_text_is_never_empty(t: Seq<XmlNodeView>, k: int)
    requires
        0 <= k < spec_document_anchors(t).0.len(),
    ensures
        spec_document_anchors(t).0[k].raw_text matches Some(x) ==> x.len() > 0,
        spec_document_anchors(t).0[k].target_type == ParsedAnchorTargetType::Image ==> spec_document_anchors(t).0[k].raw_text is None,
{
    let s0 = empty_state();
    let s1 = match root_element(t) {
        Some(r) => walk(t, r, subtree_end(t, r), s0),
        None => s0,
    };
    if let Some(r) = root_element(t) {
        walk_keeps(t, r, subtree_end(t, r), s0);
    }
    let s2 = fallback_upto(t, t.len() as int, s1);
    walk_gives_scan_inv(s1);
    fallback_upto_keeps(t, t.len() as int, s1);
    locate_upto_keeps(t, t.len() as int, s2);
    let s = scan_document(t);
    assemble_text_ok(s.buffer_keys, s.buffer_texts, s.anchor_keys, s.anchors);
    let a = spec_document_anchors(t).0[k];
    assert(a == assemble(s.buffer_keys, s.buffer_texts, s.anchor_keys, s.anchors)[k]);
}

/// Heading levels strictly increase from the outermost open heading inwards.
pub open spec fn increasing_levels(stack: Seq<(usize, Seq<char>)>) -> bool {
    forall|i: int, j: int| 0 <= i < j < stack.len() ==> (#[trigger] stack[i]).0 < (#[trigger] stack[j]).0
}

/// Closing the headings at `level` or deeper keeps a prefix: those below `level`.
proof fn pop_headings_prefix(stack: Seq<(usize, Seq<char>)>, level: usize) -> (m: int)
    requires
        increasing_levels(stack),
    ensures
        0 <= m <= stack.len(),
        pop_headings(stack, level) == stack.take(m),
        forall|i: int| 0 <= i < m ==> (#[trigger] stack[i]).0 < level,
        forall|i: int| m <= i < stack.len() ==> (#[trigger] stack[i]).0 >= level,
    decreases stack.len(),
{
    if stack.len() > 0 && stack.last().0 >= level {
        let d = stack.drop_last();
        assert(increasing_levels(d)) by {
            assert forall|i: int, j: int| 0 <= i < j < d.len() implies (#[trigger] d[i]).0 < (#[trigger] d[j]).0 by {
                assert(d[i] == stack[i] && d[j] == stack[j]);
            }
        }
        let m = pop_headings_prefix(d, level);
        assert(d.take(m) =~= stack.take(m));
        assert forall|i: int| m <= i < stack.len() implies (#[trigger] stack[i]).0 >= level by {
            if i < stack.len() - 1 {
                assert(d[i] == stack[i]);
            }
        }
        assert forall|i: int| 0 <= i < m implies (#[trigger] stack[i]).0 < level by {
            assert(d[i] == stack[i]);
        }
        m
    } else {
        assert(stack.take(stack.len() as int) =~= stack);
        assert forall|i: int| 0 <= i < stack.len() implies (#[trigger] stack[i]).0 < level by {
            if i < stack.len() - 1 {
                assert(stack[i].0 < stack[stack.len() - 1].0);
            }
        }
        stack.len() as int
    }
}

/// Headings: a heading paragraph keeps the open headings whose level is below its own and opens
/// itself after them; any other paragraph leaves them as they are. Levels stay strictly
/// increasing, so a heading path lists the enclosing headings outermost first.
pub proof fn heading_stack_keeps_enclosing_headings(stack: Seq<(usize, Seq<char>)>, info: Option<(usize, Seq<char>)>)
    requires
        increasing_levels(stack),
    ensures
        increasing_levels(update_heading_stack(stack, info)),
        info is None ==> update_heading_stack(stack, info) == stack,
        info matches Some((level, text)) ==> exists|m: int| 0 <= m <= stack.len()
            && update_heading_stack(stack, info) == #[trigger] stack.take(m).push((level, text))
            && (forall|i: int| 0 <= i < m ==> (#[trigger] stack[i]).0 < level)
            && (forall|i: int| m <= i < stack.len() ==> (#[trigger] stack[i]).0 >= level),
{
    if let Some((level, text)) = info {
        let m = pop_headings_prefix(stack, level);
        let r = stack.take(m).push((level, text));
        assert forall|i: int, j: int| 0 <= i < j < r.len() implies (#[trigger] r[i]).0 < (#[trigger] r[j]).0 by {
            assert(r[i] == stack[i]);
            if j < m {
                assert(r[j] == stack[j]);
            }
        }
        assert(update_heading_stack(stack, info) == r);
    }
}

/// The open headings stay in strictly increasing levels through the whole locator pass.
pub proof fn open_headings_stay_ordered(t: Seq<XmlNodeView>, n: int, s: AnchorStateView)
    ensures
        increasing_levels(locate_upto(t, n, s).0),
    decreases n,
{
    if n > 0 {
        open_headings_stay_ordered(t, n - 1, s);
        if is_el(t, n - 1, NS_W@, "p"@) {
            heading_stack_keeps_enclosing_headings(locate_upto(t, n - 1, s).0, crate::anchors::heading_info(t, n - 1));
        }
    }
}

/// An anchor's table cell, when it has one, is the cell of a paragraph that references the
/// anchor's comment.
pub open spec fn cell_ok(t: Seq<XmlNodeView>, a: ParsedAnchorView) -> bool {
    a.locator.table_cell matches Some(c) ==> exists|p: int| #[trigger] crate::anchors::table_cell_locator(t, p) == Some(c)
        && is_el(t, p, NS_W@, "p"@) && crate::anchors::paragraph_comment_ids(t, p).contains(a.comment_id)
}

pub open spec fn cells_ok(t: Seq<XmlNodeView>, anchors: Seq<ParsedAnchorView>) -> bool {
    forall|k: int| 0 <= k < anchors.len() ==> #[trigger] cell_ok(t, anchors[k])
}

proof fn fallback_for_ids_cells(t: Seq<XmlNodeView>, s: AnchorStateView, ids: Seq<Seq<char>>, a: ParsedAnchorView, n: int)
    requires
        scan_inv(s),
        cells_ok(t, s.anchors),
        kind_matches(a),
        a.locator.table_cell is None,
        a.raw_text matches Some(x) ==> x.len() > 0,
        a.target_type == ParsedAnchorTargetType::Image ==> a.raw_text is None,
    ensures
        cells_ok(t, fallback_for_ids(s, ids, a, n).anchors),
    decreases n,
{
    if n > 0 {
        fallback_for_ids_cells(t, s, ids, a, n - 1);
        fallback_for_ids_keeps(s, ids, a, n - 1);
        let s1 = fallback_for_ids(s, ids, a, n - 1);
        let id = ids[n - 1];
        lemma_lower_bound_range(s1.anchor_keys, id);
        if !(key_index(s1.buffer_keys, id) is Some || key_index(s1.anchor_keys, id) is Some) {
            let p = lower_bound(s1.anchor_keys, id);
            let r = fallback_for_ids(s, ids, a, n);
            assert forall|k: int| 0 <= k < r.anchors.len() implies #[trigger] cell_ok(t, r.anchors[k]) by {
                if k < p {
                    assert(r.anchors[k] == s1.anchors[k]);
                } else if k > p {
                    assert(r.anchors[k] == s1.anchors[k - 1]);
                }
            }
        }
    }
}

proof fn fallback_upto_cells(t: Seq<XmlNodeView>, n: int, s: AnchorStateView)
    requires
        scan_inv(s),
        cells_ok(t, s.anchors),
    ensures
        cells_ok(t, fallback_upto(t, n, s).anchors),
    decreases n,
{
    if n > 0 {
        fallback_upto_cells(t, n - 1, s);
        fallback_upto_keeps(t, n - 1, s);
        let s1 = fallback_upto(t, n - 1, s);
        if is_el(t, n - 1, NS_W@, "p"@) {
            let ids = crate::anchors::paragraph_comment_ids(t, n - 1);
            inferred_anchor_kind(t, n - 1);
            if ids.len() > 0 {
                if let Some(a) = inferred_anchor(t, n - 1) {
                    fallback_for_ids_cells(t, s1, ids, a, ids.len() as int);
                }
            }
        }
    }
}

proof fn locate_ids_cells(
    t: Seq<XmlNodeView>,
    p: int,
    s: AnchorStateView,
    ids: Seq<Seq<char>>,
    n: int,
    path: Seq<Seq<char>>,
    text: Option<Seq<char>>,
    cell: Option<crate::parse::ParsedTableCellLocator>,
)
    requires
        scan_inv(s),
        cells_ok(t, s.anchors),
        is_el(t, p, NS_W@, "p"@),
        ids == crate::anchors::paragraph_comment_ids(t, p),
        cell == crate::anchors::table_cell_locator(t, p),
        n <= ids.len(),
    ensures
        cells_ok(t, locate_ids(t, p, s, ids, n, path, text, cell).anchors),
    decreases n,
{
    if n > 0 {
        locate_ids_cells(t, p, s, ids, n - 1, path, text, cell);
        locate_ids_keeps(t, p, s, ids, n - 1, path, text, cell);
        let s1 = locate_ids(t, p, s, ids, n - 1, path, text, cell);
        let id = ids[n - 1];
        assert(ids.contains(id));
        let snippet = match crate::anchors::direct_text(t, p, id) {
            Some(x) => Some(x),
            None => text,
        };
        let ctx = crate::anchors::context_for(snippet, text);
        let r = locate_one(s1, id, path, ctx.0, ctx.1, cell);
        lemma_lower_bound_range(s1.anchor_keys, id);
        assert forall|k: int| 0 <= k < r.anchors.len() implies #[trigger] cell_ok(t, r.anchors[k]) by {
            match key_index(s1.anchor_keys, id) {
                Some(q) => {
                    if k != q {
                        assert(r.anchors[k] == s1.anchors[k]);
                    } else {
                        assert(cell_ok(t, s1.anchors[q]));
                        assert(s1.anchors[q].comment_id == id);
                        if s1.anchors[q].locator.table_cell is None {
                            if let Some(c) = cell {
                                assert(crate::anchors::table_cell_locator(t, p) == Some(c));
                            }
                        }
                    }
                },
                None => {
                    let q = lower_bound(s1.anchor_keys, id);
                    if k < q {
                        assert(r.anchors[k] == s1.anchors[k]);
                    } else if k > q {
                        assert(r.anchors[k] == s1.anchors[k - 1]);
                    } else {
                        if let Some(c) = cell {
                            assert(crate::anchors::table_cell_locator(t, p) == Some(c));
                        }
                    }
                },
            }
        }
    }
}

proof fn locate_upto_cells(t: Seq<XmlNodeView>, n: int, s: AnchorStateView)
    requires
        scan_inv(s),
        cells_ok(t, s.anchors),
    ensures
        cells_ok(t, locate_upto(t, n, s).1.anchors),
    decreases n,
{
    if n > 0 {
        locate_upto_cells(t, n - 1, s);
        locate_upto_keeps(t, n - 1, s);
        let prev = locate_upto(t, n - 1, s);
        if is_el(t, n - 1, NS_W@, "p"@) {
            let p = n - 1;
            let h = update_heading_stack(prev.0, crate::anchors::heading_info(t, p));
            let path = h.map_values(|e: (usize, Seq<char>)| e.1);
            let text = crate::text::spec_empty_to_none(crate::xml::node_text(t, p));
            let ids = crate::anchors::paragraph_comment_ids(t, p);
            locate_ids_cells(t, p, prev.1, ids, ids.len() as int, path, text, crate::anchors::table_cell_locator(t, p));
        }
    }
}

proof fn assemble_cells(t: Seq<XmlNodeView>, bk: Seq<Seq<char>>, bt: Seq<Seq<char>>, ak: Seq<Seq<char>>, av: Seq<ParsedAnchorView>)
    requires
        ak.len() == av.len(),
        forall|k: int| 0 <= k < av.len() ==> (#[trigger] av[k]).comment_id == ak[k],
        cells_ok(t, av),
    ensures
        cells_ok(t, assemble(bk, bt, ak, av)),
    decreases bk.len(),
{
    let r = assemble(bk, bt, ak, av);
    if bk.len() > 0 && bt.len() > 0 {
        let id = bk[0];
        lemma_lower_bound_range(ak, id);
        match key_index(ak, id) {
            Some(k) => {
                let ak1 = ak.remove(k);
                let av1 = av.remove(k);
                assert forall|q: int| 0 <= q < av1.len() implies (#[trigger] av1[q]).comment_id == ak1[q] && cell_ok(t, av1[q]) by {
                    let q0 = if q < k { q } else { q + 1 };
                    assert(av1[q] == av[q0]);
                    assert(cell_ok(t, av[q0]));
                }
                assemble_cells(t, bk.drop_first(), bt.drop_first(), ak1, av1);
                let tail = assemble(bk.drop_first(), bt.drop_first(), ak1, av1);
                assert forall|i: int| 0 <= i < r.len() implies #[trigger] cell_ok(t, r[i]) by {
                    if i > 0 {
                        assert(r[i] == tail[i - 1]);
                    } else {
                        assert(cell_ok(t, av[k]));
                        assert(av[k].comment_id == id);
                    }
                }
            },
            None => {
                assemble_cells(t, bk.drop_first(), bt.drop_first(), ak, av);
                let tail = assemble(bk.drop_first(), bt.drop_first(), ak, av);
                assert forall|i: int| 0 <= i < r.len() implies #[trigger] cell_ok(t, r[i]) by {
                    if i > 0 {
                        assert(r[i] == tail[i - 1]);
                    }
                }
            },
        }
    }
}

/// Table cells of anchors: an anchor that gives a table cell gives the cell of a paragraph
/// that references its comment (the row and column that
/// `table_cell_is_row_and_column_of_enclosing_cell` describes).
pub proof fn anchor_cell_is_the_cell_of_its_paragraph(t: Seq<XmlNodeView>, k: int) -> (p: int)
    requires
        0 <= k < spec_document_anchors(t).0.len(),
        spec_document_anchors(t).0[k].locator.table_cell is Some,
    ensures
        is_el(t, p, NS_W@, "p"@),
        crate::anchors::paragraph_comment_ids(t, p).contains(spec_document_anchors(t).0[k].comment_id),
        crate::anchors::table_cell_locator(t, p) == spec_document_anchors(t).0[k].locator.table_cell,
{
    let s0 = empty_state();
    let s1 = match root_element(t) {
        Some(r) => walk(t, r, subtree_end(t, r), s0),
        None => s0,
    };
    if let Some(r) = root_element(t) {
        walk_keeps(t, r, subtree_end(t, r), s0);
    }
    walk_gives_scan_inv(s1);
    assert forall|q: int| 0 <= q < s1.anchors.len() implies #[trigger] cell_ok(t, s1.anchors[q]) by {
        assert(s1.anchors[q].locator.table_cell is None);
    }
    let s2 = fallback_upto(t, t.len() as int, s1);
    fallback_upto_keeps(t, t.len() as int, s1);
    fallback_upto_cells(t, t.len() as int, s1);
    locate_upto_keeps(t, t.len() as int, s2);
    locate_upto_cells(t, t.len() as int, s2);
    let s = scan_document(t);
    assemble_cells(t, s.buffer_keys, s.buffer_texts, s.anchor_keys, s.anchors);
    let a = spec_document_anchors(t).0[k];
    assert(cell_ok(t, a));
    let c = a.locator.table_cell->0;
    choose|p: int| crate::anchors::table_cell_locator(t, p) == Some(c)
        && is_el(t, p, NS_W@, "p"@) && crate::anchors::paragraph_comment_ids(t, p).contains(a.comment_id)
}

} // verus!
