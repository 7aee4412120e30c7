//! What each field of the results is, stated against the inputs it is read from: the
//! attributes of a `w:comment`, the row and column of a table cell, the words that make a
//! caption, and what an output comment or reply carries over from its parsed comment.
use vstd::prelude::*;

use crate::anchors::{
    caption_from_paragraph, caption_of_sibling, infer_caption_from_container, position_among,
    table_cell_locator, child_position,
};
use crate::app::{extended_for, reply_pairs, spec_build_output_document, BuildOptionsView};
use crate::guarantees::{reply_source, root_source};
use crate::parse::{
    spec_comments, spec_comments_upto, ParseDiagnosticsView, ParsedAnchorView,
    ParsedCommentExtendedView, ParsedCommentView,
};
use crate::text::{spec_is_whitespace, spec_trim_start};
use crate::xml::{
    ancestor_el, is_el, next_child, next_sibling_element, node_attr, node_text, spec_parent,
    subtree_end, XmlNodeView, NS_W,
};

verus! {

// ---------------------------------------------------------------------------------------
// Comments read from `comments.xml`

/// Each parsed comment among the first `n` nodes comes from a `w:comment` element among them.
proof fn comment_source(t: Seq<XmlNodeView>, n: int, k: int) -> (i: int)
    requires
        spec_comments_upto(t, n) is Ok,
        0 <= k < spec_comments_upto(t, n)->Ok_0.len(),
    ensures
        0 <= i < n,
        is_el(t, i, NS_W@, "comment"@),
        crate::parse::spec_parse_comment(t, i) == Ok::<ParsedCommentView, crate::error::AppErrorView>(spec_comments_upto(t, n)->Ok_0[k]),
    decreases n,
{
    let prev = spec_comments_upto(t, n - 1);
    if k < prev->Ok_0.len() {
        comment_source(t, n - 1, k)
    } else {
        n - 1
    }
}

/// Comment attributes: every comment read from `comments.xml` comes from a `w:comment`
/// element, and its id, author, initials and date are that element's `w:id`, `w:author`,
/// `w:initials` and `w:date` attributes (none exactly when the attribute is absent).
pub proof fn comment_fields_are_its_attributes(t: Seq<XmlNodeView>, k: int) -> (i: int)
    requires
        spec_comments(t) is Ok,
        0 <= k < spec_comments(t)->Ok_0.len(),
    ensures
        0 <= i < t.len(),
        is_el(t, i, NS_W@, "comment"@),
        ({
            let c = spec_comments(t)->Ok_0[k];
            &&& Some(c.comment_id) == node_attr(t, i, NS_W@, "id"@)
            &&& c.author == node_attr(t, i, NS_W@, "author"@)
            &&& c.initials == node_attr(t, i, NS_W@, "initials"@)
            &&& c.created_at == node_attr(t, i, NS_W@, "date"@)
        }),
{
    comment_source(t, t.len() as int, k)
}

// ---------------------------------------------------------------------------------------
// Table cells

/// The children of a node whose range ends at `pe`, from child `j` on, in document order.
pub open spec fn children_from(t: Seq<XmlNodeView>, pe: int, j: int) -> Seq<int>
    decreases pe - j,
{
    if j < 0 || j >= pe || pe > t.len() {
        Seq::empty()
    } else {
        seq![j] + children_from(t, pe, next_child(t, pe, j))
    }
}

/// The children of node `parent`, in document order.
pub open spec fn children(t: Seq<XmlNodeView>, parent: int) -> Seq<int> {
    children_from(t, subtree_end(t, parent), parent + 1)
}

/// How many of the nodes listed are `ns:name` elements.
pub open spec fn count_named(t: Seq<XmlNodeView>, nodes: Seq<int>, ns: Seq<char>, name: Seq<char>) -> int
    decreases nodes.len(),
{
    if nodes.len() == 0 {
        0
    } else {
        count_named(t, nodes.drop_last(), ns, name) + if is_el(t, nodes.last(), ns, name) { 1int } else { 0int }
    }
}

proof fn count_named_push(t: Seq<XmlNodeView>, nodes: Seq<int>, x: int, ns: Seq<char>, name: Seq<char>)
    ensures
        count_named(t, seq![x] + nodes, ns, name) == (if is_el(t, x, ns, name) { 1int } else { 0int }) + count_named(t, nodes, ns, name),
    decreases nodes.len(),
{
    if nodes.len() > 0 {
        assert((seq![x] + nodes).drop_last() =~= seq![x] + nodes.drop_last());
        assert((seq![x] + nodes).last() == nodes.last());
        count_named_push(t, nodes.drop_last(), x, ns, name);
    } else {
        assert((seq![x] + nodes).drop_last() =~= Seq::<int>::empty());
        assert((seq![x] + nodes).last() == x);
        assert(nodes =~= Seq::<int>::empty());
    }
}

proof fn count_named_bound(t: Seq<XmlNodeView>, nodes: Seq<int>, ns: Seq<char>, name: Seq<char>)
    ensures
        0 <= count_named(t, nodes, ns, name) <= nodes.len(),
    decreases nodes.len(),
{
    if nodes.len() > 0 {
        count_named_bound(t, nodes.drop_last(), ns, name);
    }
}

proof fn children_from_bound(t: Seq<XmlNodeView>, pe: int, j: int)
    ensures
        children_from(t, pe, j).len() <= t.len(),
        0 <= j <= t.len() ==> children_from(t, pe, j).len() <= t.len() - j,
    decreases pe - j,
{
    if !(j < 0 || j >= pe || pe > t.len()) {
        children_from_bound(t, pe, next_child(t, pe, j));
    }
}

/// Counting children from `j` on reaches `target` at the count of the `ns:name` children
/// passed before it.
proof fn position_among_counts(t: Seq<XmlNodeView>, pe: int, j: int, target: int, ns: Seq<char>, name: Seq<char>, count: int) -> (m: int)
    requires
        position_among(t, pe, j, target, ns, name, count) is Some,
    ensures
        0 <= m < children_from(t, pe, j).len(),
        children_from(t, pe, j)[m] == target,
        is_el(t, target, ns, name),
        position_among(t, pe, j, target, ns, name, count)
            == Some(count + count_named(t, children_from(t, pe, j).take(m), ns, name)),
    decreases pe - j,
{
    let kids = children_from(t, pe, j);
    let nj = next_child(t, pe, j);
    let rest = children_from(t, pe, nj);
    assert(kids == seq![j] + rest);
    if is_el(t, j, ns, name) && j == target {
        assert(kids.take(0) =~= Seq::<int>::empty());
        0
    } else {
        let c1 = if is_el(t, j, ns, name) { count + 1 } else { count };
        let m1 = position_among_counts(t, pe, nj, target, ns, name, c1);
        assert(kids.take(m1 + 1) =~= seq![j] + rest.take(m1));
        count_named_push(t, rest.take(m1), j, ns, name);
        m1 + 1
    }
}

/// Table cells: a paragraph's table cell is given by the nearest enclosing `w:tc` and the
/// nearest `w:tr` around that cell. The row number is one more than the number of `w:tr`
/// elements before that row among its parent's children, and the column number one more than
/// the number of `w:tc` elements before that cell among its parent's children.
pub proof fn table_cell_is_row_and_column_of_enclosing_cell(t: Seq<XmlNodeView>, p: int) -> (r: (int, int, int, int))
    requires
        table_cell_locator(t, p) is Some,
        t.len() < usize::MAX,
    ensures
        ({
            let (cell, row, row_pos, cell_pos) = r;
            let loc = table_cell_locator(t, p)->0;
            let row_kids = children(t, spec_parent(t, row)->0);
            let cell_kids = children(t, spec_parent(t, cell)->0);
            &&& ancestor_el(t, p, NS_W@, "tc"@) == Some(cell)
            &&& ancestor_el(t, cell, NS_W@, "tr"@) == Some(row)
            &&& spec_parent(t, row) is Some && spec_parent(t, cell) is Some
            &&& 0 <= row_pos < row_kids.len() && row_kids[row_pos] == row
            &&& 0 <= cell_pos < cell_kids.len() && cell_kids[cell_pos] == cell
            &&& loc.row_index == 1 + count_named(t, row_kids.take(row_pos), NS_W@, "tr"@)
            &&& loc.column_index == 1 + count_named(t, cell_kids.take(cell_pos), NS_W@, "tc"@)
        }),
{
    let cell = ancestor_el(t, p, NS_W@, "tc"@)->0;
    let row = ancestor_el(t, cell, NS_W@, "tr"@)->0;
    let row_parent = spec_parent(t, row)->0;
    let cell_parent = spec_parent(t, cell)->0;
    let rp = position_among_counts(t, subtree_end(t, row_parent), row_parent + 1, row, NS_W@, "tr"@, 0);
    let cp = position_among_counts(t, subtree_end(t, cell_parent), cell_parent + 1, cell, NS_W@, "tc"@, 0);
    let row_kids = children(t, row_parent);
    let cell_kids = children(t, cell_parent);
    children_from_bound(t, subtree_end(t, row_parent), row_parent + 1);
    children_from_bound(t, subtree_end(t, cell_parent), cell_parent + 1);
    count_named_bound(t, row_kids.take(rp), NS_W@, "tr"@);
    count_named_bound(t, cell_kids.take(cp), NS_W@, "tc"@);
    (cell, row, rp, cp)
}

// ---------------------------------------------------------------------------------------
// Captions

proof fn trim_start_skips(ws: Seq<char>, rest: Seq<char>)
    requires
        forall|i: int| 0 <= i < ws.len() ==> spec_is_whitespace(#[trigger] ws[i]),
    ensures
        spec_trim_start(ws + rest) == spec_trim_start(rest),
    decreases ws.len(),
{
    if ws.len() > 0 {
        assert((ws + rest).drop_first() =~= ws.drop_first() + rest);
        assert((ws + rest)[0] == ws[0]);
        trim_start_skips(ws.drop_first(), rest);
    } else {
        assert(ws + rest =~= rest);
    }
}

/// Captions: a paragraph whose text, after leading whitespace, begins with "Figure", "Fig.",
/// "Table", "図" or "表" reads as a caption, which is that text; whatever reads as a caption
/// is the paragraph's text and is not empty.
pub proof fn caption_words_make_a_caption(t: Seq<XmlNodeView>, p: int, ws: Seq<char>, word: Seq<char>, rest: Seq<char>)
    requires
        forall|i: int| 0 <= i < ws.len() ==> spec_is_whitespace(#[trigger] ws[i]),
        word == "Figure"@ || word == "Fig."@ || word == "Table"@ || word == "図"@ || word == "表"@,
        node_text(t, p) == ws + word + rest,
    ensures
        caption_from_paragraph(t, p) == Some(node_text(t, p)),
        caption_from_paragraph(t, p) matches Some(c) ==> c == node_text(t, p) && c.len() > 0,
{
    reveal_strlit("Figure");
    reveal_strlit("Fig.");
    reveal_strlit("Table");
    reveal_strlit("図");
    reveal_strlit("表");
    assert(ws + word + rest =~= ws + (word + rest));
    trim_start_skips(ws, word + rest);
    let wr = word + rest;
    assert(wr[0] == word[0]);
    assert(!spec_is_whitespace(word[0]));
    assert(spec_trim_start(wr) == wr);
    assert(wr.take(word.len() as int) =~= word);
    if word == "Figure"@ {
    } else if word == "Fig."@ {
    } else if word == "Table"@ {
    } else if word == "図"@ {
    } else {
    }
}

/// A caption next to a container: when the element right after it is a paragraph that reads
/// as a caption, that caption is the one inferred.
pub proof fn caption_from_following_paragraph(t: Seq<XmlNodeView>, n: int)
    requires
        next_sibling_element(t, n) matches Some(s) && is_el(t, s, NS_W@, "p"@) && caption_from_paragraph(t, s) is Some,
    ensures
        infer_caption_from_container(t, n) == caption_from_paragraph(t, next_sibling_element(t, n)->0),
{
}

// ---------------------------------------------------------------------------------------
// Output comments and replies

/// The done state of the last extended entry for a paragraph id: none when no entry has that
/// id; otherwise the flag of the last one that has it.
pub proof fn last_extended_entry(extended: Seq<ParsedCommentExtendedView>, pid: Seq<char>)
    ensures
        (forall|q: int| 0 <= q < extended.len() ==> (#[trigger] extended[q]).para_id != pid) ==> extended_for(extended, pid) is None,
        forall|q: int| 0 <= q < extended.len() && (#[trigger] extended[q]).para_id == pid
            && (forall|q2: int| q < q2 < extended.len() ==> (#[trigger] extended[q2]).para_id != pid)
            ==> extended_for(extended, pid) == Some(extended[q]),
    decreases extended.len(),
{
    if extended.len() > 0 {
        let d = extended.drop_last();
        last_extended_entry(d, pid);
        assert forall|q: int| 0 <= q < extended.len() && (#[trigger] extended[q]).para_id == pid
            && (forall|q2: int| q < q2 < extended.len() ==> (#[trigger] extended[q2]).para_id != pid)
            implies extended_for(extended, pid) == Some(extended[q]) by {
            if q < extended.len() - 1 {
                assert(extended[extended.len() - 1].para_id != pid);
                assert(d[q] == extended[q]);
                assert forall|q2: int| q < q2 < d.len() implies (#[trigger] d[q2]).para_id != pid by {
                    assert(d[q2] == extended[q2]);
                }
            }
        }
        if forall|q: int| 0 <= q < extended.len() ==> (#[trigger] extended[q]).para_id != pid {
            assert(extended[extended.len() - 1].para_id != pid);
            assert forall|q: int| 0 <= q < d.len() implies (#[trigger] d[q]).para_id != pid by {
                assert(d[q] == extended[q]);
            }
        }
    }
}

/// The done flag carried for parsed comment `c`, stated over the extended entries: none without
/// a paragraph id or without an entry for it, else the flag of the last entry for it.
pub open spec fn done_from_entries(extended: Seq<ParsedCommentExtendedView>, c: ParsedCommentView, done: Option<bool>) -> bool {
    match c.para_id {
        None => done is None,
        Some(pid) => {
            &&& (forall|q: int| 0 <= q < extended.len() ==> (#[trigger] extended[q]).para_id != pid) ==> done is None
            &&& forall|q: int| 0 <= q < extended.len() && (#[trigger] extended[q]).para_id == pid
                    && (forall|q2: int| q < q2 < extended.len() ==> (#[trigger] extended[q2]).para_id != pid)
                    ==> done == extended[q].done
        },
    }
}

/// Output comments carry their parsed comment: each top-level comment is built from a parsed
/// comment whose id, author and date it has, whose text it has when raw text is kept, and whose
/// done flag is that of the last extended entry for the comment's paragraph.
pub proof fn top_level_comment_carries_its_comment(
    comments: Seq<ParsedCommentView>,
    anchors: Seq<ParsedAnchorView>,
    extended: Seq<ParsedCommentExtendedView>,
    diagnostics: ParseDiagnosticsView,
    options: BuildOptionsView,
    i: int,
) -> (m: int)
    requires
        0 <= i < spec_build_output_document(comments, anchors, extended, diagnostics, options).comments.len(),
    ensures
        0 <= m < comments.len(),
        ({
            let o = spec_build_output_document(comments, anchors, extended, diagnostics, options).comments[i];
            let c = comments[m];
            &&& o.comment_id == c.comment_id
            &&& o.author == c.author
            &&& o.created_at == c.created_at
            &&& (options.include_raw ==> o.comment_text == c.raw_text)
            &&& o.metadata.comment_para_id == c.para_id
            &&& done_from_entries(extended, c, o.done)
        }),
{
    let m = root_source(comments, anchors, extended, reply_pairs(comments, extended), options, comments.len() as int, i);
    if let Some(pid) = comments[m].para_id {
        last_extended_entry(extended, pid);
    }
    m
}

/// Output replies carry their parsed comment: each reply is built from a parsed comment whose
/// id, author and date it has, whose text it has when raw text is kept, and whose done flag is
/// that of the last extended entry for the reply's own paragraph.
pub proof fn reply_carries_its_comment(
    comments: Seq<ParsedCommentView>,
    anchors: Seq<ParsedAnchorView>,
    extended: Seq<ParsedCommentExtendedView>,
    diagnostics: ParseDiagnosticsView,
    options: BuildOptionsView,
    i: int,
    j: int,
) -> (m: int)
    requires
        0 <= i < spec_build_output_document(comments, anchors, extended, diagnostics, options).comments.len(),
        0 <= j < spec_build_output_document(comments, anchors, extended, diagnostics, options).comments[i].replies.len(),
    ensures
        0 <= m < comments.len(),
        ({
            let r = spec_build_output_document(comments, anchors, extended, diagnostics, options).comments[i].replies[j];
            let c = comments[m];
            &&& r.comment_id == c.comment_id
            &&& r.author == c.author
            &&& r.created_at == c.created_at
            &&& (options.include_raw ==> r.comment_text == c.raw_text)
            &&& r.metadata.comment_para_id == c.para_id
            &&& done_from_entries(extended, c, r.done)
        }),
{
    let pairs = reply_pairs(comments, extended);
    let n = comments.len() as int;
    let root = root_source(comments, anchors, extended, pairs, options, n, i);
    let m = reply_source(comments, extended, pairs, options, comments[root].comment_id, n, j);
    if let Some(pid) = comments[m].para_id {
        last_extended_entry(extended, pid);
    }
    m
}

} // verus!
