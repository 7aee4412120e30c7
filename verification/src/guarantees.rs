//! What holds of every output document: how comments are grouped into threads, what the
//! metadata records, and what the options change.
use vstd::prelude::*;

use crate::app::{
    malformed_warning, spec_document_part, spec_extended_part, spec_extract, ExtractOptions,
    orphan_warning, orphan_warnings_upto, output_comment, output_comments_upto, output_reply,
    pair_lookup, parent_link, replies_upto, reply_pairs, reply_pairs_upto, root_from,
    spec_build_output_document, thread_root, BuildOptionsView, ParentLink,
};
use crate::docx::{
    spec_read_docx, spec_select_fallback, EntryRead, PartKind, ReadDocxPartsView, COMMENTS_EXTENDED_XML_PATH, COMMENTS_XML_PATH, DOCUMENT_XML_PATH};
use crate::error::AppErrorView;
use crate::xml::roxmltree_parse;
use crate::output::{OutputAnchorCaptionView, OutputAnchorLocatorView, OutputAnchorView, OutputCommentView, OutputDocumentView, OutputReplyView};
use crate::parse::{spec_comments, ParseDiagnosticsView, ParsedAnchorView, ParsedCommentExtendedView, ParsedCommentView};

verus! {

/// Following parent links ends at a comment that has no parent link.
pub proof fn root_has_no_parent(pairs: Seq<(Seq<char>, Seq<char>)>, id: Seq<char>, fuel: nat)
    requires
        root_from(pairs, id, fuel) is Some,
    ensures
        pair_lookup(pairs, root_from(pairs, id, fuel)->0) is None,
    decreases fuel,
{
    if let Some(parent) = pair_lookup(pairs, id) {
        root_has_no_parent(pairs, parent, (fuel - 1) as nat);
    }
}

/// A comment whose thread root is another comment has a parent link.
pub proof fn reply_has_parent(pairs: Seq<(Seq<char>, Seq<char>)>, id: Seq<char>, root: Seq<char>)
    requires
        thread_root(pairs, id) == Some(root),
        id != root,
    ensures
        pair_lookup(pairs, id) is Some,
{
}

/// Each reply listed for `root` among the first `n` comments is the reply built from one of
/// them, a comment other than `root` whose thread root is `root`.
pub proof fn reply_source(
    comments: Seq<ParsedCommentView>,
    extended: Seq<ParsedCommentExtendedView>,
    pairs: Seq<(Seq<char>, Seq<char>)>,
    options: BuildOptionsView,
    root: Seq<char>,
    n: int,
    j: int,
) -> (m: int)
    requires
        0 <= n <= comments.len(),
        0 <= j < replies_upto(comments, extended, pairs, options, root, n).len(),
    ensures
        0 <= m < n,
        comments[m].comment_id != root,
        thread_root(pairs, comments[m].comment_id) == Some(root),
        replies_upto(comments, extended, pairs, options, root, n)[j] == output_reply(comments[m], extended, pairs, options),
    decreases n,
{
    let prev = replies_upto(comments, extended, pairs, options, root, n - 1);
    if j < prev.len() {
        reply_source(comments, extended, pairs, options, root, n - 1, j)
    } else {
        n - 1
    }
}

/// Each top-level entry among the first `n` comments is built from one of them that has no
/// parent link.
pub proof fn root_source(
    comments: Seq<ParsedCommentView>,
    anchors: Seq<ParsedAnchorView>,
    extended: Seq<ParsedCommentExtendedView>,
    pairs: Seq<(Seq<char>, Seq<char>)>,
    options: BuildOptionsView,
    n: int,
    i: int,
) -> (m: int)
    requires
        0 <= n <= comments.len(),
        0 <= i < output_comments_upto(comments, anchors, extended, pairs, options, n).len(),
    ensures
        0 <= m < n,
        pair_lookup(pairs, comments[m].comment_id) is None,
        output_comments_upto(comments, anchors, extended, pairs, options, n)[i]
            == output_comment(comments[m], comments, anchors, extended, pairs, options),
    decreases n,
{
    let prev = output_comments_upto(comments, anchors, extended, pairs, options, n - 1);
    if i < prev.len() {
        root_source(comments, anchors, extended, pairs, options, n - 1, i)
    } else {
        n - 1
    }
}

/// The top-level entry built from comment `m`, when it has no parent link, is listed among
/// the first `n`.
pub proof fn root_listed(
    comments: Seq<ParsedCommentView>,
    anchors: Seq<ParsedAnchorView>,
    extended: Seq<ParsedCommentExtendedView>,
    pairs: Seq<(Seq<char>, Seq<char>)>,
    options: BuildOptionsView,
    n: int,
    m: int,
) -> (i: int)
    requires
        0 <= m < n <= comments.len(),
        pair_lookup(pairs, comments[m].comment_id) is None,
    ensures
        0 <= i < output_comments_upto(comments, anchors, extended, pairs, options, n).len(),
        output_comments_upto(comments, anchors, extended, pairs, options, n)[i]
            == output_comment(comments[m], comments, anchors, extended, pairs, options),
    decreases n,
{
    if m == n - 1 {
        output_comments_upto(comments, anchors, extended, pairs, options, n - 1).len() as int
    } else {
        root_listed(comments, anchors, extended, pairs, options, n - 1, m)
    }
}

/// The reply built from comment `m` is listed for its thread root among the first `n`.
pub proof fn reply_listed(
    comments: Seq<ParsedCommentView>,
    extended: Seq<ParsedCommentExtendedView>,
    pairs: Seq<(Seq<char>, Seq<char>)>,
    options: BuildOptionsView,
    root: Seq<char>,
    n: int,
    m: int,
) -> (j: int)
    requires
        0 <= m < n <= comments.len(),
        comments[m].comment_id != root,
        thread_root(pairs, comments[m].comment_id) == Some(root),
    ensures
        0 <= j < replies_upto(comments, extended, pairs, options, root, n).len(),
        replies_upto(comments, extended, pairs, options, root, n)[j] == output_reply(comments[m], extended, pairs, options),
    decreases n,
{
    if m == n - 1 {
        replies_upto(comments, extended, pairs, options, root, n - 1).len() as int
    } else {
        reply_listed(comments, extended, pairs, options, root, n - 1, m)
    }
}

/// A reply link for `id` among the first `n` comments comes from a comment with that id whose
/// parent paragraph belongs to a comment.
pub proof fn link_source(
    comments: Seq<ParsedCommentView>,
    extended: Seq<ParsedCommentExtendedView>,
    n: int,
    id: Seq<char>,
) -> (k: int)
    requires
        0 <= n <= comments.len(),
        pair_lookup(reply_pairs_upto(comments, extended, n), id) is Some,
    ensures
        0 <= k < n,
        comments[k].comment_id == id,
        parent_link(comments, extended, comments[k]) is Parent,
    decreases n,
{
    let prev = reply_pairs_upto(comments, extended, n - 1);
    match parent_link(comments, extended, comments[n - 1]) {
        ParentLink::Parent(p) => {
            if comments[n - 1].comment_id == id {
                n - 1
            } else {
                assert(prev.push((comments[n - 1].comment_id, p)).drop_last() =~= prev);
                link_source(comments, extended, n - 1, id)
            }
        },
        _ => link_source(comments, extended, n - 1, id),
    }
}

/// The orphan warning of comment `m` is among those of the first `n` comments.
pub proof fn orphan_warning_listed(
    comments: Seq<ParsedCommentView>,
    extended: Seq<ParsedCommentExtendedView>,
    n: int,
    m: int,
    parent_para_id: Seq<char>,
) -> (k: int)
    requires
        0 <= m < n <= comments.len(),
        parent_link(comments, extended, comments[m]) == ParentLink::Orphan(parent_para_id),
    ensures
        0 <= k < orphan_warnings_upto(comments, extended, n).len(),
        orphan_warnings_upto(comments, extended, n)[k] == orphan_warning(comments[m].comment_id, parent_para_id),
    decreases n,
{
    if m == n - 1 {
        orphan_warnings_upto(comments, extended, n - 1).len() as int
    } else {
        orphan_warning_listed(comments, extended, n - 1, m, parent_para_id)
    }
}

/// Top-level comments are thread roots: a top-level comment has no reply link, its metadata
/// names no parent, its source parts start with `comments.xml`, and they hold `document.xml`
/// exactly when the document part is present.
pub proof fn top_level_comments_are_roots(
    comments: Seq<ParsedCommentView>,
    anchors: Seq<ParsedAnchorView>,
    extended: Seq<ParsedCommentExtendedView>,
    diagnostics: ParseDiagnosticsView,
    options: BuildOptionsView,
    i: int,
)
    requires
        0 <= i < spec_build_output_document(comments, anchors, extended, diagnostics, options).comments.len(),
    ensures
        ({
            let c = spec_build_output_document(comments, anchors, extended, diagnostics, options).comments[i];
            &&& pair_lookup(reply_pairs(comments, extended), c.comment_id) is None
            &&& c.metadata.parent_comment_id is None
            &&& c.metadata.source_parts[0] == COMMENTS_XML_PATH@
            &&& c.metadata.source_parts.contains(DOCUMENT_XML_PATH@) == options.document_part_present
        }),
{
    let pairs = reply_pairs(comments, extended);
    let m = root_source(comments, anchors, extended, pairs, options, comments.len() as int, i);
    let c = spec_build_output_document(comments, anchors, extended, diagnostics, options).comments[i];
    let parts = c.metadata.source_parts;
    reveal_strlit("word/comments.xml");
    reveal_strlit("word/commentsExtended.xml");
    reveal_strlit("word/document.xml");
    if options.document_part_present {
        assert(parts[parts.len() - 1] == DOCUMENT_XML_PATH@);
    } else {
        assert forall|k: int| 0 <= k < parts.len() implies parts[k] != DOCUMENT_XML_PATH@ by {
            assert(parts[k] == COMMENTS_XML_PATH@ || parts[k] == COMMENTS_EXTENDED_XML_PATH@);
            assert(COMMENTS_XML_PATH@[5] != DOCUMENT_XML_PATH@[5]);
            assert(COMMENTS_EXTENDED_XML_PATH@[5] != DOCUMENT_XML_PATH@[5]);
        }
    }
}

/// Replies stay in their thread: each reply listed under a top-level comment is another
/// comment whose thread root is that comment, and its metadata names its direct parent (not
/// the root), starts its source parts with `comments.xml` and never lists `document.xml`.
pub proof fn replies_belong_to_their_thread(
    comments: Seq<ParsedCommentView>,
    anchors: Seq<ParsedAnchorView>,
    extended: Seq<ParsedCommentExtendedView>,
    diagnostics: ParseDiagnosticsView,
    options: BuildOptionsView,
    i: int,
    j: int,
)
    requires
        0 <= i < spec_build_output_document(comments, anchors, extended, diagnostics, options).comments.len(),
        0 <= j < spec_build_output_document(comments, anchors, extended, diagnostics, options).comments[i].replies.len(),
    ensures
        ({
            let pairs = reply_pairs(comments, extended);
            let c = spec_build_output_document(comments, anchors, extended, diagnostics, options).comments[i];
            let r = c.replies[j];
            &&& r.comment_id != c.comment_id
            &&& thread_root(pairs, r.comment_id) == Some(c.comment_id)
            &&& r.metadata.parent_comment_id is Some
            &&& r.metadata.parent_comment_id == pair_lookup(pairs, r.comment_id)
            &&& r.metadata.source_parts[0] == COMMENTS_XML_PATH@
            &&& !r.metadata.source_parts.contains(DOCUMENT_XML_PATH@)
        }),
{
    let pairs = reply_pairs(comments, extended);
    let n = comments.len() as int;
    let m = root_source(comments, anchors, extended, pairs, options, n, i);
    let root = comments[m].comment_id;
    let k = reply_source(comments, extended, pairs, options, root, n, j);
    reply_has_parent(pairs, comments[k].comment_id, root);
    let parts = spec_build_output_document(comments, anchors, extended, diagnostics, options).comments[i].replies[j].metadata.source_parts;
    reveal_strlit("word/comments.xml");
    reveal_strlit("word/commentsExtended.xml");
    reveal_strlit("word/document.xml");
    assert forall|q: int| 0 <= q < parts.len() implies parts[q] != DOCUMENT_XML_PATH@ by {
        assert(parts[q] == COMMENTS_XML_PATH@ || parts[q] == COMMENTS_EXTENDED_XML_PATH@);
        assert(COMMENTS_XML_PATH@[5] != DOCUMENT_XML_PATH@[5]);
        assert(COMMENTS_EXTENDED_XML_PATH@[5] != DOCUMENT_XML_PATH@[5]);
    }
}

/// Threads do not overlap: no comment is listed both at the top level and as a reply, and a
/// comment listed as a reply of two top-level comments is listed under the same root id.
pub proof fn threads_do_not_overlap(
    comments: Seq<ParsedCommentView>,
    anchors: Seq<ParsedAnchorView>,
    extended: Seq<ParsedCommentExtendedView>,
    diagnostics: ParseDiagnosticsView,
    options: BuildOptionsView,
    i: int,
    i2: int,
    j: int,
)
    requires
        0 <= i < spec_build_output_document(comments, anchors, extended, diagnostics, options).comments.len(),
        0 <= i2 < spec_build_output_document(comments, anchors, extended, diagnostics, options).comments.len(),
        0 <= j < spec_build_output_document(comments, anchors, extended, diagnostics, options).comments[i2].replies.len(),
    ensures
        ({
            let doc = spec_build_output_document(comments, anchors, extended, diagnostics, options);
            &&& doc.comments[i].comment_id != doc.comments[i2].replies[j].comment_id
            &&& forall|j2: int| 0 <= j2 < doc.comments[i].replies.len()
                    && (#[trigger] doc.comments[i].replies[j2]).comment_id == doc.comments[i2].replies[j].comment_id
                    ==> doc.comments[i].comment_id == doc.comments[i2].comment_id
        }),
{
    let doc = spec_build_output_document(comments, anchors, extended, diagnostics, options);
    top_level_comments_are_roots(comments, anchors, extended, diagnostics, options, i);
    replies_belong_to_their_thread(comments, anchors, extended, diagnostics, options, i2, j);
    assert forall|j2: int| 0 <= j2 < doc.comments[i].replies.len()
        && (#[trigger] doc.comments[i].replies[j2]).comment_id == doc.comments[i2].replies[j].comment_id
        implies doc.comments[i].comment_id == doc.comments[i2].comment_id by {
        replies_belong_to_their_thread(comments, anchors, extended, diagnostics, options, i, j2);
    }
}

/// No comment is lost: a comment without a reply link is listed at the top level, and a
/// comment whose thread leads to another comment is listed among the replies of every
/// top-level comment with that root's id.
pub proof fn every_comment_is_listed(
    comments: Seq<ParsedCommentView>,
    anchors: Seq<ParsedAnchorView>,
    extended: Seq<ParsedCommentExtendedView>,
    diagnostics: ParseDiagnosticsView,
    options: BuildOptionsView,
    m: int,
)
    requires
        0 <= m < comments.len(),
    ensures
        ({
            let pairs = reply_pairs(comments, extended);
            let doc = spec_build_output_document(comments, anchors, extended, diagnostics, options);
            let id = comments[m].comment_id;
            &&& pair_lookup(pairs, id) is None ==> exists|i: int| 0 <= i < doc.comments.len() && #[trigger] doc.comments[i]
                    == output_comment(comments[m], comments, anchors, extended, pairs, options)
            &&& forall|i: int| 0 <= i < doc.comments.len() && thread_root(pairs, id) == Some(#[trigger] doc.comments[i].comment_id)
                    && doc.comments[i].comment_id != id
                    ==> exists|j: int| 0 <= j < doc.comments[i].replies.len() && #[trigger] doc.comments[i].replies[j]
                        == output_reply(comments[m], extended, pairs, options)
        }),
{
    let pairs = reply_pairs(comments, extended);
    let n = comments.len() as int;
    let doc = spec_build_output_document(comments, anchors, extended, diagnostics, options);
    let id = comments[m].comment_id;
    if pair_lookup(pairs, id) is None {
        let i = root_listed(comments, anchors, extended, pairs, options, n, m);
        assert(doc.comments[i] == output_comment(comments[m], comments, anchors, extended, pairs, options));
    }
    assert forall|i: int| 0 <= i < doc.comments.len() && thread_root(pairs, id) == Some(#[trigger] doc.comments[i].comment_id)
        && doc.comments[i].comment_id != id
        implies exists|j: int| 0 <= j < doc.comments[i].replies.len() && #[trigger] doc.comments[i].replies[j]
            == output_reply(comments[m], extended, pairs, options) by {
        let k = root_source(comments, anchors, extended, pairs, options, n, i);
        let j = reply_listed(comments, extended, pairs, options, comments[k].comment_id, n, m);
        assert(doc.comments[i].replies[j] == output_reply(comments[m], extended, pairs, options));
    }
}

/// A reply whose parent paragraph belongs to no comment is reported with an `orphan_reply`
/// warning; when comment ids are distinct it is listed as a top-level comment, not nested.
pub proof fn orphan_replies_stay_top_level(
    comments: Seq<ParsedCommentView>,
    anchors: Seq<ParsedAnchorView>,
    extended: Seq<ParsedCommentExtendedView>,
    diagnostics: ParseDiagnosticsView,
    options: BuildOptionsView,
    m: int,
    parent_para_id: Seq<char>,
)
    requires
        0 <= m < comments.len(),
        parent_link(comments, extended, comments[m]) == ParentLink::Orphan(parent_para_id),
    ensures
        ({
            let pairs = reply_pairs(comments, extended);
            let doc = spec_build_output_document(comments, anchors, extended, diagnostics, options);
            &&& doc.warnings.contains(orphan_warning(comments[m].comment_id, parent_para_id))
            &&& (forall|a: int, b: int| 0 <= a < b < comments.len() ==> #[trigger] comments[a].comment_id != #[trigger] comments[b].comment_id)
                ==> exists|i: int| 0 <= i < doc.comments.len() && #[trigger] doc.comments[i]
                    == output_comment(comments[m], comments, anchors, extended, pairs, options)
        }),
{
    let pairs = reply_pairs(comments, extended);
    let n = comments.len() as int;
    let doc = spec_build_output_document(comments, anchors, extended, diagnostics, options);
    let k = orphan_warning_listed(comments, extended, n, m, parent_para_id);
    assert(doc.warnings[diagnostics.warnings.len() + k] == orphan_warning(comments[m].comment_id, parent_para_id));
    if forall|a: int, b: int| 0 <= a < b < comments.len() ==> #[trigger] comments[a].comment_id != #[trigger] comments[b].comment_id {
        if pair_lookup(pairs, comments[m].comment_id) is Some {
            let s = link_source(comments, extended, n, comments[m].comment_id);
            if s < m {
                assert(comments[s].comment_id != comments[m].comment_id);
            } else if m < s {
                assert(comments[m].comment_id != comments[s].comment_id);
            }
        }
        let i = root_listed(comments, anchors, extended, pairs, options, n, m);
        assert(doc.comments[i] == output_comment(comments[m], comments, anchors, extended, pairs, options));
    }
}

/// Without raw text: when `include_raw` is off, a top-level comment carries no comment text,
/// anchor text, surrounding context or caption text, and its replies carry no text either.
pub proof fn raw_text_left_out(
    comments: Seq<ParsedCommentView>,
    anchors: Seq<ParsedAnchorView>,
    extended: Seq<ParsedCommentExtendedView>,
    diagnostics: ParseDiagnosticsView,
    options: BuildOptionsView,
    i: int,
)
    requires
        !options.include_raw,
        0 <= i < spec_build_output_document(comments, anchors, extended, diagnostics, options).comments.len(),
    ensures
        ({
            let c = spec_build_output_document(comments, anchors, extended, diagnostics, options).comments[i];
            &&& c.comment_text is None
            &&& c.anchor.raw_text is None
            &&& c.anchor.locator.before_context is None
            &&& c.anchor.locator.after_context is None
            &&& (c.anchor.caption matches Some(caption) ==> caption.text is None)
            &&& forall|j: int| 0 <= j < c.replies.len() ==> (#[trigger] c.replies[j]).comment_text is None
        }),
{
    let pairs = reply_pairs(comments, extended);
    let n = comments.len() as int;
    let m = root_source(comments, anchors, extended, pairs, options, n, i);
    let c = spec_build_output_document(comments, anchors, extended, diagnostics, options).comments[i];
    assert forall|j: int| 0 <= j < c.replies.len() implies (#[trigger] c.replies[j]).comment_text is None by {
        let k = reply_source(comments, extended, pairs, options, comments[m].comment_id, n, j);
    }
}

/// Every warning that the orphan check adds is an `orphan_reply` warning for a comment.
pub proof fn orphan_warnings_are_orphan_replies(
    comments: Seq<ParsedCommentView>,
    extended: Seq<ParsedCommentExtendedView>,
    n: int,
    k: int,
)
    requires
        0 <= n <= comments.len(),
        0 <= k < orphan_warnings_upto(comments, extended, n).len(),
    ensures
        orphan_warnings_upto(comments, extended, n)[k].code == "orphan_reply"@,
        orphan_warnings_upto(comments, extended, n)[k].comment_id is Some,
    decreases n,
{
    if k < orphan_warnings_upto(comments, extended, n - 1).len() {
        orphan_warnings_are_orphan_replies(comments, extended, n - 1, k);
    }
}

/// Diagnostics carry over: the document has schema version `1.0` and the source file it was
/// given, the warnings handed in come first and in order, the missing parts pass through
/// unchanged, and without anchor data the only warnings added are `orphan_reply` ones.
pub proof fn diagnostics_carry_over(
    comments: Seq<ParsedCommentView>,
    anchors: Seq<ParsedAnchorView>,
    extended: Seq<ParsedCommentExtendedView>,
    diagnostics: ParseDiagnosticsView,
    options: BuildOptionsView,
)
    ensures
        ({
            let doc = spec_build_output_document(comments, anchors, extended, diagnostics, options);
            &&& doc.schema_version == "1.0"@
            &&& doc.source_file == options.source_file
            &&& diagnostics.warnings.len() <= doc.warnings.len()
            &&& doc.warnings.take(diagnostics.warnings.len() as int) == diagnostics.warnings
            &&& doc.missing_parts == diagnostics.missing_parts
            &&& !options.document_anchor_data_available ==> forall|k: int| diagnostics.warnings.len() <= k < doc.warnings.len()
                    ==> (#[trigger] doc.warnings[k]).code == "orphan_reply"@
        }),
{
    let doc = spec_build_output_document(comments, anchors, extended, diagnostics, options);
    assert(doc.warnings.take(diagnostics.warnings.len() as int) =~= diagnostics.warnings);
    if !options.document_anchor_data_available {
        let d = diagnostics.warnings.len() as int;
        assert forall|k: int| d <= k < doc.warnings.len() implies (#[trigger] doc.warnings[k]).code == "orphan_reply"@ by {
            orphan_warnings_are_orphan_replies(comments, extended, comments.len() as int, k - d);
        }
    }
}

/// With no extended entries there are no reply links: among the first `n` comments each one
/// is listed at the top level, in order, with no replies.
pub proof fn flat_without_links(
    comments: Seq<ParsedCommentView>,
    anchors: Seq<ParsedAnchorView>,
    extended: Seq<ParsedCommentExtendedView>,
    options: BuildOptionsView,
    n: int,
)
    requires
        0 <= n <= comments.len(),
        extended.len() == 0,
    ensures
        output_comments_upto(comments, anchors, extended, reply_pairs(comments, extended), options, n).len() == n,
        forall|i: int| 0 <= i < n ==> ({
            let c = #[trigger] output_comments_upto(comments, anchors, extended, reply_pairs(comments, extended), options, n)[i];
            &&& c.comment_id == comments[i].comment_id
            &&& c.replies.len() == 0
        }),
    decreases n,
{
    let pairs = reply_pairs(comments, extended);
    assert(pairs.len() == 0) by {
        empty_extended_gives_no_links(comments, extended, comments.len() as int);
    }
    if n > 0 {
        flat_without_links(comments, anchors, extended, options, n - 1);
        let c = comments[n - 1];
        assert(pair_lookup(pairs, c.comment_id) is None);
        no_replies_without_links(comments, extended, pairs, options, c.comment_id, comments.len() as int);
    }
}

/// Without extended entries there are no threads: the document lists every comment at the
/// top level, in input order, each with no replies.
pub proof fn no_threads_without_extended_entries(
    comments: Seq<ParsedCommentView>,
    anchors: Seq<ParsedAnchorView>,
    diagnostics: ParseDiagnosticsView,
    options: BuildOptionsView,
)
    ensures
        ({
            let doc = spec_build_output_document(comments, anchors, Seq::empty(), diagnostics, options);
            &&& doc.comments.len() == comments.len()
            &&& forall|i: int| 0 <= i < comments.len() ==> (#[trigger] doc.comments[i]).comment_id == comments[i].comment_id
                    && doc.comments[i].replies.len() == 0
        }),
{
    flat_without_links(comments, anchors, Seq::empty(), options, comments.len() as int);
}

/// Without extended entries, no comment has a reply link.
pub proof fn empty_extended_gives_no_links(comments: Seq<ParsedCommentView>, extended: Seq<ParsedCommentExtendedView>, n: int)
    requires
        0 <= n <= comments.len(),
        extended.len() == 0,
    ensures
        reply_pairs_upto(comments, extended, n).len() == 0,
    decreases n,
{
    if n > 0 {
        empty_extended_gives_no_links(comments, extended, n - 1);
    }
}

/// Without reply links, no comment lists a reply.
pub proof fn no_replies_without_links(
    comments: Seq<ParsedCommentView>,
    extended: Seq<ParsedCommentExtendedView>,
    pairs: Seq<(Seq<char>, Seq<char>)>,
    options: BuildOptionsView,
    root: Seq<char>,
    n: int,
)
    requires
        0 <= n <= comments.len(),
        pairs.len() == 0,
    ensures
        replies_upto(comments, extended, pairs, options, root, n).len() == 0,
    decreases n,
{
    if n > 0 {
        no_replies_without_links(comments, extended, pairs, options, root, n - 1);
    }
}

/// The extraction fails for want of the extended part exactly when that is asked for: when
/// `comments.xml` reads and `commentsExtended.xml` is absent, the result is the
/// missing-part error if `fail_on_missing_extended` is set, and a document otherwise.
pub proof fn missing_extended_fails_only_on_request(source_file: Seq<char>, parts: ReadDocxPartsView, options: ExtractOptions)
    requires
        parts.comments_xml matches Some(cx) && roxmltree_parse(cx) matches Ok(t) && spec_comments(t) is Ok,
        parts.comments_extended_xml is None,
    ensures
        options.fail_on_missing_extended ==> spec_extract(source_file, parts, options)
            == Err::<crate::output::OutputDocumentView, AppErrorView>(AppErrorView::MissingRequiredPart(COMMENTS_EXTENDED_XML_PATH@)),
        !options.fail_on_missing_extended ==> spec_extract(source_file, parts, options) is Ok,
{
}

/// A malformed `document.xml` does not stop the extraction: when `comments.xml` reads and the
/// extended part gives no error, the result is a document whose warnings hold a
/// `malformed_xml` warning for `document.xml` with the parser's message, and no comment gets
/// a `broken_anchor` warning.
pub proof fn malformed_document_is_a_warning(source_file: Seq<char>, parts: ReadDocxPartsView, options: ExtractOptions, message: Seq<char>)
    requires
        parts.comments_xml matches Some(cx) && roxmltree_parse(cx) matches Ok(t) && spec_comments(t) is Ok,
        parts.document_xml matches Some(dx) && roxmltree_parse(dx) == Err::<Seq<crate::xml::XmlNodeView>, Seq<char>>(message),
        spec_extended_part(parts.comments_extended_xml, options.fail_on_missing_extended) is Ok,
    ensures
        spec_extract(source_file, parts, options) matches Ok(doc)
            && doc.warnings[0] == malformed_warning(DOCUMENT_XML_PATH@, message)
            && forall|k: int| 0 <= k < doc.warnings.len() ==> (#[trigger] doc.warnings[k]).code != "broken_anchor"@,
{
    let cx = parts.comments_xml->0;
    let comments = spec_comments(roxmltree_parse(cx)->Ok_0)->Ok_0;
    let docpart = spec_document_part(parts.document_xml);
    assert(docpart.1 == seq![malformed_warning(DOCUMENT_XML_PATH@, message)]);
    let ext = spec_extended_part(parts.comments_extended_xml, options.fail_on_missing_extended)->Ok_0;
    let diagnostics = ParseDiagnosticsView { warnings: docpart.1 + ext.1, missing_parts: parts.missing_parts };
    let build = BuildOptionsView {
        include_raw: options.include_raw,
        source_file,
        document_part_present: true,
        document_anchor_data_available: false,
    };
    diagnostics_carry_over(comments, docpart.0, ext.0, diagnostics, build);
    let out = spec_build_output_document(comments, docpart.0, ext.0, diagnostics, build);
    assert(spec_extract(source_file, parts, options) == Ok::<crate::output::OutputDocumentView, AppErrorView>(out));
    reveal_strlit("broken_anchor");
    reveal_strlit("malformed_xml");
    reveal_strlit("orphan_reply");
    assert forall|k: int| 0 <= k < out.warnings.len() implies (#[trigger] out.warnings[k]).code != "broken_anchor"@ by {
        if k < diagnostics.warnings.len() {
            assert(out.warnings.take(diagnostics.warnings.len() as int)[k] == out.warnings[k]);
            assert(out.warnings[k].code == "malformed_xml"@);
            assert("malformed_xml"@[0] != "broken_anchor"@[0]);
        } else {
            assert("orphan_reply"@[0] != "broken_anchor"@[0]);
        }
    }
}

/// Parts come from the archive's entries: a part whose usual entry is absent is read from the
/// first entry name, in archive order, that fits it, so an alternately named extended part is
/// used; and the parts that end up absent are exactly those listed as missing, `document.xml`
/// first.
pub proof fn parts_come_from_their_entries(
    entries: Map<Seq<char>, EntryRead>,
    names: Seq<Option<Seq<char>>>,
    alternate: Seq<char>,
    text: Seq<char>,
)
    requires
        spec_read_docx(entries, names) is Ok,
    ensures
        ({
            let p = spec_read_docx(entries, names)->Ok_0;
            &&& p.comments_xml is Some
            &&& p.missing_parts == (if p.document_xml is None { seq![DOCUMENT_XML_PATH@] } else { Seq::empty() })
                + (if p.comments_extended_xml is None { seq![COMMENTS_EXTENDED_XML_PATH@] } else { Seq::empty() })
            &&& (!entries.contains_key(COMMENTS_EXTENDED_XML_PATH@)
                && spec_select_fallback(names, PartKind::CommentsExtended) == Some(alternate)
                && entries.contains_key(alternate) && entries[alternate] == EntryRead::Text(text))
                ==> p.comments_extended_xml == Some(text)
        }),
{
}

/// Missing parts are reported: an archive whose parts read and whose extraction succeeds
/// gives a document whose missing parts are those the reading listed.
pub proof fn missing_parts_are_reported(source_file: Seq<char>, parts: ReadDocxPartsView, options: ExtractOptions)
    requires
        spec_extract(source_file, parts, options) is Ok,
    ensures
        spec_extract(source_file, parts, options)->Ok_0.missing_parts == parts.missing_parts,
{
}

/// An anchor with its raw-text fields left out.
pub open spec fn strip_anchor(a: OutputAnchorView) -> OutputAnchorView {
    OutputAnchorView {
        raw_text: None,
        locator: OutputAnchorLocatorView { before_context: None, after_context: None, ..a.locator },
        caption: match a.caption {
            Some(c) => Some(OutputAnchorCaptionView { text: None, ..c }),
            None => None,
        },
        ..a
    }
}

/// A reply with its text left out.
pub open spec fn strip_reply(r: OutputReplyView) -> OutputReplyView {
    OutputReplyView { comment_text: None, ..r }
}

/// A top-level comment with its text, its anchor's raw-text fields and its replies' texts
/// left out.
pub open spec fn strip_comment(c: OutputCommentView) -> OutputCommentView {
    OutputCommentView {
        anchor: strip_anchor(c.anchor),
        comment_text: None,
        replies: c.replies.map_values(|r: OutputReplyView| strip_reply(r)),
        ..c
    }
}

/// A document with every raw-text field left out.
pub open spec fn strip_document(d: OutputDocumentView) -> OutputDocumentView {
    OutputDocumentView { comments: d.comments.map_values(|c: OutputCommentView| strip_comment(c)), ..d }
}

proof fn replies_without_raw(
    comments: Seq<ParsedCommentView>,
    extended: Seq<ParsedCommentExtendedView>,
    pairs: Seq<(Seq<char>, Seq<char>)>,
    options: BuildOptionsView,
    root: Seq<char>,
    n: int,
)
    requires
        options.include_raw,
    ensures
        replies_upto(comments, extended, pairs, BuildOptionsView { include_raw: false, ..options }, root, n)
            == replies_upto(comments, extended, pairs, options, root, n).map_values(|r: OutputReplyView| strip_reply(r)),
    decreases n,
{
    let off = BuildOptionsView { include_raw: false, ..options };
    if n > 0 {
        replies_without_raw(comments, extended, pairs, options, root, n - 1);
        let c = comments[n - 1];
        let prev = replies_upto(comments, extended, pairs, options, root, n - 1);
        if c.comment_id != root && thread_root(pairs, c.comment_id) == Some(root) {
            assert(prev.push(output_reply(c, extended, pairs, options)).map_values(|r: OutputReplyView| strip_reply(r))
                =~= prev.map_values(|r: OutputReplyView| strip_reply(r)).push(strip_reply(output_reply(c, extended, pairs, options))));
            assert(output_reply(c, extended, pairs, off) == strip_reply(output_reply(c, extended, pairs, options)));
        }
    } else {
        assert(Seq::<OutputReplyView>::empty().map_values(|r: OutputReplyView| strip_reply(r)) =~= Seq::<OutputReplyView>::empty());
    }
}

proof fn comments_without_raw(
    comments: Seq<ParsedCommentView>,
    anchors: Seq<ParsedAnchorView>,
    extended: Seq<ParsedCommentExtendedView>,
    pairs: Seq<(Seq<char>, Seq<char>)>,
    options: BuildOptionsView,
    n: int,
)
    requires
        options.include_raw,
    ensures
        output_comments_upto(comments, anchors, extended, pairs, BuildOptionsView { include_raw: false, ..options }, n)
            == output_comments_upto(comments, anchors, extended, pairs, options, n).map_values(|c: OutputCommentView| strip_comment(c)),
    decreases n,
{
    let off = BuildOptionsView { include_raw: false, ..options };
    if n > 0 {
        comments_without_raw(comments, anchors, extended, pairs, options, n - 1);
        let c = comments[n - 1];
        let prev = output_comments_upto(comments, anchors, extended, pairs, options, n - 1);
        if pair_lookup(pairs, c.comment_id) is None {
            let on_c = output_comment(c, comments, anchors, extended, pairs, options);
            assert(prev.push(on_c).map_values(|x: OutputCommentView| strip_comment(x))
                =~= prev.map_values(|x: OutputCommentView| strip_comment(x)).push(strip_comment(on_c)));
            replies_without_raw(comments, extended, pairs, options, c.comment_id, comments.len() as int);
            let a = crate::app::anchor_for(anchors, c.comment_id);
            assert(crate::app::output_anchor(a, false) == strip_anchor(crate::app::output_anchor(a, true)));
            assert(output_comment(c, comments, anchors, extended, pairs, off) == strip_comment(on_c));
        }
    } else {
        assert(Seq::<OutputCommentView>::empty().map_values(|x: OutputCommentView| strip_comment(x)) =~= Seq::<OutputCommentView>::empty());
    }
}

/// Leaving raw text out changes nothing else: the document built without raw text is the one
/// built with it, with every comment and reply text, anchor text, surrounding context and
/// caption text left out; ids, kinds, heading paths, images, tables, metadata and diagnostics
/// are the same.
pub proof fn raw_text_setting_changes_only_raw_fields(
    comments: Seq<ParsedCommentView>,
    anchors: Seq<ParsedAnchorView>,
    extended: Seq<ParsedCommentExtendedView>,
    diagnostics: ParseDiagnosticsView,
    options: BuildOptionsView,
)
    requires
        options.include_raw,
    ensures
        spec_build_output_document(comments, anchors, extended, diagnostics, BuildOptionsView { include_raw: false, ..options })
            == strip_document(spec_build_output_document(comments, anchors, extended, diagnostics, options)),
{
    comments_without_raw(comments, anchors, extended, reply_pairs(comments, extended), options, comments.len() as int);
}

} // verus!
