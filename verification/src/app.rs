//! Building the output document from the parsed parts.
use vstd::prelude::*;

use crate::anchors::spec_document_anchors;
use crate::docx::{read_docx_parts, spec_read_docx, zip_archive_opens, zip_entries_of, zip_names_of, ReadDocxParts, ReadDocxPartsView, COMMENTS_EXTENDED_XML_PATH, COMMENTS_XML_PATH, DOCUMENT_XML_PATH};
use crate::error::{AppError, AppErrorView};
use crate::output::{
    OutputAnchor, OutputAnchorCaption, OutputAnchorCaptionView, OutputAnchorContext, OutputAnchorLocator,
    OutputAnchorLocatorView, OutputAnchorView, OutputComment, OutputCommentView, OutputDiagnostics,
    OutputDocument, OutputDocumentView, OutputImageAnchor, OutputImageAnchorView, OutputMetadata,
    OutputMetadataView, OutputReply, OutputReplyView, OutputSource, OutputTableAnchor,
    OutputTableCellLocator, OutputText,
};
use crate::parse::{
    DiagnosticWarning, DiagnosticWarningView, ParseDiagnostics, ParseDiagnosticsView, ParsedAnchor,
    ParsedAnchorTargetType, ParsedAnchorView, ParsedComment, ParsedCommentExtended,
    ParsedCommentExtendedView, ParsedCommentView, parse_comments_extended, parse_comments_xml,
    parse_document_comment_ranges, spec_comments, spec_comments_extended, vec_result_view,
};
use crate::xml::roxmltree_parse;
use crate::text::{clone_opt_string, clone_strings, opt_str_view, owned, str_eq, strings_view};

verus! {

pub struct ExtractOptions {
    pub pretty: bool,
    pub include_raw: bool,
    pub fail_on_missing_extended: bool,
}

impl Default for ExtractOptions {
    fn default() -> (res: Self)
        ensures
            !res.pretty,
            res.include_raw,
            !res.fail_on_missing_extended,
    {
        ExtractOptions { pretty: false, include_raw: true, fail_on_missing_extended: false }
    }
}

pub struct BuildOptions {
    pub include_raw: bool,
    pub source_file: String,
    pub document_part_present: bool,
    pub document_anchor_data_available: bool,
}

impl Default for BuildOptions {
    fn default() -> (res: Self)
        ensures
            res.include_raw,
            res.source_file@ == Seq::<char>::empty(),
            !res.document_part_present,
            !res.document_anchor_data_available,
    {
        BuildOptions {
            include_raw: true,
            source_file: String::new(),
            document_part_present: false,
            document_anchor_data_available: false,
        }
    }
}

pub open spec fn comments_view(s: Seq<ParsedComment>) -> Seq<ParsedCommentView> {
    s.map_values(|c: ParsedComment| c@)
}

pub open spec fn anchors_view(s: Seq<ParsedAnchor>) -> Seq<ParsedAnchorView> {
    s.map_values(|a: ParsedAnchor| a@)
}

pub open spec fn extended_view(s: Seq<ParsedCommentExtended>) -> Seq<ParsedCommentExtendedView> {
    s.map_values(|e: ParsedCommentExtended| e@)
}

pub open spec fn warnings_view(s: Seq<DiagnosticWarning>) -> Seq<DiagnosticWarningView> {
    s.map_values(|w: DiagnosticWarning| w@)
}

// ---------------------------------------------------------------------------------------
// Lookups: where the same key occurs twice, the later entry counts.

/// Index of the last anchor recorded for comment `id`.
pub open spec fn last_anchor_index(anchors: Seq<ParsedAnchorView>, id: Seq<char>) -> Option<int>
    decreases anchors.len(),
{
    if anchors.len() == 0 {
        None
    } else if anchors.last().comment_id == id {
        Some(anchors.len() - 1)
    } else {
        last_anchor_index(anchors.drop_last(), id)
    }
}

pub open spec fn anchor_for(anchors: Seq<ParsedAnchorView>, id: Seq<char>) -> Option<ParsedAnchorView> {
    match last_anchor_index(anchors, id) {
        Some(k) => Some(anchors[k]),
        None => None,
    }
}

/// The last extended entry for paragraph `para_id`.
pub open spec fn extended_for(extended: Seq<ParsedCommentExtendedView>, para_id: Seq<char>) -> Option<ParsedCommentExtendedView>
    decreases extended.len(),
{
    if extended.len() == 0 {
        None
    } else if extended.last().para_id == para_id {
        Some(extended.last())
    } else {
        extended_for(extended.drop_last(), para_id)
    }
}

/// The id of the last comment whose paragraph id is `para_id`.
pub open spec fn comment_for_para(comments: Seq<ParsedCommentView>, para_id: Seq<char>) -> Option<Seq<char>>
    decreases comments.len(),
{
    if comments.len() == 0 {
        None
    } else if comments.last().para_id == Some(para_id) {
        Some(comments.last().comment_id)
    } else {
        comment_for_para(comments.drop_last(), para_id)
    }
}

/// How a comment hangs in its thread according to the extended part.
pub enum ParentLink {
    /// No parent paragraph is recorded.
    Root,
    /// The parent paragraph belongs to this comment.
    Parent(Seq<char>),
    /// The parent paragraph belongs to no comment.
    Orphan(Seq<char>),
}

pub open spec fn parent_link(comments: Seq<ParsedCommentView>, extended: Seq<ParsedCommentExtendedView>, c: ParsedCommentView) -> ParentLink {
    match c.para_id {
        None => ParentLink::Root,
        Some(pid) => match extended_for(extended, pid) {
            None => ParentLink::Root,
            Some(e) => match e.parent_para_id {
                None => ParentLink::Root,
                Some(pp) => match comment_for_para(comments, pp) {
                    Some(parent) => ParentLink::Parent(parent),
                    None => ParentLink::Orphan(pp),
                },
            },
        },
    }
}

/// Reply links (comment id, parent comment id) of the first `n` comments, in order.
pub open spec fn reply_pairs_upto(comments: Seq<ParsedCommentView>, extended: Seq<ParsedCommentExtendedView>, n: int) -> Seq<(Seq<char>, Seq<char>)>
    decreases n,
{
    if n <= 0 {
        Seq::empty()
    } else {
        let prev = reply_pairs_upto(comments, extended, n - 1);
        match parent_link(comments, extended, comments[n - 1]) {
            ParentLink::Parent(p) => prev.push((comments[n - 1].comment_id, p)),
            _ => prev,
        }
    }
}

pub open spec fn reply_pairs(comments: Seq<ParsedCommentView>, extended: Seq<ParsedCommentExtendedView>) -> Seq<(Seq<char>, Seq<char>)> {
    reply_pairs_upto(comments, extended, comments.len() as int)
}

/// The parent that the last link for comment `id` names.
pub open spec fn pair_lookup(pairs: Seq<(Seq<char>, Seq<char>)>, id: Seq<char>) -> Option<Seq<char>>
    decreases pairs.len(),
{
    if pairs.len() == 0 {
        None
    } else if pairs.last().0 == id {
        Some(pairs.last().1)
    } else {
        pair_lookup(pairs.drop_last(), id)
    }
}

/// Following parent links from `id` for at most `fuel` steps: the comment reached that has no
/// parent. A chain longer than the number of links goes round a cycle, and has no root.
pub open spec fn root_from(pairs: Seq<(Seq<char>, Seq<char>)>, id: Seq<char>, fuel: nat) -> Option<Seq<char>>
    decreases fuel,
{
    match pair_lookup(pairs, id) {
        None => Some(id),
        Some(parent) => if fuel == 0 { None } else { root_from(pairs, parent, (fuel - 1) as nat) },
    }
}

/// The root comment of the thread that comment `id` belongs to; none on a cycle.
pub open spec fn thread_root(pairs: Seq<(Seq<char>, Seq<char>)>, id: Seq<char>) -> Option<Seq<char>> {
    root_from(pairs, id, pairs.len())
}

// ---------------------------------------------------------------------------------------
// Output pieces

pub open spec fn include_raw_opt(raw: Option<Seq<char>>, keep_raw: bool) -> Option<Seq<char>> {
    if keep_raw { raw } else { None }
}

pub open spec fn target_type_name(t: ParsedAnchorTargetType) -> Seq<char> {
    match t {
        ParsedAnchorTargetType::Text => "text"@,
        ParsedAnchorTargetType::Image => "image"@,
        ParsedAnchorTargetType::Table => "table"@,
    }
}

/// The output anchor of a comment, from its recorded anchor if any.
pub open spec fn output_anchor(anchor: Option<ParsedAnchorView>, keep_raw: bool) -> OutputAnchorView {
    match anchor {
        None => OutputAnchorView {
            target_type: "text"@,
            raw_text: None,
            locator: OutputAnchorLocatorView { heading_path: Seq::empty(), before_context: None, after_context: None, table_cell: None },
            caption: None,
            image: None,
            table: None,
            start_hint: None,
            end_hint: None,
        },
        Some(a) => OutputAnchorView {
            target_type: target_type_name(a.target_type),
            raw_text: include_raw_opt(a.raw_text, keep_raw),
            locator: OutputAnchorLocatorView {
                heading_path: a.locator.heading_path,
                before_context: include_raw_opt(a.locator.before_context, keep_raw),
                after_context: include_raw_opt(a.locator.after_context, keep_raw),
                table_cell: match a.locator.table_cell {
                    Some(c) => Some(OutputTableCellLocator { row_index: c.row_index, column_index: c.column_index }),
                    None => None,
                },
            },
            caption: match a.inferred_caption {
                Some(c) => Some(OutputAnchorCaptionView {
                    text: include_raw_opt(Some(c), keep_raw),
                    source: "inferred_from_nearby_paragraph"@,
                    confidence: "medium"@,
                }),
                None => None,
            },
            image: match a.image {
                Some(i) => Some(OutputImageAnchorView { name: i.name, alt_text: i.alt_text, relationship_id: i.relationship_id }),
                None => None,
            },
            table: match a.table {
                Some(t) => Some(OutputTableAnchor { index: t.index }),
                None => None,
            },
            start_hint: None,
            end_hint: None,
        },
    }
}

/// The done state recorded for a comment's paragraph.
pub open spec fn comment_done(extended: Seq<ParsedCommentExtendedView>, c: ParsedCommentView) -> Option<bool> {
    match c.para_id {
        Some(pid) => match extended_for(extended, pid) {
            Some(e) => e.done,
            None => None,
        },
        None => None,
    }
}

pub open spec fn has_extended(extended: Seq<ParsedCommentExtendedView>, c: ParsedCommentView) -> bool {
    match c.para_id {
        Some(pid) => extended_for(extended, pid) is Some,
        None => false,
    }
}

/// The metadata of a comment or reply: the parts it was read from.
pub open spec fn output_metadata(
    c: ParsedCommentView,
    parent: Option<Seq<char>>,
    extended: Seq<ParsedCommentExtendedView>,
    document_part_present: bool,
) -> OutputMetadataView {
    let ext = has_extended(extended, c);
    OutputMetadataView {
        parent_comment_id: parent,
        comment_para_id: c.para_id,
        has_extended_properties: ext,
        source_parts: seq![COMMENTS_XML_PATH@]
            + (if ext { seq![COMMENTS_EXTENDED_XML_PATH@] } else { Seq::empty() })
            + (if parent is None && document_part_present { seq![DOCUMENT_XML_PATH@] } else { Seq::empty() }),
    }
}

pub struct BuildOptionsView {
    pub include_raw: bool,
    pub source_file: Seq<char>,
    pub document_part_present: bool,
    pub document_anchor_data_available: bool,
}

impl View for BuildOptions {
    type V = BuildOptionsView;

    open spec fn view(&self) -> BuildOptionsView {
        BuildOptionsView {
            include_raw: self.include_raw,
            source_file: self.source_file@,
            document_part_present: self.document_part_present,
            document_anchor_data_available: self.document_anchor_data_available,
        }
    }
}

pub open spec fn output_reply(
    c: ParsedCommentView,
    extended: Seq<ParsedCommentExtendedView>,
    pairs: Seq<(Seq<char>, Seq<char>)>,
    options: BuildOptionsView,
) -> OutputReplyView {
    OutputReplyView {
        comment_id: c.comment_id,
        author: c.author,
        created_at: c.created_at,
        done: comment_done(extended, c),
        comment_text: include_raw_opt(c.raw_text, options.include_raw),
        metadata: output_metadata(c, pair_lookup(pairs, c.comment_id), extended, options.document_part_present),
    }
}

/// The replies of root comment `root`: among the first `n` comments, every other comment whose
/// thread root is `root`, in order.
pub open spec fn replies_upto(
    comments: Seq<ParsedCommentView>,
    extended: Seq<ParsedCommentExtendedView>,
    pairs: Seq<(Seq<char>, Seq<char>)>,
    options: BuildOptionsView,
    root: Seq<char>,
    n: int,
) -> Seq<OutputReplyView>
    decreases n,
{
    if n <= 0 {
        Seq::empty()
    } else {
        let prev = replies_upto(comments, extended, pairs, options, root, n - 1);
        let c = comments[n - 1];
        if c.comment_id != root && thread_root(pairs, c.comment_id) == Some(root) {
            prev.push(output_reply(c, extended, pairs, options))
        } else {
            prev
        }
    }
}

pub open spec fn output_comment(
    c: ParsedCommentView,
    comments: Seq<ParsedCommentView>,
    anchors: Seq<ParsedAnchorView>,
    extended: Seq<ParsedCommentExtendedView>,
    pairs: Seq<(Seq<char>, Seq<char>)>,
    options: BuildOptionsView,
) -> OutputCommentView {
    OutputCommentView {
        comment_id: c.comment_id,
        author: c.author,
        created_at: c.created_at,
        done: comment_done(extended, c),
        anchor: output_anchor(anchor_for(anchors, c.comment_id), options.include_raw),
        comment_text: include_raw_opt(c.raw_text, options.include_raw),
        replies: replies_upto(comments, extended, pairs, options, c.comment_id, comments.len() as int),
        metadata: output_metadata(c, None, extended, options.document_part_present),
    }
}

/// The root comments among the first `n`, in order, each with its thread.
pub open spec fn output_comments_upto(
    comments: Seq<ParsedCommentView>,
    anchors: Seq<ParsedAnchorView>,
    extended: Seq<ParsedCommentExtendedView>,
    pairs: Seq<(Seq<char>, Seq<char>)>,
    options: BuildOptionsView,
    n: int,
) -> Seq<OutputCommentView>
    decreases n,
{
    if n <= 0 {
        Seq::empty()
    } else {
        let prev = output_comments_upto(comments, anchors, extended, pairs, options, n - 1);
        let c = comments[n - 1];
        if pair_lookup(pairs, c.comment_id) is None {
            prev.push(output_comment(c, comments, anchors, extended, pairs, options))
        } else {
            prev
        }
    }
}

pub open spec fn orphan_warning(id: Seq<char>, parent_para_id: Seq<char>) -> DiagnosticWarningView {
    DiagnosticWarningView {
        code: "orphan_reply"@,
        message: "Reply comment "@ + id + " points to missing parent paraId "@ + parent_para_id,
        comment_id: Some(id),
        source_part: Some(COMMENTS_EXTENDED_XML_PATH@),
    }
}

/// Warnings for the first `n` comments whose parent paragraph belongs to no comment.
pub open spec fn orphan_warnings_upto(comments: Seq<ParsedCommentView>, extended: Seq<ParsedCommentExtendedView>, n: int) -> Seq<DiagnosticWarningView>
    decreases n,
{
    if n <= 0 {
        Seq::empty()
    } else {
        let prev = orphan_warnings_upto(comments, extended, n - 1);
        match parent_link(comments, extended, comments[n - 1]) {
            ParentLink::Orphan(pp) => prev.push(orphan_warning(comments[n - 1].comment_id, pp)),
            _ => prev,
        }
    }
}

pub open spec fn missing_anchor_warning(id: Seq<char>) -> DiagnosticWarningView {
    DiagnosticWarningView {
        code: "broken_anchor"@,
        message: "No anchor text found for comment "@ + id,
        comment_id: Some(id),
        source_part: Some(DOCUMENT_XML_PATH@),
    }
}

/// Warnings for the first `n` root comments that have no anchor.
pub open spec fn missing_anchor_warnings_upto(
    comments: Seq<ParsedCommentView>,
    anchors: Seq<ParsedAnchorView>,
    pairs: Seq<(Seq<char>, Seq<char>)>,
    n: int,
) -> Seq<DiagnosticWarningView>
    decreases n,
{
    if n <= 0 {
        Seq::empty()
    } else {
        let prev = missing_anchor_warnings_upto(comments, anchors, pairs, n - 1);
        let id = comments[n - 1].comment_id;
        if pair_lookup(pairs, id) is None && last_anchor_index(anchors, id) is None {
            prev.push(missing_anchor_warning(id))
        } else {
            prev
        }
    }
}

/// The output document built from the parsed parts.
pub open spec fn spec_build_output_document(
    comments: Seq<ParsedCommentView>,
    anchors: Seq<ParsedAnchorView>,
    extended: Seq<ParsedCommentExtendedView>,
    diagnostics: ParseDiagnosticsView,
    options: BuildOptionsView,
) -> OutputDocumentView {
    let pairs = reply_pairs(comments, extended);
    let n = comments.len() as int;
    OutputDocumentView {
        schema_version: "1.0"@,
        source_file: options.source_file,
        comments: output_comments_upto(comments, anchors, extended, pairs, options, n),
        warnings: diagnostics.warnings + orphan_warnings_upto(comments, extended, n) + (if options.document_anchor_data_available {
            missing_anchor_warnings_upto(comments, anchors, pairs, n)
        } else {
            Seq::empty()
        }),
        missing_parts: diagnostics.missing_parts,
    }
}

// ---------------------------------------------------------------------------------------
// Executable lookups

pub open spec fn pairs_view(pairs: Seq<(String, String)>) -> Seq<(Seq<char>, Seq<char>)> {
    pairs.map_values(|p: (String, String)| (p.0@, p.1@))
}

fn last_anchor_index_of(anchors: &[ParsedAnchor], id: &String) -> (res: Option<usize>)
    ensures
        match res {
            Some(k) => last_anchor_index(anchors_view(anchors@), id@) == Some(k as int) && k < anchors@.len(),
            None => last_anchor_index(anchors_view(anchors@), id@) is None,
        },
{
    let mut found: Option<usize> = None;
    let mut k: usize = 0;
    let n = anchors.len();
    while k < n
        invariant
            k <= n == anchors@.len(),
            match found {
                Some(f) => last_anchor_index(anchors_view(anchors@.take(k as int)), id@) == Some(f as int) && f < k,
                None => last_anchor_index(anchors_view(anchors@.take(k as int)), id@) is None,
            },
        decreases n - k,
    {
        assert(anchors_view(anchors@.take(k + 1)).drop_last() =~= anchors_view(anchors@.take(k as int)));
        if str_eq(anchors[k].comment_id.as_str(), id.as_str()) {
            found = Some(k);
        }
        k = k + 1;
    }
    assert(anchors@.take(n as int) =~= anchors@);
    found
}

fn extended_index_of(extended: &[ParsedCommentExtended], para_id: &String) -> (res: Option<usize>)
    ensures
        match res {
            Some(k) => k < extended@.len() && extended_for(extended_view(extended@), para_id@) == Some(extended@[k as int]@),
            None => extended_for(extended_view(extended@), para_id@) is None,
        },
{
    let mut found: Option<usize> = None;
    let mut k: usize = 0;
    let n = extended.len();
    while k < n
        invariant
            k <= n == extended@.len(),
            match found {
                Some(f) => f < k && extended_for(extended_view(extended@.take(k as int)), para_id@) == Some(extended@[f as int]@),
                None => extended_for(extended_view(extended@.take(k as int)), para_id@) is None,
            },
        decreases n - k,
    {
        assert(extended_view(extended@.take(k + 1)).drop_last() =~= extended_view(extended@.take(k as int)));
        if str_eq(extended[k].para_id.as_str(), para_id.as_str()) {
            found = Some(k);
        }
        k = k + 1;
    }
    assert(extended@.take(n as int) =~= extended@);
    found
}

fn comment_for_para_of(comments: &[ParsedComment], para_id: &String) -> (res: Option<usize>)
    ensures
        match res {
            Some(k) => k < comments@.len() && comment_for_para(comments_view(comments@), para_id@) == Some(comments@[k as int].comment_id@),
            None => comment_for_para(comments_view(comments@), para_id@) is None,
        },
{
    let mut found: Option<usize> = None;
    let mut k: usize = 0;
    let n = comments.len();
    while k < n
        invariant
            k <= n == comments@.len(),
            match found {
                Some(f) => f < k && comment_for_para(comments_view(comments@.take(k as int)), para_id@) == Some(comments@[f as int].comment_id@),
                None => comment_for_para(comments_view(comments@.take(k as int)), para_id@) is None,
            },
        decreases n - k,
    {
        assert(comments_view(comments@.take(k + 1)).drop_last() =~= comments_view(comments@.take(k as int)));
        let matches = match &comments[k].para_id {
            Some(p) => str_eq(p.as_str(), para_id.as_str()),
            None => false,
        };
        if matches {
            found = Some(k);
        }
        k = k + 1;
    }
    assert(comments@.take(n as int) =~= comments@);
    found
}

fn pair_lookup_of(pairs: &Vec<(String, String)>, id: &String) -> (res: Option<usize>)
    ensures
        match res {
            Some(k) => k < pairs@.len() && pair_lookup(pairs_view(pairs@), id@) == Some(pairs@[k as int].1@),
            None => pair_lookup(pairs_view(pairs@), id@) is None,
        },
{
    let mut found: Option<usize> = None;
    let mut k: usize = 0;
    let n = pairs.len();
    while k < n
        invariant
            k <= n == pairs@.len(),
            match found {
                Some(f) => f < k && pair_lookup(pairs_view(pairs@.take(k as int)), id@) == Some(pairs@[f as int].1@),
                None => pair_lookup(pairs_view(pairs@.take(k as int)), id@) is None,
            },
        decreases n - k,
    {
        assert(pairs_view(pairs@.take(k + 1)).drop_last() =~= pairs_view(pairs@.take(k as int)));
        if str_eq(pairs[k].0.as_str(), id.as_str()) {
            found = Some(k);
        }
        k = k + 1;
    }
    assert(pairs@.take(n as int) =~= pairs@);
    found
}

fn parent_link_of(comments: &[ParsedComment], extended: &[ParsedCommentExtended], j: usize) -> (res: Option<Result<String, String>>)
    requires
        j < comments@.len(),
    ensures
        match parent_link(comments_view(comments@), extended_view(extended@), comments@[j as int]@) {
            ParentLink::Root => res is None,
            ParentLink::Parent(p) => res matches Some(Ok(x)) && x@ == p,
            ParentLink::Orphan(pp) => res matches Some(Err(x)) && x@ == pp,
        },
{
    let c = &comments[j];
    let pid = match &c.para_id {
        Some(p) => p,
        None => {
            return None;
        },
    };
    let e = match extended_index_of(extended, pid) {
        Some(e) => e,
        None => {
            return None;
        },
    };
    let pp = match &extended[e].parent_para_id {
        Some(pp) => pp,
        None => {
            return None;
        },
    };
    match comment_for_para_of(comments, pp) {
        Some(k) => Some(Ok(comments[k].comment_id.clone())),
        None => Some(Err(pp.clone())),
    }
}

fn orphan_warning_of(id: &String, parent_para_id: &String) -> (res: DiagnosticWarning)
    ensures
        res@ == orphan_warning(id@, parent_para_id@),
{
    let mut message = owned("Reply comment ");
    message.append(id.as_str());
    message.append(" points to missing parent paraId ");
    message.append(parent_para_id.as_str());
    DiagnosticWarning {
        code: owned("orphan_reply"),
        message,
        comment_id: Some(id.clone()),
        source_part: Some(owned(COMMENTS_EXTENDED_XML_PATH)),
    }
}

/// The reply links of the comments, in order, with a warning for each comment whose parent
/// paragraph belongs to no comment.
fn build_reply_parent_map(
    comments: &[ParsedComment],
    extended: &[ParsedCommentExtended],
    warnings: &mut Vec<DiagnosticWarning>,
) -> (res: Vec<(String, String)>)
    ensures
        pairs_view(res@) == reply_pairs(comments_view(comments@), extended_view(extended@)),
        warnings_view(final(warnings)@) == warnings_view(old(warnings)@)
            + orphan_warnings_upto(comments_view(comments@), extended_view(extended@), comments@.len() as int),
{
    let ghost cv = comments_view(comments@);
    let ghost ev = extended_view(extended@);
    let ghost w0 = warnings_view(warnings@);
    let mut pairs: Vec<(String, String)> = Vec::new();
    let n = comments.len();
    let mut j: usize = 0;
    assert(pairs_view(pairs@) =~= Seq::<(Seq<char>, Seq<char>)>::empty());
    assert(w0 =~= w0 + Seq::<DiagnosticWarningView>::empty());
    while j < n
        invariant
            j <= n == comments@.len() == cv.len(),
            cv == comments_view(comments@),
            ev == extended_view(extended@),
            pairs_view(pairs@) == reply_pairs_upto(cv, ev, j as int),
            warnings_view(warnings@) == w0 + orphan_warnings_upto(cv, ev, j as int),
        decreases n - j,
    {
        assert(cv[j as int] == comments@[j as int]@);
        let ghost before_p = pairs_view(pairs@);
        let ghost before_w = warnings_view(warnings@);
        match parent_link_of(comments, extended, j) {
            Some(Ok(parent)) => {
                let ghost p = parent@;
                pairs.push((comments[j].comment_id.clone(), parent));
                assert(pairs_view(pairs@) =~= before_p.push((cv[j as int].comment_id, p)));
            },
            Some(Err(pp)) => {
                warnings.push(orphan_warning_of(&comments[j].comment_id, &pp));
                assert(warnings_view(warnings@) =~= before_w.push(orphan_warning(cv[j as int].comment_id, pp@)));
            },
            None => {},
        }
        j = j + 1;
    }
    pairs
}

/// The root comment of `comment_id`'s thread, following the reply links; none on a cycle.
fn thread_root_comment_id(comment_id: &String, pairs: &Vec<(String, String)>) -> (res: Option<String>)
    ensures
        opt_str_view(res) == thread_root(pairs_view(pairs@), comment_id@),
{
    let ghost pv = pairs_view(pairs@);
    let mut current = comment_id.clone();
    let mut fuel = pairs.len();
    assert(pv.len() == fuel);
    loop
        invariant
            pv == pairs_view(pairs@),
            root_from(pv, current@, fuel as nat) == thread_root(pv, comment_id@),
        decreases fuel,
    {
        match pair_lookup_of(pairs, &current) {
            None => {
                return Some(current);
            },
            Some(k) => {
                if fuel == 0 {
                    return None;
                }
                current = pairs[k].1.clone();
                fuel = fuel - 1;
            },
        }
    }
}

// ---------------------------------------------------------------------------------------
// Executable output building

fn include_raw(raw_text: Option<String>, include_raw_text: bool) -> (res: Option<String>)
    ensures
        opt_str_view(res) == include_raw_opt(opt_str_view(raw_text), include_raw_text),
{
    if include_raw_text { raw_text } else { None }
}

fn build_text(raw_text: Option<String>, include_raw_text: bool) -> (res: OutputText)
    ensures
        opt_str_view(res.raw_text) == include_raw_opt(opt_str_view(raw_text), include_raw_text),
{
    OutputText { raw_text: include_raw(raw_text, include_raw_text) }
}

fn anchor_target_type(t: ParsedAnchorTargetType) -> (res: String)
    ensures
        res@ == target_type_name(t),
{
    match t {
        ParsedAnchorTargetType::Text => owned("text"),
        ParsedAnchorTargetType::Image => owned("image"),
        ParsedAnchorTargetType::Table => owned("table"),
    }
}

fn build_anchor(anchor: Option<&ParsedAnchor>, keep_raw: bool) -> (res: OutputAnchor)
    ensures
        res@ == output_anchor(match anchor { Some(a) => Some(a@), None => None }, keep_raw),
{
    match anchor {
        None => {
            let res = OutputAnchor {
                target_type: owned("text"),
                raw_text: None,
                locator: OutputAnchorLocator { heading_path: Vec::new(), before_context: None, after_context: None, table_cell: None },
                context: OutputAnchorContext { caption: None },
                image: None,
                table: None,
                start_hint: None,
                end_hint: None,
            };
            assert(res@.locator.heading_path =~= Seq::<Seq<char>>::empty());
            res
        },
        Some(a) => {
            let caption = match &a.inferred_caption {
                Some(c) => Some(OutputAnchorCaption {
                    text: include_raw(Some(c.clone()), keep_raw),
                    source: owned("inferred_from_nearby_paragraph"),
                    confidence: owned("medium"),
                }),
                None => None,
            };
            let image = match &a.image {
                Some(i) => Some(OutputImageAnchor {
                    name: clone_opt_string(&i.name),
                    alt_text: clone_opt_string(&i.alt_text),
                    relationship_id: clone_opt_string(&i.relationship_id),
                }),
                None => None,
            };
            OutputAnchor {
                target_type: anchor_target_type(a.target_type),
                raw_text: include_raw(clone_opt_string(&a.raw_text), keep_raw),
                locator: OutputAnchorLocator {
                    heading_path: clone_strings(&a.locator.heading_path),
                    before_context: include_raw(clone_opt_string(&a.locator.before_context), keep_raw),
                    after_context: include_raw(clone_opt_string(&a.locator.after_context), keep_raw),
                    table_cell: match a.locator.table_cell {
                        Some(c) => Some(OutputTableCellLocator { row_index: c.row_index, column_index: c.column_index }),
                        None => None,
                    },
                },
                context: OutputAnchorContext { caption },
                image,
                table: match a.table {
                    Some(t) => Some(OutputTableAnchor { index: t.index }),
                    None => None,
                },
                start_hint: None,
                end_hint: None,
            }
        },
    }
}

fn comment_done_of(comment: &ParsedComment, extended: &[ParsedCommentExtended]) -> (res: Option<bool>)
    ensures
        res == comment_done(extended_view(extended@), comment@),
{
    match &comment.para_id {
        Some(pid) => match extended_index_of(extended, pid) {
            Some(k) => extended[k].done,
            None => None,
        },
        None => None,
    }
}

fn build_metadata(
    comment: &ParsedComment,
    parent_comment_id: Option<String>,
    extended: &[ParsedCommentExtended],
    document_part_present: bool,
) -> (res: OutputMetadata)
    ensures
        res@ == output_metadata(comment@, opt_str_view(parent_comment_id), extended_view(extended@), document_part_present),
{
    let has_extended_properties = match &comment.para_id {
        Some(pid) => extended_index_of(extended, pid).is_some(),
        None => false,
    };
    let mut source_parts: Vec<String> = Vec::new();
    source_parts.push(owned(COMMENTS_XML_PATH));
    if has_extended_properties {
        source_parts.push(owned(COMMENTS_EXTENDED_XML_PATH));
    }
    if parent_comment_id.is_none() && document_part_present {
        source_parts.push(owned(DOCUMENT_XML_PATH));
    }
    let res = OutputMetadata {
        parent_comment_id,
        comment_para_id: clone_opt_string(&comment.para_id),
        has_extended_properties,
        source_parts,
    };
    assert(res@.source_parts =~= output_metadata(comment@, opt_str_view(res.parent_comment_id), extended_view(extended@), document_part_present).source_parts);
    res
}

fn build_output_reply(
    comment: &ParsedComment,
    extended: &[ParsedCommentExtended],
    pairs: &Vec<(String, String)>,
    options: &BuildOptions,
) -> (res: OutputReply)
    ensures
        res@ == output_reply(comment@, extended_view(extended@), pairs_view(pairs@), options@),
{
    let parent = match pair_lookup_of(pairs, &comment.comment_id) {
        Some(k) => Some(pairs[k].1.clone()),
        None => None,
    };
    OutputReply {
        comment_id: comment.comment_id.clone(),
        author: clone_opt_string(&comment.author),
        created_at: clone_opt_string(&comment.created_at),
        done: comment_done_of(comment, extended),
        comment: build_text(clone_opt_string(&comment.raw_text), options.include_raw),
        metadata: build_metadata(comment, parent, extended, options.document_part_present),
    }
}

fn build_output_comment(
    j: usize,
    comments: &[ParsedComment],
    roots: &Vec<Option<String>>,
    anchors: &[ParsedAnchor],
    extended: &[ParsedCommentExtended],
    pairs: &Vec<(String, String)>,
    options: &BuildOptions,
) -> (res: OutputComment)
    requires
        j < comments@.len(),
        roots@.len() == comments@.len(),
        forall|k: int| 0 <= k < comments@.len() ==> opt_str_view(#[trigger] roots@[k]) == thread_root(pairs_view(pairs@), comments@[k].comment_id@),
    ensures
        res@ == output_comment(comments@[j as int]@, comments_view(comments@), anchors_view(anchors@), extended_view(extended@), pairs_view(pairs@), options@),
{
    let ghost cv = comments_view(comments@);
    let ghost ev = extended_view(extended@);
    let ghost pv = pairs_view(pairs@);
    let comment = &comments[j];
    let mut replies: Vec<OutputReply> = Vec::new();
    let n = comments.len();
    let mut k: usize = 0;
    assert(replies@.map_values(|r: OutputReply| r@) =~= Seq::<OutputReplyView>::empty());
    while k < n
        invariant
            k <= n == comments@.len() == cv.len() == roots@.len(),
            j < n,
            cv == comments_view(comments@),
            ev == extended_view(extended@),
            pv == pairs_view(pairs@),
            forall|m: int| 0 <= m < comments@.len() ==> opt_str_view(#[trigger] roots@[m]) == thread_root(pv, comments@[m].comment_id@),
            replies@.map_values(|r: OutputReply| r@) == replies_upto(cv, ev, pv, options@, comments@[j as int].comment_id@, k as int),
        decreases n - k,
    {
        assert(cv[k as int] == comments@[k as int]@);
        let ghost r0 = opt_str_view(roots@[k as int]);
        let same_root = match &roots[k] {
            Some(r) => str_eq(r.as_str(), comments[j].comment_id.as_str()),
            None => false,
        };
        if !str_eq(comments[k].comment_id.as_str(), comments[j].comment_id.as_str()) && same_root {
            let ghost before = replies@.map_values(|r: OutputReply| r@);
            let reply = build_output_reply(&comments[k], extended, pairs, options);
            replies.push(reply);
            assert(replies@.map_values(|r: OutputReply| r@) =~= before.push(output_reply(cv[k as int], ev, pv, options@)));
        }
        k = k + 1;
    }
    let anchor = match last_anchor_index_of(anchors, &comment.comment_id) {
        Some(a) => Some(&anchors[a]),
        None => None,
    };
    OutputComment {
        comment_id: comment.comment_id.clone(),
        author: clone_opt_string(&comment.author),
        created_at: clone_opt_string(&comment.created_at),
        done: comment_done_of(comment, extended),
        anchor: build_anchor(anchor, options.include_raw),
        comment: build_text(clone_opt_string(&comment.raw_text), options.include_raw),
        replies,
        metadata: build_metadata(comment, None, extended, options.document_part_present),
    }
}

fn missing_anchor_warning_of(id: &String) -> (res: DiagnosticWarning)
    ensures
        res@ == missing_anchor_warning(id@),
{
    let mut message = owned("No anchor text found for comment ");
    message.append(id.as_str());
    DiagnosticWarning {
        code: owned("broken_anchor"),
        message,
        comment_id: Some(id.clone()),
        source_part: Some(owned(DOCUMENT_XML_PATH)),
    }
}

fn missing_anchor_warnings(
    comments: &[ParsedComment],
    anchors: &[ParsedAnchor],
    pairs: &Vec<(String, String)>,
) -> (res: Vec<DiagnosticWarning>)
    ensures
        warnings_view(res@) == missing_anchor_warnings_upto(comments_view(comments@), anchors_view(anchors@), pairs_view(pairs@), comments@.len() as int),
{
    let ghost cv = comments_view(comments@);
    let mut out: Vec<DiagnosticWarning> = Vec::new();
    let n = comments.len();
    let mut j: usize = 0;
    assert(warnings_view(out@) =~= Seq::<DiagnosticWarningView>::empty());
    while j < n
        invariant
            j <= n == comments@.len() == cv.len(),
            cv == comments_view(comments@),
            warnings_view(out@) == missing_anchor_warnings_upto(cv, anchors_view(anchors@), pairs_view(pairs@), j as int),
        decreases n - j,
    {
        assert(cv[j as int] == comments@[j as int]@);
        let id = &comments[j].comment_id;
        if pair_lookup_of(pairs, id).is_none() && last_anchor_index_of(anchors, id).is_none() {
            let ghost before = warnings_view(out@);
            out.push(missing_anchor_warning_of(id));
            assert(warnings_view(out@) =~= before.push(missing_anchor_warning(cv[j as int].comment_id)));
        }
        j = j + 1;
    }
    out
}

/// Builds the output document: root comments in order, each with its anchor and the replies of
/// its thread, and the diagnostics.
pub fn build_output_document(
    comments: &[ParsedComment],
    anchors: &[ParsedAnchor],
    extended: &[ParsedCommentExtended],
    diagnostics: ParseDiagnostics,
    options: &BuildOptions,
) -> (res: OutputDocument)
    ensures
        res@ == spec_build_output_document(comments_view(comments@), anchors_view(anchors@), extended_view(extended@), diagnostics@, options@),
{
    let ghost cv = comments_view(comments@);
    let ghost av = anchors_view(anchors@);
    let ghost ev = extended_view(extended@);
    let ghost d0 = diagnostics@;
    let ParseDiagnostics { warnings: diag_warnings, missing_parts } = diagnostics;
    let mut warnings = diag_warnings;
    let pairs = build_reply_parent_map(comments, extended, &mut warnings);
    let ghost pv = pairs_view(pairs@);
    if options.document_anchor_data_available {
        let mut missing = missing_anchor_warnings(comments, anchors, &pairs);
        let ghost w1 = warnings_view(warnings@);
        let ghost w2 = warnings_view(missing@);
        warnings.append(&mut missing);
        assert(warnings_view(warnings@) =~= w1 + w2);
    } else {
        assert(warnings_view(warnings@) =~= warnings_view(warnings@) + Seq::<DiagnosticWarningView>::empty());
    }
    let n = comments.len();
    let mut roots: Vec<Option<String>> = Vec::new();
    let mut k: usize = 0;
    while k < n
        invariant
            k <= n == comments@.len(),
            pv == pairs_view(pairs@),
            roots@.len() == k,
            forall|m: int| 0 <= m < k ==> opt_str_view(#[trigger] roots@[m]) == thread_root(pv, comments@[m].comment_id@),
        decreases n - k,
    {
        roots.push(thread_root_comment_id(&comments[k].comment_id, &pairs));
        k = k + 1;
    }
    let mut out: Vec<OutputComment> = Vec::new();
    let mut j: usize = 0;
    assert(out@.map_values(|c: OutputComment| c@) =~= Seq::<OutputCommentView>::empty());
    while j < n
        invariant
            j <= n == comments@.len() == cv.len() == roots@.len(),
            cv == comments_view(comments@),
            av == anchors_view(anchors@),
            ev == extended_view(extended@),
            pv == pairs_view(pairs@),
            forall|m: int| 0 <= m < comments@.len() ==> opt_str_view(#[trigger] roots@[m]) == thread_root(pv, comments@[m].comment_id@),
            out@.map_values(|c: OutputComment| c@) == output_comments_upto(cv, av, ev, pv, options@, j as int),
        decreases n - j,
    {
        assert(cv[j as int] == comments@[j as int]@);
        if pair_lookup_of(&pairs, &comments[j].comment_id).is_none() {
            let ghost before = out@.map_values(|c: OutputComment| c@);
            let c = build_output_comment(j, comments, &roots, anchors, extended, &pairs, options);
            out.push(c);
            assert(out@.map_values(|c: OutputComment| c@) =~= before.push(output_comment(cv[j as int], cv, av, ev, pv, options@)));
        }
        j = j + 1;
    }
    OutputDocument {
        schema_version: owned("1.0"),
        source: OutputSource { file: options.source_file.clone() },
        comments: out,
        diagnostics: OutputDiagnostics { warnings, missing_parts },
    }
}

// ---------------------------------------------------------------------------------------
// From the parts to the document

/// The warning left by a part whose XML does not parse.
pub open spec fn malformed_warning(part: Seq<char>, message: Seq<char>) -> DiagnosticWarningView {
    DiagnosticWarningView {
        code: "malformed_xml"@,
        message,
        comment_id: None,
        source_part: Some(part),
    }
}

fn malformed_warning_of(part: &str, message: String) -> (res: DiagnosticWarning)
    ensures
        res@ == malformed_warning(part@, message@),
{
    DiagnosticWarning { code: owned("malformed_xml"), message, comment_id: None, source_part: Some(owned(part)) }
}

/// What `document.xml` (when present) gives: its anchors, its warnings, and whether its anchor
/// data could be read. Malformed XML leaves a warning and no anchors.
pub open spec fn spec_document_part(xml: Option<Seq<char>>) -> (Seq<ParsedAnchorView>, Seq<DiagnosticWarningView>, bool) {
    match xml {
        None => (Seq::empty(), Seq::empty(), false),
        Some(x) => match roxmltree_parse(x) {
            Ok(t) => (spec_document_anchors(t).0, spec_document_anchors(t).1, true),
            Err(message) => (Seq::empty(), seq![malformed_warning(DOCUMENT_XML_PATH@, message)], false),
        },
    }
}

/// What `commentsExtended.xml` gives: its entries and warnings. Malformed XML leaves a warning
/// and no entries; an absent part is an error only when asked for.
pub open spec fn spec_extended_part(xml: Option<Seq<char>>, fail_on_missing_extended: bool) -> Result<(Seq<ParsedCommentExtendedView>, Seq<DiagnosticWarningView>), AppErrorView> {
    match xml {
        Some(x) => match roxmltree_parse(x) {
            Err(message) => Ok((Seq::empty(), seq![malformed_warning(COMMENTS_EXTENDED_XML_PATH@, message)])),
            Ok(t) => match spec_comments_extended(t) {
                Ok(e) => Ok((e, Seq::empty())),
                Err(AppErrorView::MalformedXml { part, message }) => Ok((Seq::empty(), seq![malformed_warning(part, message)])),
                Err(other) => Err(other),
            },
        },
        None => if fail_on_missing_extended {
            Err(AppErrorView::MissingRequiredPart(COMMENTS_EXTENDED_XML_PATH@))
        } else {
            Ok((Seq::empty(), Seq::empty()))
        },
    }
}

fn parse_document_part(xml: Option<&str>, diagnostics: &mut ParseDiagnostics) -> (res: Result<(Vec<ParsedAnchor>, bool), AppError>)
    ensures
        res matches Ok((anchors, available)) && {
            let expected = spec_document_part(match xml { Some(x) => Some(x@), None => None });
            &&& anchors_view(anchors@) == expected.0
            &&& available == expected.2
            &&& final(diagnostics)@ == (ParseDiagnosticsView { warnings: old(diagnostics)@.warnings + expected.1, ..old(diagnostics)@ })
        },
{
    let ghost d0 = diagnostics@;
    match xml {
        Some(xml) => match parse_document_comment_ranges(xml) {
            Ok((anchors, mut warnings)) => {
                let ghost w = warnings_view(warnings@);
                diagnostics.warnings.append(&mut warnings);
                assert(diagnostics@.warnings =~= d0.warnings + w);
                Ok((anchors, true))
            },
            Err(AppError::MalformedXml { part, message }) => {
                let ghost before = diagnostics@.warnings;
                diagnostics.warnings.push(malformed_warning_of(part, message));
                assert(diagnostics@.warnings =~= before + seq![malformed_warning(part@, message@)]);
                let anchors: Vec<ParsedAnchor> = Vec::new();
                assert(anchors_view(anchors@) =~= Seq::<ParsedAnchorView>::empty());
                Ok((anchors, false))
            },
            Err(error) => Err(error),
        },
        None => {
            let anchors: Vec<ParsedAnchor> = Vec::new();
            assert(anchors_view(anchors@) =~= Seq::<ParsedAnchorView>::empty());
            assert(diagnostics@.warnings =~= d0.warnings + Seq::<DiagnosticWarningView>::empty());
            Ok((anchors, false))
        },
    }
}

fn parse_extended_part(
    xml: Option<&str>,
    fail_on_missing_extended: bool,
    diagnostics: &mut ParseDiagnostics,
) -> (res: Result<Vec<ParsedCommentExtended>, AppError>)
    ensures
        match spec_extended_part(match xml { Some(x) => Some(x@), None => None }, fail_on_missing_extended) {
            Ok((entries, warnings)) => res matches Ok(e) && extended_view(e@) == entries
                && final(diagnostics)@ == (ParseDiagnosticsView { warnings: old(diagnostics)@.warnings + warnings, ..old(diagnostics)@ }),
            Err(err) => res matches Err(e) && e@ == err,
        },
{
    let ghost d0 = diagnostics@;
    match xml {
        Some(xml) => match parse_comments_extended(xml) {
            Ok(extended) => {
                assert(diagnostics@.warnings =~= d0.warnings + Seq::<DiagnosticWarningView>::empty());
                Ok(extended)
            },
            Err(AppError::MalformedXml { part, message }) => {
                let ghost before = diagnostics@.warnings;
                diagnostics.warnings.push(malformed_warning_of(part, message));
                assert(diagnostics@.warnings =~= before + seq![malformed_warning(part@, message@)]);
                let entries: Vec<ParsedCommentExtended> = Vec::new();
                assert(extended_view(entries@) =~= Seq::<ParsedCommentExtendedView>::empty());
                Ok(entries)
            },
            Err(error) => Err(error),
        },
        None => {
            if fail_on_missing_extended {
                Err(AppError::MissingRequiredPart(COMMENTS_EXTENDED_XML_PATH))
            } else {
                let entries: Vec<ParsedCommentExtended> = Vec::new();
                assert(extended_view(entries@) =~= Seq::<ParsedCommentExtendedView>::empty());
                assert(diagnostics@.warnings =~= d0.warnings + Seq::<DiagnosticWarningView>::empty());
                Ok(entries)
            }
        },
    }
}

/// The output document for the parts of an archive, or the error that stops it.
pub open spec fn spec_extract(source_file: Seq<char>, parts: ReadDocxPartsView, options: ExtractOptions) -> Result<OutputDocumentView, AppErrorView> {
    match parts.comments_xml {
        None => Err(AppErrorView::MissingRequiredPart(COMMENTS_XML_PATH@)),
        Some(cx) => match roxmltree_parse(cx) {
            Err(message) => Err(AppErrorView::MalformedXml { part: COMMENTS_XML_PATH@, message }),
            Ok(ct) => match spec_comments(ct) {
                Err(e) => Err(e),
                Ok(comments) => {
                    let doc = spec_document_part(parts.document_xml);
                    match spec_extended_part(parts.comments_extended_xml, options.fail_on_missing_extended) {
                        Err(e) => Err(e),
                        Ok((extended, ext_warnings)) => Ok(spec_build_output_document(
                            comments,
                            doc.0,
                            extended,
                            ParseDiagnosticsView { warnings: doc.1 + ext_warnings, missing_parts: parts.missing_parts },
                            BuildOptionsView {
                                include_raw: options.include_raw,
                                source_file,
                                document_part_present: parts.document_xml is Some,
                                document_anchor_data_available: doc.2,
                            },
                        )),
                    }
                },
            },
        },
    }
}

pub open spec fn output_result_view(r: Result<OutputDocument, AppError>) -> Result<OutputDocumentView, AppErrorView> {
    match r {
        Ok(d) => Ok(d@),
        Err(e) => Err(e@),
    }
}

/// Builds the output document from the parts read out of an archive.
pub fn extract_from_parts(source_file: &str, docx: ReadDocxParts, options: &ExtractOptions) -> (res: Result<OutputDocument, AppError>)
    ensures
        output_result_view(res) == spec_extract(source_file@, docx@, *options),
{
    let ghost pv = docx@;
    let comments_xml = match &docx.parts.comments_xml {
        Some(c) => c.as_str(),
        None => {
            return Err(AppError::MissingRequiredPart(COMMENTS_XML_PATH));
        },
    };
    let comments = parse_comments_xml(comments_xml)?;
    let mut diagnostics = ParseDiagnostics { warnings: Vec::new(), missing_parts: docx.missing_parts };
    assert(diagnostics@.warnings =~= Seq::<DiagnosticWarningView>::empty());
    let document_xml = match &docx.parts.document_xml {
        Some(d) => Some(d.as_str()),
        None => None,
    };
    let (anchors, document_anchor_data_available) = parse_document_part(document_xml, &mut diagnostics)?;
    let extended_xml = match &docx.parts.comments_extended_xml {
        Some(e) => Some(e.as_str()),
        None => None,
    };
    let extended = parse_extended_part(extended_xml, options.fail_on_missing_extended, &mut diagnostics)?;
    let options = BuildOptions {
        include_raw: options.include_raw,
        source_file: owned(source_file),
        document_part_present: docx.parts.document_xml.is_some(),
        document_anchor_data_available,
    };
    Ok(build_output_document(comments.as_slice(), anchors.as_slice(), extended.as_slice(), diagnostics, &options))
}

/// Reads the archive and builds its output document; `source_file` is the name it is known by.
/// For an archive that opens, the result is the reader's error or the extraction from exactly
/// the parts it read; bytes that do not open as an archive give a zip error.
pub fn extract_output_document(source_file: &str, archive: &[u8], options: &ExtractOptions) -> (res: Result<OutputDocument, AppError>)
    ensures
        !zip_archive_opens(archive@) ==> (res matches Err(e) && e@ is Zip),
        zip_archive_opens(archive@) ==> output_result_view(res) == match spec_read_docx(zip_entries_of(archive@), zip_names_of(archive@)) {
            Err(e) => Err(e),
            Ok(parts) => spec_extract(source_file@, parts, *options),
        },
{
    let docx = read_docx_parts(archive)?;
    extract_from_parts(source_file, docx, options)
}

} // verus!
