//! Reading comments, their threads and their anchors out of the XML parts of a `.docx`.
use vstd::prelude::*;

use crate::anchors::{document_anchors, spec_document_anchors};
use crate::docx::{COMMENTS_EXTENDED_XML_PATH, COMMENTS_XML_PATH, DOCUMENT_XML_PATH};
use crate::error::{AppError, AppErrorView};
use crate::text::{clone_opt_string, empty_to_none, opt_str_view, owned, spec_empty_to_none, str_eq, strings_view};
use crate::xml::{
    collect_text_from_node, is_element, node_attr, node_text, optional_attr, optional_attr_either,
    parse_xml_document, roxmltree_parse, is_el, spec_attr, subtree_end, subtree_end_of, XmlDocument,
    XmlNodeView, NS_W, NS_W14, NS_W15,
};

verus! {

#[derive(Debug, PartialEq, Eq)]
pub struct ParsedComment {
    pub comment_id: String,
    pub author: Option<String>,
    pub initials: Option<String>,
    pub created_at: Option<String>,
    pub para_id: Option<String>,
    pub raw_text: Option<String>,
}

#[derive(Debug, PartialEq, Eq)]
pub struct ParsedAnchor {
    pub comment_id: String,
    pub raw_text: Option<String>,
    pub target_type: ParsedAnchorTargetType,
    pub locator: ParsedAnchorLocator,
    pub inferred_caption: Option<String>,
    pub image: Option<ParsedImageAnchor>,
    pub table: Option<ParsedTableAnchor>,
}

#[derive(Clone, Copy, Debug, PartialEq, Eq, Structural)]
pub enum ParsedAnchorTargetType {
    Text,
    Image,
    Table,
}

#[derive(Debug, PartialEq, Eq)]
pub struct ParsedImageAnchor {
    pub name: Option<String>,
    pub alt_text: Option<String>,
    pub relationship_id: Option<String>,
}

#[derive(Debug, Default, PartialEq, Eq)]
pub struct ParsedAnchorLocator {
    pub heading_path: Vec<String>,
    pub before_context: Option<String>,
    pub after_context: Option<String>,
    pub table_cell: Option<ParsedTableCellLocator>,
}

#[derive(Clone, Copy, Debug, PartialEq, Eq, Structural)]
pub struct ParsedTableAnchor {
    pub index: usize,
}

#[derive(Clone, Copy, Debug, PartialEq, Eq, Structural)]
pub struct ParsedTableCellLocator {
    pub row_index: usize,
    pub column_index: usize,
}

#[derive(Debug, PartialEq, Eq)]
pub struct ParsedCommentExtended {
    pub para_id: String,
    pub parent_para_id: Option<String>,
    pub done: Option<bool>,
}

#[derive(Debug, Default, PartialEq, Eq)]
pub struct ParseDiagnostics {
    pub warnings: Vec<DiagnosticWarning>,
    pub missing_parts: Vec<String>,
}

#[derive(Debug, PartialEq, Eq)]
pub struct DiagnosticWarning {
    pub code: String,
    pub message: String,
    pub comment_id: Option<String>,
    pub source_part: Option<String>,
}

pub struct ParsedCommentView {
    pub comment_id: Seq<char>,
    pub author: Option<Seq<char>>,
    pub initials: Option<Seq<char>>,
    pub created_at: Option<Seq<char>>,
    pub para_id: Option<Seq<char>>,
    pub raw_text: Option<Seq<char>>,
}

pub struct ParsedImageAnchorView {
    pub name: Option<Seq<char>>,
    pub alt_text: Option<Seq<char>>,
    pub relationship_id: Option<Seq<char>>,
}

pub struct ParsedAnchorLocatorView {
    pub heading_path: Seq<Seq<char>>,
    pub before_context: Option<Seq<char>>,
    pub after_context: Option<Seq<char>>,
    pub table_cell: Option<ParsedTableCellLocator>,
}

pub struct ParsedAnchorView {
    pub comment_id: Seq<char>,
    pub raw_text: Option<Seq<char>>,
    pub target_type: ParsedAnchorTargetType,
    pub locator: ParsedAnchorLocatorView,
    pub inferred_caption: Option<Seq<char>>,
    pub image: Option<ParsedImageAnchorView>,
    pub table: Option<ParsedTableAnchor>,
}

pub struct ParsedCommentExtendedView {
    pub para_id: Seq<char>,
    pub parent_para_id: Option<Seq<char>>,
    pub done: Option<bool>,
}

pub struct DiagnosticWarningView {
    pub code: Seq<char>,
    pub message: Seq<char>,
    pub comment_id: Option<Seq<char>>,
    pub source_part: Option<Seq<char>>,
}

pub struct ParseDiagnosticsView {
    pub warnings: Seq<DiagnosticWarningView>,
    pub missing_parts: Seq<Seq<char>>,
}

impl View for ParsedComment {
    type V = ParsedCommentView;

    open spec fn view(&self) -> ParsedCommentView {
        ParsedCommentView {
            comment_id: self.comment_id@,
            author: opt_str_view(self.author),
            initials: opt_str_view(self.initials),
            created_at: opt_str_view(self.created_at),
            para_id: opt_str_view(self.para_id),
            raw_text: opt_str_view(self.raw_text),
        }
    }
}

impl View for ParsedImageAnchor {
    type V = ParsedImageAnchorView;

    open spec fn view(&self) -> ParsedImageAnchorView {
        ParsedImageAnchorView {
            name: opt_str_view(self.name),
            alt_text: opt_str_view(self.alt_text),
            relationship_id: opt_str_view(self.relationship_id),
        }
    }
}

impl View for ParsedAnchorLocator {
    type V = ParsedAnchorLocatorView;

    open spec fn view(&self) -> ParsedAnchorLocatorView {
        ParsedAnchorLocatorView {
            heading_path: strings_view(self.heading_path@),
            before_context: opt_str_view(self.before_context),
            after_context: opt_str_view(self.after_context),
            table_cell: self.table_cell,
        }
    }
}

pub open spec fn opt_image_view(o: Option<ParsedImageAnchor>) -> Option<ParsedImageAnchorView> {
    match o {
        Some(i) => Some(i@),
        None => None,
    }
}

impl View for ParsedAnchor {
    type V = ParsedAnchorView;

    open spec fn view(&self) -> ParsedAnchorView {
        ParsedAnchorView {
            comment_id: self.comment_id@,
            raw_text: opt_str_view(self.raw_text),
            target_type: self.target_type,
            locator: self.locator@,
            inferred_caption: opt_str_view(self.inferred_caption),
            image: opt_image_view(self.image),
            table: self.table,
        }
    }
}

impl View for ParsedCommentExtended {
    type V = ParsedCommentExtendedView;

    open spec fn view(&self) -> ParsedCommentExtendedView {
        ParsedCommentExtendedView {
            para_id: self.para_id@,
            parent_para_id: opt_str_view(self.parent_para_id),
            done: self.done,
        }
    }
}

impl View for DiagnosticWarning {
    type V = DiagnosticWarningView;

    open spec fn view(&self) -> DiagnosticWarningView {
        DiagnosticWarningView {
            code: self.code@,
            message: self.message@,
            comment_id: opt_str_view(self.comment_id),
            source_part: opt_str_view(self.source_part),
        }
    }
}

impl View for ParseDiagnostics {
    type V = ParseDiagnosticsView;

    open spec fn view(&self) -> ParseDiagnosticsView {
        ParseDiagnosticsView {
            warnings: self.warnings@.map_values(|w: DiagnosticWarning| w@),
            missing_parts: strings_view(self.missing_parts@),
        }
    }
}

/// The views of the items of a vector, or the view of the error.
pub open spec fn vec_result_view<T: View>(r: Result<Vec<T>, AppError>) -> Result<Seq<T::V>, AppErrorView> {
    match r {
        Ok(v) => Ok(v@.map_values(|x: T| x@)),
        Err(e) => Err(e@),
    }
}

/// Message of the error for a missing required attribute.
pub open spec fn missing_attr_message(name: Seq<char>) -> Seq<char> {
    "missing required attribute "@ + name
}

fn missing_attr_error(part: &'static str, name: &str) -> (res: AppError)
    ensures
        res@ == (AppErrorView::MalformedXml { part: part@, message: missing_attr_message(name@) }),
{
    let mut message = owned("missing required attribute ");
    message.append(name);
    AppError::MalformedXml { part, message }
}

/// Lines joined with line feeds.
pub open spec fn join_lines(lines: Seq<Seq<char>>) -> Seq<char>
    decreases lines.len(),
{
    if lines.len() == 0 {
        Seq::<char>::empty()
    } else if lines.len() == 1 {
        lines[0]
    } else {
        join_lines(lines.drop_last()) + "\n"@ + lines.last()
    }
}

proof fn lemma_join_lines_push(lines: Seq<Seq<char>>, x: Seq<char>)
    ensures
        join_lines(lines.push(x)) == if lines.len() == 0 { x } else { join_lines(lines) + "\n"@ + x },
{
    assert(lines.push(x).drop_last() =~= lines);
}

/// The `paraId` (2012 or 2010 namespace) of a paragraph node.
pub open spec fn para_id_of(t: Seq<XmlNodeView>, j: int) -> Option<Seq<char>> {
    spec_attr(t[j].attributes, seq![NS_W15@, NS_W14@], "paraId"@)
}

/// The `paraId` of the last paragraph among the nodes `a .. b` that has one.
pub open spec fn last_para_id(t: Seq<XmlNodeView>, a: int, b: int) -> Option<Seq<char>>
    decreases b - a,
{
    if b <= a {
        None
    } else if is_el(t, b - 1, NS_W@, "p"@) && para_id_of(t, b - 1) is Some {
        para_id_of(t, b - 1)
    } else {
        last_para_id(t, a, b - 1)
    }
}

/// The texts of the paragraphs among the nodes `a .. b`, in document order.
pub open spec fn paragraph_texts(t: Seq<XmlNodeView>, a: int, b: int) -> Seq<Seq<char>>
    decreases b - a,
{
    if b <= a {
        Seq::<Seq<char>>::empty()
    } else if is_el(t, b - 1, NS_W@, "p"@) {
        paragraph_texts(t, a, b - 1).push(node_text(t, b - 1))
    } else {
        paragraph_texts(t, a, b - 1)
    }
}

/// A `w:comment` element read as a comment.
pub open spec fn spec_parse_comment(t: Seq<XmlNodeView>, i: int) -> Result<ParsedCommentView, AppErrorView> {
    match node_attr(t, i, NS_W@, "id"@) {
        None => Err(AppErrorView::MalformedXml { part: COMMENTS_XML_PATH@, message: missing_attr_message("id"@) }),
        Some(id) => Ok(ParsedCommentView {
            comment_id: id,
            author: node_attr(t, i, NS_W@, "author"@),
            initials: node_attr(t, i, NS_W@, "initials"@),
            created_at: node_attr(t, i, NS_W@, "date"@),
            para_id: last_para_id(t, i, subtree_end(t, i)),
            raw_text: spec_empty_to_none(join_lines(paragraph_texts(t, i, subtree_end(t, i)))),
        }),
    }
}

/// The comments among the first `n` nodes, in document order; the first that fails decides.
pub open spec fn spec_comments_upto(t: Seq<XmlNodeView>, n: int) -> Result<Seq<ParsedCommentView>, AppErrorView>
    decreases n,
{
    if n <= 0 {
        Ok(Seq::<ParsedCommentView>::empty())
    } else {
        match spec_comments_upto(t, n - 1) {
            Err(e) => Err(e),
            Ok(s) => if is_el(t, n - 1, NS_W@, "comment"@) {
                match spec_parse_comment(t, n - 1) {
                    Ok(c) => Ok(s.push(c)),
                    Err(e) => Err(e),
                }
            } else {
                Ok(s)
            },
        }
    }
}

/// All `w:comment` elements of a `comments.xml` tree, read in document order.
pub open spec fn spec_comments(t: Seq<XmlNodeView>) -> Result<Seq<ParsedCommentView>, AppErrorView> {
    spec_comments_upto(t, t.len() as int)
}

fn parse_comment_node(doc: &XmlDocument, i: usize) -> (res: Result<ParsedComment, AppError>)
    requires
        i < doc@.len(),
    ensures
        match res {
            Ok(c) => spec_parse_comment(doc@, i as int) == Ok::<ParsedCommentView, AppErrorView>(c@),
            Err(e) => spec_parse_comment(doc@, i as int) == Err::<ParsedCommentView, AppErrorView>(e@),
        },
{
    let comment_id = match optional_attr(doc, i, NS_W, "id") {
        Some(id) => id,
        None => {
            return Err(missing_attr_error(COMMENTS_XML_PATH, "id"));
        },
    };
    let author = optional_attr(doc, i, NS_W, "author");
    let initials = optional_attr(doc, i, NS_W, "initials");
    let created_at = optional_attr(doc, i, NS_W, "date");
    let end = subtree_end_of(doc, i);
    let mut para_id: Option<String> = None;
    let mut text = String::new();
    let mut count: usize = 0;
    let ghost mut texts = Seq::<Seq<char>>::empty();
    let mut j = i;
    while j < end
        invariant
            i <= j <= end <= doc@.len(),
            end == subtree_end(doc@, i as int),
            opt_str_view(para_id) == last_para_id(doc@, i as int, j as int),
            texts == paragraph_texts(doc@, i as int, j as int),
            count == texts.len(),
            count <= j - i,
            text@ == join_lines(texts),
        decreases end - j,
    {
        if is_element(doc, j, NS_W, "p") {
            let pid = optional_attr_either(doc, j, NS_W15, NS_W14, "paraId");
            if pid.is_some() {
                para_id = pid;
            }
            let paragraph = collect_text_from_node(doc, j);
            proof {
                lemma_join_lines_push(texts, paragraph@);
                texts = texts.push(paragraph@);
            }
            if count > 0 {
                text.append("\n");
            }
            text.append(paragraph.as_str());
            count = count + 1;
        }
        j = j + 1;
    }
    Ok(ParsedComment {
        comment_id,
        author,
        initials,
        created_at,
        para_id,
        raw_text: empty_to_none(text),
    })
}

/// Reads the comments of a parsed `comments.xml` tree.
pub fn comments_from_document(doc: &XmlDocument) -> (res: Result<Vec<ParsedComment>, AppError>)
    ensures
        vec_result_view(res) == spec_comments(doc@),
{
    let n = doc.nodes.len();
    let mut out: Vec<ParsedComment> = Vec::new();
    let mut j: usize = 0;
    assert(doc@.len() == n);
    assert(out@.map_values(|c: ParsedComment| c@) =~= Seq::<ParsedCommentView>::empty());
    while j < n
        invariant
            j <= n == doc@.len(),
            spec_comments_upto(doc@, j as int) == Ok::<Seq<ParsedCommentView>, AppErrorView>(out@.map_values(|c: ParsedComment| c@)),
        decreases n - j,
    {
        if is_element(doc, j, NS_W, "comment") {
            match parse_comment_node(doc, j) {
                Ok(c) => {
                    let ghost before = out@;
                    out.push(c);
                    assert(out@.map_values(|c: ParsedComment| c@) =~= before.map_values(|c: ParsedComment| c@).push(c@));
                },
                Err(e) => {
                    proof { lemma_comments_error_sticks(doc@, j as int + 1, n as int); }
                    return Err(e);
                },
            }
        }
        j = j + 1;
    }
    Ok(out)
}

proof fn lemma_comments_error_sticks(t: Seq<XmlNodeView>, a: int, b: int)
    requires
        a <= b,
        spec_comments_upto(t, a) is Err,
    ensures
        spec_comments_upto(t, b) == spec_comments_upto(t, a),
    decreases b - a,
{
    if a < b {
        lemma_comments_error_sticks(t, a, b - 1);
    }
}

/// Parses `comments.xml`.
pub fn parse_comments_xml(xml: &str) -> (res: Result<Vec<ParsedComment>, AppError>)
    ensures
        vec_result_view(res) == match roxmltree_parse(xml@) {
            Err(message) => Err(AppErrorView::MalformedXml { part: COMMENTS_XML_PATH@, message }),
            Ok(t) => spec_comments(t),
        },
{
    match parse_xml_document(xml) {
        Err(message) => Err(AppError::MalformedXml { part: COMMENTS_XML_PATH, message }),
        Ok(nodes) => comments_from_document(&XmlDocument { nodes }),
    }
}

/// A `w15:commentEx` element read as the extended properties of a comment paragraph.
pub open spec fn spec_parse_comment_extended(t: Seq<XmlNodeView>, i: int) -> Result<ParsedCommentExtendedView, AppErrorView> {
    match node_attr(t, i, NS_W15@, "paraId"@) {
        None => Err(AppErrorView::MalformedXml { part: COMMENTS_EXTENDED_XML_PATH@, message: missing_attr_message("paraId"@) }),
        Some(para_id) => Ok(ParsedCommentExtendedView {
            para_id,
            parent_para_id: node_attr(t, i, NS_W15@, "paraIdParent"@),
            done: match node_attr(t, i, NS_W15@, "done"@) {
                Some(v) => Some(v == "1"@ || v == "true"@),
                None => None,
            },
        }),
    }
}

/// The extended entries among the first `n` nodes, in document order; the first that fails decides.
pub open spec fn spec_comments_extended_upto(t: Seq<XmlNodeView>, n: int) -> Result<Seq<ParsedCommentExtendedView>, AppErrorView>
    decreases n,
{
    if n <= 0 {
        Ok(Seq::<ParsedCommentExtendedView>::empty())
    } else {
        match spec_comments_extended_upto(t, n - 1) {
            Err(e) => Err(e),
            Ok(s) => if is_el(t, n - 1, NS_W15@, "commentEx"@) {
                match spec_parse_comment_extended(t, n - 1) {
                    Ok(c) => Ok(s.push(c)),
                    Err(e) => Err(e),
                }
            } else {
                Ok(s)
            },
        }
    }
}

/// All `w15:commentEx` elements of a `commentsExtended.xml` tree, in document order.
pub open spec fn spec_comments_extended(t: Seq<XmlNodeView>) -> Result<Seq<ParsedCommentExtendedView>, AppErrorView> {
    spec_comments_extended_upto(t, t.len() as int)
}

proof fn lemma_extended_error_sticks(t: Seq<XmlNodeView>, a: int, b: int)
    requires
        a <= b,
        spec_comments_extended_upto(t, a) is Err,
    ensures
        spec_comments_extended_upto(t, b) == spec_comments_extended_upto(t, a),
    decreases b - a,
{
    if a < b {
        lemma_extended_error_sticks(t, a, b - 1);
    }
}

fn parse_comment_extended_node(doc: &XmlDocument, i: usize) -> (res: Result<ParsedCommentExtended, AppError>)
    requires
        i < doc@.len(),
    ensures
        match res {
            Ok(c) => spec_parse_comment_extended(doc@, i as int) == Ok::<ParsedCommentExtendedView, AppErrorView>(c@),
            Err(e) => spec_parse_comment_extended(doc@, i as int) == Err::<ParsedCommentExtendedView, AppErrorView>(e@),
        },
{
    let para_id = match optional_attr(doc, i, NS_W15, "paraId") {
        Some(id) => id,
        None => {
            return Err(missing_attr_error(COMMENTS_EXTENDED_XML_PATH, "paraId"));
        },
    };
    let parent_para_id = optional_attr(doc, i, NS_W15, "paraIdParent");
    let done = match optional_attr(doc, i, NS_W15, "done") {
        Some(v) => Some(str_eq(v.as_str(), "1") || str_eq(v.as_str(), "true")),
        None => None,
    };
    Ok(ParsedCommentExtended { para_id, parent_para_id, done })
}

/// Reads the extended comment properties of a parsed `commentsExtended.xml` tree.
pub fn comments_extended_from_document(doc: &XmlDocument) -> (res: Result<Vec<ParsedCommentExtended>, AppError>)
    ensures
        vec_result_view(res) == spec_comments_extended(doc@),
{
    let n = doc.nodes.len();
    let mut out: Vec<ParsedCommentExtended> = Vec::new();
    let mut j: usize = 0;
    assert(doc@.len() == n);
    assert(out@.map_values(|c: ParsedCommentExtended| c@) =~= Seq::<ParsedCommentExtendedView>::empty());
    while j < n
        invariant
            j <= n == doc@.len(),
            spec_comments_extended_upto(doc@, j as int) == Ok::<Seq<ParsedCommentExtendedView>, AppErrorView>(out@.map_values(|c: ParsedCommentExtended| c@)),
        decreases n - j,
    {
        if is_element(doc, j, NS_W15, "commentEx") {
            match parse_comment_extended_node(doc, j) {
                Ok(c) => {
                    let ghost before = out@;
                    out.push(c);
                    assert(out@.map_values(|c: ParsedCommentExtended| c@) =~= before.map_values(|c: ParsedCommentExtended| c@).push(c@));
                },
                Err(e) => {
                    proof { lemma_extended_error_sticks(doc@, j as int + 1, n as int); }
                    return Err(e);
                },
            }
        }
        j = j + 1;
    }
    Ok(out)
}

/// Parses `commentsExtended.xml`.
pub fn parse_comments_extended(xml: &str) -> (res: Result<Vec<ParsedCommentExtended>, AppError>)
    ensures
        vec_result_view(res) == match roxmltree_parse(xml@) {
            Err(message) => Err(AppErrorView::MalformedXml { part: COMMENTS_EXTENDED_XML_PATH@, message }),
            Ok(t) => spec_comments_extended(t),
        },
{
    match parse_xml_document(xml) {
        Err(message) => Err(AppError::MalformedXml { part: COMMENTS_EXTENDED_XML_PATH, message }),
        Ok(nodes) => comments_extended_from_document(&XmlDocument { nodes }),
    }
}

/// Parses `document.xml` into the anchors of the comments and the warnings met on the way.
pub fn parse_document_comment_ranges(xml: &str) -> (res: Result<(Vec<ParsedAnchor>, Vec<DiagnosticWarning>), AppError>)
    ensures
        match roxmltree_parse(xml@) {
            Err(message) => res matches Err(e) && e@ == (AppErrorView::MalformedXml { part: DOCUMENT_XML_PATH@, message }),
            Ok(t) => res matches Ok((anchors, warnings))
                && (anchors@.map_values(|a: ParsedAnchor| a@), warnings@.map_values(|w: DiagnosticWarning| w@)) == spec_document_anchors(t),
        },
{
    match parse_xml_document(xml) {
        Err(message) => Err(AppError::MalformedXml { part: DOCUMENT_XML_PATH, message }),
        Ok(nodes) => Ok(document_anchors(&XmlDocument { nodes })),
    }
}

} // verus!
