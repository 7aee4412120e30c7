//! The document that the extractor emits, and its views.
use vstd::prelude::*;

use crate::parse::{DiagnosticWarning, DiagnosticWarningView};
use crate::text::{opt_str_view, strings_view};

verus! {

#[derive(Debug, PartialEq, Eq)]
pub struct OutputDocument {
    pub schema_version: String,
    pub source: OutputSource,
    pub comments: Vec<OutputComment>,
    pub diagnostics: OutputDiagnostics,
}

#[derive(Debug, PartialEq, Eq)]
pub struct OutputSource {
    pub file: String,
}

#[derive(Debug, PartialEq, Eq)]
pub struct OutputComment {
    pub comment_id: String,
    pub author: Option<String>,
    pub created_at: Option<String>,
    pub done: Option<bool>,
    pub anchor: OutputAnchor,
    pub comment: OutputText,
    pub replies: Vec<OutputReply>,
    pub metadata: OutputMetadata,
}

#[derive(Debug, PartialEq, Eq)]
pub struct OutputReply {
    pub comment_id: String,
    pub author: Option<String>,
    pub created_at: Option<String>,
    pub done: Option<bool>,
    pub comment: OutputText,
    pub metadata: OutputMetadata,
}

#[derive(Debug, PartialEq, Eq)]
pub struct OutputAnchor {
    pub target_type: String,
    pub raw_text: Option<String>,
    pub locator: OutputAnchorLocator,
    pub context: OutputAnchorContext,
    pub image: Option<OutputImageAnchor>,
    pub table: Option<OutputTableAnchor>,
    pub start_hint: Option<String>,
    pub end_hint: Option<String>,
}

#[derive(Debug, PartialEq, Eq)]
pub struct OutputAnchorLocator {
    pub heading_path: Vec<String>,
    pub before_context: Option<String>,
    pub after_context: Option<String>,
    pub table_cell: Option<OutputTableCellLocator>,
}

#[derive(Debug, PartialEq, Eq)]
pub struct OutputAnchorContext {
    pub caption: Option<OutputAnchorCaption>,
}

#[derive(Debug, PartialEq, Eq)]
pub struct OutputAnchorCaption {
    pub text: Option<String>,
    pub source: String,
    pub confidence: String,
}

#[derive(Debug, PartialEq, Eq)]
pub struct OutputImageAnchor {
    pub name: Option<String>,
    pub alt_text: Option<String>,
    pub relationship_id: Option<String>,
}

#[derive(Clone, Copy, Debug, PartialEq, Eq, Structural)]
pub struct OutputTableAnchor {
    pub index: usize,
}

#[derive(Clone, Copy, Debug, PartialEq, Eq, Structural)]
pub struct OutputTableCellLocator {
    pub row_index: usize,
    pub column_index: usize,
}

#[derive(Debug, PartialEq, Eq)]
pub struct OutputText {
    pub raw_text: Option<String>,
}

#[derive(Debug, PartialEq, Eq)]
pub struct OutputMetadata {
    pub parent_comment_id: Option<String>,
    pub comment_para_id: Option<String>,
    pub has_extended_properties: bool,
    pub source_parts: Vec<String>,
}

#[derive(Debug, PartialEq, Eq)]
pub struct OutputDiagnostics {
    pub warnings: Vec<DiagnosticWarning>,
    pub missing_parts: Vec<String>,
}

pub struct OutputMetadataView {
    pub parent_comment_id: Option<Seq<char>>,
    pub comment_para_id: Option<Seq<char>>,
    pub has_extended_properties: bool,
    pub source_parts: Seq<Seq<char>>,
}

pub struct OutputImageAnchorView {
    pub name: Option<Seq<char>>,
    pub alt_text: Option<Seq<char>>,
    pub relationship_id: Option<Seq<char>>,
}

pub struct OutputAnchorCaptionView {
    pub text: Option<Seq<char>>,
    pub source: Seq<char>,
    pub confidence: Seq<char>,
}

pub struct OutputAnchorLocatorView {
    pub heading_path: Seq<Seq<char>>,
    pub before_context: Option<Seq<char>>,
    pub after_context: Option<Seq<char>>,
    pub table_cell: Option<OutputTableCellLocator>,
}

pub struct OutputAnchorView {
    pub target_type: Seq<char>,
    pub raw_text: Option<Seq<char>>,
    pub locator: OutputAnchorLocatorView,
    pub caption: Option<OutputAnchorCaptionView>,
    pub image: Option<OutputImageAnchorView>,
    pub table: Option<OutputTableAnchor>,
    pub start_hint: Option<Seq<char>>,
    pub end_hint: Option<Seq<char>>,
}

pub struct OutputReplyView {
    pub comment_id: Seq<char>,
    pub author: Option<Seq<char>>,
    pub created_at: Option<Seq<char>>,
    pub done: Option<bool>,
    pub comment_text: Option<Seq<char>>,
    pub metadata: OutputMetadataView,
}

pub struct OutputCommentView {
    pub comment_id: Seq<char>,
    pub author: Option<Seq<char>>,
    pub created_at: Option<Seq<char>>,
    pub done: Option<bool>,
    pub anchor: OutputAnchorView,
    pub comment_text: Option<Seq<char>>,
    pub replies: Seq<OutputReplyView>,
    pub metadata: OutputMetadataView,
}

pub struct OutputDocumentView {
    pub schema_version: Seq<char>,
    pub source_file: Seq<char>,
    pub comments: Seq<OutputCommentView>,
    pub warnings: Seq<DiagnosticWarningView>,
    pub missing_parts: Seq<Seq<char>>,
}

impl View for OutputMetadata {
    type V = OutputMetadataView;

    open spec fn view(&self) -> OutputMetadataView {
        OutputMetadataView {
            parent_comment_id: opt_str_view(self.parent_comment_id),
            comment_para_id: opt_str_view(self.comment_para_id),
            has_extended_properties: self.has_extended_properties,
            source_parts: strings_view(self.source_parts@),
        }
    }
}

impl View for OutputImageAnchor {
    type V = OutputImageAnchorView;

    open spec fn view(&self) -> OutputImageAnchorView {
        OutputImageAnchorView {
            name: opt_str_view(self.name),
            alt_text: opt_str_view(self.alt_text),
            relationship_id: opt_str_view(self.relationship_id),
        }
    }
}

impl View for OutputAnchorCaption {
    type V = OutputAnchorCaptionView;

    open spec fn view(&self) -> OutputAnchorCaptionView {
        OutputAnchorCaptionView { text: opt_str_view(self.text), source: self.source@, confidence: self.confidence@ }
    }
}

impl View for OutputAnchorLocator {
    type V = OutputAnchorLocatorView;

    open spec fn view(&self) -> OutputAnchorLocatorView {
        OutputAnchorLocatorView {
            heading_path: strings_view(self.heading_path@),
            before_context: opt_str_view(self.before_context),
            after_context: opt_str_view(self.after_context),
            table_cell: self.table_cell,
        }
    }
}

impl View for OutputAnchor {
    type V = OutputAnchorView;

    open spec fn view(&self) -> OutputAnchorView {
        OutputAnchorView {
            target_type: self.target_type@,
            raw_text: opt_str_view(self.raw_text),
            locator: self.locator@,
            caption: match self.context.caption {
                Some(c) => Some(c@),
                None => None,
            },
            image: match self.image {
                Some(i) => Some(i@),
                None => None,
            },
            table: self.table,
            start_hint: opt_str_view(self.start_hint),
            end_hint: opt_str_view(self.end_hint),
        }
    }
}

impl View for OutputReply {
    type V = OutputReplyView;

    open spec fn view(&self) -> OutputReplyView {
        OutputReplyView {
            comment_id: self.comment_id@,
            author: opt_str_view(self.author),
            created_at: opt_str_view(self.created_at),
            done: self.done,
            comment_text: opt_str_view(self.comment.raw_text),
            metadata: self.metadata@,
        }
    }
}

impl View for OutputComment {
    type V = OutputCommentView;

    open spec fn view(&self) -> OutputCommentView {
        OutputCommentView {
            comment_id: self.comment_id@,
            author: opt_str_view(self.author),
            created_at: opt_str_view(self.created_at),
            done: self.done,
            anchor: self.anchor@,
            comment_text: opt_str_view(self.comment.raw_text),
            replies: self.replies@.map_values(|r: OutputReply| r@),
            metadata: self.metadata@,
        }
    }
}

impl View for OutputDocument {
    type V = OutputDocumentView;

    open spec fn view(&self) -> OutputDocumentView {
        OutputDocumentView {
            schema_version: self.schema_version@,
            source_file: self.source.file@,
            comments: self.comments@.map_values(|c: OutputComment| c@),
            warnings: self.diagnostics.warnings@.map_values(|w: DiagnosticWarning| w@),
            missing_parts: strings_view(self.diagnostics.missing_parts@),
        }
    }
}

} // verus!
