use docx_comment_json::app::{build_output_document, BuildOptions};
use docx_comment_json::parse::{
    DiagnosticWarning, ParseDiagnostics, ParsedAnchor, ParsedAnchorLocator, ParsedAnchorTargetType,
    ParsedComment, ParsedCommentExtended, ParsedImageAnchor, ParsedTableAnchor, ParsedTableCellLocator,
};

fn comment(id: &str, para_id: Option<&str>, text: &str) -> ParsedComment {
    ParsedComment {
        comment_id: id.to_string(),
        author: Some("Alice".to_string()),
        initials: None,
        created_at: None,
        para_id: para_id.map(str::to_string),
        raw_text: Some(text.to_string()),
    }
}

fn extended(para_id: &str, parent: Option<&str>, done: Option<bool>) -> ParsedCommentExtended {
    ParsedCommentExtended {
        para_id: para_id.to_string(),
        parent_para_id: parent.map(str::to_string),
        done,
    }
}

fn options(include_raw: bool, document_part_present: bool, anchors_available: bool) -> BuildOptions {
    BuildOptions {
        include_raw,
        source_file: "input.docx".to_string(),
        document_part_present,
        document_anchor_data_available: anchors_available,
    }
}

#[test]
fn builds_ai_friendly_output_with_reply_and_resolution_state() {
    let comments = vec![
        ParsedComment {
            comment_id: "5".to_string(),
            author: Some("Alice".to_string()),
            initials: Some("AL".to_string()),
            created_at: Some("2024-01-01T10:00:00Z".to_string()),
            para_id: Some("p1".to_string()),
            raw_text: Some("根拠を\n追加してください".to_string()),
        },
        ParsedComment {
            comment_id: "6".to_string(),
            author: Some("Bob".to_string()),
            initials: Some("BO".to_string()),
            created_at: Some("2024-01-01T11:00:00Z".to_string()),
            para_id: Some("p2".to_string()),
            raw_text: Some("明日対応します".to_string()),
        },
    ];
    let anchors = vec![ParsedAnchor {
        comment_id: "5".to_string(),
        raw_text: Some("導入の説明".to_string()),
        target_type: ParsedAnchorTargetType::Text,
        locator: Default::default(),
        inferred_caption: None,
        image: None,
        table: None,
    }];
    let extended = vec![
        ParsedCommentExtended {
            para_id: "p1".to_string(),
            parent_para_id: None,
            done: Some(false),
        },
        ParsedCommentExtended {
            para_id: "p2".to_string(),
            parent_para_id: Some("p1".to_string()),
            done: None,
        },
    ];

    let output = build_output_document(
        &comments,
        &anchors,
        &extended,
        ParseDiagnostics::default(),
        &BuildOptions {
            include_raw: true,
            source_file: "input.docx".to_string(),
            document_part_present: true,
            document_anchor_data_available: true,
        },
    );

    assert_eq!(output.schema_version, "1.0");
    assert_eq!(output.comments.len(), 1);
    assert_eq!(output.comments[0].comment_id, "5");
    assert_eq!(output.comments[0].done, Some(false));
    assert_eq!(output.comments[0].anchor.target_type, "text");
    assert_eq!(output.comments[0].anchor.raw_text.as_deref(), Some("導入の説明"));
    assert_eq!(output.comments[0].comment.raw_text.as_deref(), Some("根拠を\n追加してください"));
    assert_eq!(output.comments[0].replies.len(), 1);
    assert_eq!(output.comments[0].replies[0].comment_id, "6");
    assert_eq!(output.comments[0].replies[0].metadata.parent_comment_id.as_deref(), Some("5"));
    assert!(output.diagnostics.warnings.is_empty());
}

#[test]
fn records_orphan_reply_without_turning_it_into_a_nested_reply() {
    let comments = vec![ParsedComment {
        comment_id: "9".to_string(),
        author: Some("Bob".to_string()),
        initials: None,
        created_at: None,
        para_id: Some("missing-child".to_string()),
        raw_text: Some("親が見つからない返信".to_string()),
    }];
    let extended = vec![ParsedCommentExtended {
        para_id: "missing-child".to_string(),
        parent_para_id: Some("unknown-parent".to_string()),
        done: None,
    }];

    let output = build_output_document(
        &comments,
        &[],
        &extended,
        ParseDiagnostics::default(),
        &BuildOptions {
            include_raw: true,
            source_file: "input.docx".to_string(),
            document_part_present: true,
            document_anchor_data_available: false,
        },
    );

    assert_eq!(output.comments.len(), 1);
    assert!(output.comments[0].replies.is_empty());
    assert_eq!(output.diagnostics.warnings.len(), 1);
    assert_eq!(output.diagnostics.warnings[0].code, "orphan_reply");
}

#[test]
fn keeps_reply_descendants_under_the_root_thread_while_preserving_direct_parent_ids() {
    let comments = vec![
        ParsedComment {
            comment_id: "5".to_string(),
            author: Some("Alice".to_string()),
            initials: None,
            created_at: None,
            para_id: Some("p1".to_string()),
            raw_text: Some("親コメント".to_string()),
        },
        ParsedComment {
            comment_id: "6".to_string(),
            author: Some("Bob".to_string()),
            initials: None,
            created_at: None,
            para_id: Some("p2".to_string()),
            raw_text: Some("返信".to_string()),
        },
        ParsedComment {
            comment_id: "7".to_string(),
            author: Some("Carol".to_string()),
            initials: None,
            created_at: None,
            para_id: Some("p3".to_string()),
            raw_text: Some("返信への返信".to_string()),
        },
    ];
    let extended = vec![
        ParsedCommentExtended {
            para_id: "p1".to_string(),
            parent_para_id: None,
            done: Some(false),
        },
        ParsedCommentExtended {
            para_id: "p2".to_string(),
            parent_para_id: Some("p1".to_string()),
            done: None,
        },
        ParsedCommentExtended {
            para_id: "p3".to_string(),
            parent_para_id: Some("p2".to_string()),
            done: None,
        },
    ];

    let output = build_output_document(
        &comments,
        &[],
        &extended,
        ParseDiagnostics::default(),
        &BuildOptions {
            include_raw: true,
            source_file: "input.docx".to_string(),
            document_part_present: false,
            document_anchor_data_available: false,
        },
    );

    assert_eq!(output.comments.len(), 1);
    assert_eq!(output.comments[0].comment_id, "5");
    assert_eq!(output.comments[0].replies.len(), 2);
    assert_eq!(output.comments[0].replies[0].comment_id, "6");
    assert_eq!(output.comments[0].replies[1].comment_id, "7");
    assert_eq!(output.comments[0].replies[1].metadata.parent_comment_id.as_deref(), Some("6"));
}

#[test]
fn orphan_warning_names_the_comment_and_the_missing_parent() {
    let comments = vec![comment("9", Some("c"), "x")];
    let extended = vec![extended("c", Some("gone"), None)];
    let output = build_output_document(&comments, &[], &extended, ParseDiagnostics::default(), &options(true, true, false));
    let warning = &output.diagnostics.warnings[0];
    assert_eq!(warning.message, "Reply comment 9 points to missing parent paraId gone");
    assert_eq!(warning.comment_id.as_deref(), Some("9"));
    assert_eq!(warning.source_part.as_deref(), Some("word/commentsExtended.xml"));
    assert_eq!(output.comments[0].metadata.parent_comment_id, None);
}

#[test]
fn reply_to_an_orphan_stays_in_the_orphan_thread() {
    let comments = vec![comment("9", Some("c9"), "orphan"), comment("10", Some("c10"), "reply")];
    let extended = vec![extended("c9", Some("gone"), None), extended("c10", Some("c9"), None)];
    let output = build_output_document(&comments, &[], &extended, ParseDiagnostics::default(), &options(true, true, false));
    assert_eq!(output.comments.len(), 1);
    assert_eq!(output.comments[0].comment_id, "9");
    assert_eq!(output.comments[0].replies.len(), 1);
    assert_eq!(output.comments[0].replies[0].comment_id, "10");
    assert_eq!(output.comments[0].replies[0].metadata.parent_comment_id.as_deref(), Some("9"));
}

#[test]
fn reply_cycle_leaves_no_root_and_no_reply() {
    let comments = vec![comment("1", Some("a"), "one"), comment("2", Some("b"), "two")];
    let extended = vec![extended("a", Some("b"), None), extended("b", Some("a"), None)];
    let output = build_output_document(&comments, &[], &extended, ParseDiagnostics::default(), &options(true, true, true));
    assert!(output.comments.is_empty());
    assert!(output.diagnostics.warnings.is_empty());
}

#[test]
fn without_extended_entries_every_comment_is_top_level() {
    let comments = vec![comment("1", Some("a"), "one"), comment("2", None, "two"), comment("3", Some("c"), "three")];
    let output = build_output_document(&comments, &[], &[], ParseDiagnostics::default(), &options(true, false, false));
    let ids: Vec<&str> = output.comments.iter().map(|c| c.comment_id.as_str()).collect();
    assert_eq!(ids, vec!["1", "2", "3"]);
    assert!(output.comments.iter().all(|c| c.replies.is_empty()));
    assert!(output.comments.iter().all(|c| c.done.is_none()));
}

#[test]
fn include_raw_false_drops_every_text_field() {
    let comments = vec![comment("5", Some("p1"), "body"), comment("6", Some("p2"), "reply")];
    let extended = vec![extended("p1", None, Some(true)), extended("p2", Some("p1"), None)];
    let anchors = vec![ParsedAnchor {
        comment_id: "5".to_string(),
        raw_text: Some("target".to_string()),
        target_type: ParsedAnchorTargetType::Table,
        locator: ParsedAnchorLocator {
            heading_path: vec!["H".to_string()],
            before_context: Some("before".to_string()),
            after_context: Some("after".to_string()),
            table_cell: Some(ParsedTableCellLocator { row_index: 2, column_index: 3 }),
        },
        inferred_caption: Some("Table 1".to_string()),
        image: None,
        table: Some(ParsedTableAnchor { index: 4 }),
    }];
    let output = build_output_document(&comments, &anchors, &extended, ParseDiagnostics::default(), &options(false, true, true));
    let c = &output.comments[0];
    assert_eq!(c.comment.raw_text, None);
    assert_eq!(c.anchor.raw_text, None);
    assert_eq!(c.anchor.locator.before_context, None);
    assert_eq!(c.anchor.locator.after_context, None);
    let caption = c.anchor.context.caption.as_ref().unwrap();
    assert_eq!(caption.text, None);
    assert_eq!(caption.source, "inferred_from_nearby_paragraph");
    assert_eq!(caption.confidence, "medium");
    assert_eq!(c.anchor.locator.heading_path, vec!["H".to_string()]);
    assert_eq!(c.anchor.target_type, "table");
    assert_eq!(c.anchor.table.as_ref().map(|t| t.index), Some(4));
    let cell = c.anchor.locator.table_cell.as_ref().unwrap();
    assert_eq!((cell.row_index, cell.column_index), (2, 3));
    assert_eq!(c.done, Some(true));
    assert_eq!(c.replies[0].comment.raw_text, None);
}

#[test]
fn image_anchor_is_copied_with_its_caption() {
    let comments = vec![comment("7", None, "img")];
    let anchors = vec![ParsedAnchor {
        comment_id: "7".to_string(),
        raw_text: None,
        target_type: ParsedAnchorTargetType::Image,
        locator: ParsedAnchorLocator::default(),
        inferred_caption: Some("Figure 1".to_string()),
        image: Some(ParsedImageAnchor {
            name: Some("Picture 3".to_string()),
            alt_text: Some("diagram".to_string()),
            relationship_id: Some("rId12".to_string()),
        }),
        table: None,
    }];
    let output = build_output_document(&comments, &anchors, &[], ParseDiagnostics::default(), &options(true, true, true));
    let anchor = &output.comments[0].anchor;
    assert_eq!(anchor.target_type, "image");
    assert_eq!(anchor.context.caption.as_ref().unwrap().text.as_deref(), Some("Figure 1"));
    let image = anchor.image.as_ref().unwrap();
    assert_eq!(image.name.as_deref(), Some("Picture 3"));
    assert_eq!(image.alt_text.as_deref(), Some("diagram"));
    assert_eq!(image.relationship_id.as_deref(), Some("rId12"));
    assert_eq!(anchor.start_hint, None);
    assert_eq!(anchor.end_hint, None);
    assert!(output.diagnostics.warnings.is_empty());
}

#[test]
fn root_without_anchor_gets_broken_anchor_warning_only_with_anchor_data() {
    let comments = vec![comment("5", Some("p1"), "a"), comment("6", Some("p2"), "b")];
    let extended = vec![extended("p2", Some("p1"), None)];
    let with_data = build_output_document(&comments, &[], &extended, ParseDiagnostics::default(), &options(true, true, true));
    assert_eq!(with_data.diagnostics.warnings.len(), 1);
    let warning = &with_data.diagnostics.warnings[0];
    assert_eq!(warning.code, "broken_anchor");
    assert_eq!(warning.message, "No anchor text found for comment 5");
    assert_eq!(warning.comment_id.as_deref(), Some("5"));
    assert_eq!(warning.source_part.as_deref(), Some("word/document.xml"));
    let without = build_output_document(&comments, &[], &extended, ParseDiagnostics::default(), &options(true, true, false));
    assert!(without.diagnostics.warnings.is_empty());
    assert_eq!(without.comments[0].anchor.target_type, "text");
}

#[test]
fn diagnostics_handed_in_come_first_and_missing_parts_pass_through() {
    let comments = vec![comment("9", Some("c"), "x")];
    let extended = vec![extended("c", Some("gone"), None)];
    let diagnostics = ParseDiagnostics {
        warnings: vec![DiagnosticWarning {
            code: "malformed_xml".to_string(),
            message: "bad".to_string(),
            comment_id: None,
            source_part: Some("word/document.xml".to_string()),
        }],
        missing_parts: vec!["word/document.xml".to_string()],
    };
    let output = build_output_document(&comments, &[], &extended, diagnostics, &options(true, false, false));
    assert_eq!(output.source.file, "input.docx");
    assert_eq!(output.diagnostics.warnings.len(), 2);
    assert_eq!(output.diagnostics.warnings[0].code, "malformed_xml");
    assert_eq!(output.diagnostics.warnings[1].code, "orphan_reply");
    assert_eq!(output.diagnostics.missing_parts, vec!["word/document.xml".to_string()]);
}

#[test]
fn source_parts_record_the_parts_each_entry_came_from() {
    let comments = vec![comment("5", Some("p1"), "a"), comment("6", Some("p2"), "b"), comment("7", None, "c")];
    let extended = vec![extended("p1", None, None), extended("p2", Some("p1"), None)];
    let output = build_output_document(&comments, &[], &extended, ParseDiagnostics::default(), &options(true, true, false));
    assert_eq!(
        output.comments[0].metadata.source_parts,
        vec!["word/comments.xml", "word/commentsExtended.xml", "word/document.xml"]
    );
    assert!(output.comments[0].metadata.has_extended_properties);
    assert_eq!(output.comments[0].metadata.comment_para_id.as_deref(), Some("p1"));
    assert_eq!(
        output.comments[0].replies[0].metadata.source_parts,
        vec!["word/comments.xml", "word/commentsExtended.xml"]
    );
    assert_eq!(output.comments[1].comment_id, "7");
    assert_eq!(output.comments[1].metadata.source_parts, vec!["word/comments.xml", "word/document.xml"]);
    assert!(!output.comments[1].metadata.has_extended_properties);
}

#[test]
fn later_entries_win_for_the_same_key() {
    let comments = vec![comment("5", Some("p1"), "a")];
    let extended = vec![extended("p1", None, Some(false)), extended("p1", None, Some(true))];
    let anchors = vec![
        ParsedAnchor {
            comment_id: "5".to_string(),
            raw_text: Some("first".to_string()),
            target_type: ParsedAnchorTargetType::Text,
            locator: ParsedAnchorLocator::default(),
            inferred_caption: None,
            image: None,
            table: None,
        },
        ParsedAnchor {
            comment_id: "5".to_string(),
            raw_text: Some("second".to_string()),
            target_type: ParsedAnchorTargetType::Text,
            locator: ParsedAnchorLocator::default(),
            inferred_caption: None,
            image: None,
            table: None,
        },
    ];
    let output = build_output_document(&comments, &anchors, &extended, ParseDiagnostics::default(), &options(true, true, true));
    assert_eq!(output.comments[0].done, Some(true));
    assert_eq!(output.comments[0].anchor.raw_text.as_deref(), Some("second"));
}

#[test]
fn include_raw_changes_nothing_but_raw_fields() {
    let comments = vec![comment("5", Some("p1"), "body"), comment("6", Some("p2"), "reply")];
    let extended = vec![extended("p1", None, Some(false)), extended("p2", Some("p1"), None)];
    let anchor = || ParsedAnchor {
        comment_id: "5".to_string(),
        raw_text: Some("target".to_string()),
        target_type: ParsedAnchorTargetType::Text,
        locator: ParsedAnchorLocator {
            heading_path: vec!["H".to_string()],
            before_context: Some("b".to_string()),
            after_context: Some("a".to_string()),
            table_cell: None,
        },
        inferred_caption: Some("Figure 1".to_string()),
        image: None,
        table: None,
    };
    let with_raw = build_output_document(&comments, &[anchor()], &extended, ParseDiagnostics::default(), &options(true, true, true));
    let without = build_output_document(&comments, &[anchor()], &extended, ParseDiagnostics::default(), &options(false, true, true));
    let mut stripped = with_raw;
    for c in stripped.comments.iter_mut() {
        c.comment.raw_text = None;
        c.anchor.raw_text = None;
        c.anchor.locator.before_context = None;
        c.anchor.locator.after_context = None;
        if let Some(caption) = c.anchor.context.caption.as_mut() {
            caption.text = None;
        }
        for r in c.replies.iter_mut() {
            r.comment.raw_text = None;
        }
    }
    assert_eq!(stripped, without);
}
