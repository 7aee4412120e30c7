use std::io::{Cursor, Write};

use docx_comment_json::app::{extract_output_document, ExtractOptions};
use docx_comment_json::docx::{fallback_matches, file_stem_matches, is_word_xml_part, read_docx_parts, select_fallback, PartKind};
use docx_comment_json::error::AppError;
use zip::write::SimpleFileOptions;
use zip::{CompressionMethod, ZipWriter};

const SIMPLE_COMMENTS: &str = r#"<w:comments xmlns:w="http://schemas.openxmlformats.org/wordprocessingml/2006/main">
      <w:comment w:id="5" w:author="Alice">
        <w:p><w:r><w:t>本文</w:t></w:r></w:p>
      </w:comment>
    </w:comments>"#;

const SIMPLE_DOCUMENT: &str = r#"<w:document xmlns:w="http://schemas.openxmlformats.org/wordprocessingml/2006/main">
        <w:body>
          <w:p>
            <w:commentRangeStart w:id="5" />
            <w:r><w:t>対象箇所</w:t></w:r>
            <w:commentRangeEnd w:id="5" />
          </w:p>
        </w:body>
      </w:document>"#;

fn archive(entries: &[(&str, &[u8])]) -> Vec<u8> {
    let mut zip = ZipWriter::new(Cursor::new(Vec::new()));
    let options = SimpleFileOptions::default().compression_method(CompressionMethod::Stored);
    for (name, contents) in entries {
        zip.start_file(*name, options).expect("entry should be created");
        zip.write_all(contents).expect("entry should be written");
    }
    zip.finish().expect("zip should be finalized").into_inner()
}

fn docx(document_xml: Option<&str>, comments_xml: &str, comments_extended_xml: Option<&str>) -> Vec<u8> {
    let mut entries: Vec<(&str, &[u8])> = Vec::new();
    if let Some(document_xml) = document_xml {
        entries.push(("word/document.xml", document_xml.as_bytes()));
    }
    entries.push(("word/comments.xml", comments_xml.as_bytes()));
    if let Some(extended) = comments_extended_xml {
        entries.push(("word/commentsExtended.xml", extended.as_bytes()));
    }
    archive(&entries)
}

fn defaults() -> ExtractOptions {
    ExtractOptions::default()
}

#[test]
fn extract_outputs_structured_document_for_comments_replies_and_done_state() {
    let bytes = docx(
        Some(
            r#"<w:document xmlns:w="http://schemas.openxmlformats.org/wordprocessingml/2006/main">
                <w:body>
                  <w:p>
                    <w:pPr><w:pStyle w:val="Heading1" /></w:pPr>
                    <w:r><w:t>第1章</w:t></w:r>
                  </w:p>
                  <w:p>
                    <w:r><w:t>前</w:t></w:r>
                    <w:commentRangeStart w:id="5" />
                    <w:r><w:t>導入</w:t></w:r>
                    <w:r><w:t>の説明</w:t></w:r>
                    <w:commentRangeEnd w:id="5" />
                  </w:p>
                </w:body>
              </w:document>"#,
        ),
        r#"<w:comments xmlns:w="http://schemas.openxmlformats.org/wordprocessingml/2006/main"
                       xmlns:w15="http://schemas.microsoft.com/office/word/2012/wordml">
              <w:comment w:id="5" w:author="Alice" w:date="2024-01-01T10:00:00Z">
                <w:p w15:paraId="p1"><w:r><w:t>根拠を追加してください</w:t></w:r></w:p>
              </w:comment>
              <w:comment w:id="6" w:author="Bob">
                <w:p w15:paraId="p2"><w:r><w:t>明日対応します</w:t></w:r></w:p>
              </w:comment>
            </w:comments>"#,
        Some(
            r#"<w15:commentsEx xmlns:w15="http://schemas.microsoft.com/office/word/2012/wordml">
                <w15:commentEx w15:paraId="p1" w15:done="0" />
                <w15:commentEx w15:paraId="p2" w15:paraIdParent="p1" />
              </w15:commentsEx>"#,
        ),
    );
    let output = extract_output_document("threaded.docx", &bytes, &defaults()).expect("extraction should succeed");
    assert_eq!(output.schema_version, "1.0");
    assert_eq!(output.source.file, "threaded.docx");
    assert_eq!(output.comments[0].comment_id, "5");
    assert_eq!(output.comments[0].done, Some(false));
    assert_eq!(output.comments[0].anchor.raw_text.as_deref(), Some("導入の説明"));
    assert_eq!(output.comments[0].anchor.locator.heading_path[0], "第1章");
    assert_eq!(output.comments[0].replies[0].comment_id, "6");
    assert_eq!(output.comments[0].replies[0].metadata.parent_comment_id.as_deref(), Some("5"));
    assert!(output.diagnostics.missing_parts.is_empty());
}

#[test]
fn extract_allows_missing_extended_part_by_default_and_reports_it() {
    let bytes = docx(Some(SIMPLE_DOCUMENT), SIMPLE_COMMENTS, None);
    let output = extract_output_document("missing-extended.docx", &bytes, &defaults()).expect("extraction should succeed");
    assert_eq!(output.comments[0].done, None);
    assert_eq!(output.diagnostics.missing_parts, vec!["word/commentsExtended.xml".to_string()]);
}

#[test]
fn extract_can_fail_on_missing_extended_part_when_requested() {
    let bytes = docx(Some(SIMPLE_DOCUMENT), SIMPLE_COMMENTS, None);
    let options = ExtractOptions { pretty: false, include_raw: true, fail_on_missing_extended: true };
    match extract_output_document("strict.docx", &bytes, &options) {
        Err(AppError::MissingRequiredPart(part)) => assert_eq!(part, "word/commentsExtended.xml"),
        other => panic!("unexpected result: {:?}", other.map(|d| d.schema_version)),
    }
}

#[test]
fn extract_can_hide_raw_text_fields_when_include_raw_is_false() {
    let bytes = docx(Some(SIMPLE_DOCUMENT), SIMPLE_COMMENTS, None);
    let options = ExtractOptions { pretty: false, include_raw: false, fail_on_missing_extended: false };
    let output = extract_output_document("no-raw.docx", &bytes, &options).expect("extraction should succeed");
    assert_eq!(output.comments[0].comment.raw_text, None);
    assert_eq!(output.comments[0].anchor.raw_text, None);
}

#[test]
fn extract_reports_malformed_document_xml_as_diagnostic_and_continues() {
    let bytes = docx(Some("<w:document"), SIMPLE_COMMENTS, None);
    let output = extract_output_document("malformed.docx", &bytes, &defaults()).expect("extraction should succeed");
    assert_eq!(output.comments[0].anchor.raw_text, None);
    assert_eq!(output.diagnostics.warnings[0].code, "malformed_xml");
    assert_eq!(output.diagnostics.warnings[0].source_part.as_deref(), Some("word/document.xml"));
    assert!(output.diagnostics.warnings.iter().all(|w| w.code != "broken_anchor"));
}

#[test]
fn extract_falls_back_to_paragraph_anchor_when_comment_range_is_missing() {
    let bytes = docx(
        Some(
            r#"<w:document xmlns:w="http://schemas.openxmlformats.org/wordprocessingml/2006/main">
                <w:body>
                  <w:p>
                    <w:r><w:t>この段落全体を確認してください</w:t></w:r>
                    <w:r><w:commentReference w:id="5" /></w:r>
                  </w:p>
                </w:body>
              </w:document>"#,
        ),
        SIMPLE_COMMENTS,
        None,
    );
    let output = extract_output_document("fallback.docx", &bytes, &defaults()).expect("extraction should succeed");
    assert_eq!(output.comments[0].anchor.raw_text.as_deref(), Some("この段落全体を確認してください"));
    assert_eq!(output.diagnostics.warnings[0].code, "anchor_fallback_reference");
}

#[test]
fn extract_outputs_image_anchor_with_caption_context() {
    let bytes = docx(
        Some(
            r#"<w:document
                xmlns:w="http://schemas.openxmlformats.org/wordprocessingml/2006/main"
                xmlns:wp="http://schemas.openxmlformats.org/drawingml/2006/wordprocessingDrawing"
                xmlns:a="http://schemas.openxmlformats.org/drawingml/2006/main"
                xmlns:r="http://schemas.openxmlformats.org/officeDocument/2006/relationships">
                <w:body>
                  <w:p>
                    <w:r>
                      <w:drawing>
                        <wp:inline>
                          <wp:docPr id="1" name="Picture 3" descr="システム構成図" />
                          <a:graphic>
                            <a:graphicData>
                              <a:pic>
                                <a:blipFill>
                                  <a:blip r:embed="rId12" />
                                </a:blipFill>
                              </a:pic>
                            </a:graphicData>
                          </a:graphic>
                        </wp:inline>
                      </w:drawing>
                    </w:r>
                    <w:r><w:commentReference w:id="5" /></w:r>
                  </w:p>
                  <w:p>
                    <w:r><w:t>図1 システム構成図</w:t></w:r>
                  </w:p>
                </w:body>
              </w:document>"#,
        ),
        r#"<w:comments xmlns:w="http://schemas.openxmlformats.org/wordprocessingml/2006/main">
              <w:comment w:id="5" w:author="Alice">
                <w:p><w:r><w:t>画像コメント</w:t></w:r></w:p>
              </w:comment>
            </w:comments>"#,
        None,
    );
    let output = extract_output_document("image.docx", &bytes, &defaults()).expect("extraction should succeed");
    let anchor = &output.comments[0].anchor;
    assert_eq!(anchor.target_type, "image");
    assert_eq!(anchor.context.caption.as_ref().and_then(|c| c.text.as_deref()), Some("図1 システム構成図"));
    let image = anchor.image.as_ref().expect("image data");
    assert_eq!(image.name.as_deref(), Some("Picture 3"));
    assert_eq!(image.alt_text.as_deref(), Some("システム構成図"));
    assert_eq!(image.relationship_id.as_deref(), Some("rId12"));
}

#[test]
fn extract_outputs_table_anchor_type() {
    let bytes = docx(
        Some(
            r#"<w:document xmlns:w="http://schemas.openxmlformats.org/wordprocessingml/2006/main">
                <w:body>
                  <w:p>
                    <w:pPr><w:pStyle w:val="Heading2" /></w:pPr>
                    <w:r><w:t>表セクション</w:t></w:r>
                  </w:p>
                  <w:tbl>
                    <w:tr>
                      <w:tc>
                        <w:p>
                          <w:r><w:t>セル1</w:t></w:r>
                          <w:r><w:commentReference w:id="5" /></w:r>
                        </w:p>
                      </w:tc>
                    </w:tr>
                  </w:tbl>
                  <w:p>
                    <w:r><w:t>表1 テストデータ</w:t></w:r>
                  </w:p>
                </w:body>
              </w:document>"#,
        ),
        SIMPLE_COMMENTS,
        None,
    );
    let output = extract_output_document("table.docx", &bytes, &defaults()).expect("extraction should succeed");
    let anchor = &output.comments[0].anchor;
    assert_eq!(anchor.target_type, "table");
    assert_eq!(anchor.context.caption.as_ref().and_then(|c| c.text.as_deref()), Some("表1 テストデータ"));
    assert_eq!(anchor.table.as_ref().map(|t| t.index), Some(1));
    assert_eq!(anchor.locator.heading_path[0], "表セクション");
    let cell = anchor.locator.table_cell.as_ref().expect("table cell");
    assert_eq!((cell.row_index, cell.column_index), (1, 1));
}

#[test]
fn extract_restores_replies_using_last_comment_paragraph_para_id() {
    let bytes = docx(
        Some(SIMPLE_DOCUMENT),
        r#"<w:comments xmlns:w="http://schemas.openxmlformats.org/wordprocessingml/2006/main"
                       xmlns:w15="http://schemas.microsoft.com/office/word/2012/wordml">
              <w:comment w:id="5" w:author="Alice">
                <w:p w15:paraId="p-root-1"><w:r><w:t>親コメント1段落目</w:t></w:r></w:p>
                <w:p w15:paraId="p-root-last"><w:r><w:t>親コメント2段落目</w:t></w:r></w:p>
              </w:comment>
              <w:comment w:id="6" w:author="Bob">
                <w:p w15:paraId="p-reply-last"><w:r><w:t>返信コメント</w:t></w:r></w:p>
              </w:comment>
            </w:comments>"#,
        Some(
            r#"<w15:commentsEx xmlns:w15="http://schemas.microsoft.com/office/word/2012/wordml">
                <w15:commentEx w15:paraId="p-root-last" />
                <w15:commentEx w15:paraId="p-reply-last" w15:paraIdParent="p-root-last" />
              </w15:commentsEx>"#,
        ),
    );
    let output = extract_output_document("reply.docx", &bytes, &defaults()).expect("extraction should succeed");
    assert_eq!(output.comments[0].comment_id, "5");
    assert_eq!(output.comments[0].replies[0].comment_id, "6");
}

#[test]
fn extract_restores_replies_when_comments_extended_part_uses_alternate_name() {
    let comments = r#"<w:comments xmlns:w="http://schemas.openxmlformats.org/wordprocessingml/2006/main"
                        xmlns:w15="http://schemas.microsoft.com/office/word/2012/wordml">
              <w:comment w:id="5" w:author="Alice">
                <w:p w15:paraId="p-root-last"><w:r><w:t>親コメント</w:t></w:r></w:p>
              </w:comment>
              <w:comment w:id="6" w:author="Bob">
                <w:p w15:paraId="p-reply-last"><w:r><w:t>返信コメント</w:t></w:r></w:p>
              </w:comment>
            </w:comments>"#;
    let extended = r#"<w15:commentsEx xmlns:w15="http://schemas.microsoft.com/office/word/2012/wordml">
              <w15:commentEx w15:paraId="p-root-last" />
              <w15:commentEx w15:paraId="p-reply-last" w15:paraIdParent="p-root-last" />
            </w15:commentsEx>"#;
    let bytes = archive(&[
        ("word/document.xml", SIMPLE_DOCUMENT.as_bytes()),
        ("word/comments.xml", comments.as_bytes()),
        ("word/commentsExtended2.xml", extended.as_bytes()),
    ]);
    let output = extract_output_document("alt.docx", &bytes, &defaults()).expect("extraction should succeed");
    assert_eq!(output.comments[0].replies[0].comment_id, "6");
    assert!(output.diagnostics.missing_parts.is_empty());
}

#[test]
fn extract_without_comments_part_is_missing_required_part() {
    let bytes = archive(&[("word/document.xml", SIMPLE_DOCUMENT.as_bytes())]);
    match extract_output_document("none.docx", &bytes, &defaults()) {
        Err(AppError::MissingRequiredPart(part)) => assert_eq!(part, "word/comments.xml"),
        other => panic!("unexpected result: {:?}", other.map(|d| d.schema_version)),
    }
}

#[test]
fn extract_of_bytes_that_are_no_archive_is_a_zip_error() {
    let result = extract_output_document("plain.txt", b"not a zip archive", &defaults());
    assert!(matches!(result, Err(AppError::Zip(_))));
}

#[test]
fn extract_of_a_part_that_is_not_utf8_is_an_io_error() {
    let bytes = archive(&[("word/comments.xml", &[0xff, 0xfe, 0x00][..])]);
    let result = extract_output_document("binary.docx", &bytes, &defaults());
    assert!(matches!(result, Err(AppError::Io(_))));
}

#[test]
fn extract_with_malformed_comments_xml_fails() {
    let bytes = docx(None, "<w:comments", None);
    match extract_output_document("bad.docx", &bytes, &defaults()) {
        Err(AppError::MalformedXml { part, .. }) => assert_eq!(part, "word/comments.xml"),
        other => panic!("unexpected result: {:?}", other.map(|d| d.schema_version)),
    }
}

#[test]
fn extract_with_malformed_extended_xml_warns_and_keeps_comments_flat() {
    let bytes = docx(Some(SIMPLE_DOCUMENT), SIMPLE_COMMENTS, Some("<w15:commentsEx"));
    let output = extract_output_document("bad-ext.docx", &bytes, &defaults()).expect("extraction should succeed");
    assert_eq!(output.comments.len(), 1);
    assert_eq!(output.diagnostics.warnings[0].code, "malformed_xml");
    assert_eq!(output.diagnostics.warnings[0].source_part.as_deref(), Some("word/commentsExtended.xml"));
    assert!(output.diagnostics.missing_parts.is_empty());
}

#[test]
fn read_docx_parts_lists_absent_optional_parts_document_first() {
    let bytes = docx(None, SIMPLE_COMMENTS, None);
    let parts = read_docx_parts(&bytes).expect("archive should read");
    assert_eq!(parts.parts.comments_xml.as_deref(), Some(SIMPLE_COMMENTS));
    assert_eq!(parts.parts.document_xml, None);
    assert_eq!(parts.parts.comments_extended_xml, None);
    assert_eq!(
        parts.missing_parts,
        vec!["word/document.xml".to_string(), "word/commentsExtended.xml".to_string()]
    );
    let output = extract_output_document("only-comments.docx", &bytes, &defaults()).expect("extraction should succeed");
    assert_eq!(output.comments[0].metadata.source_parts, vec!["word/comments.xml".to_string()]);
    assert!(output.diagnostics.warnings.is_empty());
}

#[test]
fn comments_part_falls_back_to_a_differently_named_entry() {
    let bytes = archive(&[("word/Comments1.xml", SIMPLE_COMMENTS.as_bytes())]);
    let parts = read_docx_parts(&bytes).expect("archive should read");
    assert_eq!(parts.parts.comments_xml.as_deref(), Some(SIMPLE_COMMENTS));
}

#[test]
fn part_name_predicates() {
    assert!(is_word_xml_part("word/comments.xml"));
    assert!(!is_word_xml_part("customXml/item1.xml"));
    assert!(!is_word_xml_part("word/comments.rels"));
    assert!(file_stem_matches("word/Comments.xml", "comments"));
    assert!(file_stem_matches("word/comments2.xml", "comments"));
    assert!(!file_stem_matches("word/document.xml", "comments"));
    assert!(fallback_matches(PartKind::CommentsExtended, "word/commentsExtensible.xml"));
    assert!(fallback_matches(PartKind::CommentsExtended, "word/COMMENTSEXTENDED5.xml"));
    assert!(!fallback_matches(PartKind::CommentsExtended, "word/comments.xml"));
    assert!(!fallback_matches(PartKind::Comments, "word/document.xml"));
    let names = vec![None, Some("word/document.xml".to_string()), Some("word/commentsIds.xml".to_string())];
    assert_eq!(select_fallback(&names, PartKind::Comments).as_deref(), Some("word/commentsIds.xml"));
    assert_eq!(select_fallback(&names, PartKind::CommentsExtended), None);
}

#[test]
fn error_messages_name_what_went_wrong() {
    assert_eq!(
        AppError::MissingRequiredPart("word/commentsExtended.xml").message(),
        "missing required part: word/commentsExtended.xml"
    );
    assert_eq!(
        AppError::MalformedXml { part: "word/comments.xml", message: "bad".to_string() }.message(),
        "malformed XML in word/comments.xml: bad"
    );
    assert_eq!(AppError::Cli("usage".to_string()).message(), "usage");
    let io = AppError::Io(std::io::Error::new(std::io::ErrorKind::NotFound, "gone"));
    assert_eq!(io.message(), "I/O error: gone");
    match extract_output_document("plain.txt", b"not a zip archive", &defaults()) {
        Err(error) => assert!(error.message().starts_with("zip error: ")),
        Ok(_) => panic!("bytes that are no archive should not extract"),
    }
}
