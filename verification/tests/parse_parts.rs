use docx_comment_json::error::AppError;
use docx_comment_json::parse::{
    parse_comments_extended, parse_comments_xml, parse_document_comment_ranges, ParsedAnchorTargetType,
};

#[test]
fn parses_comments_xml_with_metadata_and_multiline_text() {
    let xml = r#"
        <w:comments xmlns:w="http://schemas.openxmlformats.org/wordprocessingml/2006/main"
                    xmlns:w15="http://schemas.microsoft.com/office/word/2012/wordml">
          <w:comment w:id="5" w:author="Alice" w:initials="AL" w:date="2024-01-01T10:00:00Z">
            <w:p w15:paraId="p1">
              <w:r><w:t>根拠を</w:t></w:r>
            </w:p>
            <w:p>
              <w:r><w:t>追加してください</w:t></w:r>
            </w:p>
          </w:comment>
        </w:comments>
    "#;

    let comments = parse_comments_xml(xml).expect("comments.xml should parse");

    assert_eq!(comments.len(), 1);
    assert_eq!(comments[0].comment_id, "5");
    assert_eq!(comments[0].author.as_deref(), Some("Alice"));
    assert_eq!(comments[0].para_id.as_deref(), Some("p1"));
    assert_eq!(comments[0].raw_text.as_deref(), Some("根拠を\n追加してください"));
}

#[test]
fn parses_comments_xml_text_nested_inside_tables() {
    let xml = r#"
        <w:comments xmlns:w="http://schemas.openxmlformats.org/wordprocessingml/2006/main"
                    xmlns:w15="http://schemas.microsoft.com/office/word/2012/wordml">
          <w:comment w:id="8" w:author="Alice">
            <w:tbl>
              <w:tr>
                <w:tc>
                  <w:p w15:paraId="p8">
                    <w:r><w:t>表の中のコメント</w:t></w:r>
                  </w:p>
                </w:tc>
              </w:tr>
            </w:tbl>
          </w:comment>
        </w:comments>
    "#;

    let comments = parse_comments_xml(xml).expect("comments.xml should parse");

    assert_eq!(comments.len(), 1);
    assert_eq!(comments[0].para_id.as_deref(), Some("p8"));
    assert_eq!(comments[0].raw_text.as_deref(), Some("表の中のコメント"));
}

#[test]
fn uses_last_paragraph_para_id_for_thread_matching() {
    let xml = r#"
        <w:comments xmlns:w="http://schemas.openxmlformats.org/wordprocessingml/2006/main"
                    xmlns:w15="http://schemas.microsoft.com/office/word/2012/wordml">
          <w:comment w:id="8" w:author="Alice">
            <w:p w15:paraId="p-first">
              <w:r><w:t>1段落目</w:t></w:r>
            </w:p>
            <w:p w15:paraId="p-last">
              <w:r><w:t>2段落目</w:t></w:r>
            </w:p>
          </w:comment>
        </w:comments>
    "#;

    let comments = parse_comments_xml(xml).expect("comments.xml should parse");

    assert_eq!(comments[0].para_id.as_deref(), Some("p-last"));
}

#[test]
fn parses_document_comment_ranges_across_runs() {
    let xml = r#"
        <w:document xmlns:w="http://schemas.openxmlformats.org/wordprocessingml/2006/main">
          <w:body>
            <w:p>
              <w:pPr><w:pStyle w:val="Heading1" /></w:pPr>
              <w:r><w:t>第1章</w:t></w:r>
            </w:p>
            <w:p>
              <w:r><w:t>前</w:t></w:r>
              <w:commentRangeStart w:id="5" />
              <w:r><w:t>導入</w:t></w:r>
              <w:r><w:t>の説明</w:t></w:r>
              <w:commentRangeEnd w:id="5" />
              <w:r><w:t>後</w:t></w:r>
            </w:p>
          </w:body>
        </w:document>
    "#;

    let (anchors, warnings) = parse_document_comment_ranges(xml).expect("document.xml should parse");

    assert_eq!(warnings.len(), 0);
    assert_eq!(anchors.len(), 1);
    assert_eq!(anchors[0].comment_id, "5");
    assert_eq!(anchors[0].raw_text.as_deref(), Some("導入の説明"));
    assert!(matches!(anchors[0].target_type, ParsedAnchorTargetType::Text));
    assert_eq!(anchors[0].locator.heading_path, vec!["第1章".to_string()]);
    assert_eq!(anchors[0].locator.before_context.as_deref(), Some("前"));
    assert_eq!(anchors[0].locator.after_context.as_deref(), Some("後"));
}

#[test]
fn falls_back_to_paragraph_text_when_only_comment_reference_exists() {
    let xml = r#"
        <w:document xmlns:w="http://schemas.openxmlformats.org/wordprocessingml/2006/main">
          <w:body>
            <w:p>
              <w:pPr><w:pStyle w:val="Heading1" /></w:pPr>
              <w:r><w:t>概要</w:t></w:r>
            </w:p>
            <w:p>
              <w:r><w:t>レビュー対象の段落です</w:t></w:r>
              <w:r><w:commentReference w:id="5" /></w:r>
            </w:p>
          </w:body>
        </w:document>
    "#;

    let (anchors, warnings) = parse_document_comment_ranges(xml).expect("document.xml should parse");

    assert_eq!(anchors.len(), 1);
    assert_eq!(anchors[0].comment_id, "5");
    assert_eq!(anchors[0].raw_text.as_deref(), Some("レビュー対象の段落です"));
    assert_eq!(anchors[0].locator.heading_path, vec!["概要".to_string()]);
    assert_eq!(warnings.len(), 1);
    assert_eq!(warnings[0].code, "anchor_fallback_reference");
}

#[test]
fn infers_image_anchor_and_caption_from_nearby_paragraph() {
    let xml = r#"
        <w:document
          xmlns:w="http://schemas.openxmlformats.org/wordprocessingml/2006/main"
          xmlns:wp="http://schemas.openxmlformats.org/drawingml/2006/wordprocessingDrawing"
          xmlns:a="http://schemas.openxmlformats.org/drawingml/2006/main"
          xmlns:r="http://schemas.openxmlformats.org/officeDocument/2006/relationships">
          <w:body>
            <w:p>
              <w:r>
                <w:drawing>
                  <wp:inline>
                    <wp:docPr id="1" name="Picture 3" descr="システム構成図" />
                    <a:graphic>
                      <a:graphicData>
                        <a:pic>
                          <a:blipFill>
                            <a:blip r:embed="rId12" />
                          </a:blipFill>
                        </a:pic>
                      </a:graphicData>
                    </a:graphic>
                  </wp:inline>
                </w:drawing>
              </w:r>
              <w:r><w:commentReference w:id="7" /></w:r>
            </w:p>
            <w:p>
              <w:r><w:t>図1 システム構成図</w:t></w:r>
            </w:p>
          </w:body>
        </w:document>
    "#;

    let (anchors, warnings) = parse_document_comment_ranges(xml).expect("document.xml should parse");

    assert_eq!(anchors.len(), 1);
    assert!(matches!(anchors[0].target_type, ParsedAnchorTargetType::Image));
    assert_eq!(anchors[0].raw_text, None);
    assert_eq!(anchors[0].inferred_caption.as_deref(), Some("図1 システム構成図"));
    assert_eq!(anchors[0].image.as_ref().and_then(|image| image.name.as_deref()), Some("Picture 3"));
    assert_eq!(warnings[0].code, "anchor_fallback_image_context");
}

#[test]
fn infers_table_anchor_and_caption_from_nearby_paragraph() {
    let xml = r#"
        <w:document xmlns:w="http://schemas.openxmlformats.org/wordprocessingml/2006/main">
          <w:body>
            <w:p>
              <w:pPr><w:pStyle w:val="Heading2" /></w:pPr>
              <w:r><w:t>表セクション</w:t></w:r>
            </w:p>
            <w:tbl>
              <w:tr>
                <w:tc>
                  <w:p>
                    <w:r><w:t>セル1</w:t></w:r>
                    <w:r><w:commentReference w:id="9" /></w:r>
                  </w:p>
                </w:tc>
              </w:tr>
            </w:tbl>
            <w:p>
              <w:r><w:t>表1 テストデータ</w:t></w:r>
            </w:p>
          </w:body>
        </w:document>
    "#;

    let (anchors, warnings) = parse_document_comment_ranges(xml).expect("document.xml should parse");

    assert_eq!(anchors.len(), 1);
    assert!(matches!(anchors[0].target_type, ParsedAnchorTargetType::Table));
    assert_eq!(anchors[0].locator.heading_path, vec!["表セクション".to_string()]);
    assert_eq!(anchors[0].raw_text.as_deref(), Some("セル1"));
    assert_eq!(anchors[0].table.as_ref().map(|table| table.index), Some(1));
    assert_eq!(
        anchors[0].locator.table_cell.as_ref().map(|cell| (cell.row_index, cell.column_index)),
        Some((1, 1))
    );
    assert_eq!(anchors[0].inferred_caption.as_deref(), Some("表1 テストデータ"));
    assert_eq!(warnings[0].code, "anchor_fallback_table_context");
}

#[test]
fn direct_comment_range_inside_table_is_marked_as_table() {
    let xml = r#"
        <w:document xmlns:w="http://schemas.openxmlformats.org/wordprocessingml/2006/main">
          <w:body>
            <w:p>
              <w:pPr><w:pStyle w:val="Heading2" /></w:pPr>
              <w:r><w:t>表セクション</w:t></w:r>
            </w:p>
            <w:tbl>
              <w:tr>
                <w:tc>
                  <w:p>
                    <w:commentRangeStart w:id="5" />
                    <w:r><w:t>セル1</w:t></w:r>
                    <w:commentRangeEnd w:id="5" />
                  </w:p>
                </w:tc>
              </w:tr>
            </w:tbl>
            <w:p>
              <w:r><w:t>表1 テストデータ</w:t></w:r>
            </w:p>
          </w:body>
        </w:document>
    "#;

    let (anchors, warnings) = parse_document_comment_ranges(xml).expect("document.xml should parse");

    assert!(warnings.is_empty());
    assert_eq!(anchors[0].raw_text.as_deref(), Some("セル1"));
    assert!(matches!(anchors[0].target_type, ParsedAnchorTargetType::Table));
    assert_eq!(anchors[0].locator.heading_path, vec!["表セクション".to_string()]);
    assert_eq!(anchors[0].table.as_ref().map(|table| table.index), Some(1));
    assert_eq!(
        anchors[0].locator.table_cell.as_ref().map(|cell| (cell.row_index, cell.column_index)),
        Some((1, 1))
    );
    assert_eq!(anchors[0].inferred_caption.as_deref(), Some("表1 テストデータ"));
}

#[test]
fn parses_comments_extended_with_reply_relationship_and_done_state() {
    let xml = r#"
        <w15:commentsEx xmlns:w15="http://schemas.microsoft.com/office/word/2012/wordml">
          <w15:commentEx w15:paraId="p1" w15:done="0" />
          <w15:commentEx w15:paraId="p2" w15:paraIdParent="p1" />
        </w15:commentsEx>
    "#;

    let extended = parse_comments_extended(xml).expect("commentsExtended.xml should parse");

    assert_eq!(extended.len(), 2);
    assert_eq!(extended[0].para_id, "p1");
    assert_eq!(extended[0].done, Some(false));
    assert_eq!(extended[1].parent_para_id.as_deref(), Some("p1"));
}

#[test]
fn malformed_comments_xml_is_an_error_naming_the_part() {
    match parse_comments_xml("<w:comments") {
        Err(AppError::MalformedXml { part, message }) => {
            assert_eq!(part, "word/comments.xml");
            assert!(!message.is_empty());
        },
        other => panic!("unexpected result: {:?}", other),
    }
}

#[test]
fn malformed_document_xml_is_an_error_naming_the_part() {
    match parse_document_comment_ranges("<w:document") {
        Err(AppError::MalformedXml { part, .. }) => assert_eq!(part, "word/document.xml"),
        other => panic!("unexpected result: {:?}", other),
    }
}

#[test]
fn malformed_extended_xml_is_an_error_naming_the_part() {
    match parse_comments_extended("<w15:commentsEx") {
        Err(AppError::MalformedXml { part, .. }) => assert_eq!(part, "word/commentsExtended.xml"),
        other => panic!("unexpected result: {:?}", other),
    }
}

#[test]
fn empty_comment_text_and_missing_attributes_read_as_none() {
    let xml = r#"
        <w:comments xmlns:w="http://schemas.openxmlformats.org/wordprocessingml/2006/main">
          <w:comment w:id="3"><w:p /></w:comment>
        </w:comments>
    "#;
    let comments = parse_comments_xml(xml).expect("comments.xml should parse");
    assert_eq!(comments.len(), 1);
    assert_eq!(comments[0].comment_id, "3");
    assert_eq!(comments[0].author, None);
    assert_eq!(comments[0].initials, None);
    assert_eq!(comments[0].created_at, None);
    assert_eq!(comments[0].para_id, None);
    assert_eq!(comments[0].raw_text, None);
}

#[test]
fn done_flag_reads_one_as_true_and_missing_as_none() {
    let xml = r#"
        <w15:commentsEx xmlns:w15="http://schemas.microsoft.com/office/word/2012/wordml">
          <w15:commentEx w15:paraId="a" w15:done="1" />
          <w15:commentEx w15:paraId="b" />
        </w15:commentsEx>
    "#;
    let extended = parse_comments_extended(xml).expect("commentsExtended.xml should parse");
    assert_eq!(extended[0].done, Some(true));
    assert_eq!(extended[1].done, None);
    assert_eq!(extended[1].parent_para_id, None);
}

#[test]
fn comments_are_read_in_document_order() {
    let xml = r#"
        <w:comments xmlns:w="http://schemas.openxmlformats.org/wordprocessingml/2006/main">
          <w:comment w:id="2"><w:p><w:r><w:t>b</w:t></w:r></w:p></w:comment>
          <w:comment w:id="1"><w:p><w:r><w:t>a</w:t></w:r></w:p></w:comment>
        </w:comments>
    "#;
    let comments = parse_comments_xml(xml).expect("comments.xml should parse");
    let ids: Vec<&str> = comments.iter().map(|c| c.comment_id.as_str()).collect();
    assert_eq!(ids, vec!["2", "1"]);
    assert_eq!(comments[1].raw_text.as_deref(), Some("a"));
}

#[test]
fn heading_path_follows_heading_levels() {
    let xml = r#"
        <w:document xmlns:w="http://schemas.openxmlformats.org/wordprocessingml/2006/main">
          <w:body>
            <w:p><w:pPr><w:pStyle w:val="Heading1" /></w:pPr><w:r><w:t>1. 背景</w:t></w:r></w:p>
            <w:p><w:pPr><w:pStyle w:val="Heading2" /></w:pPr><w:r><w:t>1.1 目的</w:t></w:r></w:p>
            <w:p><w:pPr><w:pStyle w:val="Heading1" /></w:pPr><w:r><w:t>2. 方法</w:t></w:r></w:p>
            <w:p><w:pPr><w:pStyle w:val="Heading2" /></w:pPr><w:r><w:t>2.1 手順</w:t></w:r></w:p>
            <w:p>
              <w:commentRangeStart w:id="1" />
              <w:r><w:t>本文</w:t></w:r>
              <w:commentRangeEnd w:id="1" />
            </w:p>
          </w:body>
        </w:document>
    "#;
    let (anchors, warnings) = parse_document_comment_ranges(xml).expect("document.xml should parse");
    assert!(warnings.is_empty());
    assert_eq!(anchors[0].locator.heading_path, vec!["2. 方法".to_string(), "2.1 手順".to_string()]);
    assert_eq!(anchors[0].locator.before_context, None);
    assert_eq!(anchors[0].locator.after_context, None);
}

#[test]
fn one_anchor_per_comment_when_range_and_reference_meet() {
    let xml = r#"
        <w:document xmlns:w="http://schemas.openxmlformats.org/wordprocessingml/2006/main">
          <w:body>
            <w:p>
              <w:r><w:t>前</w:t></w:r>
              <w:commentRangeStart w:id="1" />
              <w:r><w:t>対象</w:t></w:r>
              <w:commentRangeEnd w:id="1" />
              <w:r><w:commentReference w:id="1" /></w:r>
              <w:r><w:t>後</w:t></w:r>
            </w:p>
            <w:p>
              <w:r><w:t>別段落</w:t></w:r>
              <w:r><w:commentReference w:id="1" /></w:r>
            </w:p>
          </w:body>
        </w:document>
    "#;
    let (anchors, warnings) = parse_document_comment_ranges(xml).expect("document.xml should parse");
    assert_eq!(anchors.len(), 1);
    assert_eq!(anchors[0].raw_text.as_deref(), Some("対象"));
    assert_eq!(anchors[0].locator.before_context.as_deref(), Some("前"));
    assert_eq!(anchors[0].locator.after_context.as_deref(), Some("後"));
    assert!(warnings.is_empty());
}

#[test]
fn unclosed_range_is_reported_as_broken_anchor() {
    let xml = r#"
        <w:document xmlns:w="http://schemas.openxmlformats.org/wordprocessingml/2006/main">
          <w:body>
            <w:p>
              <w:commentRangeStart w:id="3" />
              <w:r><w:t>開いたまま</w:t></w:r>
            </w:p>
          </w:body>
        </w:document>
    "#;
    let (anchors, warnings) = parse_document_comment_ranges(xml).expect("document.xml should parse");
    assert_eq!(warnings.len(), 1);
    assert_eq!(warnings[0].code, "broken_anchor");
    assert_eq!(warnings[0].message, "Comment range for 3 was not closed");
    assert_eq!(warnings[0].comment_id.as_deref(), Some("3"));
    assert_eq!(anchors.len(), 1);
    assert_eq!(anchors[0].raw_text.as_deref(), Some("開いたまま\n"));
}

#[test]
fn anchors_come_out_in_comment_id_order_with_matching_kinds() {
    let xml = r#"
        <w:document xmlns:w="http://schemas.openxmlformats.org/wordprocessingml/2006/main">
          <w:body>
            <w:p>
              <w:commentRangeStart w:id="b" />
              <w:r><w:t>二</w:t></w:r>
              <w:commentRangeEnd w:id="b" />
            </w:p>
            <w:tbl><w:tr><w:tc><w:p>
              <w:commentRangeStart w:id="a" />
              <w:r><w:t>一</w:t></w:r>
              <w:commentRangeEnd w:id="a" />
            </w:p></w:tc></w:tr></w:tbl>
          </w:body>
        </w:document>
    "#;
    let (anchors, _) = parse_document_comment_ranges(xml).expect("document.xml should parse");
    let ids: Vec<&str> = anchors.iter().map(|a| a.comment_id.as_str()).collect();
    assert_eq!(ids, vec!["a", "b"]);
    assert!(matches!(anchors[0].target_type, ParsedAnchorTargetType::Table));
    assert_eq!(anchors[0].table.as_ref().map(|t| t.index), Some(1));
    assert!(anchors[0].image.is_none());
    assert!(matches!(anchors[1].target_type, ParsedAnchorTargetType::Text));
    assert!(anchors[1].table.is_none() && anchors[1].image.is_none());
}

#[test]
fn missing_comment_id_is_malformed_xml() {
    let xml = r#"
        <w:comments xmlns:w="http://schemas.openxmlformats.org/wordprocessingml/2006/main">
          <w:comment w:author="Alice"><w:p /></w:comment>
        </w:comments>
    "#;
    match parse_comments_xml(xml) {
        Err(AppError::MalformedXml { part, message }) => {
            assert_eq!(part, "word/comments.xml");
            assert_eq!(message, "missing required attribute id");
        },
        other => panic!("unexpected result: {:?}", other),
    }
}
