//! How comment anchors are found in `document.xml`: the walk over comment ranges, the
//! fallback to the paragraph that holds a comment reference, and the locators.
use vstd::prelude::*;

use crate::docx::DOCUMENT_XML_PATH;
use crate::parse::{
    opt_image_view, DiagnosticWarning, DiagnosticWarningView, ParsedAnchor, ParsedAnchorLocator,
    ParsedAnchorLocatorView, ParsedAnchorTargetType, ParsedAnchorView, ParsedImageAnchor,
    ParsedImageAnchorView, ParsedTableAnchor, ParsedTableCellLocator,
};
use crate::sorted_map::{key_index, lower_bound, lemma_lower_bound_range, set_insert, set_insert_exec, SortedMap};
use crate::text::{
    clone_chars, clone_opt_string, clone_strings, empty_to_none, has_prefix, opt_str_view, owned,
    parse_usize, skip_whitespace, spec_empty_to_none, spec_parse_usize, spec_split_context_window,
    spec_trim_start, spec_trim_trailing_newlines, split_context_window, starts_with_at, str_chars,
    str_eq, string_from_chars, strings_view, trim_trailing_newlines,
};
use crate::xml::{
    ancestor_el, collect_text_from_node, find_ancestor, first_descendant, first_descendant_el,
    is_el, is_element, next_child, next_child_of, next_sibling_element, next_sibling_element_of,
    node_attr, node_text, optional_attr, optional_attr_no_namespace, prev_sibling_element,
    parent_of, prev_sibling_element_of, spec_attr_no_ns, spec_parent, subtree_end, subtree_end_of,
    root_element, root_element_of, XmlDocument, XmlNodeView, NS_A, NS_R, NS_W, NS_WP,
};

verus! {

/// The state of the scan over `document.xml`.
pub struct AnchorState {
    pub active_comment_ids: Vec<Vec<char>>,
    pub buffers: SortedMap<String>,
    pub anchors: SortedMap<ParsedAnchor>,
    pub reference_fallback_warnings: Vec<DiagnosticWarning>,
    pub table_stack: Vec<usize>,
    pub next_table_index: usize,
}

pub struct AnchorStateView {
    pub active: Seq<Seq<char>>,
    pub buffer_keys: Seq<Seq<char>>,
    pub buffer_texts: Seq<Seq<char>>,
    pub anchor_keys: Seq<Seq<char>>,
    pub anchors: Seq<ParsedAnchorView>,
    pub fallback_warnings: Seq<DiagnosticWarningView>,
    pub table_stack: Seq<usize>,
    pub next_table_index: int,
}

impl View for AnchorState {
    type V = AnchorStateView;

    open spec fn view(&self) -> AnchorStateView {
        AnchorStateView {
            active: self.active_comment_ids@.map_values(|k: Vec<char>| k@),
            buffer_keys: self.buffers.key_view(),
            buffer_texts: strings_view(self.buffers.values@),
            anchor_keys: self.anchors.key_view(),
            anchors: self.anchors.values@.map_values(|a: ParsedAnchor| a@),
            fallback_warnings: self.reference_fallback_warnings@.map_values(|w: DiagnosticWarning| w@),
            table_stack: self.table_stack@,
            next_table_index: self.next_table_index as int,
        }
    }
}

impl AnchorState {
    pub open spec fn wf(&self) -> bool {
        self.buffers.wf() && self.anchors.wf()
    }

    pub fn new() -> (res: Self)
        ensures
            res.wf(),
            res@ == empty_state(),
    {
        let res = AnchorState {
            active_comment_ids: Vec::new(),
            buffers: SortedMap::new(),
            anchors: SortedMap::new(),
            reference_fallback_warnings: Vec::new(),
            table_stack: Vec::new(),
            next_table_index: 0,
        };
        assert(res@.active =~= Seq::<Seq<char>>::empty());
        assert(res@.buffer_texts =~= Seq::<Seq<char>>::empty());
        assert(res@.anchors =~= Seq::<ParsedAnchorView>::empty());
        assert(res@.fallback_warnings =~= Seq::<DiagnosticWarningView>::empty());
        res
    }
}

pub open spec fn empty_state() -> AnchorStateView {
    AnchorStateView {
        active: Seq::empty(),
        buffer_keys: Seq::empty(),
        buffer_texts: Seq::empty(),
        anchor_keys: Seq::empty(),
        anchors: Seq::empty(),
        fallback_warnings: Seq::empty(),
        table_stack: Seq::empty(),
        next_table_index: 0,
    }
}

pub open spec fn empty_locator() -> ParsedAnchorLocatorView {
    ParsedAnchorLocatorView {
        heading_path: Seq::empty(),
        before_context: None,
        after_context: None,
        table_cell: None,
    }
}

/// The anchor recorded for a comment range that starts or runs inside table `index`.
pub open spec fn table_range_anchor(id: Seq<char>, caption: Option<Seq<char>>, index: usize) -> ParsedAnchorView {
    ParsedAnchorView {
        comment_id: id,
        raw_text: None,
        target_type: ParsedAnchorTargetType::Table,
        locator: empty_locator(),
        inferred_caption: caption,
        image: None,
        table: Some(ParsedTableAnchor { index }),
    }
}

pub fn new_locator() -> (res: ParsedAnchorLocator)
    ensures
        res@ == empty_locator(),
{
    let res = ParsedAnchorLocator { heading_path: Vec::new(), before_context: None, after_context: None, table_cell: None };
    assert(res@.heading_path =~= Seq::<Seq<char>>::empty());
    res
}

pub fn clone_image(i: &ParsedImageAnchor) -> (res: ParsedImageAnchor)
    ensures
        res@ == i@,
{
    ParsedImageAnchor {
        name: clone_opt_string(&i.name),
        alt_text: clone_opt_string(&i.alt_text),
        relationship_id: clone_opt_string(&i.relationship_id),
    }
}

pub fn clone_locator(l: &ParsedAnchorLocator) -> (res: ParsedAnchorLocator)
    ensures
        res@ == l@,
{
    ParsedAnchorLocator {
        heading_path: clone_strings(&l.heading_path),
        before_context: clone_opt_string(&l.before_context),
        after_context: clone_opt_string(&l.after_context),
        table_cell: l.table_cell,
    }
}

pub fn clone_anchor(a: &ParsedAnchor) -> (res: ParsedAnchor)
    ensures
        res@ == a@,
{
    ParsedAnchor {
        comment_id: a.comment_id.clone(),
        raw_text: clone_opt_string(&a.raw_text),
        target_type: a.target_type,
        locator: clone_locator(&a.locator),
        inferred_caption: clone_opt_string(&a.inferred_caption),
        image: match &a.image {
            Some(i) => Some(clone_image(i)),
            None => None,
        },
        table: a.table,
    }
}

// ---------------------------------------------------------------------------------------
// Captions

/// The paragraph `p` read as a caption: its text, when that text begins (after leading
/// whitespace) with "Figure", "Fig.", "図", "Table" or "表", or when the paragraph has the
/// style `Caption`. Such a prefix holds no whitespace, so this is the same as asking it of
/// the first whitespace-separated word.
pub open spec fn caption_from_paragraph(t: Seq<XmlNodeView>, p: int) -> Option<Seq<char>> {
    let text = node_text(t, p);
    let lead = spec_trim_start(text);
    if text.len() == 0 {
        None
    } else if has_prefix(lead, "Figure"@) || has_prefix(lead, "Fig."@) || has_prefix(lead, "図"@)
        || has_prefix(lead, "Table"@) || has_prefix(lead, "表"@) || has_paragraph_style(t, p, "Caption"@) {
        Some(text)
    } else {
        None
    }
}

/// The first `w:pStyle` in paragraph `p` names style `style`.
pub open spec fn has_paragraph_style(t: Seq<XmlNodeView>, p: int, style: Seq<char>) -> bool {
    match first_descendant_el(t, p, NS_W@, "pStyle"@) {
        Some(k) => node_attr(t, k, NS_W@, "val"@) == Some(style),
        None => false,
    }
}

/// A sibling read as a caption, when it is a paragraph.
pub open spec fn caption_of_sibling(t: Seq<XmlNodeView>, sibling: Option<int>) -> Option<Seq<char>> {
    match sibling {
        Some(s) => if is_el(t, s, NS_W@, "p"@) { caption_from_paragraph(t, s) } else { None },
        None => None,
    }
}

/// The caption next to node `n`: from the next element sibling, else from the previous one.
pub open spec fn infer_caption_from_container(t: Seq<XmlNodeView>, n: int) -> Option<Seq<char>> {
    let from_next = caption_of_sibling(t, next_sibling_element(t, n));
    if from_next is Some {
        from_next
    } else {
        caption_of_sibling(t, prev_sibling_element(t, n))
    }
}

pub fn has_paragraph_style_of(doc: &XmlDocument, p: usize, style: &str) -> (res: bool)
    requires
        p < doc@.len(),
    ensures
        res == has_paragraph_style(doc@, p as int, style@),
{
    match first_descendant(doc, p, NS_W, "pStyle") {
        Some(k) => match optional_attr(doc, k, NS_W, "val") {
            Some(v) => str_eq(v.as_str(), style),
            None => false,
        },
        None => false,
    }
}

pub fn caption_from_paragraph_of(doc: &XmlDocument, p: usize) -> (res: Option<String>)
    requires
        p < doc@.len(),
    ensures
        opt_str_view(res) == caption_from_paragraph(doc@, p as int),
{
    let text = collect_text_from_node(doc, p);
    let chars = str_chars(text.as_str());
    if chars.len() == 0 {
        return None;
    }
    let start = skip_whitespace(&chars);
    let looks = starts_with_at(&chars, start, "Figure") || starts_with_at(&chars, start, "Fig.")
        || starts_with_at(&chars, start, "図") || starts_with_at(&chars, start, "Table")
        || starts_with_at(&chars, start, "表") || has_paragraph_style_of(doc, p, "Caption");
    if looks {
        Some(text)
    } else {
        None
    }
}

fn caption_of_sibling_of(doc: &XmlDocument, sibling: Option<usize>) -> (res: Option<String>)
    requires
        sibling matches Some(s) ==> s < doc@.len(),
    ensures
        opt_str_view(res) == caption_of_sibling(doc@, match sibling { Some(s) => Some(s as int), None => None }),
{
    match sibling {
        Some(s) => if is_element(doc, s, NS_W, "p") { caption_from_paragraph_of(doc, s) } else { None },
        None => None,
    }
}

pub fn infer_caption_from_container_of(doc: &XmlDocument, n: usize) -> (res: Option<String>)
    requires
        n < doc@.len(),
    ensures
        opt_str_view(res) == infer_caption_from_container(doc@, n as int),
{
    let next = next_sibling_element_of(doc, n);
    let from_next = caption_of_sibling_of(doc, next);
    if from_next.is_some() {
        from_next
    } else {
        let prev = prev_sibling_element_of(doc, n);
        caption_of_sibling_of(doc, prev)
    }
}

// ---------------------------------------------------------------------------------------
// Comment ranges

/// One active comment receives text: appended to its buffer (created when absent), and inside
/// a table its anchor becomes a table anchor for the innermost table (created when absent).
pub open spec fn add_text_for(s: AnchorStateView, id: Seq<char>, text: Seq<char>) -> AnchorStateView {
    let s1 = match key_index(s.buffer_keys, id) {
        Some(p) => AnchorStateView { buffer_texts: s.buffer_texts.update(p, s.buffer_texts[p] + text), ..s },
        None => {
            let p = lower_bound(s.buffer_keys, id);
            AnchorStateView { buffer_keys: s.buffer_keys.insert(p, id), buffer_texts: s.buffer_texts.insert(p, text), ..s }
        },
    };
    if s1.table_stack.len() > 0 {
        let index = s1.table_stack.last();
        match key_index(s1.anchor_keys, id) {
            Some(p) => AnchorStateView {
                anchors: s1.anchors.update(p, ParsedAnchorView {
                    target_type: ParsedAnchorTargetType::Table,
                    table: Some(ParsedTableAnchor { index }),
                    ..s1.anchors[p]
                }),
                ..s1
            },
            None => {
                let p = lower_bound(s1.anchor_keys, id);
                AnchorStateView {
                    anchor_keys: s1.anchor_keys.insert(p, id),
                    anchors: s1.anchors.insert(p, table_range_anchor(id, None, index)),
                    ..s1
                }
            },
        }
    } else {
        s1
    }
}

/// The first `n` of `ids` receive `text`, in order.
pub open spec fn add_text_upto(s: AnchorStateView, ids: Seq<Seq<char>>, text: Seq<char>, n: int) -> AnchorStateView
    decreases n,
{
    if n <= 0 {
        s
    } else {
        add_text_for(add_text_upto(s, ids, text, n - 1), ids[n - 1], text)
    }
}

/// Every active comment receives `text` (nothing happens for empty text).
pub open spec fn append_to_active(s: AnchorStateView, text: Seq<char>) -> AnchorStateView {
    if s.active.len() == 0 || text.len() == 0 {
        s
    } else {
        add_text_upto(s, s.active, text, s.active.len() as int)
    }
}

proof fn lemma_add_text_keeps(s: AnchorStateView, ids: Seq<Seq<char>>, text: Seq<char>, n: int)
    requires
        s.buffer_keys.len() == s.buffer_texts.len(),
        s.anchor_keys.len() == s.anchors.len(),
    ensures
        add_text_upto(s, ids, text, n).active == s.active,
        add_text_upto(s, ids, text, n).table_stack == s.table_stack,
        add_text_upto(s, ids, text, n).next_table_index == s.next_table_index,
        add_text_upto(s, ids, text, n).fallback_warnings == s.fallback_warnings,
        add_text_upto(s, ids, text, n).buffer_keys.len() == add_text_upto(s, ids, text, n).buffer_texts.len(),
        add_text_upto(s, ids, text, n).anchor_keys.len() == add_text_upto(s, ids, text, n).anchors.len(),
    decreases n,
{
    if n > 0 {
        lemma_add_text_keeps(s, ids, text, n - 1);
        let s0 = add_text_upto(s, ids, text, n - 1);
        lemma_lower_bound_range(s0.buffer_keys, ids[n - 1]);
        lemma_lower_bound_range(s0.anchor_keys, ids[n - 1]);
    }
}

fn add_text_for_exec(state: &mut AnchorState, k: usize, text: &str)
    requires
        old(state).wf(),
        k < old(state).active_comment_ids@.len(),
    ensures
        final(state).wf(),
        final(state)@ == add_text_for(old(state)@, old(state)@.active[k as int], text@),
        final(state).next_table_index == old(state).next_table_index,
        final(state).active_comment_ids@.len() == old(state).active_comment_ids@.len(),
{
    let ghost s0 = state@;
    let id = clone_chars(&state.active_comment_ids[k]);
    assert(id@ == s0.active[k as int]);
    proof { lemma_lower_bound_range(s0.buffer_keys, id@); }
    match state.buffers.find(&id) {
        Some(p) => {
            let ghost before = state.buffers.values@;
            state.buffers.values[p].append(text);
            assert(strings_view(state.buffers.values@) =~= s0.buffer_texts.update(p as int, s0.buffer_texts[p as int] + text@));
            assert(state@ == (AnchorStateView { buffer_texts: s0.buffer_texts.update(p as int, s0.buffer_texts[p as int] + text@), ..s0 }));
        },
        None => {
            let p = state.buffers.lower_bound_of(&id);
            let ghost before = state.buffers.values@;
            state.buffers.insert_at(p, clone_chars(&id), owned(text));
            assert(strings_view(state.buffers.values@) =~= strings_view(before).insert(p as int, text@));
            assert(state@ == (AnchorStateView { buffer_keys: s0.buffer_keys.insert(p as int, id@), buffer_texts: s0.buffer_texts.insert(p as int, text@), ..s0 }));
        },
    }
    let ghost s1 = state@;
    let depth = state.table_stack.len();
    if depth > 0 {
        let index = state.table_stack[depth - 1];
        proof { lemma_lower_bound_range(s1.anchor_keys, id@); }
        match state.anchors.find(&id) {
            Some(p) => {
                state.anchors.values[p].target_type = ParsedAnchorTargetType::Table;
                state.anchors.values[p].table = Some(ParsedTableAnchor { index });
                assert(state@.anchors =~= s1.anchors.update(p as int, ParsedAnchorView {
                    target_type: ParsedAnchorTargetType::Table,
                    table: Some(ParsedTableAnchor { index }),
                    ..s1.anchors[p as int]
                }));
                assert(state@.anchor_keys == s1.anchor_keys);
                assert(state@.buffer_texts == s1.buffer_texts);
            },
            None => {
                let p = state.anchors.lower_bound_of(&id);
                let ghost before = state.anchors.values@;
                let anchor = ParsedAnchor {
                    comment_id: string_from_chars(&id),
                    raw_text: None,
                    target_type: ParsedAnchorTargetType::Table,
                    locator: new_locator(),
                    inferred_caption: None,
                    image: None,
                    table: Some(ParsedTableAnchor { index }),
                };
                assert(anchor@ == table_range_anchor(id@, None, index));
                state.anchors.insert_at(p, id, anchor);
                assert(state@.anchors =~= s1.anchors.insert(p as int, table_range_anchor(id@, None, index)));
            },
        }
    }
}

/// Appends `text` to the buffer of every active comment.
pub fn append_to_active_comments(state: &mut AnchorState, text: &str)
    requires
        old(state).wf(),
    ensures
        final(state).wf(),
        final(state)@ == append_to_active(old(state)@, text@),
        final(state).next_table_index == old(state).next_table_index,
{
    if state.active_comment_ids.len() == 0 || text.is_empty() {
        return;
    }
    let ghost s0 = state@;
    let n = state.active_comment_ids.len();
    let mut k: usize = 0;
    while k < n
        invariant
            k <= n == s0.active.len(),
            s0.buffer_keys.len() == s0.buffer_texts.len(),
            s0.anchor_keys.len() == s0.anchors.len(),
            state.wf(),
            state.active_comment_ids@.len() == n,
            state.next_table_index == s0.next_table_index,
            state@ == add_text_upto(s0, s0.active, text@, k as int),
        decreases n - k,
    {
        proof { lemma_add_text_keeps(s0, s0.active, text@, k as int); }
        add_text_for_exec(state, k, text);
        k = k + 1;
    }
}

/// The active list without any entry equal to `id`.
pub open spec fn without(ids: Seq<Seq<char>>, id: Seq<char>) -> Seq<Seq<char>>
    decreases ids.len(),
{
    if ids.len() == 0 {
        ids
    } else if ids.last() == id {
        without(ids.drop_last(), id)
    } else {
        without(ids.drop_last(), id).push(ids.last())
    }
}

fn remove_active(state: &mut AnchorState, id: &Vec<char>)
    requires
        old(state).wf(),
    ensures
        final(state).wf(),
        final(state)@ == (AnchorStateView { active: without(old(state)@.active, id@), ..old(state)@ }),
        final(state).next_table_index == old(state).next_table_index,
{
    let ghost s0 = state@;
    let mut kept: Vec<Vec<char>> = Vec::new();
    let n = state.active_comment_ids.len();
    let mut k: usize = 0;
    while k < n
        invariant
            k <= n == s0.active.len(),
            state@ == s0,
            state.wf(),
            kept@.map_values(|v: Vec<char>| v@) == without(s0.active.take(k as int), id@),
        decreases n - k,
    {
        assert(s0.active.take(k + 1).drop_last() =~= s0.active.take(k as int));
        assert(state.active_comment_ids@[k as int]@ == s0.active[k as int]);
        if !crate::text::chars_equal(&state.active_comment_ids[k], id) {
            let ghost before = kept@;
            kept.push(clone_chars(&state.active_comment_ids[k]));
            assert(kept@.map_values(|v: Vec<char>| v@) =~= before.map_values(|v: Vec<char>| v@).push(s0.active[k as int]));
        }
        k = k + 1;
    }
    assert(s0.active.take(n as int) =~= s0.active);
    state.active_comment_ids = kept;
}

/// A comment range opens: the comment becomes active, and inside a table it gets a table
/// anchor (with the caption next to the enclosing table) unless it has one.
pub open spec fn range_start(t: Seq<XmlNodeView>, i: int, id: Seq<char>, s: AnchorStateView) -> AnchorStateView {
    let s1 = AnchorStateView { active: s.active.push(id), ..s };
    if s1.table_stack.len() > 0 {
        let index = s1.table_stack.last();
        let caption = match ancestor_el(t, i, NS_W@, "tbl"@) {
            Some(tb) => infer_caption_from_container(t, tb),
            None => None,
        };
        match key_index(s1.anchor_keys, id) {
            Some(_) => s1,
            None => {
                let p = lower_bound(s1.anchor_keys, id);
                AnchorStateView {
                    anchor_keys: s1.anchor_keys.insert(p, id),
                    anchors: s1.anchors.insert(p, table_range_anchor(id, caption, index)),
                    ..s1
                }
            },
        }
    } else {
        s1
    }
}

fn range_start_exec(doc: &XmlDocument, i: usize, id: Vec<char>, state: &mut AnchorState)
    requires
        i < doc@.len(),
        old(state).wf(),
    ensures
        final(state).wf(),
        final(state)@ == range_start(doc@, i as int, id@, old(state)@),
        final(state).next_table_index == old(state).next_table_index,
{
    let ghost s0 = state@;
    let ghost old_active = state.active_comment_ids@;
    state.active_comment_ids.push(clone_chars(&id));
    assert(state@.active =~= s0.active.push(id@));
    let ghost s1 = state@;
    let depth = state.table_stack.len();
    if depth > 0 {
        let index = state.table_stack[depth - 1];
        let caption = match find_ancestor(doc, i, NS_W, "tbl") {
            Some(tb) => infer_caption_from_container_of(doc, tb),
            None => None,
        };
        proof { lemma_lower_bound_range(s1.anchor_keys, id@); }
        match state.anchors.find(&id) {
            Some(_) => {},
            None => {
                let p = state.anchors.lower_bound_of(&id);
                let anchor = ParsedAnchor {
                    comment_id: string_from_chars(&id),
                    raw_text: None,
                    target_type: ParsedAnchorTargetType::Table,
                    locator: new_locator(),
                    inferred_caption: caption,
                    image: None,
                    table: Some(ParsedTableAnchor { index }),
                };
                state.anchors.insert_at(p, id, anchor);
                assert(state@.anchors =~= s1.anchors.insert(p as int, anchor@));
            },
        }
    }
}

/// The walk over `document.xml` from node `i`, whose subtree ends at `e`: tables are numbered
/// in the order met and stacked, comment ranges open and close, and the text met (runs, tabs,
/// breaks, and a line feed after each paragraph) goes to every open comment.
pub open spec fn walk(t: Seq<XmlNodeView>, i: int, e: int, s: AnchorStateView) -> AnchorStateView
    decreases e - i, 0int,
{
    if !(0 <= i < e <= t.len()) {
        s
    } else if is_el(t, i, NS_W@, "tbl"@) {
        let index = s.next_table_index + 1;
        let s1 = AnchorStateView { next_table_index: index, table_stack: s.table_stack.push(index as usize), ..s };
        let s2 = walk_children(t, e, i + 1, s1);
        AnchorStateView {
            table_stack: if s2.table_stack.len() > 0 { s2.table_stack.drop_last() } else { s2.table_stack },
            ..s2
        }
    } else if is_el(t, i, NS_W@, "commentRangeStart"@) {
        match node_attr(t, i, NS_W@, "id"@) {
            Some(id) => range_start(t, i, id, s),
            None => s,
        }
    } else if is_el(t, i, NS_W@, "commentRangeEnd"@) {
        match node_attr(t, i, NS_W@, "id"@) {
            Some(id) => AnchorStateView { active: without(s.active, id), ..s },
            None => s,
        }
    } else {
        let s1 = if is_el(t, i, NS_W@, "t"@) {
            append_to_active(s, match t[i].text { Some(x) => x, None => Seq::<char>::empty() })
        } else {
            s
        };
        let s2 = if is_el(t, i, NS_W@, "tab"@) { append_to_active(s1, "\t"@) } else { s1 };
        let s3 = if is_el(t, i, NS_W@, "br"@) || is_el(t, i, NS_W@, "cr"@) { append_to_active(s2, "\n"@) } else { s2 };
        let s4 = walk_children(t, e, i + 1, s3);
        if is_el(t, i, NS_W@, "p"@) { append_to_active(s4, "\n"@) } else { s4 }
    }
}

/// The walk over the children of a node whose subtree ends at `e`, from child `j` on.
pub open spec fn walk_children(t: Seq<XmlNodeView>, e: int, j: int, s: AnchorStateView) -> AnchorStateView
    decreases e - j, 1int,
{
    if !(0 <= j < e <= t.len()) {
        s
    } else {
        let ej = next_child(t, e, j);
        walk_children(t, e, ej, walk(t, j, ej, s))
    }
}

fn walk_document(doc: &XmlDocument, i: usize, e: usize, state: &mut AnchorState)
    requires
        i < e <= doc@.len(),
        old(state).wf(),
        old(state).next_table_index <= i,
    ensures
        final(state).wf(),
        final(state)@ == walk(doc@, i as int, e as int, old(state)@),
        final(state).next_table_index <= e,
    decreases e - i,
{
    let ghost s0 = state@;
    if is_element(doc, i, NS_W, "tbl") {
        state.next_table_index = state.next_table_index + 1;
        let current = state.next_table_index;
        state.table_stack.push(current);
        let ghost s1 = state@;
        assert(s1 == (AnchorStateView { next_table_index: s0.next_table_index + 1, table_stack: s0.table_stack.push((s0.next_table_index + 1) as usize), ..s0 }));
        walk_children_exec(doc, i, e, state);
        let ghost s2 = state@;
        let _ = state.table_stack.pop();
        assert(state@ == (AnchorStateView {
            table_stack: if s2.table_stack.len() > 0 { s2.table_stack.drop_last() } else { s2.table_stack },
            ..s2
        }));
        return;
    }
    if is_element(doc, i, NS_W, "commentRangeStart") {
        if let Some(id) = optional_attr(doc, i, NS_W, "id") {
            range_start_exec(doc, i, str_chars(id.as_str()), state);
        }
        return;
    }
    if is_element(doc, i, NS_W, "commentRangeEnd") {
        if let Some(id) = optional_attr(doc, i, NS_W, "id") {
            remove_active(state, &str_chars(id.as_str()));
        }
        return;
    }
    let ghost t = doc@;
    if is_element(doc, i, NS_W, "t") {
        assert(doc@[i as int] == doc.nodes@[i as int]@);
        match &doc.nodes[i].text {
            Some(x) => append_to_active_comments(state, x.as_str()),
            None => {
                proof { reveal_strlit(""); }
                append_to_active_comments(state, "")
            },
        }
    }
    let ghost s1 = state@;
    assert(s1 == if is_el(t, i as int, NS_W@, "t"@) {
        append_to_active(s0, match t[i as int].text { Some(x) => x, None => Seq::<char>::empty() })
    } else {
        s0
    });
    if is_element(doc, i, NS_W, "tab") {
        append_to_active_comments(state, "\t");
    }
    let ghost s2 = state@;
    assert(s2 == if is_el(t, i as int, NS_W@, "tab"@) { append_to_active(s1, "\t"@) } else { s1 });
    if is_element(doc, i, NS_W, "br") || is_element(doc, i, NS_W, "cr") {
        append_to_active_comments(state, "\n");
    }
    let ghost s3 = state@;
    assert(s3 == if is_el(t, i as int, NS_W@, "br"@) || is_el(t, i as int, NS_W@, "cr"@) { append_to_active(s2, "\n"@) } else { s2 });
    walk_children_exec(doc, i, e, state);
    let ghost s4 = state@;
    assert(s4 == walk_children(t, e as int, i + 1, s3));
    if is_element(doc, i, NS_W, "p") {
        append_to_active_comments(state, "\n");
    }
}

fn walk_children_exec(doc: &XmlDocument, i: usize, e: usize, state: &mut AnchorState)
    requires
        i < e <= doc@.len(),
        old(state).wf(),
        old(state).next_table_index <= i + 1,
    ensures
        final(state).wf(),
        final(state)@ == walk_children(doc@, e as int, i + 1, old(state)@),
        final(state).next_table_index <= e,
    decreases e - i, 1int,
{
    let ghost s0 = state@;
    let mut j = i + 1;
    while j < e
        invariant
            i < j <= e <= doc@.len(),
            state.wf(),
            state.next_table_index <= j,
            walk_children(doc@, e as int, j as int, state@) == walk_children(doc@, e as int, i + 1, s0),
        decreases e - j,
    {
        let ej = next_child_of(doc, e, j);
        walk_document(doc, j, ej, state);
        j = ej;
    }
}

// ---------------------------------------------------------------------------------------
// Paragraph facts

/// The comment ids referenced or opened among the nodes `a .. b`, as a key-ordered set.
pub open spec fn comment_ids_in(t: Seq<XmlNodeView>, a: int, b: int) -> Seq<Seq<char>>
    decreases b - a,
{
    if b <= a {
        Seq::<Seq<char>>::empty()
    } else {
        let ids = comment_ids_in(t, a, b - 1);
        if is_el(t, b - 1, NS_W@, "commentReference"@) || is_el(t, b - 1, NS_W@, "commentRangeStart"@) {
            match node_attr(t, b - 1, NS_W@, "id"@) {
                Some(id) => set_insert(ids, id),
                None => ids,
            }
        } else {
            ids
        }
    }
}

/// The comment ids referenced or opened inside paragraph `p`, in key order, each once.
pub open spec fn paragraph_comment_ids(t: Seq<XmlNodeView>, p: int) -> Seq<Seq<char>> {
    comment_ids_in(t, p, subtree_end(t, p))
}

pub fn paragraph_comment_ids_of(doc: &XmlDocument, p: usize) -> (res: Vec<Vec<char>>)
    requires
        p < doc@.len(),
    ensures
        res@.map_values(|v: Vec<char>| v@) == paragraph_comment_ids(doc@, p as int),
{
    let end = subtree_end_of(doc, p);
    let mut ids: Vec<Vec<char>> = Vec::new();
    assert(ids@.map_values(|v: Vec<char>| v@) =~= Seq::<Seq<char>>::empty());
    let mut j = p;
    while j < end
        invariant
            p <= j <= end <= doc@.len(),
            end == subtree_end(doc@, p as int),
            ids@.map_values(|v: Vec<char>| v@) == comment_ids_in(doc@, p as int, j as int),
        decreases end - j,
    {
        if is_element(doc, j, NS_W, "commentReference") || is_element(doc, j, NS_W, "commentRangeStart") {
            if let Some(id) = optional_attr(doc, j, NS_W, "id") {
                set_insert_exec(&mut ids, &str_chars(id.as_str()));
            }
        }
        j = j + 1;
    }
    ids
}

/// The picture in paragraph `p`: its first `w:drawing`, read for the name and description of
/// the drawing's first `wp:docPr` and the `r:embed` of its first `a:blip`.
pub open spec fn paragraph_image_anchor(t: Seq<XmlNodeView>, p: int) -> Option<ParsedImageAnchorView> {
    match first_descendant_el(t, p, NS_W@, "drawing"@) {
        None => None,
        Some(d) => {
            let doc_pr = first_descendant_el(t, d, NS_WP@, "docPr"@);
            Some(ParsedImageAnchorView {
                name: match doc_pr { Some(k) => spec_attr_no_ns(t[k].attributes, "name"@), None => None },
                alt_text: match doc_pr { Some(k) => spec_attr_no_ns(t[k].attributes, "descr"@), None => None },
                relationship_id: match first_descendant_el(t, d, NS_A@, "blip"@) {
                    Some(b) => node_attr(t, b, NS_R@, "embed"@),
                    None => None,
                },
            })
        },
    }
}

pub fn paragraph_image_anchor_of(doc: &XmlDocument, p: usize) -> (res: Option<ParsedImageAnchor>)
    requires
        p < doc@.len(),
    ensures
        opt_image_view(res) == paragraph_image_anchor(doc@, p as int),
{
    let drawing = match first_descendant(doc, p, NS_W, "drawing") {
        Some(d) => d,
        None => {
            return None;
        },
    };
    let doc_pr = first_descendant(doc, drawing, NS_WP, "docPr");
    let name = match doc_pr { Some(k) => optional_attr_no_namespace(doc, k, "name"), None => None };
    let alt_text = match doc_pr { Some(k) => optional_attr_no_namespace(doc, k, "descr"), None => None };
    let relationship_id = match first_descendant(doc, drawing, NS_A, "blip") {
        Some(b) => optional_attr(doc, b, NS_R, "embed"),
        None => None,
    };
    Some(ParsedImageAnchor { name, alt_text, relationship_id })
}

/// Number of `ns:name` elements among the first `n` nodes.
pub open spec fn count_el(t: Seq<XmlNodeView>, n: int, ns: Seq<char>, name: Seq<char>) -> int
    decreases n,
{
    if n <= 0 {
        0
    } else {
        count_el(t, n - 1, ns, name) + if is_el(t, n - 1, ns, name) { 1int } else { 0int }
    }
}

/// The number, counted from 1 in document order, of the table that holds paragraph `p`.
pub open spec fn table_index_for_paragraph(t: Seq<XmlNodeView>, p: int) -> Option<int> {
    match ancestor_el(t, p, NS_W@, "tbl"@) {
        Some(tb) => Some(count_el(t, tb, NS_W@, "tbl"@) + 1),
        None => None,
    }
}

pub fn table_index_for_paragraph_of(doc: &XmlDocument, p: usize) -> (res: Option<usize>)
    requires
        p < doc@.len(),
    ensures
        match res {
            Some(k) => table_index_for_paragraph(doc@, p as int) == Some(k as int),
            None => table_index_for_paragraph(doc@, p as int) is None,
        },
{
    let len = doc.nodes.len();
    assert(doc@.len() == len);
    let table = match find_ancestor(doc, p, NS_W, "tbl") {
        Some(tb) => tb,
        None => {
            return None;
        },
    };
    let mut count: usize = 0;
    let mut j: usize = 0;
    while j < table
        invariant
            j <= table <= p < doc@.len(),
            count <= j,
            count == count_el(doc@, j as int, NS_W@, "tbl"@),
        decreases table - j,
    {
        if is_element(doc, j, NS_W, "tbl") {
            count = count + 1;
        }
        j = j + 1;
    }
    Some(count + 1)
}

/// The text of the table that holds paragraph `p`, when not empty.
pub open spec fn infer_table_preview(t: Seq<XmlNodeView>, p: int) -> Option<Seq<char>> {
    match ancestor_el(t, p, NS_W@, "tbl"@) {
        Some(tb) => spec_empty_to_none(node_text(t, tb)),
        None => None,
    }
}

/// The caption next to the table that holds paragraph `p`.
pub open spec fn infer_table_caption(t: Seq<XmlNodeView>, p: int) -> Option<Seq<char>> {
    match ancestor_el(t, p, NS_W@, "tbl"@) {
        Some(tb) => infer_caption_from_container(t, tb),
        None => None,
    }
}

/// The anchor that paragraph `p` gives a comment that only references it: an image anchor
/// when it holds a drawing, a table anchor inside a table, else its text (when it has any).
pub open spec fn inferred_anchor(t: Seq<XmlNodeView>, p: int) -> Option<ParsedAnchorView> {
    let text = spec_empty_to_none(node_text(t, p));
    match paragraph_image_anchor(t, p) {
        Some(image) => Some(ParsedAnchorView {
            comment_id: Seq::empty(),
            raw_text: None,
            target_type: ParsedAnchorTargetType::Image,
            locator: empty_locator(),
            inferred_caption: infer_caption_from_container(t, p),
            image: Some(image),
            table: None,
        }),
        None => match table_index_for_paragraph(t, p) {
            Some(index) => Some(ParsedAnchorView {
                comment_id: Seq::empty(),
                raw_text: if text is Some { text } else { infer_table_preview(t, p) },
                target_type: ParsedAnchorTargetType::Table,
                locator: empty_locator(),
                inferred_caption: infer_table_caption(t, p),
                image: None,
                table: Some(ParsedTableAnchor { index: index as usize }),
            }),
            None => match text {
                Some(x) => Some(ParsedAnchorView {
                    comment_id: Seq::empty(),
                    raw_text: Some(x),
                    target_type: ParsedAnchorTargetType::Text,
                    locator: empty_locator(),
                    inferred_caption: None,
                    image: None,
                    table: None,
                }),
                None => None,
            },
        },
    }
}

pub fn inferred_anchor_of(doc: &XmlDocument, p: usize) -> (res: Option<ParsedAnchor>)
    requires
        p < doc@.len(),
    ensures
        match res {
            Some(a) => inferred_anchor(doc@, p as int) == Some(a@),
            None => inferred_anchor(doc@, p as int) is None,
        },
{
    let text = crate::text::empty_to_none(collect_text_from_node(doc, p));
    if let Some(image) = paragraph_image_anchor_of(doc, p) {
        let a = ParsedAnchor {
            comment_id: String::new(),
            raw_text: None,
            target_type: ParsedAnchorTargetType::Image,
            locator: new_locator(),
            inferred_caption: infer_caption_from_container_of(doc, p),
            image: Some(image),
            table: None,
        };
        return Some(a);
    }
    match table_index_for_paragraph_of(doc, p) {
        Some(index) => {
            let raw_text = if text.is_some() {
                text
            } else {
                match find_ancestor(doc, p, NS_W, "tbl") {
                    Some(tb) => crate::text::empty_to_none(collect_text_from_node(doc, tb)),
                    None => None,
                }
            };
            let inferred_caption = match find_ancestor(doc, p, NS_W, "tbl") {
                Some(tb) => infer_caption_from_container_of(doc, tb),
                None => None,
            };
            Some(ParsedAnchor {
                comment_id: String::new(),
                raw_text,
                target_type: ParsedAnchorTargetType::Table,
                locator: new_locator(),
                inferred_caption,
                image: None,
                table: Some(ParsedTableAnchor { index }),
            })
        },
        None => match text {
            Some(x) => Some(ParsedAnchor {
                comment_id: String::new(),
                raw_text: Some(x),
                target_type: ParsedAnchorTargetType::Text,
                locator: new_locator(),
                inferred_caption: None,
                image: None,
                table: None,
            }),
            None => None,
        },
    }
}

// ---------------------------------------------------------------------------------------
// Fallback anchors for comments that only have a reference

/// The warning left when an anchor had to be inferred from the paragraph.
pub open spec fn fallback_warning(target: ParsedAnchorTargetType, id: Seq<char>) -> DiagnosticWarningView {
    DiagnosticWarningView {
        code: match target {
            ParsedAnchorTargetType::Text => "anchor_fallback_reference"@,
            ParsedAnchorTargetType::Image => "anchor_fallback_image_context"@,
            ParsedAnchorTargetType::Table => "anchor_fallback_table_context"@,
        },
        message: "Anchor for comment "@ + id + match target {
            ParsedAnchorTargetType::Text => " was inferred from the containing paragraph because no comment range was found"@,
            ParsedAnchorTargetType::Image => " was inferred from an image paragraph because no text range was found"@,
            ParsedAnchorTargetType::Table => " was inferred from a table paragraph because no text range was found"@,
        },
        comment_id: Some(id),
        source_part: Some(DOCUMENT_XML_PATH@),
    }
}

fn fallback_warning_of(target: ParsedAnchorTargetType, id: &String) -> (res: DiagnosticWarning)
    ensures
        res@ == fallback_warning(target, id@),
{
    let code = match target {
        ParsedAnchorTargetType::Text => owned("anchor_fallback_reference"),
        ParsedAnchorTargetType::Image => owned("anchor_fallback_image_context"),
        ParsedAnchorTargetType::Table => owned("anchor_fallback_table_context"),
    };
    let mut message = owned("Anchor for comment ");
    message.append(id.as_str());
    match target {
        ParsedAnchorTargetType::Text => message.append(" was inferred from the containing paragraph because no comment range was found"),
        ParsedAnchorTargetType::Image => message.append(" was inferred from an image paragraph because no text range was found"),
        ParsedAnchorTargetType::Table => message.append(" was inferred from a table paragraph because no text range was found"),
    }
    DiagnosticWarning {
        code,
        message,
        comment_id: Some(id.clone()),
        source_part: Some(owned(DOCUMENT_XML_PATH)),
    }
}

/// The first `n` of `ids` that have neither text nor an anchor yet get a copy of anchor `a`,
/// with a warning each.
pub open spec fn fallback_for_ids(s: AnchorStateView, ids: Seq<Seq<char>>, a: ParsedAnchorView, n: int) -> AnchorStateView
    decreases n,
{
    if n <= 0 {
        s
    } else {
        let s1 = fallback_for_ids(s, ids, a, n - 1);
        let id = ids[n - 1];
        if key_index(s1.buffer_keys, id) is Some || key_index(s1.anchor_keys, id) is Some {
            s1
        } else {
            let p = lower_bound(s1.anchor_keys, id);
            AnchorStateView {
                anchor_keys: s1.anchor_keys.insert(p, id),
                anchors: s1.anchors.insert(p, ParsedAnchorView { comment_id: id, ..a }),
                fallback_warnings: s1.fallback_warnings.push(fallback_warning(a.target_type, id)),
                ..s1
            }
        }
    }
}

/// Paragraph `p` gives its inferred anchor to the comments it references that have none.
pub open spec fn fallback_paragraph(t: Seq<XmlNodeView>, p: int, s: AnchorStateView) -> AnchorStateView {
    let ids = paragraph_comment_ids(t, p);
    if ids.len() == 0 {
        s
    } else {
        match inferred_anchor(t, p) {
            None => s,
            Some(a) => fallback_for_ids(s, ids, a, ids.len() as int),
        }
    }
}

/// The fallback applied to the paragraphs among the first `n` nodes, in document order.
pub open spec fn fallback_upto(t: Seq<XmlNodeView>, n: int, s: AnchorStateView) -> AnchorStateView
    decreases n,
{
    if n <= 0 {
        s
    } else {
        let s1 = fallback_upto(t, n - 1, s);
        if is_el(t, n - 1, NS_W@, "p"@) { fallback_paragraph(t, n - 1, s1) } else { s1 }
    }
}

fn fallback_paragraph_exec(doc: &XmlDocument, p: usize, state: &mut AnchorState)
    requires
        p < doc@.len(),
        old(state).wf(),
    ensures
        final(state).wf(),
        final(state)@ == fallback_paragraph(doc@, p as int, old(state)@),
{
    let ghost s0 = state@;
    let ids = paragraph_comment_ids_of(doc, p);
    let ghost idv = ids@.map_values(|v: Vec<char>| v@);
    if ids.len() == 0 {
        return;
    }
    let anchor = match inferred_anchor_of(doc, p) {
        Some(a) => a,
        None => {
            return;
        },
    };
    let n = ids.len();
    let mut k: usize = 0;
    while k < n
        invariant
            k <= n == idv.len(),
            idv == ids@.map_values(|v: Vec<char>| v@),
            state.wf(),
            state@ == fallback_for_ids(s0, idv, anchor@, k as int),
        decreases n - k,
    {
        let ghost s1 = state@;
        let id = &ids[k];
        assert(id@ == idv[k as int]);
        let in_buffers = state.buffers.find(id).is_some();
        let in_anchors = state.anchors.find(id).is_some();
        if !in_buffers && !in_anchors {
            let p_ins = state.anchors.lower_bound_of(id);
            let id_string = string_from_chars(id);
            let mut a = clone_anchor(&anchor);
            a.comment_id = id_string.clone();
            let warning = fallback_warning_of(anchor.target_type, &id_string);
            state.anchors.insert_at(p_ins, clone_chars(id), a);
            state.reference_fallback_warnings.push(warning);
            assert(state@.anchors =~= s1.anchors.insert(p_ins as int, ParsedAnchorView { comment_id: idv[k as int], ..anchor@ }));
            assert(state@.fallback_warnings =~= s1.fallback_warnings.push(fallback_warning(anchor@.target_type, idv[k as int])));
        }
        k = k + 1;
    }
}

/// Gives each paragraph's inferred anchor to the comments it references that have none yet.
pub fn collect_reference_fallback_anchors(doc: &XmlDocument, state: &mut AnchorState)
    requires
        old(state).wf(),
    ensures
        final(state).wf(),
        final(state)@ == fallback_upto(doc@, doc@.len() as int, old(state)@),
{
    let ghost s0 = state@;
    let n = doc.nodes.len();
    assert(doc@.len() == n);
    let mut j: usize = 0;
    while j < n
        invariant
            j <= n == doc@.len(),
            state.wf(),
            state@ == fallback_upto(doc@, j as int, s0),
        decreases n - j,
    {
        if is_element(doc, j, NS_W, "p") {
            fallback_paragraph_exec(doc, j, state);
        }
        j = j + 1;
    }
}

// ---------------------------------------------------------------------------------------
// Headings

/// The level of a paragraph style: 0 for `Title`, `n` for `Heading<n>`.
pub open spec fn spec_heading_level(style: Seq<char>) -> Option<usize> {
    if style == "Title"@ {
        Some(0)
    } else if has_prefix(style, "Heading"@) {
        spec_parse_usize(style.skip("Heading"@.len() as int))
    } else {
        None
    }
}

pub fn heading_level_from_style(style: &str) -> (res: Option<usize>)
    ensures
        res == spec_heading_level(style@),
{
    if str_eq(style, "Title") {
        return Some(0);
    }
    let chars = str_chars(style);
    assert(chars@.skip(0) =~= chars@);
    if starts_with_at(&chars, 0, "Heading") {
        let prefix = str_chars("Heading");
        parse_usize(&chars, prefix.len())
    } else {
        None
    }
}

/// A heading paragraph: its level (from the first `w:pStyle`) and its text, when not empty.
pub open spec fn heading_info(t: Seq<XmlNodeView>, p: int) -> Option<(usize, Seq<char>)> {
    match first_descendant_el(t, p, NS_W@, "pStyle"@) {
        None => None,
        Some(k) => match node_attr(t, k, NS_W@, "val"@) {
            None => None,
            Some(style) => match spec_heading_level(style) {
                None => None,
                Some(level) => {
                    let text = node_text(t, p);
                    if text.len() == 0 { None } else { Some((level, text)) }
                },
            },
        },
    }
}

/// The open headings after leaving all those at `level` or deeper.
pub open spec fn pop_headings(stack: Seq<(usize, Seq<char>)>, level: usize) -> Seq<(usize, Seq<char>)>
    decreases stack.len(),
{
    if stack.len() > 0 && stack.last().0 >= level {
        pop_headings(stack.drop_last(), level)
    } else {
        stack
    }
}

/// The open headings after a paragraph: a heading closes those at its level or deeper, then opens.
pub open spec fn update_heading_stack(stack: Seq<(usize, Seq<char>)>, info: Option<(usize, Seq<char>)>) -> Seq<(usize, Seq<char>)> {
    match info {
        Some((level, text)) => pop_headings(stack, level).push((level, text)),
        None => stack,
    }
}

pub open spec fn headings_view(stack: Seq<(usize, String)>) -> Seq<(usize, Seq<char>)> {
    stack.map_values(|e: (usize, String)| (e.0, e.1@))
}

fn heading_info_of(doc: &XmlDocument, p: usize) -> (res: Option<(usize, String)>)
    requires
        p < doc@.len(),
    ensures
        match res {
            Some((level, text)) => heading_info(doc@, p as int) == Some((level, text@)),
            None => heading_info(doc@, p as int) is None,
        },
{
    let k = match first_descendant(doc, p, NS_W, "pStyle") {
        Some(k) => k,
        None => {
            return None;
        },
    };
    let style = match optional_attr(doc, k, NS_W, "val") {
        Some(v) => v,
        None => {
            return None;
        },
    };
    let level = match heading_level_from_style(style.as_str()) {
        Some(l) => l,
        None => {
            return None;
        },
    };
    match empty_to_none(collect_text_from_node(doc, p)) {
        Some(text) => Some((level, text)),
        None => None,
    }
}

fn update_heading_stack_exec(stack: &mut Vec<(usize, String)>, info: Option<(usize, String)>)
    ensures
        headings_view(final(stack)@) == update_heading_stack(headings_view(old(stack)@), match info {
            Some((l, x)) => Some((l, x@)),
            None => None,
        }),
{
    if let Some((level, text)) = info {
        let ghost h0 = headings_view(stack@);
        while stack.len() > 0 && stack[stack.len() - 1].0 >= level
            invariant
                pop_headings(headings_view(stack@), level) == pop_headings(h0, level),
            decreases stack@.len(),
        {
            let ghost before = stack@;
            stack.pop();
            assert(headings_view(stack@) =~= headings_view(before).drop_last());
        }
        let ghost popped = stack@;
        stack.push((level, text));
        assert(headings_view(stack@) =~= headings_view(popped).push((level, text@)));
    }
}

fn heading_path_of(stack: &Vec<(usize, String)>) -> (res: Vec<String>)
    ensures
        strings_view(res@) == headings_view(stack@).map_values(|e: (usize, Seq<char>)| e.1),
{
    let mut out: Vec<String> = Vec::new();
    let mut k: usize = 0;
    while k < stack.len()
        invariant
            k <= stack@.len(),
            out@.len() == k,
            forall|m: int| 0 <= m < k ==> #[trigger] out@[m]@ == stack@[m].1@,
        decreases stack@.len() - k,
    {
        out.push(stack[k].1.clone());
        k = k + 1;
    }
    assert(strings_view(out@) =~= headings_view(stack@).map_values(|e: (usize, Seq<char>)| e.1));
    out
}

// ---------------------------------------------------------------------------------------
// Text covered directly by a comment range inside one paragraph

pub struct DirectTexts {
    pub active: Vec<Vec<char>>,
    pub buffers: SortedMap<String>,
}

pub struct DirectView {
    pub active: Seq<Seq<char>>,
    pub keys: Seq<Seq<char>>,
    pub texts: Seq<Seq<char>>,
}

impl View for DirectTexts {
    type V = DirectView;

    open spec fn view(&self) -> DirectView {
        DirectView {
            active: self.active@.map_values(|k: Vec<char>| k@),
            keys: self.buffers.key_view(),
            texts: strings_view(self.buffers.values@),
        }
    }
}

pub open spec fn direct_add_for(d: DirectView, id: Seq<char>, text: Seq<char>) -> DirectView {
    match key_index(d.keys, id) {
        Some(p) => DirectView { texts: d.texts.update(p, d.texts[p] + text), ..d },
        None => {
            let p = lower_bound(d.keys, id);
            DirectView { keys: d.keys.insert(p, id), texts: d.texts.insert(p, text), ..d }
        },
    }
}

pub open spec fn direct_add_upto(d: DirectView, ids: Seq<Seq<char>>, text: Seq<char>, n: int) -> DirectView
    decreases n,
{
    if n <= 0 {
        d
    } else {
        direct_add_for(direct_add_upto(d, ids, text, n - 1), ids[n - 1], text)
    }
}

pub open spec fn direct_append(d: DirectView, text: Seq<char>) -> DirectView {
    if d.active.len() == 0 || text.len() == 0 {
        d
    } else {
        direct_add_upto(d, d.active, text, d.active.len() as int)
    }
}

/// The walk over one paragraph from node `i` (subtree ending at `e`): comment ranges open and
/// close, and the runs, tabs and breaks met go to every open range.
pub open spec fn pwalk(t: Seq<XmlNodeView>, i: int, e: int, d: DirectView) -> DirectView
    decreases e - i, 0int,
{
    if !(0 <= i < e <= t.len()) {
        d
    } else if is_el(t, i, NS_W@, "commentRangeStart"@) {
        match node_attr(t, i, NS_W@, "id"@) {
            Some(id) => DirectView { active: d.active.push(id), ..d },
            None => d,
        }
    } else if is_el(t, i, NS_W@, "commentRangeEnd"@) {
        match node_attr(t, i, NS_W@, "id"@) {
            Some(id) => DirectView { active: without(d.active, id), ..d },
            None => d,
        }
    } else {
        let d1 = if is_el(t, i, NS_W@, "t"@) {
            direct_append(d, match t[i].text { Some(x) => x, None => Seq::<char>::empty() })
        } else {
            d
        };
        let d2 = if is_el(t, i, NS_W@, "tab"@) { direct_append(d1, "\t"@) } else { d1 };
        let d3 = if is_el(t, i, NS_W@, "br"@) || is_el(t, i, NS_W@, "cr"@) { direct_append(d2, "\n"@) } else { d2 };
        pwalk_children(t, e, i + 1, d3)
    }
}

pub open spec fn pwalk_children(t: Seq<XmlNodeView>, e: int, j: int, d: DirectView) -> DirectView
    decreases e - j, 1int,
{
    if !(0 <= j < e <= t.len()) {
        d
    } else {
        let ej = next_child(t, e, j);
        pwalk_children(t, e, ej, pwalk(t, j, ej, d))
    }
}

pub open spec fn empty_direct() -> DirectView {
    DirectView { active: Seq::empty(), keys: Seq::empty(), texts: Seq::empty() }
}

/// The text that comment `id`'s range covers inside paragraph `p`, trailing line feeds removed.
pub open spec fn direct_text(t: Seq<XmlNodeView>, p: int, id: Seq<char>) -> Option<Seq<char>> {
    let d = pwalk(t, p, subtree_end(t, p), empty_direct());
    match key_index(d.keys, id) {
        Some(k) => Some(spec_trim_trailing_newlines(d.texts[k])),
        None => None,
    }
}

proof fn lemma_direct_add_keeps(d: DirectView, ids: Seq<Seq<char>>, text: Seq<char>, n: int)
    requires
        d.keys.len() == d.texts.len(),
    ensures
        direct_add_upto(d, ids, text, n).active == d.active,
        direct_add_upto(d, ids, text, n).keys.len() == direct_add_upto(d, ids, text, n).texts.len(),
    decreases n,
{
    if n > 0 {
        lemma_direct_add_keeps(d, ids, text, n - 1);
        let d0 = direct_add_upto(d, ids, text, n - 1);
        lemma_lower_bound_range(d0.keys, ids[n - 1]);
    }
}

fn direct_append_exec(d: &mut DirectTexts, text: &str)
    requires
        old(d).buffers.wf(),
    ensures
        final(d).buffers.wf(),
        final(d)@ == direct_append(old(d)@, text@),
{
    if d.active.len() == 0 || text.is_empty() {
        return;
    }
    let ghost d0 = d@;
    let n = d.active.len();
    let mut k: usize = 0;
    while k < n
        invariant
            k <= n == d0.active.len(),
            d0.keys.len() == d0.texts.len(),
            d.buffers.wf(),
            d.active@.len() == n,
            d@ == direct_add_upto(d0, d0.active, text@, k as int),
        decreases n - k,
    {
        proof { lemma_direct_add_keeps(d0, d0.active, text@, k as int); }
        let ghost d1 = d@;
        let id = clone_chars(&d.active[k]);
        assert(id@ == d0.active[k as int]);
        proof { lemma_lower_bound_range(d1.keys, id@); }
        match d.buffers.find(&id) {
            Some(p) => {
                d.buffers.values[p].append(text);
                assert(d@.texts =~= d1.texts.update(p as int, d1.texts[p as int] + text@));
            },
            None => {
                let p = d.buffers.lower_bound_of(&id);
                let ghost before = d.buffers.values@;
                d.buffers.insert_at(p, id, owned(text));
                assert(d@.texts =~= d1.texts.insert(p as int, text@));
            },
        }
        k = k + 1;
    }
}

fn walk_paragraph_for_anchor_text(doc: &XmlDocument, i: usize, e: usize, d: &mut DirectTexts)
    requires
        i < e <= doc@.len(),
        old(d).buffers.wf(),
    ensures
        final(d).buffers.wf(),
        final(d)@ == pwalk(doc@, i as int, e as int, old(d)@),
    decreases e - i,
{
    let ghost d0 = d@;
    let ghost t = doc@;
    if is_element(doc, i, NS_W, "commentRangeStart") {
        if let Some(id) = optional_attr(doc, i, NS_W, "id") {
            let ghost before = d.active@;
            d.active.push(str_chars(id.as_str()));
            assert(d@.active =~= d0.active.push(id@));
        }
        return;
    }
    if is_element(doc, i, NS_W, "commentRangeEnd") {
        if let Some(id) = optional_attr(doc, i, NS_W, "id") {
            let id_chars = str_chars(id.as_str());
            let mut kept: Vec<Vec<char>> = Vec::new();
            let n = d.active.len();
            let mut k: usize = 0;
            while k < n
                invariant
                    k <= n == d0.active.len(),
                    d@ == d0,
                    id_chars@ == id@,
                    d.buffers.wf(),
                    kept@.map_values(|v: Vec<char>| v@) == without(d0.active.take(k as int), id@),
                decreases n - k,
            {
                assert(d0.active.take(k + 1).drop_last() =~= d0.active.take(k as int));
                assert(d.active@[k as int]@ == d0.active[k as int]);
                if !crate::text::chars_equal(&d.active[k], &id_chars) {
                    let ghost before = kept@;
                    kept.push(clone_chars(&d.active[k]));
                    assert(kept@.map_values(|v: Vec<char>| v@) =~= before.map_values(|v: Vec<char>| v@).push(d0.active[k as int]));
                }
                k = k + 1;
            }
            assert(d0.active.take(n as int) =~= d0.active);
            d.active = kept;
        }
        return;
    }
    if is_element(doc, i, NS_W, "t") {
        assert(doc@[i as int] == doc.nodes@[i as int]@);
        match &doc.nodes[i].text {
            Some(x) => direct_append_exec(d, x.as_str()),
            None => {
                proof { reveal_strlit(""); }
                direct_append_exec(d, "")
            },
        }
    }
    let ghost d1 = d@;
    assert(d1 == if is_el(t, i as int, NS_W@, "t"@) {
        direct_append(d0, match t[i as int].text { Some(x) => x, None => Seq::<char>::empty() })
    } else {
        d0
    });
    if is_element(doc, i, NS_W, "tab") {
        direct_append_exec(d, "\t");
    }
    let ghost d2 = d@;
    if is_element(doc, i, NS_W, "br") || is_element(doc, i, NS_W, "cr") {
        direct_append_exec(d, "\n");
    }
    let ghost d3 = d@;
    assert(d3 == if is_el(t, i as int, NS_W@, "br"@) || is_el(t, i as int, NS_W@, "cr"@) { direct_append(d2, "\n"@) } else { d2 });
    walk_paragraph_children(doc, i, e, d);
}

fn walk_paragraph_children(doc: &XmlDocument, i: usize, e: usize, d: &mut DirectTexts)
    requires
        i < e <= doc@.len(),
        old(d).buffers.wf(),
    ensures
        final(d).buffers.wf(),
        final(d)@ == pwalk_children(doc@, e as int, i + 1, old(d)@),
    decreases e - i, 1int,
{
    let ghost d0 = d@;
    let mut j = i + 1;
    while j < e
        invariant
            i < j <= e <= doc@.len(),
            d.buffers.wf(),
            pwalk_children(doc@, e as int, j as int, d@) == pwalk_children(doc@, e as int, i + 1, d0),
        decreases e - j,
    {
        let ej = next_child_of(doc, e, j);
        walk_paragraph_for_anchor_text(doc, j, ej, d);
        j = ej;
    }
}

fn paragraph_direct_anchor_texts(doc: &XmlDocument, p: usize) -> (res: DirectTexts)
    requires
        p < doc@.len(),
    ensures
        res.buffers.wf(),
        res@ == pwalk(doc@, p as int, subtree_end(doc@, p as int), empty_direct()),
{
    let mut d = DirectTexts { active: Vec::new(), buffers: SortedMap::new() };
    assert(d@.active =~= Seq::<Seq<char>>::empty());
    assert(d@.texts =~= Seq::<Seq<char>>::empty());
    let end = subtree_end_of(doc, p);
    walk_paragraph_for_anchor_text(doc, p, end, &mut d);
    d
}

fn direct_text_of(d: &DirectTexts, id: &Vec<char>) -> (res: Option<String>)
    requires
        d.buffers.wf(),
    ensures
        opt_str_view(res) == match key_index(d@.keys, id@) {
            Some(k) => Some(spec_trim_trailing_newlines(d@.texts[k])),
            None => None,
        },
{
    match d.buffers.find(id) {
        Some(k) => Some(trim_trailing_newlines(d.buffers.values[k].clone())),
        None => None,
    }
}

// ---------------------------------------------------------------------------------------
// Table cells

/// Walking the children of a node whose range ends at `pe` from child `j`, counting the
/// `ns:name` elements passed: the count when `target` is reached.
pub open spec fn position_among(t: Seq<XmlNodeView>, pe: int, j: int, target: int, ns: Seq<char>, name: Seq<char>, count: int) -> Option<int>
    decreases pe - j,
{
    if j < 0 || j >= pe || pe > t.len() {
        None
    } else if is_el(t, j, ns, name) {
        if j == target {
            Some(count)
        } else {
            position_among(t, pe, next_child(t, pe, j), target, ns, name, count + 1)
        }
    } else {
        position_among(t, pe, next_child(t, pe, j), target, ns, name, count)
    }
}

/// The place of `target` among the `ns:name` children of `parent`, counted from 0.
pub open spec fn child_position(t: Seq<XmlNodeView>, parent: int, target: int, ns: Seq<char>, name: Seq<char>) -> Option<int> {
    position_among(t, subtree_end(t, parent), parent + 1, target, ns, name, 0)
}

/// Row and column (from 1) of the table cell that holds paragraph `p`.
pub open spec fn table_cell_locator(t: Seq<XmlNodeView>, p: int) -> Option<ParsedTableCellLocator> {
    match ancestor_el(t, p, NS_W@, "tc"@) {
        None => None,
        Some(cell) => match ancestor_el(t, cell, NS_W@, "tr"@) {
            None => None,
            Some(row) => match spec_parent(t, row) {
                None => None,
                Some(row_parent) => match spec_parent(t, cell) {
                    None => None,
                    Some(cell_parent) => match child_position(t, row_parent, row, NS_W@, "tr"@) {
                        None => None,
                        Some(ri) => match child_position(t, cell_parent, cell, NS_W@, "tc"@) {
                            None => None,
                            Some(ci) => Some(ParsedTableCellLocator { row_index: (ri + 1) as usize, column_index: (ci + 1) as usize }),
                        },
                    },
                },
            },
        },
    }
}

fn child_position_of(doc: &XmlDocument, parent: usize, target: usize, ns: &str, name: &str) -> (res: Option<usize>)
    requires
        parent < doc@.len(),
    ensures
        match res {
            Some(k) => child_position(doc@, parent as int, target as int, ns@, name@) == Some(k as int) && k < doc@.len(),
            None => child_position(doc@, parent as int, target as int, ns@, name@) is None,
        },
{
    let pe = subtree_end_of(doc, parent);
    let mut j = parent + 1;
    let mut count: usize = 0;
    while j < pe
        invariant
            parent < j <= pe <= doc@.len(),
            count < j,
            position_among(doc@, pe as int, j as int, target as int, ns@, name@, count as int)
                == child_position(doc@, parent as int, target as int, ns@, name@),
        decreases pe - j,
    {
        if is_element(doc, j, ns, name) {
            if j == target {
                return Some(count);
            }
            count = count + 1;
        }
        j = next_child_of(doc, pe, j);
    }
    None
}

pub fn table_cell_locator_of(doc: &XmlDocument, p: usize) -> (res: Option<ParsedTableCellLocator>)
    requires
        p < doc@.len(),
    ensures
        res == table_cell_locator(doc@, p as int),
{
    let len = doc.nodes.len();
    assert(doc@.len() == len);
    let cell = match find_ancestor(doc, p, NS_W, "tc") { Some(c) => c, None => { return None; } };
    let row = match find_ancestor(doc, cell, NS_W, "tr") { Some(r) => r, None => { return None; } };
    let row_parent = match parent_of(doc, row) { Some(r) => r, None => { return None; } };
    let cell_parent = match parent_of(doc, cell) { Some(c) => c, None => { return None; } };
    let ri = match child_position_of(doc, row_parent, row, NS_W, "tr") { Some(r) => r, None => { return None; } };
    let ci = match child_position_of(doc, cell_parent, cell, NS_W, "tc") { Some(c) => c, None => { return None; } };
    Some(ParsedTableCellLocator { row_index: ri + 1, column_index: ci + 1 })
}

// ---------------------------------------------------------------------------------------
// Locators

/// A locator with its empty parts filled from the paragraph.
pub open spec fn fill_locator(
    l: ParsedAnchorLocatorView,
    path: Seq<Seq<char>>,
    before: Option<Seq<char>>,
    after: Option<Seq<char>>,
    cell: Option<ParsedTableCellLocator>,
) -> ParsedAnchorLocatorView {
    ParsedAnchorLocatorView {
        heading_path: if l.heading_path.len() == 0 { path } else { l.heading_path },
        before_context: if l.before_context is None { before } else { l.before_context },
        after_context: if l.after_context is None { after } else { l.after_context },
        table_cell: if l.table_cell is None { cell } else { l.table_cell },
    }
}

/// Comment `id` gets the paragraph's locator: an existing anchor has its empty parts filled,
/// a missing one is created as a text anchor with it.
pub open spec fn locate_one(
    s: AnchorStateView,
    id: Seq<char>,
    path: Seq<Seq<char>>,
    before: Option<Seq<char>>,
    after: Option<Seq<char>>,
    cell: Option<ParsedTableCellLocator>,
) -> AnchorStateView {
    match key_index(s.anchor_keys, id) {
        Some(k) => AnchorStateView {
            anchors: s.anchors.update(k, ParsedAnchorView {
                locator: fill_locator(s.anchors[k].locator, path, before, after, cell),
                ..s.anchors[k]
            }),
            ..s
        },
        None => {
            let p = lower_bound(s.anchor_keys, id);
            AnchorStateView {
                anchor_keys: s.anchor_keys.insert(p, id),
                anchors: s.anchors.insert(p, ParsedAnchorView {
                    comment_id: id,
                    raw_text: None,
                    target_type: ParsedAnchorTargetType::Text,
                    locator: ParsedAnchorLocatorView { heading_path: path, before_context: before, after_context: after, table_cell: cell },
                    inferred_caption: None,
                    image: None,
                    table: None,
                }),
                ..s
            }
        },
    }
}

/// Context around the snippet in the paragraph text, or none.
pub open spec fn context_for(snippet: Option<Seq<char>>, text: Option<Seq<char>>) -> (Option<Seq<char>>, Option<Seq<char>>) {
    match snippet {
        Some(sn) => match text {
            Some(full) => match spec_split_context_window(full, sn) {
                Some(c) => c,
                None => (None, None),
            },
            None => (None, None),
        },
        None => (None, None),
    }
}

/// The first `n` of paragraph `p`'s comment ids get its locator; the context is taken around
/// the text each comment's range covers in the paragraph, else around the whole text.
pub open spec fn locate_ids(
    t: Seq<XmlNodeView>,
    p: int,
    s: AnchorStateView,
    ids: Seq<Seq<char>>,
    n: int,
    path: Seq<Seq<char>>,
    text: Option<Seq<char>>,
    cell: Option<ParsedTableCellLocator>,
) -> AnchorStateView
    decreases n,
{
    if n <= 0 {
        s
    } else {
        let s1 = locate_ids(t, p, s, ids, n - 1, path, text, cell);
        let id = ids[n - 1];
        let snippet = match direct_text(t, p, id) {
            Some(x) => Some(x),
            None => text,
        };
        let ctx = context_for(snippet, text);
        locate_one(s1, id, path, ctx.0, ctx.1, cell)
    }
}

/// Paragraph `p` updates the open headings and gives its locator to the comments it holds.
pub open spec fn locate_paragraph(t: Seq<XmlNodeView>, p: int, headings: Seq<(usize, Seq<char>)>, s: AnchorStateView) -> (Seq<(usize, Seq<char>)>, AnchorStateView) {
    let h = update_heading_stack(headings, heading_info(t, p));
    let path = h.map_values(|e: (usize, Seq<char>)| e.1);
    let text = spec_empty_to_none(node_text(t, p));
    let ids = paragraph_comment_ids(t, p);
    (h, locate_ids(t, p, s, ids, ids.len() as int, path, text, table_cell_locator(t, p)))
}

/// The locator pass over the paragraphs among the first `n` nodes, in document order.
pub open spec fn locate_upto(t: Seq<XmlNodeView>, n: int, s: AnchorStateView) -> (Seq<(usize, Seq<char>)>, AnchorStateView)
    decreases n,
{
    if n <= 0 {
        (Seq::empty(), s)
    } else {
        let prev = locate_upto(t, n - 1, s);
        if is_el(t, n - 1, NS_W@, "p"@) { locate_paragraph(t, n - 1, prev.0, prev.1) } else { prev }
    }
}

fn locate_one_exec(
    state: &mut AnchorState,
    id: &Vec<char>,
    path: &Vec<String>,
    before: Option<String>,
    after: Option<String>,
    cell: Option<ParsedTableCellLocator>,
)
    requires
        old(state).wf(),
    ensures
        final(state).wf(),
        final(state)@ == locate_one(old(state)@, id@, strings_view(path@), opt_str_view(before), opt_str_view(after), cell),
{
    let ghost s0 = state@;
    proof { lemma_lower_bound_range(s0.anchor_keys, id@); }
    match state.anchors.find(id) {
        Some(k) => {
            let ghost a0 = s0.anchors[k as int];
            if state.anchors.values[k].locator.heading_path.len() == 0 {
                state.anchors.values[k].locator.heading_path = clone_strings(path);
            }
            if state.anchors.values[k].locator.before_context.is_none() {
                state.anchors.values[k].locator.before_context = before;
            }
            if state.anchors.values[k].locator.after_context.is_none() {
                state.anchors.values[k].locator.after_context = after;
            }
            if state.anchors.values[k].locator.table_cell.is_none() {
                state.anchors.values[k].locator.table_cell = cell;
            }
            assert(state.anchors.values@[k as int]@ == ParsedAnchorView {
                locator: fill_locator(a0.locator, strings_view(path@), opt_str_view(before), opt_str_view(after), cell),
                ..a0
            });
            assert(state@.anchors =~= s0.anchors.update(k as int, ParsedAnchorView {
                locator: fill_locator(a0.locator, strings_view(path@), opt_str_view(before), opt_str_view(after), cell),
                ..a0
            }));
        },
        None => {
            let p = state.anchors.lower_bound_of(id);
            let anchor = ParsedAnchor {
                comment_id: string_from_chars(id),
                raw_text: None,
                target_type: ParsedAnchorTargetType::Text,
                locator: ParsedAnchorLocator {
                    heading_path: clone_strings(path),
                    before_context: before,
                    after_context: after,
                    table_cell: cell,
                },
                inferred_caption: None,
                image: None,
                table: None,
            };
            let ghost av = anchor@;
            state.anchors.insert_at(p, clone_chars(id), anchor);
            assert(state@.anchors =~= s0.anchors.insert(p as int, av));
        },
    }
}

fn context_for_exec(snippet: &Option<String>, text: &Option<String>) -> (res: (Option<String>, Option<String>))
    ensures
        (opt_str_view(res.0), opt_str_view(res.1)) == context_for(opt_str_view(*snippet), opt_str_view(*text)),
{
    match snippet {
        Some(sn) => match text {
            Some(full) => match split_context_window(full.as_str(), sn.as_str()) {
                Some(c) => c,
                None => (None, None),
            },
            None => (None, None),
        },
        None => (None, None),
    }
}

fn locate_paragraph_exec(doc: &XmlDocument, p: usize, headings: &mut Vec<(usize, String)>, state: &mut AnchorState)
    requires
        p < doc@.len(),
        old(state).wf(),
    ensures
        final(state).wf(),
        (headings_view(final(headings)@), final(state)@) == locate_paragraph(doc@, p as int, headings_view(old(headings)@), old(state)@),
{
    let ghost s0 = state@;
    let info = heading_info_of(doc, p);
    update_heading_stack_exec(headings, info);
    let path = heading_path_of(headings);
    let text = empty_to_none(collect_text_from_node(doc, p));
    let direct = paragraph_direct_anchor_texts(doc, p);
    let cell = table_cell_locator_of(doc, p);
    let ids = paragraph_comment_ids_of(doc, p);
    let ghost idv = ids@.map_values(|v: Vec<char>| v@);
    let n = ids.len();
    let mut k: usize = 0;
    while k < n
        invariant
            k <= n == idv.len(),
            idv == ids@.map_values(|v: Vec<char>| v@),
            idv == paragraph_comment_ids(doc@, p as int),
            p < doc@.len(),
            direct.buffers.wf(),
            direct@ == pwalk(doc@, p as int, subtree_end(doc@, p as int), empty_direct()),
            state.wf(),
            state@ == locate_ids(doc@, p as int, s0, idv, k as int, strings_view(path@), opt_str_view(text), cell),
        decreases n - k,
    {
        let id = &ids[k];
        assert(id@ == idv[k as int]);
        let snippet = match direct_text_of(&direct, id) {
            Some(x) => Some(x),
            None => clone_opt_string(&text),
        };
        let (before, after) = context_for_exec(&snippet, &text);
        locate_one_exec(state, id, &path, before, after, cell);
        k = k + 1;
    }
}

/// Gives every paragraph's heading path, context and table cell to the comments it holds.
pub fn apply_paragraph_locators(doc: &XmlDocument, state: &mut AnchorState)
    requires
        old(state).wf(),
    ensures
        final(state).wf(),
        final(state)@ == locate_upto(doc@, doc@.len() as int, old(state)@).1,
{
    let ghost s0 = state@;
    let mut headings: Vec<(usize, String)> = Vec::new();
    assert(headings_view(headings@) =~= Seq::<(usize, Seq<char>)>::empty());
    let n = doc.nodes.len();
    assert(doc@.len() == n);
    let mut j: usize = 0;
    while j < n
        invariant
            j <= n == doc@.len(),
            state.wf(),
            (headings_view(headings@), state@) == locate_upto(doc@, j as int, s0),
        decreases n - j,
    {
        if is_element(doc, j, NS_W, "p") {
            locate_paragraph_exec(doc, j, &mut headings, state);
        }
        j = j + 1;
    }
}

// ---------------------------------------------------------------------------------------
// The result

/// A text anchor with nothing but its comment and text.
pub open spec fn plain_text_anchor(id: Seq<char>, raw: Option<Seq<char>>) -> ParsedAnchorView {
    ParsedAnchorView {
        comment_id: id,
        raw_text: raw,
        target_type: ParsedAnchorTargetType::Text,
        locator: empty_locator(),
        inferred_caption: None,
        image: None,
        table: None,
    }
}

/// The anchors in the end: first one per comment that received range text (in key order),
/// taking over its recorded anchor when there is one, then the recorded anchors left.
pub open spec fn assemble(bk: Seq<Seq<char>>, bt: Seq<Seq<char>>, ak: Seq<Seq<char>>, av: Seq<ParsedAnchorView>) -> Seq<ParsedAnchorView>
    decreases bk.len(),
{
    if bk.len() == 0 || bt.len() == 0 {
        av
    } else {
        let id = bk[0];
        let raw = spec_empty_to_none(bt[0]);
        match key_index(ak, id) {
            Some(k) => seq![ParsedAnchorView { comment_id: id, raw_text: raw, ..av[k] }]
                + assemble(bk.drop_first(), bt.drop_first(), ak.remove(k), av.remove(k)),
            None => seq![plain_text_anchor(id, raw)] + assemble(bk.drop_first(), bt.drop_first(), ak, av),
        }
    }
}

/// The warning for a comment range that never closed.
pub open spec fn broken_anchor_warning(id: Seq<char>) -> DiagnosticWarningView {
    DiagnosticWarningView {
        code: "broken_anchor"@,
        message: "Comment range for "@ + id + " was not closed"@,
        comment_id: Some(id),
        source_part: Some(DOCUMENT_XML_PATH@),
    }
}

/// The scan of a `document.xml` tree: the walk from the root element, then the fallback
/// pass and the locator pass over its paragraphs.
pub open spec fn scan_document(t: Seq<XmlNodeView>) -> AnchorStateView {
    let s1 = match root_element(t) {
        Some(r) => walk(t, r, subtree_end(t, r), empty_state()),
        None => empty_state(),
    };
    let s2 = fallback_upto(t, t.len() as int, s1);
    locate_upto(t, t.len() as int, s2).1
}

/// The anchors and warnings read from a `document.xml` tree.
pub open spec fn spec_document_anchors(t: Seq<XmlNodeView>) -> (Seq<ParsedAnchorView>, Seq<DiagnosticWarningView>) {
    let s = scan_document(t);
    (
        assemble(s.buffer_keys, s.buffer_texts, s.anchor_keys, s.anchors),
        s.active.map_values(|id: Seq<char>| broken_anchor_warning(id)) + s.fallback_warnings,
    )
}

fn broken_anchor_warning_of(id: &Vec<char>) -> (res: DiagnosticWarning)
    ensures
        res@ == broken_anchor_warning(id@),
{
    let id_string = string_from_chars(id);
    let mut message = owned("Comment range for ");
    message.append(id_string.as_str());
    message.append(" was not closed");
    DiagnosticWarning {
        code: owned("broken_anchor"),
        message,
        comment_id: Some(id_string),
        source_part: Some(owned(DOCUMENT_XML_PATH)),
    }
}

fn assemble_exec(state: AnchorState) -> (res: Vec<ParsedAnchor>)
    requires
        state.wf(),
    ensures
        res@.map_values(|a: ParsedAnchor| a@) == assemble(state@.buffer_keys, state@.buffer_texts, state@.anchor_keys, state@.anchors),
{
    let ghost s0 = state@;
    let buffers = state.buffers;
    let mut meta = state.anchors;
    let mut out: Vec<ParsedAnchor> = Vec::new();
    let n = buffers.keys.len();
    let mut k: usize = 0;
    assert(s0.buffer_keys.skip(0) =~= s0.buffer_keys);
    assert(s0.buffer_texts.skip(0) =~= s0.buffer_texts);
    assert(out@.map_values(|a: ParsedAnchor| a@) =~= Seq::<ParsedAnchorView>::empty());
    while k < n
        invariant
            k <= n == buffers.keys@.len() == buffers.values@.len(),
            s0.buffer_keys == buffers.key_view(),
            s0.buffer_texts == strings_view(buffers.values@),
            meta.wf(),
            out@.map_values(|a: ParsedAnchor| a@) + assemble(
                s0.buffer_keys.skip(k as int),
                s0.buffer_texts.skip(k as int),
                meta.key_view(),
                meta.values@.map_values(|a: ParsedAnchor| a@),
            ) == assemble(s0.buffer_keys, s0.buffer_texts, s0.anchor_keys, s0.anchors),
        decreases n - k,
    {
        let ghost bk = s0.buffer_keys.skip(k as int);
        let ghost bt = s0.buffer_texts.skip(k as int);
        assert(bk[0] == buffers.keys@[k as int]@);
        assert(bt[0] == buffers.values@[k as int]@);
        assert(bk.drop_first() =~= s0.buffer_keys.skip(k + 1));
        assert(bt.drop_first() =~= s0.buffer_texts.skip(k + 1));
        let id = &buffers.keys[k];
        let raw = empty_to_none(buffers.values[k].clone());
        let ghost before = out@.map_values(|a: ParsedAnchor| a@);
        let ghost mk = meta.key_view();
        let ghost mv = meta.values@.map_values(|a: ParsedAnchor| a@);
        match meta.find(id) {
            Some(p) => {
                let (_, mut a) = meta.remove_at(p);
                a.comment_id = string_from_chars(id);
                a.raw_text = raw;
                out.push(a);
                assert(meta.values@.map_values(|a: ParsedAnchor| a@) =~= mv.remove(p as int));
                assert(out@.map_values(|a: ParsedAnchor| a@) =~= before.push(ParsedAnchorView {
                    comment_id: bk[0],
                    raw_text: spec_empty_to_none(bt[0]),
                    ..mv[p as int]
                }));
            },
            None => {
                let a = ParsedAnchor {
                    comment_id: string_from_chars(id),
                    raw_text: raw,
                    target_type: ParsedAnchorTargetType::Text,
                    locator: new_locator(),
                    inferred_caption: None,
                    image: None,
                    table: None,
                };
                out.push(a);
                assert(out@.map_values(|a: ParsedAnchor| a@) =~= before.push(plain_text_anchor(bk[0], spec_empty_to_none(bt[0]))));
            },
        }
        k = k + 1;
    }
    let ghost before = out@.map_values(|a: ParsedAnchor| a@);
    let ghost rest = meta.values@.map_values(|a: ParsedAnchor| a@);
    assert(s0.buffer_keys.skip(n as int).len() == 0);
    out.append(&mut meta.values);
    assert(out@.map_values(|a: ParsedAnchor| a@) =~= before + rest);
    out
}

/// Reads the anchors and warnings of a parsed `document.xml` tree.
pub fn document_anchors(doc: &XmlDocument) -> (res: (Vec<ParsedAnchor>, Vec<DiagnosticWarning>))
    ensures
        (res.0@.map_values(|a: ParsedAnchor| a@), res.1@.map_values(|w: DiagnosticWarning| w@)) == spec_document_anchors(doc@),
{
    let mut state = AnchorState::new();
    if let Some(r) = root_element_of(doc) {
        let end = subtree_end_of(doc, r);
        walk_document(doc, r, end, &mut state);
    }
    collect_reference_fallback_anchors(doc, &mut state);
    apply_paragraph_locators(doc, &mut state);
    let ghost s = state@;
    let mut warnings: Vec<DiagnosticWarning> = Vec::new();
    let n = state.active_comment_ids.len();
    let mut k: usize = 0;
    while k < n
        invariant
            k <= n == s.active.len(),
            state@ == s,
            state.wf(),
            warnings@.map_values(|w: DiagnosticWarning| w@) == s.active.take(k as int).map_values(|id: Seq<char>| broken_anchor_warning(id)),
        decreases n - k,
    {
        let ghost before = warnings@.map_values(|w: DiagnosticWarning| w@);
        assert(state.active_comment_ids@[k as int]@ == s.active[k as int]);
        warnings.push(broken_anchor_warning_of(&state.active_comment_ids[k]));
        assert(warnings@.map_values(|w: DiagnosticWarning| w@) =~= before.push(broken_anchor_warning(s.active[k as int])));
        assert(s.active.take(k + 1) =~= s.active.take(k as int).push(s.active[k as int]));
        assert(warnings@.map_values(|w: DiagnosticWarning| w@) =~= s.active.take(k + 1).map_values(|id: Seq<char>| broken_anchor_warning(id)));
        k = k + 1;
    }
    assert(s.active.take(n as int) =~= s.active);
    let ghost w0 = warnings@.map_values(|w: DiagnosticWarning| w@);
    let mut fallback = state.reference_fallback_warnings;
    let anchors_in = AnchorState {
        active_comment_ids: Vec::new(),
        buffers: state.buffers,
        anchors: state.anchors,
        reference_fallback_warnings: Vec::new(),
        table_stack: Vec::new(),
        next_table_index: 0,
    };
    warnings.append(&mut fallback);
    assert(warnings@.map_values(|w: DiagnosticWarning| w@) =~= w0 + s.fallback_warnings);
    let anchors = assemble_exec(anchors_in);
    (anchors, warnings)
}

} // verus!
