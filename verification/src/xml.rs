//! A plain model of a parsed XML tree: the nodes in document order, each with its
//! parent and the size of its subtree, and the queries that the parsers make on it.
use vstd::prelude::*;
use roxmltree::Document;

use crate::text::{opt_str_view, spec_trim_trailing_newlines, str_eq, trim_trailing_newlines};

verus! {

pub const NS_W: &'static str = "http://schemas.openxmlformats.org/wordprocessingml/2006/main";
pub const NS_W14: &'static str = "http://schemas.microsoft.com/office/word/2010/wordml";
pub const NS_W15: &'static str = "http://schemas.microsoft.com/office/word/2012/wordml";
pub const NS_WP: &'static str = "http://schemas.openxmlformats.org/drawingml/2006/wordprocessingDrawing";
pub const NS_A: &'static str = "http://schemas.openxmlformats.org/drawingml/2006/main";
pub const NS_R: &'static str = "http://schemas.openxmlformats.org/officeDocument/2006/relationships";

/// One attribute of an element.
pub struct XmlAttribute {
    pub namespace: Option<String>,
    pub name: String,
    pub value: String,
}

/// One node of the tree. `parent` and the positions are indices into the node vector;
/// `descendant_count` counts the node itself and everything below it, which follow it
/// directly in document order.
pub struct XmlNode {
    pub is_element: bool,
    pub namespace: Option<String>,
    pub name: String,
    pub text: Option<String>,
    pub attributes: Vec<XmlAttribute>,
    pub parent: Option<usize>,
    pub descendant_count: usize,
}

/// A parsed document: its nodes in document order, the root node first.
pub struct XmlDocument {
    pub nodes: Vec<XmlNode>,
}

pub struct XmlAttributeView {
    pub namespace: Option<Seq<char>>,
    pub name: Seq<char>,
    pub value: Seq<char>,
}

pub struct XmlNodeView {
    pub is_element: bool,
    pub namespace: Option<Seq<char>>,
    pub name: Seq<char>,
    pub text: Option<Seq<char>>,
    pub attributes: Seq<XmlAttributeView>,
    pub parent: Option<usize>,
    pub descendant_count: usize,
}

impl View for XmlAttribute {
    type V = XmlAttributeView;

    open spec fn view(&self) -> XmlAttributeView {
        XmlAttributeView {
            namespace: opt_str_view(self.namespace),
            name: self.name@,
            value: self.value@,
        }
    }
}

impl View for XmlNode {
    type V = XmlNodeView;

    open spec fn view(&self) -> XmlNodeView {
        XmlNodeView {
            is_element: self.is_element,
            namespace: opt_str_view(self.namespace),
            name: self.name@,
            text: opt_str_view(self.text),
            attributes: self.attributes@.map_values(|a: XmlAttribute| a@),
            parent: self.parent,
            descendant_count: self.descendant_count,
        }
    }
}

impl View for XmlDocument {
    type V = Seq<XmlNodeView>;

    open spec fn view(&self) -> Seq<XmlNodeView> {
        self.nodes@.map_values(|n: XmlNode| n@)
    }
}

/// What `roxmltree::Document::parse` gives for a text: the nodes of the tree in document
/// order, or the parser's error message.
pub uninterp spec fn roxmltree_parse(xml: Seq<char>) -> Result<Seq<XmlNodeView>, Seq<char>>;

/// Parses `xml` with `roxmltree::Document::parse`. On success each node of the tree
/// (`Document::descendants`, root first, in document order) becomes one `XmlNode`: its kind,
/// tag name and namespace, `Node::text`, attributes in order, the index of its parent
/// (`NodeId`) and the number of nodes `Node::descendants` yields for it. On failure the error's
/// `Display` text is returned. The contract only names the outcome: it is a function of
/// `xml` alone.
#[verifier::external_body]
pub(crate) fn parse_xml_document(xml: &str) -> (res: Result<Vec<XmlNode>, String>)
    ensures
        match res {
            Ok(nodes) => roxmltree_parse(xml@) == Ok::<Seq<XmlNodeView>, Seq<char>>(nodes@.map_values(|n: XmlNode| n@)),
            Err(msg) => roxmltree_parse(xml@) == Err::<Seq<XmlNodeView>, Seq<char>>(msg@),
        },
{
    Document::parse(xml).map(|doc| doc.descendants().map(|n| XmlNode {
        is_element: n.is_element(),
        namespace: n.tag_name().namespace().map(Into::into),
        name: n.tag_name().name().into(),
        text: n.text().map(Into::into),
        attributes: n.attributes().map(|a| XmlAttribute {
            namespace: a.namespace().map(Into::into),
            name: a.name().into(),
            value: a.value().into() }).collect(),
        parent: n.parent().map(|p| p.id().get_usize()),
        descendant_count: n.descendants().count() }).collect()).map_err(|e| e.to_string())
}

/// End (exclusive) of the range that holds node `i` and its descendants; a count that does
/// not fit the document is read as the node alone.
pub open spec fn subtree_end(t: Seq<XmlNodeView>, i: int) -> int {
    if 1 <= t[i].descendant_count && i + t[i].descendant_count <= t.len() {
        i + t[i].descendant_count
    } else {
        i + 1
    }
}

/// The position after child `j` of a node whose range ends at `parent_end`: the next child.
pub open spec fn next_child(t: Seq<XmlNodeView>, parent_end: int, j: int) -> int {
    if subtree_end(t, j) <= parent_end {
        subtree_end(t, j)
    } else {
        parent_end
    }
}

/// The parent of node `i`, when it stands before `i`.
pub open spec fn spec_parent(t: Seq<XmlNodeView>, i: int) -> Option<int> {
    match t[i].parent {
        Some(p) => if (p as int) < i { Some(p as int) } else { None },
        None => None,
    }
}

/// Node `i` is an element with the given namespace and local name.
pub open spec fn is_el(t: Seq<XmlNodeView>, i: int, ns: Seq<char>, name: Seq<char>) -> bool {
    &&& 0 <= i < t.len()
    &&& t[i].is_element
    &&& t[i].namespace == Some(ns)
    &&& t[i].name == name
}

pub fn subtree_end_of(doc: &XmlDocument, i: usize) -> (res: usize)
    requires
        i < doc@.len(),
    ensures
        res == subtree_end(doc@, i as int),
        i < res <= doc@.len(),
{
    assert(doc@.len() == doc.nodes@.len());
    let len = doc.nodes.len();
    let count = doc.nodes[i].descendant_count;
    if 1 <= count && count <= len - i {
        i + count
    } else {
        i + 1
    }
}

pub fn next_child_of(doc: &XmlDocument, parent_end: usize, j: usize) -> (res: usize)
    requires
        j < parent_end <= doc@.len(),
    ensures
        res == next_child(doc@, parent_end as int, j as int),
        j < res <= parent_end,
{
    let e = subtree_end_of(doc, j);
    if e <= parent_end {
        e
    } else {
        parent_end
    }
}

pub fn parent_of(doc: &XmlDocument, i: usize) -> (res: Option<usize>)
    requires
        i < doc@.len(),
    ensures
        match res {
            Some(p) => spec_parent(doc@, i as int) == Some(p as int),
            None => spec_parent(doc@, i as int) is None,
        },
{
    match doc.nodes[i].parent {
        Some(p) => if p < i { Some(p) } else { None },
        None => None,
    }
}

pub fn is_element(doc: &XmlDocument, i: usize, ns: &str, name: &str) -> (res: bool)
    requires
        i < doc@.len(),
    ensures
        res == is_el(doc@, i as int, ns@, name@),
{
    let node = &doc.nodes[i];
    if !node.is_element {
        return false;
    }
    let ns_ok = match &node.namespace {
        Some(n) => str_eq(n.as_str(), ns),
        None => false,
    };
    ns_ok && str_eq(node.name.as_str(), name)
}

/// First attribute value whose namespace is one of `nss` and whose local name is `name`.
pub open spec fn spec_attr(attrs: Seq<XmlAttributeView>, nss: Seq<Seq<char>>, name: Seq<char>) -> Option<Seq<char>>
    decreases attrs.len(),
{
    if attrs.len() == 0 {
        None
    } else if attrs[0].namespace matches Some(n) && nss.contains(n) && attrs[0].name == name {
        Some(attrs[0].value)
    } else {
        spec_attr(attrs.drop_first(), nss, name)
    }
}

/// First attribute value without a namespace whose local name is `name`.
pub open spec fn spec_attr_no_ns(attrs: Seq<XmlAttributeView>, name: Seq<char>) -> Option<Seq<char>>
    decreases attrs.len(),
{
    if attrs.len() == 0 {
        None
    } else if attrs[0].namespace is None && attrs[0].name == name {
        Some(attrs[0].value)
    } else {
        spec_attr_no_ns(attrs.drop_first(), name)
    }
}

pub open spec fn node_attr(t: Seq<XmlNodeView>, i: int, ns: Seq<char>, name: Seq<char>) -> Option<Seq<char>> {
    spec_attr(t[i].attributes, seq![ns], name)
}

fn find_attr(node: &XmlNode, ns1: &str, ns2: Option<&str>, name: &str) -> (res: Option<String>)
    ensures
        opt_str_view(res) == spec_attr(
            node@.attributes,
            match ns2 { Some(n2) => seq![ns1@, n2@], None => seq![ns1@] },
            name@,
        ),
{
    let ghost nss = match ns2 { Some(n2) => seq![ns1@, n2@], None => seq![ns1@] };
    let ghost attrs = node@.attributes;
    let n = node.attributes.len();
    assert(attrs.subrange(0, n as int) =~= attrs);
    let mut k: usize = 0;
    while k < n
        invariant
            n == node.attributes@.len(),
            attrs == node.attributes@.map_values(|a: XmlAttribute| a@),
            nss == match ns2 { Some(n2) => seq![ns1@, n2@], None => seq![ns1@] },
            k <= n,
            spec_attr(attrs.subrange(k as int, n as int), nss, name@) == spec_attr(attrs, nss, name@),
        decreases n - k,
    {
        let a = &node.attributes[k];
        let ghost rest = attrs.subrange(k as int, n as int);
        assert(rest[0] == a@);
        assert(rest.drop_first() =~= attrs.subrange(k + 1, n as int));
        let ns_ok = match &a.namespace {
            Some(an) => {
                let first = str_eq(an.as_str(), ns1);
                let second = match ns2 {
                    Some(n2) => str_eq(an.as_str(), n2),
                    None => false,
                };
                proof {
                    match ns2 {
                        Some(n2) => {
                            assert(nss =~= seq![ns1@, n2@]);
                            assert(nss.contains(an@) == (an@ == ns1@ || an@ == n2@)) by {
                                if an@ == n2@ { assert(nss[1] == an@); }
                                if an@ == ns1@ { assert(nss[0] == an@); }
                            }
                        },
                        None => {
                            assert(nss =~= seq![ns1@]);
                            assert(nss.contains(an@) == (an@ == ns1@)) by {
                                if an@ == ns1@ { assert(nss[0] == an@); }
                            }
                        },
                    }
                }
                first || second
            },
            None => false,
        };
        if ns_ok && str_eq(a.name.as_str(), name) {
            return Some(a.value.clone());
        }
        k = k + 1;
    }
    assert(attrs.subrange(n as int, n as int).len() == 0);
    None
}

/// Value of the attribute `ns:name` of node `i`.
pub fn optional_attr(doc: &XmlDocument, i: usize, ns: &str, name: &str) -> (res: Option<String>)
    requires
        i < doc@.len(),
    ensures
        opt_str_view(res) == node_attr(doc@, i as int, ns@, name@),
{
    assert(doc@[i as int] == doc.nodes@[i as int]@);
    find_attr(&doc.nodes[i], ns, None, name)
}

/// Value of the first attribute of node `i` named `name` in either namespace.
pub fn optional_attr_either(doc: &XmlDocument, i: usize, ns1: &str, ns2: &str, name: &str) -> (res: Option<String>)
    requires
        i < doc@.len(),
    ensures
        opt_str_view(res) == spec_attr(doc@[i as int].attributes, seq![ns1@, ns2@], name@),
{
    assert(doc@[i as int] == doc.nodes@[i as int]@);
    find_attr(&doc.nodes[i], ns1, Some(ns2), name)
}

/// Value of the attribute `name` without a namespace of node `i`.
pub fn optional_attr_no_namespace(doc: &XmlDocument, i: usize, name: &str) -> (res: Option<String>)
    requires
        i < doc@.len(),
    ensures
        opt_str_view(res) == spec_attr_no_ns(doc@[i as int].attributes, name@),
{
    let node = &doc.nodes[i];
    assert(doc@[i as int] == node@);
    let ghost attrs = node@.attributes;
    let n = node.attributes.len();
    assert(attrs.subrange(0, n as int) =~= attrs);
    let mut k: usize = 0;
    while k < n
        invariant
            n == node.attributes@.len(),
            attrs == node.attributes@.map_values(|a: XmlAttribute| a@),
            attrs == doc@[i as int].attributes,
            i < doc@.len(),
            k <= n,
            spec_attr_no_ns(attrs.subrange(k as int, n as int), name@) == spec_attr_no_ns(attrs, name@),
        decreases n - k,
    {
        let a = &node.attributes[k];
        let ghost rest = attrs.subrange(k as int, n as int);
        assert(rest[0] == a@);
        assert(rest.drop_first() =~= attrs.subrange(k + 1, n as int));
        if a.namespace.is_none() && str_eq(a.name.as_str(), name) {
            return Some(a.value.clone());
        }
        k = k + 1;
    }
    assert(attrs.subrange(n as int, n as int).len() == 0);
    None
}


/// What one node adds to the text of a subtree: a run's text, a tab, a line break.
pub open spec fn text_piece(t: Seq<XmlNodeView>, j: int) -> Seq<char> {
    (if is_el(t, j, NS_W@, "t"@) {
        match t[j].text {
            Some(s) => s,
            None => Seq::<char>::empty(),
        }
    } else {
        Seq::<char>::empty()
    }) + (if is_el(t, j, NS_W@, "tab"@) {
        "\t"@
    } else {
        Seq::<char>::empty()
    }) + (if is_el(t, j, NS_W@, "br"@) || is_el(t, j, NS_W@, "cr"@) {
        "\n"@
    } else {
        Seq::<char>::empty()
    })
}

/// The pieces of the nodes `a .. b`, in document order.
pub open spec fn range_text(t: Seq<XmlNodeView>, a: int, b: int) -> Seq<char>
    decreases b - a,
{
    if b <= a {
        Seq::<char>::empty()
    } else {
        range_text(t, a, b - 1) + text_piece(t, b - 1)
    }
}

/// The text of node `i` and its descendants, trailing line feeds removed.
pub open spec fn node_text(t: Seq<XmlNodeView>, i: int) -> Seq<char> {
    spec_trim_trailing_newlines(range_text(t, i, subtree_end(t, i)))
}

pub fn append_text_piece(doc: &XmlDocument, j: usize, buffer: &mut String)
    requires
        j < doc@.len(),
    ensures
        final(buffer)@ == old(buffer)@ + text_piece(doc@, j as int),
{
    let ghost start = buffer@;
    if is_element(doc, j, NS_W, "t") {
        assert(doc@[j as int] == doc.nodes@[j as int]@);
        match &doc.nodes[j].text {
            Some(s) => buffer.append(s.as_str()),
            None => {},
        }
    }
    let ghost after_t = buffer@;
    if is_element(doc, j, NS_W, "tab") {
        buffer.append("\t");
    }
    let ghost after_tab = buffer@;
    if is_element(doc, j, NS_W, "br") || is_element(doc, j, NS_W, "cr") {
        buffer.append("\n");
    }
    assert(buffer@ =~= start + text_piece(doc@, j as int));
}

pub fn range_text_of(doc: &XmlDocument, a: usize, b: usize) -> (res: String)
    requires
        a <= b <= doc@.len(),
    ensures
        res@ == range_text(doc@, a as int, b as int),
{
    let mut buffer = String::new();
    let mut j = a;
    while j < b
        invariant
            a <= j <= b <= doc@.len(),
            buffer@ == range_text(doc@, a as int, j as int),
        decreases b - j,
    {
        append_text_piece(doc, j, &mut buffer);
        j = j + 1;
    }
    buffer
}

/// Text of a node and its descendants, without trailing line feeds.
pub fn collect_text_from_node(doc: &XmlDocument, i: usize) -> (res: String)
    requires
        i < doc@.len(),
    ensures
        res@ == node_text(doc@, i as int),
{
    let end = subtree_end_of(doc, i);
    trim_trailing_newlines(range_text_of(doc, i, end))
}

/// The first of the nodes `a .. b` that is the element `ns:name`.
pub open spec fn first_el_in(t: Seq<XmlNodeView>, a: int, b: int, ns: Seq<char>, name: Seq<char>) -> Option<int>
    decreases b - a,
{
    if b <= a {
        None
    } else if is_el(t, a, ns, name) {
        Some(a)
    } else {
        first_el_in(t, a + 1, b, ns, name)
    }
}

/// The first node of node `i`'s subtree (`i` itself included) that is the element `ns:name`.
pub open spec fn first_descendant_el(t: Seq<XmlNodeView>, i: int, ns: Seq<char>, name: Seq<char>) -> Option<int> {
    first_el_in(t, i, subtree_end(t, i), ns, name)
}

pub fn find_in_range(doc: &XmlDocument, a: usize, b: usize, ns: &str, name: &str) -> (res: Option<usize>)
    requires
        a <= b <= doc@.len(),
    ensures
        match res {
            Some(k) => first_el_in(doc@, a as int, b as int, ns@, name@) == Some(k as int),
            None => first_el_in(doc@, a as int, b as int, ns@, name@) is None,
        },
{
    let mut j = a;
    while j < b
        invariant
            a <= j <= b <= doc@.len(),
            first_el_in(doc@, j as int, b as int, ns@, name@) == first_el_in(doc@, a as int, b as int, ns@, name@),
        decreases b - j,
    {
        if is_element(doc, j, ns, name) {
            return Some(j);
        }
        j = j + 1;
    }
    None
}

pub fn first_descendant(doc: &XmlDocument, i: usize, ns: &str, name: &str) -> (res: Option<usize>)
    requires
        i < doc@.len(),
    ensures
        match res {
            Some(k) => first_descendant_el(doc@, i as int, ns@, name@) == Some(k as int) && k < doc@.len(),
            None => first_descendant_el(doc@, i as int, ns@, name@) is None,
        },
{
    let end = subtree_end_of(doc, i);
    let r = find_in_range(doc, i, end, ns, name);
    proof {
        if r is Some {
            lemma_first_el_in_bounds(doc@, i as int, end as int, ns@, name@);
        }
    }
    r
}

pub proof fn lemma_first_el_in_bounds(t: Seq<XmlNodeView>, a: int, b: int, ns: Seq<char>, name: Seq<char>)
    ensures
        first_el_in(t, a, b, ns, name) matches Some(k) ==> a <= k < b && is_el(t, k, ns, name),
    decreases b - a,
{
    if a < b && !is_el(t, a, ns, name) {
        lemma_first_el_in_bounds(t, a + 1, b, ns, name);
    }
}

/// The nearest of node `i` and its ancestors that is the element `ns:name`.
pub open spec fn ancestor_el(t: Seq<XmlNodeView>, i: int, ns: Seq<char>, name: Seq<char>) -> Option<int>
    decreases i,
{
    if !(0 <= i < t.len()) {
        None
    } else if is_el(t, i, ns, name) {
        Some(i)
    } else {
        match spec_parent(t, i) {
            Some(p) => ancestor_el(t, p, ns, name),
            None => None,
        }
    }
}

pub proof fn lemma_ancestor_el_bounds(t: Seq<XmlNodeView>, i: int, ns: Seq<char>, name: Seq<char>)
    ensures
        ancestor_el(t, i, ns, name) matches Some(k) ==> 0 <= k <= i && is_el(t, k, ns, name),
    decreases i,
{
    if 0 <= i < t.len() && !is_el(t, i, ns, name) {
        if let Some(p) = spec_parent(t, i) {
            lemma_ancestor_el_bounds(t, p, ns, name);
        }
    }
}

pub fn find_ancestor(doc: &XmlDocument, i: usize, ns: &str, name: &str) -> (res: Option<usize>)
    requires
        i < doc@.len(),
    ensures
        match res {
            Some(k) => ancestor_el(doc@, i as int, ns@, name@) == Some(k as int) && k <= i,
            None => ancestor_el(doc@, i as int, ns@, name@) is None,
        },
{
    let mut cur = i;
    loop
        invariant
            cur <= i < doc@.len(),
            ancestor_el(doc@, cur as int, ns@, name@) == ancestor_el(doc@, i as int, ns@, name@),
        decreases cur,
    {
        if is_element(doc, cur, ns, name) {
            return Some(cur);
        }
        match parent_of(doc, cur) {
            Some(p) => {
                cur = p;
            },
            None => {
                return None;
            },
        }
    }
}

/// Walking the children of a node whose range ends at `pe`, from child `j` on: the first
/// that is an element.
pub open spec fn first_element_from(t: Seq<XmlNodeView>, pe: int, j: int) -> Option<int>
    decreases pe - j,
{
    if j < 0 || j >= pe || pe > t.len() {
        None
    } else if t[j].is_element {
        Some(j)
    } else {
        first_element_from(t, pe, next_child(t, pe, j))
    }
}

/// Walking the children of a node whose range ends at `pe`, from child `j` up to node `i`:
/// the last element met before `i`.
pub open spec fn last_element_before(t: Seq<XmlNodeView>, pe: int, j: int, i: int, last: Option<int>) -> Option<int>
    decreases pe - j,
{
    if j < 0 || j >= i || j >= pe || pe > t.len() {
        last
    } else {
        last_element_before(t, pe, next_child(t, pe, j), i, if t[j].is_element { Some(j) } else { last })
    }
}

/// The next sibling of node `i` that is an element.
pub open spec fn next_sibling_element(t: Seq<XmlNodeView>, i: int) -> Option<int> {
    match spec_parent(t, i) {
        Some(p) => {
            let pe = subtree_end(t, p);
            if i < pe {
                first_element_from(t, pe, next_child(t, pe, i))
            } else {
                None
            }
        },
        None => None,
    }
}

/// The previous sibling of node `i` that is an element.
pub open spec fn prev_sibling_element(t: Seq<XmlNodeView>, i: int) -> Option<int> {
    match spec_parent(t, i) {
        Some(p) => last_element_before(t, subtree_end(t, p), p + 1, i, None),
        None => None,
    }
}

/// The first child of the root node that is an element.
pub open spec fn root_element(t: Seq<XmlNodeView>) -> Option<int> {
    if t.len() == 0 {
        None
    } else {
        first_element_from(t, subtree_end(t, 0), 1)
    }
}

pub proof fn lemma_first_element_from_bounds(t: Seq<XmlNodeView>, pe: int, j: int)
    ensures
        first_element_from(t, pe, j) matches Some(k) ==> j <= k < pe <= t.len(),
    decreases pe - j,
{
    if !(j < 0 || j >= pe || pe > t.len()) && !t[j].is_element {
        lemma_first_element_from_bounds(t, pe, next_child(t, pe, j));
    }
}

pub proof fn lemma_last_element_before_bounds(t: Seq<XmlNodeView>, pe: int, j: int, i: int, last: Option<int>)
    requires
        last matches Some(k) ==> 0 <= k < t.len(),
    ensures
        last_element_before(t, pe, j, i, last) matches Some(k) ==> 0 <= k < t.len(),
    decreases pe - j,
{
    if !(j < 0 || j >= i || j >= pe || pe > t.len()) {
        lemma_last_element_before_bounds(t, pe, next_child(t, pe, j), i, if t[j].is_element { Some(j) } else { last });
    }
}

fn first_element_child_from(doc: &XmlDocument, pe: usize, j: usize) -> (res: Option<usize>)
    requires
        pe <= doc@.len(),
    ensures
        match res {
            Some(k) => first_element_from(doc@, pe as int, j as int) == Some(k as int) && k < doc@.len(),
            None => first_element_from(doc@, pe as int, j as int) is None,
        },
{
    proof { lemma_first_element_from_bounds(doc@, pe as int, j as int); }
    let mut cur = j;
    while cur < pe
        invariant
            pe <= doc@.len(),
            first_element_from(doc@, pe as int, cur as int) == first_element_from(doc@, pe as int, j as int),
        decreases pe - cur,
    {
        assert(doc@[cur as int] == doc.nodes@[cur as int]@);
        if doc.nodes[cur].is_element {
            return Some(cur);
        }
        cur = next_child_of(doc, pe, cur);
    }
    None
}

pub fn next_sibling_element_of(doc: &XmlDocument, i: usize) -> (res: Option<usize>)
    requires
        i < doc@.len(),
    ensures
        match res {
            Some(k) => next_sibling_element(doc@, i as int) == Some(k as int) && k < doc@.len(),
            None => next_sibling_element(doc@, i as int) is None,
        },
{
    match parent_of(doc, i) {
        Some(p) => {
            let pe = subtree_end_of(doc, p);
            if i < pe {
                let n = next_child_of(doc, pe, i);
                first_element_child_from(doc, pe, n)
            } else {
                None
            }
        },
        None => None,
    }
}

pub fn prev_sibling_element_of(doc: &XmlDocument, i: usize) -> (res: Option<usize>)
    requires
        i < doc@.len(),
    ensures
        match res {
            Some(k) => prev_sibling_element(doc@, i as int) == Some(k as int) && k < doc@.len(),
            None => prev_sibling_element(doc@, i as int) is None,
        },
{
    match parent_of(doc, i) {
        Some(p) => {
            let pe = subtree_end_of(doc, p);
            let mut j = p + 1;
            let mut last: Option<usize> = None;
            proof { lemma_last_element_before_bounds(doc@, pe as int, j as int, i as int, None); }
            while j < i && j < pe
                invariant
                    pe <= doc@.len(),
                    last matches Some(k) ==> k < doc@.len(),
                    last_element_before(doc@, pe as int, j as int, i as int,
                        match last { Some(k) => Some(k as int), None => None })
                        == prev_sibling_element(doc@, i as int),
                decreases pe - j,
            {
                assert(doc@[j as int] == doc.nodes@[j as int]@);
                if doc.nodes[j].is_element {
                    last = Some(j);
                }
                j = next_child_of(doc, pe, j);
            }
            proof { lemma_last_element_before_bounds(doc@, pe as int, j as int, i as int, match last { Some(k) => Some(k as int), None => None }); }
            last
        },
        None => None,
    }
}

pub fn root_element_of(doc: &XmlDocument) -> (res: Option<usize>)
    ensures
        match res {
            Some(k) => root_element(doc@) == Some(k as int) && k < doc@.len(),
            None => root_element(doc@) is None,
        },
{
    if doc.nodes.len() == 0 {
        return None;
    }
    let pe = subtree_end_of(doc, 0);
    first_element_child_from(doc, pe, 1)
}

} // verus!
