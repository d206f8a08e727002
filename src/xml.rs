//! Reading a place document: the markup parser's nodes, flattened into a
//! list, and the object tree built from them.
use vstd::prelude::*;
use crate::node::{Property, SourceNode};
use crate::record::opt_view;
use crate::text::{owned, same_text};

verus! {

#[verifier::external_type_specification]
#[verifier::external_body]
pub struct ExXmlError(roxmltree::Error);

/// One node of a parsed document, with its children given as positions in
/// the list of all nodes.
pub struct XmlNode {
    pub tag: String,
    pub is_element: bool,
    pub class: Option<String>,
    pub name: Option<String>,
    pub text: Option<String>,
    pub children: Vec<usize>,
}

/// Why a document could not be read.
pub enum LoadError {
    /// The text is not well-formed markup.
    Syntax,
    /// The parsed nodes do not form a tree in document order.
    Malformed,
}

/// Whether `roxmltree::Document::parse` accepts the text.
pub uninterp spec fn parses(text: Seq<char>) -> bool;

/// The node list that `parse_nodes` makes of a text that parses.
pub uninterp spec fn parsed_nodes(text: Seq<char>) -> Seq<XmlNode>;

/// Relies on `roxmltree::Document::parse`; each node of `descendants()`, in
/// order, becomes one entry, with the positions of its `children()`.  The
/// document node always comes first, and nodes are stored in document
/// order with `NodeId::get_usize` as their position, so every child comes
/// after its parent.
#[verifier::external_body]
fn parse_nodes(text: &str) -> (r: Result<Vec<XmlNode>, roxmltree::Error>)
    ensures
        r is Ok == parses(text@),
        r is Ok ==> r->Ok_0@ == parsed_nodes(text@) && r->Ok_0@.len() > 0 && well_ordered(r->Ok_0@),
{
    let doc = roxmltree::Document::parse(text)?;
    Ok(doc.descendants().map(|n| XmlNode {
        tag: n.tag_name().name().to_string(),
        is_element: n.is_element(),
        class: n.attribute("class").map(|s| s.to_string()),
        name: n.attribute("name").map(|s| s.to_string()),
        text: n.text().map(|s| s.to_string()),
        children: n.children().map(|c| c.id().get_usize()).collect(),
    }).collect())
}

/// Every child of a node comes after it in the list, and within it.
pub open spec fn well_ordered(a: Seq<XmlNode>) -> bool {
    forall|k: int, j: int|
        0 <= k < a.len() && 0 <= j < a[k].children@.len() ==> k < #[trigger] a[k].children@[j] < a.len()
}

/// An element with the given tag.
pub open spec fn tagged(a: Seq<XmlNode>, c: usize, tag: Seq<char>) -> bool {
    c < a.len() && a[c as int].is_element && a[c as int].tag@ == tag
}

/// The ids among `ids` that are elements tagged `tag`, in order.
pub open spec fn tagged_ids(a: Seq<XmlNode>, ids: Seq<usize>, tag: Seq<char>) -> Seq<usize>
    decreases ids.len(),
{
    if ids.len() == 0 {
        Seq::empty()
    } else {
        let pre = tagged_ids(a, ids.drop_last(), tag);
        if tagged(a, ids.last(), tag) {
            pre.push(ids.last())
        } else {
            pre
        }
    }
}

/// The ids among `ids` that are elements in range, in order.
pub open spec fn element_ids(a: Seq<XmlNode>, ids: Seq<usize>) -> Seq<usize>
    decreases ids.len(),
{
    if ids.len() == 0 {
        Seq::empty()
    } else {
        let pre = element_ids(a, ids.drop_last());
        if ids.last() < a.len() && a[ids.last() as int].is_element {
            pre.push(ids.last())
        } else {
            pre
        }
    }
}

pub open spec fn item_ids(a: Seq<XmlNode>, k: int) -> Seq<usize> {
    tagged_ids(a, a[k].children@, "Item"@)
}

/// The property entries: the element children of the first `Properties`
/// child, with their `name` attributes and texts.
pub open spec fn entries_match(a: Seq<XmlNode>, k: int, p: Option<Vec<Property>>) -> bool {
    let found = tagged_ids(a, a[k].children@, "Properties"@);
    if found.len() == 0 {
        p is None
    } else {
        let es = element_ids(a, a[found[0] as int].children@);
        &&& p is Some
        &&& p->0@.len() == es.len()
        &&& forall|j: int| 0 <= j < es.len() ==> {
            &&& opt_view(#[trigger] p->0@[j].name) == opt_view(a[es[j] as int].name)
            &&& opt_view(p->0@[j].text) == opt_view(a[es[j] as int].text)
        }
    }
}

/// `n` is the object built from the node at position `k`: its class, its
/// property entries, and its item children built in order.
pub open spec fn builds(a: Seq<XmlNode>, k: int, n: SourceNode) -> bool
    decreases n,
{
    &&& 0 <= k < a.len()
    &&& opt_view(n.class) == opt_view(a[k].class)
    &&& entries_match(a, k, n.properties)
    &&& n.children@.len() == item_ids(a, k).len()
    &&& forall|j: int| 0 <= j < n.children@.len() ==> builds(a, item_ids(a, k)[j] as int, #[trigger] n.children@[j])
}

/// The top-level item positions: the items under the document node, then
/// those under its first `roblox` element.
pub open spec fn top_ids(a: Seq<XmlNode>) -> Seq<usize> {
    let roots = tagged_ids(a, a[0].children@, "roblox"@);
    tagged_ids(a, a[0].children@, "Item"@) + if roots.len() == 0 {
        Seq::empty()
    } else {
        tagged_ids(a, a[roots[0] as int].children@, "Item"@)
    }
}

proof fn lemma_tagged_ids_from(a: Seq<XmlNode>, ids: Seq<usize>, tag: Seq<char>)
    ensures
        forall|j: int| 0 <= j < tagged_ids(a, ids, tag).len() ==> tagged(a, #[trigger] tagged_ids(a, ids, tag)[j], tag)
            && ids.contains(tagged_ids(a, ids, tag)[j]),
    decreases ids.len(),
{
    if ids.len() > 0 {
        lemma_tagged_ids_from(a, ids.drop_last(), tag);
        let pre = tagged_ids(a, ids.drop_last(), tag);
        assert forall|j: int| 0 <= j < pre.len() implies ids.contains(pre[j]) by {
            let i = choose|i: int| 0 <= i < ids.drop_last().len() && ids.drop_last()[i] == pre[j];
            assert(ids[i] == pre[j]);
        }
        assert(ids[ids.len() - 1] == ids.last());
    }
}

fn find_tagged(a: &Vec<XmlNode>, ids: &Vec<usize>, tag: &str) -> (r: Vec<usize>)
    ensures
        r@ == tagged_ids(a@, ids@, tag@),
{
    let mut r: Vec<usize> = Vec::new();
    let mut i: usize = 0;
    while i < ids.len()
        invariant
            i <= ids@.len(),
            r@ == tagged_ids(a@, ids@.subrange(0, i as int), tag@),
        decreases ids.len() - i,
    {
        let c = ids[i];
        assert(ids@.subrange(0, i + 1).drop_last() == ids@.subrange(0, i as int));
        if c < a.len() && a[c].is_element && same_text(a[c].tag.as_str(), tag) {
            r.push(c);
        }
        i = i + 1;
    }
    assert(ids@.subrange(0, ids@.len() as int) == ids@);
    r
}

fn find_elements(a: &Vec<XmlNode>, ids: &Vec<usize>) -> (r: Vec<usize>)
    ensures
        r@ == element_ids(a@, ids@),
{
    let mut r: Vec<usize> = Vec::new();
    let mut i: usize = 0;
    while i < ids.len()
        invariant
            i <= ids@.len(),
            r@ == element_ids(a@, ids@.subrange(0, i as int)),
        decreases ids.len() - i,
    {
        let c = ids[i];
        assert(ids@.subrange(0, i + 1).drop_last() == ids@.subrange(0, i as int));
        if c < a.len() && a[c].is_element {
            r.push(c);
        }
        i = i + 1;
    }
    assert(ids@.subrange(0, ids@.len() as int) == ids@);
    r
}

fn copy_text(o: &Option<String>) -> (r: Option<String>)
    ensures
        opt_view(r) == opt_view(*o),
{
    match o {
        Some(s) => Some(owned(s.as_str())),
        None => None,
    }
}

fn build_properties(a: &Vec<XmlNode>, k: usize) -> (r: Option<Vec<Property>>)
    requires
        k < a@.len(),
    ensures
        entries_match(a@, k as int, r),
{
    let found = find_tagged(a, &a[k].children, "Properties");
    if found.len() == 0 {
        return None;
    }
    proof {
        lemma_tagged_ids_from(a@, a@[k as int].children@, "Properties"@);
    }
    let es = find_elements(a, &a[found[0]].children);
    let mut ps: Vec<Property> = Vec::new();
    let mut i: usize = 0;
    while i < es.len()
        invariant
            i <= es@.len(),
            es@ == element_ids(a@, a@[found@[0] as int].children@),
            ps@.len() == i,
            forall|j: int| 0 <= j < i ==> {
                &&& opt_view(#[trigger] ps@[j].name) == opt_view(a@[es@[j] as int].name)
                &&& opt_view(ps@[j].text) == opt_view(a@[es@[j] as int].text)
            },
        decreases es.len() - i,
    {
        proof {
            lemma_element_ids_in_range(a@, a@[found@[0] as int].children@);
        }
        let e = &a[es[i]];
        ps.push(Property { name: copy_text(&e.name), text: copy_text(&e.text) });
        i = i + 1;
    }
    Some(ps)
}

proof fn lemma_element_ids_in_range(a: Seq<XmlNode>, ids: Seq<usize>)
    ensures
        forall|j: int| 0 <= j < element_ids(a, ids).len() ==> #[trigger] element_ids(a, ids)[j] < a.len(),
    decreases ids.len(),
{
    if ids.len() > 0 {
        lemma_element_ids_in_range(a, ids.drop_last());
        let pre = element_ids(a, ids.drop_last());
        assert forall|j: int| 0 <= j < element_ids(a, ids).len() implies #[trigger] element_ids(a, ids)[j] < a.len() by {
            if j < pre.len() {
                assert(element_ids(a, ids)[j] == pre[j]);
            }
        }
    }
}

fn build_node(a: &Vec<XmlNode>, k: usize) -> (r: SourceNode)
    requires
        well_ordered(a@),
        k < a@.len(),
    ensures
        builds(a@, k as int, r),
    decreases a@.len() - k,
{
    let items = find_tagged(a, &a[k].children, "Item");
    proof {
        lemma_tagged_ids_from(a@, a@[k as int].children@, "Item"@);
    }
    let mut children: Vec<SourceNode> = Vec::new();
    let mut i: usize = 0;
    while i < items.len()
        invariant
            well_ordered(a@),
            k < a@.len(),
            i <= items@.len(),
            items@ == item_ids(a@, k as int),
            forall|j: int| 0 <= j < items@.len() ==> a@[k as int].children@.contains(#[trigger] items@[j]),
            children@.len() == i,
            forall|j: int| 0 <= j < i ==> builds(a@, items@[j] as int, #[trigger] children@[j]),
        decreases items.len() - i,
    {
        let c = items[i];
        proof {
            assert(a@[k as int].children@.contains(items@[i as int]));
            let w = choose|w: int| 0 <= w < a@[k as int].children@.len() && a@[k as int].children@[w] == c;
            assert(k < a@[k as int].children@[w]);
        }
        let child = build_node(a, c);
        children.push(child);
        i = i + 1;
    }
    let r = SourceNode { class: copy_text(&a[k].class), properties: build_properties(a, k), children };
    assert(r.children@ == children@);
    r
}

fn check_order(a: &Vec<XmlNode>) -> (r: bool)
    ensures
        r == well_ordered(a@),
{
    let mut k: usize = 0;
    while k < a.len()
        invariant
            k <= a@.len(),
            forall|x: int, j: int|
                0 <= x < k && 0 <= j < a@[x].children@.len() ==> x < #[trigger] a@[x].children@[j] < a@.len(),
        decreases a.len() - k,
    {
        let cs = &a[k].children;
        let mut j: usize = 0;
        while j < cs.len()
            invariant
                k < a@.len(),
                *cs == a@[k as int].children,
                j <= cs@.len(),
                forall|x: int, y: int|
                    0 <= x < k && 0 <= y < a@[x].children@.len() ==> x < #[trigger] a@[x].children@[y] < a@.len(),
                forall|y: int| 0 <= y < j ==> k < #[trigger] cs@[y] < a@.len(),
            decreases cs.len() - j,
        {
            if cs[j] <= k || cs[j] >= a.len() {
                return false;
            }
            j = j + 1;
        }
        k = k + 1;
    }
    true
}

/// `out` are the top-level objects built from the node list `a`.
pub open spec fn builds_top(a: Seq<XmlNode>, out: Seq<SourceNode>) -> bool {
    &&& out.len() == top_ids(a).len()
    &&& forall|j: int| 0 <= j < out.len() ==> builds(a, top_ids(a)[j] as int, #[trigger] out[j])
}

/// Builds the top-level objects of a parsed node list.
pub fn build_tree(a: &Vec<XmlNode>) -> (r: Result<Vec<SourceNode>, LoadError>)
    ensures
        r is Err <==> (a@.len() == 0 || !well_ordered(a@)),
        r is Err ==> r->Err_0 is Malformed,
        r is Ok ==> builds_top(a@, r->Ok_0@),
{
    if a.len() == 0 || !check_order(a) {
        return Err(LoadError::Malformed);
    }
    let mut ids = find_tagged(a, &a[0].children, "Item");
    let roots = find_tagged(a, &a[0].children, "roblox");
    proof {
        lemma_tagged_ids_from(a@, a@[0].children@, "roblox"@);
    }
    if roots.len() > 0 {
        let mut more = find_tagged(a, &a[roots[0]].children, "Item");
        ids.append(&mut more);
    }
    assert(ids@ == top_ids(a@));
    proof {
        lemma_tagged_ids_from(a@, a@[0].children@, "Item"@);
        if roots@.len() > 0 {
            lemma_tagged_ids_from(a@, a@[roots@[0] as int].children@, "Item"@);
        }
        assert forall|j: int| 0 <= j < ids@.len() implies #[trigger] ids@[j] < a@.len() by {
            let first = tagged_ids(a@, a@[0].children@, "Item"@);
            if j >= first.len() {
                let second = tagged_ids(a@, a@[roots@[0] as int].children@, "Item"@);
                assert(ids@[j] == second[j - first.len()]);
            }
        }
    }
    let mut out: Vec<SourceNode> = Vec::new();
    let mut i: usize = 0;
    while i < ids.len()
        invariant
            well_ordered(a@),
            i <= ids@.len(),
            ids@ == top_ids(a@),
            forall|j: int| 0 <= j < ids@.len() ==> #[trigger] ids@[j] < a@.len(),
            out@.len() == i,
            forall|j: int| 0 <= j < i ==> builds(a@, ids@[j] as int, #[trigger] out@[j]),
        decreases ids.len() - i,
    {
        let n = build_node(a, ids[i]);
        out.push(n);
        i = i + 1;
    }
    Ok(out)
}

/// Parses a place document and builds its top-level objects.  Fails with
/// `Syntax` exactly where the markup parser refuses the text.
pub fn load_document(text: &str) -> (r: Result<Vec<SourceNode>, LoadError>)
    ensures
        r is Ok == parses(text@),
        r is Err ==> r->Err_0 is Syntax,
        r is Ok ==> builds_top(parsed_nodes(text@), r->Ok_0@),
{
    match parse_nodes(text) {
        Ok(a) => build_tree(&a),
        Err(_) => Err(LoadError::Syntax),
    }
}

} // verus!
