//! The object tree, the extraction filters and the counting pass.
use vstd::prelude::*;
use crate::text::{lower_of, lowercase, owned, same_text, trim, trim_of};
use vstd::string::StrSliceExecFns;

verus! {

/// One property entry of an object: its `name` attribute and its text.
pub struct Property {
    pub name: Option<String>,
    pub text: Option<String>,
}

/// One object of the tree: its class attribute, its properties container
/// (if it has one), and its item children in document order.
pub struct SourceNode {
    pub class: Option<String>,
    pub properties: Option<Vec<Property>>,
    pub children: Vec<SourceNode>,
}

/// The filters of one run.  `exclude_classes` holds lower-cased class names.
pub struct ExtractionSettings {
    pub exclude_workspace: bool,
    pub exclude_scripts: bool,
    pub exclude_classes: Vec<String>,
}

/// The class name of a node; `Unknown` when the attribute is missing.
pub open spec fn class_of(n: SourceNode) -> Seq<char> {
    match n.class {
        Some(c) => c@,
        None => "Unknown"@,
    }
}

/// The name of a property entry; `Unknown` when the attribute is missing.
pub open spec fn key_of(p: Property) -> Seq<char> {
    match p.name {
        Some(k) => k@,
        None => "Unknown"@,
    }
}

pub open spec fn is_script_class(c: Seq<char>) -> bool {
    c == "Script"@ || c == "LocalScript"@ || c == "ModuleScript"@
}

/// Whether some `Name` property of the node reads exactly `Workspace`.
pub open spec fn names_workspace(n: SourceNode) -> bool {
    n.properties is Some && exists|i: int|
        0 <= i < n.properties->0@.len() && #[trigger] is_workspace_name(n.properties->0@[i])
}

/// A `Name` entry whose text is `Workspace`.
pub open spec fn is_workspace_name(p: Property) -> bool {
    p.name is Some && p.name->0@ == "Name"@ && p.text is Some && p.text->0@ == "Workspace"@
}

pub open spec fn lists_class(classes: Seq<String>, c: Seq<char>) -> bool {
    exists|i: int| 0 <= i < classes.len() && classes[i]@ == c
}

/// Whether the filters drop the node, and with it its whole subtree.
pub open spec fn excluded(n: SourceNode, s: ExtractionSettings) -> bool {
    lists_class(s.exclude_classes@, lower_of(class_of(n)))
        || (s.exclude_scripts && is_script_class(class_of(n)))
        || (s.exclude_workspace && names_workspace(n))
}

/// How many nodes of the subtree at `n` are extracted.
pub open spec fn count_node(n: SourceNode, s: ExtractionSettings) -> nat
    decreases n,
{
    if excluded(n, s) {
        0
    } else {
        1 + count_nodes(n.children@, s)
    }
}

/// How many nodes of the subtrees at `ns` are extracted.
pub open spec fn count_nodes(ns: Seq<SourceNode>, s: ExtractionSettings) -> nat
    decreases ns,
{
    if ns.len() == 0 {
        0
    } else {
        count_nodes(ns.subrange(0, ns.len() - 1), s) + count_node(ns[ns.len() - 1], s)
    }
}

impl SourceNode {
    /// The class name, `Unknown` when the attribute is missing.
    pub fn class_name(&self) -> (r: String)
        ensures
            r@ == class_of(*self),
    {
        match &self.class {
            Some(c) => owned(c.as_str()),
            None => owned("Unknown"),
        }
    }
}

impl Property {
    /// The property's name, `Unknown` when the attribute is missing.
    pub fn key(&self) -> (r: String)
        ensures
            r@ == key_of(*self),
    {
        match &self.name {
            Some(k) => owned(k.as_str()),
            None => owned("Unknown"),
        }
    }
}

fn has_workspace_name(n: &SourceNode) -> (r: bool)
    ensures
        r == names_workspace(*n),
{
    match &n.properties {
        Some(ps) => {
            assert(n.properties == Some(*ps));
            let mut i: usize = 0;
            while i < ps.len()
                invariant
                    i <= ps@.len(),
                    n.properties == Some(*ps),
                    forall|j: int| 0 <= j < i ==> !is_workspace_name(#[trigger] ps@[j]),
                decreases ps.len() - i,
            {
                let p = &ps[i];
                if let Some(k) = &p.name {
                    if let Some(t) = &p.text {
                        if same_text(k.as_str(), "Name") && same_text(t.as_str(), "Workspace") {
                            assert(n.properties->0@[i as int] == ps@[i as int]);
                            assert(is_workspace_name(n.properties->0@[i as int]));
                            assert(names_workspace(*n));
                            return true;
                        }
                    }
                }
                i = i + 1;
            }
            false
        },
        None => false,
    }
}

fn contains_text(v: &Vec<String>, c: &str) -> (r: bool)
    ensures
        r == lists_class(v@, c@),
{
    let mut i: usize = 0;
    while i < v.len()
        invariant
            i <= v@.len(),
            forall|j: int| 0 <= j < i ==> v@[j]@ != c@,
        decreases v.len() - i,
    {
        if same_text(v[i].as_str(), c) {
            return true;
        }
        i = i + 1;
    }
    false
}

/// Whether the filters drop `node` (and so its subtree).  Checked in order:
/// the lower-cased class is listed, a script class while scripts are
/// excluded, a `Name` of `Workspace` while the workspace is excluded.
pub fn should_exclude(node: &SourceNode, settings: &ExtractionSettings) -> (r: bool)
    ensures
        r == excluded(*node, *settings),
{
    let class = node.class_name();
    let lower = lowercase(class.as_str());
    if contains_text(&settings.exclude_classes, lower.as_str()) {
        return true;
    }
    if settings.exclude_scripts {
        let c = class.as_str();
        if same_text(c, "Script") || same_text(c, "LocalScript") || same_text(c, "ModuleScript") {
            return true;
        }
    }
    if settings.exclude_workspace && has_workspace_name(node) {
        return true;
    }
    false
}

/// Counts the nodes of the subtree at `node` that the filters keep: none
/// below an excluded node.
pub fn count_items(node: &SourceNode, settings: &ExtractionSettings) -> (r: usize)
    requires
        count_node(*node, *settings) <= usize::MAX,
    ensures
        r == count_node(*node, *settings),
    decreases node,
{
    if should_exclude(node, settings) {
        return 0;
    }
    let kids = &node.children;
    let mut count: usize = 1;
    let mut i: usize = 0;
    while i < kids.len()
        invariant
            i <= kids@.len(),
            *kids == node.children,
            !excluded(*node, *settings),
            count_node(*node, *settings) <= usize::MAX,
            count == 1 + count_nodes(kids@.subrange(0, i as int), *settings),
        decreases kids.len() - i,
    {
        proof {
            let next = kids@.subrange(0, i + 1);
            assert(next.subrange(0, i as int) == kids@.subrange(0, i as int));
            lemma_count_prefix_bounded(kids@, i + 1, *settings);
        }
        assert(decreases_to!(*node => node.children));
        assert(decreases_to!(node.children => node.children@[i as int]));
        let c = count_items(&kids[i], settings);
        count = count + c;
        i = i + 1;
    }
    assert(kids@.subrange(0, kids@.len() as int) == kids@);
    count
}

/// A prefix of a sequence of subtrees counts no more than the whole.
proof fn lemma_count_prefix_bounded(ns: Seq<SourceNode>, k: int, s: ExtractionSettings)
    requires
        0 <= k <= ns.len(),
    ensures
        count_nodes(ns.subrange(0, k), s) <= count_nodes(ns, s),
    decreases ns.len() - k,
{
    if k < ns.len() {
        lemma_count_prefix_bounded(ns, k + 1, s);
        assert(ns.subrange(0, k + 1).subrange(0, k) == ns.subrange(0, k));
    } else {
        assert(ns.subrange(0, k) == ns);
    }
}

/// Counts the extracted nodes of all the given top-level subtrees.
pub fn count_total(nodes: &Vec<SourceNode>, settings: &ExtractionSettings) -> (r: usize)
    requires
        count_nodes(nodes@, *settings) <= usize::MAX,
    ensures
        r == count_nodes(nodes@, *settings),
{
    let mut total: usize = 0;
    let mut i: usize = 0;
    while i < nodes.len()
        invariant
            i <= nodes@.len(),
            count_nodes(nodes@, *settings) <= usize::MAX,
            total == count_nodes(nodes@.subrange(0, i as int), *settings),
        decreases nodes.len() - i,
    {
        proof {
            assert(nodes@.subrange(0, i + 1).subrange(0, i as int) == nodes@.subrange(0, i as int));
            lemma_count_prefix_bounded(nodes@, i + 1, *settings);
        }
        let c = count_items(&nodes[i], settings);
        total = total + c;
        i = i + 1;
    }
    assert(nodes@.subrange(0, nodes@.len() as int) == nodes@);
    total
}

} // verus!

verus! {

/// The pieces of `s` between commas, in order; one piece without a comma.
pub open spec fn split_commas(s: Seq<char>) -> Seq<Seq<char>>
    decreases s.len(),
{
    if s.len() == 0 {
        seq![Seq::empty()]
    } else {
        let pre = split_commas(s.drop_last());
        if s.last() == ',' {
            pre.push(Seq::empty())
        } else {
            pre.update(pre.len() - 1, pre.last().push(s.last()))
        }
    }
}

/// Each piece trimmed and lower-cased, the empty ones dropped.
pub open spec fn class_names_of(pieces: Seq<Seq<char>>) -> Seq<Seq<char>>
    decreases pieces.len(),
{
    if pieces.len() == 0 {
        Seq::empty()
    } else {
        let pre = class_names_of(pieces.drop_last());
        let c = lower_of(trim_of(pieces.last()));
        if c.len() == 0 {
            pre
        } else {
            pre.push(c)
        }
    }
}

/// Reads a comma-separated list of class names: each trimmed and
/// lower-cased, the empty ones dropped.
pub fn parse_class_list(text: &str) -> (r: Vec<String>)
    ensures
        r@.map_values(|c: String| c@) == class_names_of(split_commas(text@)),
{
    let n = text.unicode_len();
    let mut done: Vec<String> = Vec::new();
    let ghost pieces: Seq<Seq<char>> = Seq::empty();
    let mut start: usize = 0;
    let mut i: usize = 0;
    assert(text@.subrange(0, 0) =~= Seq::<char>::empty());
    assert(pieces.push(text@.subrange(0, 0)) =~= seq![Seq::<char>::empty()]);
    assert(done@.map_values(|c: String| c@) =~= Seq::<Seq<char>>::empty());
    while i < n
        invariant
            n == text@.len(),
            start <= i <= n,
            split_commas(text@.subrange(0, i as int)) == pieces.push(text@.subrange(start as int, i as int)),
            done@.map_values(|c: String| c@) == class_names_of(pieces),
        decreases n - i,
    {
        let c = text.get_char(i);
        let ghost sub = text@.subrange(0, i + 1);
        assert(sub.drop_last() == text@.subrange(0, i as int));
        assert(sub.last() == c);
        if c == ',' {
            let piece = text.substring_char(start, i);
            add_class(&mut done, piece);
            proof {
                assert(pieces.push(piece@).drop_last() == pieces);
                pieces = pieces.push(piece@);
            }
            start = i + 1;
            assert(text@.subrange(start as int, i + 1) =~= Seq::<char>::empty());
        } else {
            assert(text@.subrange(start as int, i + 1) == text@.subrange(start as int, i as int).push(c));
        }
        i = i + 1;
    }
    assert(text@.subrange(0, n as int) == text@);
    let piece = text.substring_char(start, n);
    add_class(&mut done, piece);
    proof {
        assert(pieces.push(piece@).drop_last() == pieces);
    }
    done
}

fn add_class(done: &mut Vec<String>, piece: &str)
    ensures
        ({
            let c = lower_of(trim_of(piece@));
            final(done)@.map_values(|s: String| s@) == if c.len() == 0 {
                old(done)@.map_values(|s: String| s@)
            } else {
                old(done)@.map_values(|s: String| s@).push(c)
            }
        }),
{
    let t = trim(piece);
    let c = lowercase(t.as_str());
    if c.unicode_len() > 0 {
        done.push(c);
        assert(done@.map_values(|s: String| s@) =~= old(done)@.map_values(|s: String| s@).push(c@));
    }
}

impl ExtractionSettings {
    /// The filters of a run, with the excluded classes given as a
    /// comma-separated list.
    pub fn new(exclude_workspace: bool, exclude_scripts: bool, exclude_classes: &str) -> (r: Self)
        ensures
            r.exclude_workspace == exclude_workspace,
            r.exclude_scripts == exclude_scripts,
            r.exclude_classes@.map_values(|c: String| c@) == class_names_of(split_commas(exclude_classes@)),
    {
        ExtractionSettings { exclude_workspace, exclude_scripts, exclude_classes: parse_class_list(exclude_classes) }
    }
}

} // verus!
