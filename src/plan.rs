//! The extraction plan: one folder per kept node, in document order, each
//! with its path below the output root and what it holds.
use vstd::prelude::*;
use crate::naming::{base_folder_name, base_folder_of, choose_folder_name, chosen_name, texts};
use crate::node::{class_of, excluded, should_exclude, ExtractionSettings, SourceNode};
use crate::record::{display_of, keys_unique, node_record, opt_view, pairs_map, props_of, script_of, ObjectRecord};
use crate::text::owned;

verus! {

/// One folder to create: its path below the output root, one name per
/// level, the base name that its last level was numbered from, and what it
/// holds.
pub struct PlannedFolder {
    pub path: Vec<String>,
    pub base: String,
    pub record: ObjectRecord,
}

/// A planned folder as a path and the node it stands for.
pub type PlanEntry = (Seq<Seq<char>>, SourceNode);

/// The folders for a kept node at `path`: its own, then its subtrees'.
pub open spec fn plan_node(n: SourceNode, s: ExtractionSettings, path: Seq<Seq<char>>) -> Seq<PlanEntry>
    decreases n,
{
    seq![(path, n)] + plan_list(n.children@, s, path, Seq::empty()).0
}

/// The folders for sibling subtrees under `parent`, where the names `taken`
/// are in use, and the names in use afterwards.
pub open spec fn plan_list(
    ns: Seq<SourceNode>,
    s: ExtractionSettings,
    parent: Seq<Seq<char>>,
    taken: Seq<Seq<char>>,
) -> (Seq<PlanEntry>, Seq<Seq<char>>)
    decreases ns,
{
    if ns.len() == 0 {
        (Seq::empty(), taken)
    } else {
        let pre = plan_list(ns.subrange(0, ns.len() - 1), s, parent, taken);
        let n = ns[ns.len() - 1];
        if excluded(n, s) {
            pre
        } else {
            let name = chosen_name(base_folder_of(n), pre.1);
            (pre.0 + plan_node(n, s, parent.push(name)), pre.1.push(name))
        }
    }
}

/// What `node_record` returns for the node.
pub open spec fn record_matches(r: ObjectRecord, n: SourceNode) -> bool {
    &&& r.class_name@ == class_of(n)
    &&& r.display_name@ == display_of(n)
    &&& keys_unique(r.properties@)
    &&& pairs_map(r.properties@) == props_of(n)
    &&& opt_view(r.script) == script_of(n)
}

pub open spec fn folder_matches(f: PlannedFolder, e: PlanEntry) -> bool {
    texts(f.path@) == e.0 && f.base@ == base_folder_of(e.1) && record_matches(f.record, e.1)
}

/// `after` is `before` followed by folders that match `plan`.
pub open spec fn extends(before: Seq<PlannedFolder>, after: Seq<PlannedFolder>, plan: Seq<PlanEntry>) -> bool {
    &&& after.len() == before.len() + plan.len()
    &&& after.subrange(0, before.len() as int) == before
    &&& forall|k: int| 0 <= k < plan.len() ==> folder_matches(#[trigger] after[before.len() + k], plan[k])
}

proof fn lemma_extends_trans(
    a: Seq<PlannedFolder>,
    b: Seq<PlannedFolder>,
    c: Seq<PlannedFolder>,
    p: Seq<PlanEntry>,
    q: Seq<PlanEntry>,
)
    requires
        extends(a, b, p),
        extends(b, c, q),
    ensures
        extends(a, c, p + q),
{
    assert(c.subrange(0, a.len() as int) == b.subrange(0, a.len() as int));
    assert forall|k: int| 0 <= k < (p + q).len() implies folder_matches(#[trigger] c[a.len() + k], (p + q)[k]) by {
        if k < p.len() {
            assert(c[a.len() + k] == b[a.len() + k]);
        } else {
            assert(c[a.len() + k] == c[b.len() + (k - p.len())]);
        }
    }
}

fn copy_path(v: &Vec<String>) -> (r: Vec<String>)
    ensures
        texts(r@) == texts(v@),
{
    let mut r: Vec<String> = Vec::new();
    let mut i: usize = 0;
    while i < v.len()
        invariant
            i <= v@.len(),
            texts(r@) == texts(v@.subrange(0, i as int)),
        decreases v.len() - i,
    {
        r.push(owned(v[i].as_str()));
        assert(texts(v@.subrange(0, i + 1)) == texts(v@.subrange(0, i as int)).push(v@[i as int]@));
        i = i + 1;
    }
    assert(v@.subrange(0, v@.len() as int) == v@);
    r
}

fn plan_node_into(
    node: &SourceNode,
    settings: &ExtractionSettings,
    path: Vec<String>,
    base: String,
    out: &mut Vec<PlannedFolder>,
)
    requires
        !excluded(*node, *settings),
        base@ == base_folder_of(*node),
    ensures
        extends(old(out)@, final(out)@, plan_node(*node, *settings, texts(path@))),
    decreases *node, 1nat,
{
    let ghost before = out@;
    let own = copy_path(&path);
    let record = node_record(node);
    out.push(PlannedFolder { path: own, base, record });
    let ghost mid = out@;
    let ghost first: Seq<PlanEntry> = seq![(texts(path@), *node)];
    assert(mid.subrange(0, before.len() as int) == before);
    assert(folder_matches(mid[before.len() as int], first[0]));
    assert(extends(before, mid, first));
    let mut taken: Vec<String> = Vec::new();
    assert(texts(taken@) =~= Seq::<Seq<char>>::empty());
    assert(decreases_to!(*node => node.children));
    plan_children_into(&node.children, settings, &path, &mut taken, out);
    proof {
        lemma_extends_trans(before, mid, out@, first, plan_list(node.children@, *settings, texts(path@), Seq::empty()).0);
    }
}

fn plan_children_into(
    nodes: &Vec<SourceNode>,
    settings: &ExtractionSettings,
    parent: &Vec<String>,
    taken: &mut Vec<String>,
    out: &mut Vec<PlannedFolder>,
)
    ensures
        extends(old(out)@, final(out)@, plan_list(nodes@, *settings, texts(parent@), texts(old(taken)@)).0),
        texts(final(taken)@) == plan_list(nodes@, *settings, texts(parent@), texts(old(taken)@)).1,
    decreases *nodes, 0nat,
{
    let ghost before = out@;
    let ghost t0 = texts(taken@);
    let ghost par = texts(parent@);
    let mut i: usize = 0;
    assert(out@.subrange(0, before.len() as int) == before);
    assert(nodes@.subrange(0, 0) =~= Seq::<SourceNode>::empty());
    while i < nodes.len()
        invariant
            i <= nodes@.len(),
            par == texts(parent@),
            extends(before, out@, plan_list(nodes@.subrange(0, i as int), *settings, par, t0).0),
            texts(taken@) == plan_list(nodes@.subrange(0, i as int), *settings, par, t0).1,
        decreases nodes.len() - i,
    {
        let ghost sub = nodes@.subrange(0, i + 1);
        assert(sub.subrange(0, sub.len() - 1) == nodes@.subrange(0, i as int));
        assert(sub[sub.len() - 1] == nodes@[i as int]);
        let n = &nodes[i];
        if !should_exclude(n, settings) {
            let base = base_folder_name(n);
            let name = choose_folder_name(base.as_str(), taken);
            let mut path = copy_path(parent);
            path.push(owned(name.as_str()));
            assert(texts(path@) == par.push(name@));
            let ghost mid = out@;
            assert(decreases_to!(*nodes => nodes@[i as int]));
            plan_node_into(n, settings, path, base, out);
            proof {
                lemma_extends_trans(
                    before,
                    mid,
                    out@,
                    plan_list(nodes@.subrange(0, i as int), *settings, par, t0).0,
                    plan_node(*n, *settings, par.push(name@)),
                );
            }
            taken.push(name);
            assert(texts(taken@) == plan_list(sub, *settings, par, t0).1);
        }
        i = i + 1;
    }
    assert(nodes@.subrange(0, nodes@.len() as int) == nodes@);
}

/// Plans the folders for the top-level nodes under the output root, whose
/// entries `existing` are already in use: one folder per kept node, parents
/// before children, siblings named apart from each other.
pub fn plan_extraction(
    nodes: &Vec<SourceNode>,
    settings: &ExtractionSettings,
    existing: &Vec<String>,
) -> (r: Vec<PlannedFolder>)
    ensures
        extends(Seq::empty(), r@, plan_list(nodes@, *settings, Seq::empty(), texts(existing@)).0),
{
    let mut out: Vec<PlannedFolder> = Vec::new();
    let mut taken = copy_path(existing);
    let root: Vec<String> = Vec::new();
    assert(texts(root@) =~= Seq::<Seq<char>>::empty());
    plan_children_into(nodes, settings, &root, &mut taken, &mut out);
    out
}

} // verus!
