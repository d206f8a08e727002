//! What holds of the counting pass, the plan and the naming rules together.
use vstd::prelude::*;
use vstd::set_lib::{lemma_int_range, lemma_len_subset, lemma_map_size, set_int_range};
use crate::naming::{candidate_of, chosen_name, first_free};
use crate::node::{count_node, count_nodes, excluded, key_of, ExtractionSettings, Property, SourceNode};
use crate::plan::{plan_list, plan_node};
use crate::record::{entries_of, opt_view, props_from, props_of, script_from, script_of};
use crate::text::{decimal_of, digit_char};

verus! {

proof fn lemma_plan_node_len(n: SourceNode, s: ExtractionSettings, path: Seq<Seq<char>>)
    requires
        !excluded(n, s),
    ensures
        plan_node(n, s, path).len() == count_node(n, s),
    decreases n, 1nat,
{
    lemma_plan_list_len(n.children@, s, path, Seq::empty());
}

proof fn lemma_plan_list_len(
    ns: Seq<SourceNode>,
    s: ExtractionSettings,
    parent: Seq<Seq<char>>,
    taken: Seq<Seq<char>>,
)
    ensures
        plan_list(ns, s, parent, taken).0.len() == count_nodes(ns, s),
    decreases ns, 0nat,
{
    if ns.len() > 0 {
        let pre = ns.subrange(0, ns.len() - 1);
        let n = ns[ns.len() - 1];
        lemma_plan_list_len(pre, s, parent, taken);
        if excluded(n, s) {
            assert(count_node(n, s) == 0);
        } else {
            let name = chosen_name(crate::naming::base_folder_of(n), plan_list(pre, s, parent, taken).1);
            lemma_plan_node_len(n, s, parent.push(name));
        }
    }
}

/// The counting pass's total is the number of folders that the plan
/// creates, for every tree, filter and set of names already in use.
pub proof fn law_total_is_folder_count(nodes: Seq<SourceNode>, s: ExtractionSettings, existing: Seq<Seq<char>>)
    ensures
        plan_list(nodes, s, Seq::empty(), existing).0.len() == count_nodes(nodes, s),
{
    lemma_plan_list_len(nodes, s, Seq::empty(), existing);
}

/// An excluded node adds nothing, neither itself nor any node below it: it
/// counts zero, and siblings followed by it plan and count exactly what the
/// siblings alone do.
pub proof fn law_excluded_subtree_dropped(
    ns: Seq<SourceNode>,
    n: SourceNode,
    s: ExtractionSettings,
    parent: Seq<Seq<char>>,
    taken: Seq<Seq<char>>,
)
    requires
        excluded(n, s),
    ensures
        count_node(n, s) == 0,
        count_nodes(ns.push(n), s) == count_nodes(ns, s),
        plan_list(ns.push(n), s, parent, taken) == plan_list(ns, s, parent, taken),
{
    let all = ns.push(n);
    assert(all.subrange(0, all.len() - 1) == ns);
    assert(all[all.len() - 1] == n);
    assert(count_node(n, s) == 0);
}

/// When nothing is kept, the plan creates no folder.
pub proof fn law_nothing_kept_nothing_planned(nodes: Seq<SourceNode>, s: ExtractionSettings, existing: Seq<Seq<char>>)
    requires
        count_nodes(nodes, s) == 0,
    ensures
        plan_list(nodes, s, Seq::empty(), existing).0.len() == 0,
{
    law_total_is_folder_count(nodes, s, existing);
}

proof fn lemma_no_source_key(ps: Seq<Property>, class: Seq<char>)
    ensures
        !props_from(ps, class).contains_key("Source"@),
    decreases ps.len(),
{
    reveal_strlit("Source");
    reveal_strlit("ClassName");
    if ps.len() > 0 {
        lemma_no_source_key(ps.drop_last(), class);
    } else {
        assert("ClassName"@.len() != "Source"@.len());
    }
}

proof fn lemma_script_is_last_source(ps: Seq<Property>, i: int)
    requires
        0 <= i < ps.len(),
        key_of(ps[i]) == "Source"@,
        forall|j: int| i < j < ps.len() ==> key_of(#[trigger] ps[j]) != "Source"@,
    ensures
        script_from(ps) == opt_view(ps[i].text),
    decreases ps.len(),
{
    if i < ps.len() - 1 {
        let pre = ps.drop_last();
        assert(pre[i] == ps[i]);
        assert forall|j: int| i < j < pre.len() implies key_of(#[trigger] pre[j]) != "Source"@ by {
            assert(pre[j] == ps[j]);
        }
        lemma_script_is_last_source(pre, i);
    }
}

/// The `Source` entry never reaches the written properties, and the script
/// is the text of the last `Source` entry exactly as it stands.
pub proof fn law_source_kept_apart(n: SourceNode, i: int)
    requires
        0 <= i < entries_of(n).len(),
        key_of(entries_of(n)[i]) == "Source"@,
        forall|j: int| i < j < entries_of(n).len() ==> key_of(#[trigger] entries_of(n)[j]) != "Source"@,
    ensures
        !props_of(n).contains_key("Source"@),
        script_of(n) == opt_view(entries_of(n)[i].text),
{
    lemma_no_source_key(entries_of(n), crate::node::class_of(n));
    lemma_script_is_last_source(entries_of(n), i);
}

/// Without a `Source` entry there is no script, and still no `Source` key.
pub proof fn law_no_source_no_script(n: SourceNode)
    requires
        forall|j: int| 0 <= j < entries_of(n).len() ==> key_of(#[trigger] entries_of(n)[j]) != "Source"@,
    ensures
        !props_of(n).contains_key("Source"@),
        script_of(n) is None,
{
    lemma_no_source_key(entries_of(n), crate::node::class_of(n));
    lemma_no_script(entries_of(n));
}

proof fn lemma_no_script(ps: Seq<Property>)
    requires
        forall|j: int| 0 <= j < ps.len() ==> key_of(#[trigger] ps[j]) != "Source"@,
    ensures
        script_from(ps) is None,
    decreases ps.len(),
{
    if ps.len() > 0 {
        let pre = ps.drop_last();
        assert(key_of(ps[ps.len() - 1]) != "Source"@);
        assert forall|j: int| 0 <= j < pre.len() implies key_of(#[trigger] pre[j]) != "Source"@ by {
            assert(pre[j] == ps[j]);
        }
        lemma_no_script(pre);
    }
}

} // verus!

verus! {

proof fn lemma_decimal_nonempty(n: nat)
    ensures
        decimal_of(n).len() >= 1,
    decreases n,
{
    if n >= 10 {
        lemma_decimal_nonempty(n / 10);
    }
}

proof fn lemma_digit_injective(a: nat, b: nat)
    requires
        a < 10,
        b < 10,
        digit_char(a) == digit_char(b),
    ensures
        a == b,
{
}

proof fn lemma_decimal_injective(a: nat, b: nat)
    requires
        decimal_of(a) == decimal_of(b),
    ensures
        a == b,
    decreases a,
{
    if a < 10 && b < 10 {
        assert(decimal_of(a)[0] == digit_char(a));
        assert(decimal_of(b)[0] == digit_char(b));
        lemma_digit_injective(a, b);
    } else if a < 10 {
        lemma_decimal_nonempty(b / 10);
        assert(decimal_of(a).len() == 1);
        assert(decimal_of(b).len() == decimal_of(b / 10).len() + 1);
    } else if b < 10 {
        lemma_decimal_nonempty(a / 10);
        assert(decimal_of(b).len() == 1);
        assert(decimal_of(a).len() == decimal_of(a / 10).len() + 1);
    } else {
        let da = decimal_of(a);
        let db = decimal_of(b);
        assert(da.last() == digit_char(a % 10));
        assert(db.last() == digit_char(b % 10));
        lemma_digit_injective(a % 10, b % 10);
        assert(da.drop_last() == decimal_of(a / 10));
        assert(db.drop_last() == decimal_of(b / 10));
        lemma_decimal_injective(a / 10, b / 10);
        assert(a == 10 * (a / 10) + a % 10) by (nonlinear_arith);
        assert(b == 10 * (b / 10) + b % 10) by (nonlinear_arith);
    }
}

proof fn lemma_candidate_injective(name: Seq<char>, i: nat, j: nat)
    requires
        candidate_of(name, i) == candidate_of(name, j),
    ensures
        i == j,
{
    reveal_strlit(" (");
    reveal_strlit(")");
    if i == 0 && j > 0 {
        assert(candidate_of(name, j).len() > name.len());
    } else if j == 0 && i > 0 {
        assert(candidate_of(name, i).len() > name.len());
    } else if i > 0 && j > 0 {
        let ci = candidate_of(name, i);
        let cj = candidate_of(name, j);
        let lo = name.len() + 2;
        assert(ci.len() == lo + decimal_of(i).len() + 1);
        assert(decimal_of(i).len() == decimal_of(j).len());
        assert(ci.subrange(lo as int, ci.len() - 1) =~= decimal_of(i));
        assert(cj.subrange(lo as int, cj.len() - 1) =~= decimal_of(j));
        lemma_decimal_injective(i, j);
    }
}

proof fn lemma_first_free_facts(name: Seq<char>, taken: Seq<Seq<char>>, i: nat)
    requires
        i <= taken.len(),
    ensures
        i <= first_free(name, taken, i) <= taken.len(),
        first_free(name, taken, i) < taken.len() ==> !taken.contains(
            candidate_of(name, first_free(name, taken, i)),
        ),
        forall|j: nat| i <= j < first_free(name, taken, i) ==> taken.contains(#[trigger] candidate_of(name, j)),
    decreases taken.len() - i,
{
    if i < taken.len() && taken.contains(candidate_of(name, i)) {
        lemma_first_free_facts(name, taken, i + 1);
    }
}

/// The name chosen for a folder is not among the names already in use, and
/// every candidate before it (`name`, `name (1)`, ...) is in use: the
/// numbers are tried in order from 1 with none skipped.
pub proof fn law_chosen_name_is_fresh(name: Seq<char>, taken: Seq<Seq<char>>)
    ensures
        !taken.contains(chosen_name(name, taken)),
        forall|j: nat| j < first_free(name, taken, 0) ==> taken.contains(#[trigger] candidate_of(name, j)),
{
    lemma_first_free_facts(name, taken, 0);
    let k = first_free(name, taken, 0);
    if k == taken.len() && taken.contains(candidate_of(name, k)) {
        let range = set_int_range(0, taken.len() as int + 1);
        let f = |j: int| candidate_of(name, j as nat);
        let cands = range.map(f);
        lemma_int_range(0, taken.len() as int + 1);
        assert forall|a: int, b: int| range.contains(a) && range.contains(b) && #[trigger] f(a) == #[trigger] f(b) implies a == b by {
            lemma_candidate_injective(name, a as nat, b as nat);
        }
        lemma_map_size(range, cands, f);
        assert forall|x: Seq<char>| cands.contains(x) implies taken.to_set().contains(x) by {
            let j = choose|j: int| range.contains(j) && f(j) == x;
            assert(taken.contains(candidate_of(name, j as nat)));
        }
        taken.lemma_cardinality_of_set();
        vstd::seq_lib::seq_to_set_is_finite(taken);
        lemma_len_subset(cands, taken.to_set());
    }
}

} // verus!

verus! {

/// Sibling folders never share a name: planning a list of siblings keeps
/// the names already in use, in front, and adds only names that are new and
/// distinct from one another.
pub proof fn law_sibling_names_distinct(
    ns: Seq<SourceNode>,
    s: ExtractionSettings,
    parent: Seq<Seq<char>>,
    taken: Seq<Seq<char>>,
)
    requires
        taken.no_duplicates(),
    ensures
        plan_list(ns, s, parent, taken).1.no_duplicates(),
        plan_list(ns, s, parent, taken).1.len() >= taken.len(),
        plan_list(ns, s, parent, taken).1.subrange(0, taken.len() as int) == taken,
    decreases ns.len(),
{
    if ns.len() == 0 {
        assert(taken.subrange(0, taken.len() as int) == taken);
    } else {
        let pre_ns = ns.subrange(0, ns.len() - 1);
        law_sibling_names_distinct(pre_ns, s, parent, taken);
        let pre = plan_list(pre_ns, s, parent, taken).1;
        let n = ns[ns.len() - 1];
        if !excluded(n, s) {
            let name = chosen_name(crate::naming::base_folder_of(n), pre);
            law_chosen_name_is_fresh(crate::naming::base_folder_of(n), pre);
            let post = pre.push(name);
            assert(post.subrange(0, taken.len() as int) == pre.subrange(0, taken.len() as int));
            assert forall|i: int, j: int| 0 <= i < post.len() && 0 <= j < post.len() && i != j implies post[i] != post[j] by {
                if i == pre.len() as int {
                    assert(pre.contains(post[j]) ==> post[i] != post[j]);
                    assert(pre[j] == post[j]);
                } else if j == pre.len() as int {
                    assert(pre[i] == post[i]);
                }
            }
        }
    }
}

} // verus!

verus! {

/// `m` is `n` or lies below it, and every node from `n` down to `m` is kept.
pub open spec fn kept_within(n: SourceNode, m: SourceNode, s: ExtractionSettings) -> bool
    decreases n,
{
    !excluded(n, s) && (m == n || exists|j: int|
        0 <= j < n.children@.len() && kept_within(#[trigger] n.children@[j], m, s))
}

proof fn lemma_node_entries_kept(n: SourceNode, s: ExtractionSettings, path: Seq<Seq<char>>)
    requires
        !excluded(n, s),
    ensures
        forall|k: int| 0 <= k < plan_node(n, s, path).len() ==> kept_within(n, #[trigger] plan_node(n, s, path)[k].1, s),
    decreases n, 1nat,
{
    let kids = n.children@;
    let rest = plan_list(kids, s, path, Seq::empty()).0;
    lemma_list_entries_kept(kids, s, path, Seq::empty());
    assert forall|k: int| 0 <= k < plan_node(n, s, path).len() implies kept_within(n, #[trigger] plan_node(n, s, path)[k].1, s) by {
        if k > 0 {
            let e = plan_node(n, s, path)[k];
            assert(e == rest[k - 1]);
            let i = choose|i: int| 0 <= i < kids.len() && kept_within(kids[i], rest[k - 1].1, s);
            assert(kept_within(n.children@[i], e.1, s));
        }
    }
}

proof fn lemma_list_entries_kept(
    ns: Seq<SourceNode>,
    s: ExtractionSettings,
    parent: Seq<Seq<char>>,
    taken: Seq<Seq<char>>,
)
    ensures
        forall|k: int| 0 <= k < plan_list(ns, s, parent, taken).0.len() ==> exists|i: int|
            0 <= i < ns.len() && kept_within(ns[i], #[trigger] plan_list(ns, s, parent, taken).0[k].1, s),
    decreases ns, 0nat,
{
    if ns.len() > 0 {
        let pre_ns = ns.subrange(0, ns.len() - 1);
        let n = ns[ns.len() - 1];
        lemma_list_entries_kept(pre_ns, s, parent, taken);
        let pre = plan_list(pre_ns, s, parent, taken);
        let all = plan_list(ns, s, parent, taken).0;
        if excluded(n, s) {
            assert forall|k: int| 0 <= k < all.len() implies exists|i: int|
                0 <= i < ns.len() && kept_within(ns[i], #[trigger] all[k].1, s) by {
                let i = choose|i: int| 0 <= i < pre_ns.len() && kept_within(pre_ns[i], pre.0[k].1, s);
                assert(ns[i] == pre_ns[i]);
            }
        } else {
            let name = chosen_name(crate::naming::base_folder_of(n), pre.1);
            let tail = plan_node(n, s, parent.push(name));
            lemma_node_entries_kept(n, s, parent.push(name));
            assert forall|k: int| 0 <= k < all.len() implies exists|i: int|
                0 <= i < ns.len() && kept_within(ns[i], #[trigger] all[k].1, s) by {
                if k < pre.0.len() {
                    assert(all[k] == pre.0[k]);
                    let i = choose|i: int| 0 <= i < pre_ns.len() && kept_within(pre_ns[i], pre.0[k].1, s);
                    assert(ns[i] == pre_ns[i]);
                } else {
                    assert(all[k] == tail[k - pre.0.len()]);
                    assert(kept_within(ns[ns.len() - 1], all[k].1, s));
                }
            }
        }
    }
}

/// Only kept nodes below kept nodes are planned: every planned folder
/// stands for a top-level node, or a node below one, such that it and every
/// node above it are kept. A node below an excluded node, anywhere in the
/// tree, never gets a folder.
pub proof fn law_plan_only_kept(nodes: Seq<SourceNode>, s: ExtractionSettings, existing: Seq<Seq<char>>)
    ensures
        forall|k: int| 0 <= k < plan_list(nodes, s, Seq::empty(), existing).0.len() ==> exists|i: int|
            0 <= i < nodes.len() && kept_within(nodes[i], #[trigger] plan_list(nodes, s, Seq::empty(), existing).0[k].1, s),
{
    lemma_list_entries_kept(nodes, s, Seq::empty(), existing);
}

/// Kept siblings that share one base name, under a fresh parent, are named
/// `name`, `name (1)`, ..., `name (k-1)` in order.
pub proof fn law_same_named_siblings(
    ns: Seq<SourceNode>,
    s: ExtractionSettings,
    parent: Seq<Seq<char>>,
    name: Seq<char>,
)
    requires
        forall|i: int| 0 <= i < ns.len() ==> !excluded(#[trigger] ns[i], s) && crate::naming::base_folder_of(ns[i]) == name,
    ensures
        plan_list(ns, s, parent, Seq::empty()).1 == Seq::new(ns.len(), |i: int| candidate_of(name, i as nat)),
    decreases ns.len(),
{
    if ns.len() == 0 {
        assert(plan_list(ns, s, parent, Seq::empty()).1 =~= Seq::new(0, |i: int| candidate_of(name, i as nat)));
    } else {
        let pre_ns = ns.subrange(0, ns.len() - 1);
        assert forall|i: int| 0 <= i < pre_ns.len() implies !excluded(#[trigger] pre_ns[i], s)
            && crate::naming::base_folder_of(pre_ns[i]) == name by {
            assert(pre_ns[i] == ns[i]);
        }
        law_same_named_siblings(pre_ns, s, parent, name);
        let pre = plan_list(pre_ns, s, parent, Seq::empty()).1;
        let n = ns[ns.len() - 1];
        assert(!excluded(n, s) && crate::naming::base_folder_of(n) == name);
        lemma_first_free_facts(name, pre, 0);
        let k = first_free(name, pre, 0);
        if k < pre.len() {
            assert(pre[k as int] == candidate_of(name, k));
            assert(pre.contains(candidate_of(name, k)));
        }
        assert(k == pre.len());
        assert(plan_list(ns, s, parent, Seq::empty()).1 =~= Seq::new(ns.len(), |i: int| candidate_of(name, i as nat)));
    }
}

} // verus!
