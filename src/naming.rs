//! Folder names: the base name of an object's folder and the numbered
//! variants that resolve collisions between siblings.
use vstd::prelude::*;
use vstd::string::StringExecFns;
use crate::node::{class_of, SourceNode};
use crate::record::display_of;
use crate::text::{decimal, decimal_of, lower_of, lowercase, owned, same_text, sanitize, sanitized_of};

verus! {

/// `safe` alone when it equals the class name up to case, else
/// `safe [class]`.
pub open spec fn folder_name_of(safe: Seq<char>, class: Seq<char>) -> Seq<char> {
    if lower_of(safe) == lower_of(class) {
        safe
    } else {
        safe + " ["@ + class + "]"@
    }
}

/// The base folder name of a node.
pub open spec fn base_folder_of(n: SourceNode) -> Seq<char> {
    folder_name_of(sanitized_of(display_of(n)), class_of(n))
}

/// The `i`-th candidate for a folder: the name itself, then `name (i)`.
pub open spec fn candidate_of(name: Seq<char>, i: nat) -> Seq<char> {
    if i == 0 {
        name
    } else {
        name + " ("@ + decimal_of(i) + ")"@
    }
}

/// The first candidate index, counting from 0, whose name is not taken;
/// the search stops at `taken.len()`, which is always free.
pub open spec fn first_free(name: Seq<char>, taken: Seq<Seq<char>>, i: nat) -> nat
    decreases taken.len() - i,
{
    if i >= taken.len() || !taken.contains(candidate_of(name, i)) {
        i
    } else {
        first_free(name, taken, i + 1)
    }
}

/// The folder name chosen for `name` beside the sibling names `taken`.
pub open spec fn chosen_name(name: Seq<char>, taken: Seq<Seq<char>>) -> Seq<char> {
    candidate_of(name, first_free(name, taken, 0))
}

pub open spec fn texts(v: Seq<String>) -> Seq<Seq<char>> {
    v.map_values(|s: String| s@)
}

/// Joins a sanitized name and a class into a folder name.
pub fn folder_name(safe: &str, class: &str) -> (r: String)
    ensures
        r@ == folder_name_of(safe@, class@),
{
    let a = lowercase(safe);
    let b = lowercase(class);
    if same_text(a.as_str(), b.as_str()) {
        owned(safe)
    } else {
        let mut r = owned(safe);
        r.append(" [");
        r.append(class);
        r.append("]");
        r
    }
}

/// The `i`-th candidate folder name for `name`.
pub fn candidate_name(name: &str, i: usize) -> (r: String)
    ensures
        r@ == candidate_of(name@, i as nat),
{
    let mut r = owned(name);
    if i > 0 {
        r.append(" (");
        let d = decimal(i);
        r.append(d.as_str());
        r.append(")");
    }
    r
}

/// The base folder name of `node`: its sanitized display name, with the
/// class in brackets unless the two agree up to case.
pub fn base_folder_name(node: &SourceNode) -> (r: String)
    ensures
        r@ == base_folder_of(*node),
{
    let rec = crate::record::node_record(node);
    let safe = sanitize(rec.display_name.as_str());
    folder_name(safe.as_str(), rec.class_name.as_str())
}

fn is_taken(taken: &Vec<String>, c: &str) -> (r: bool)
    ensures
        r == texts(taken@).contains(c@),
{
    let mut i: usize = 0;
    while i < taken.len()
        invariant
            i <= taken@.len(),
            forall|j: int| 0 <= j < i ==> taken@[j]@ != c@,
        decreases taken.len() - i,
    {
        if same_text(taken[i].as_str(), c) {
            assert(texts(taken@)[i as int] == c@);
            return true;
        }
        i = i + 1;
    }
    assert(!texts(taken@).contains(c@)) by {
        assert(forall|j: int| 0 <= j < taken@.len() ==> texts(taken@)[j] == taken@[j]@);
    }
    false
}

/// Picks the folder name for `name` beside the sibling names `taken`: the
/// first of `name`, `name (1)`, `name (2)`, ... that is not taken.
pub fn choose_folder_name(name: &str, taken: &Vec<String>) -> (r: String)
    ensures
        r@ == chosen_name(name@, texts(taken@)),
{
    let ghost t = texts(taken@);
    let mut i: usize = 0;
    let mut c = candidate_name(name, 0);
    while i < taken.len() && is_taken(taken, c.as_str())
        invariant
            i <= taken@.len(),
            t == texts(taken@),
            c@ == candidate_of(name@, i as nat),
            first_free(name@, t, 0) == first_free(name@, t, i as nat),
        decreases taken.len() - i,
    {
        i = i + 1;
        c = candidate_name(name, i);
    }
    c
}

} // verus!
