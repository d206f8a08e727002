//! What one object's folder holds: its display name, its properties and its
//! script text.
use vstd::prelude::*;
use crate::node::{class_of, key_of, Property, SourceNode};
use crate::text::{owned, same_text};

verus! {

/// The contents of one object's folder.  `properties` holds each key once.
pub struct ObjectRecord {
    pub class_name: String,
    pub display_name: String,
    pub properties: Vec<(String, String)>,
    pub script: Option<String>,
}

/// The map that a list of key/value pairs stands for; a later pair wins.
pub open spec fn pairs_map(v: Seq<(String, String)>) -> Map<Seq<char>, Seq<char>>
    decreases v.len(),
{
    if v.len() == 0 {
        Map::empty()
    } else {
        pairs_map(v.drop_last()).insert(v.last().0@, v.last().1@)
    }
}

pub open spec fn keys_unique(v: Seq<(String, String)>) -> bool {
    forall|i: int, j: int| 0 <= i < j < v.len() ==> v[i].0@ != v[j].0@
}

/// The property entries of a node; none without a properties container.
pub open spec fn entries_of(n: SourceNode) -> Seq<Property> {
    match n.properties {
        Some(ps) => ps@,
        None => Seq::empty(),
    }
}

/// The display name: the text of the last `Name` entry that has text, else
/// the class name.
pub open spec fn display_from(ps: Seq<Property>, class: Seq<char>) -> Seq<char>
    decreases ps.len(),
{
    if ps.len() == 0 {
        class
    } else if key_of(ps.last()) == "Name"@ && ps.last().text is Some {
        ps.last().text->0@
    } else {
        display_from(ps.drop_last(), class)
    }
}

/// The script text: that of the last `Source` entry, if there is one.
pub open spec fn script_from(ps: Seq<Property>) -> Option<Seq<char>>
    decreases ps.len(),
{
    if ps.len() == 0 {
        None
    } else if key_of(ps.last()) == "Source"@ {
        match ps.last().text {
            Some(t) => Some(t@),
            None => None,
        }
    } else {
        script_from(ps.drop_last())
    }
}

/// The written properties: `ClassName`, then every entry with text but
/// `Source`, in order, a later entry replacing an earlier one of the same name.
pub open spec fn props_from(ps: Seq<Property>, class: Seq<char>) -> Map<Seq<char>, Seq<char>>
    decreases ps.len(),
{
    if ps.len() == 0 {
        map!["ClassName"@ => class]
    } else if key_of(ps.last()) == "Source"@ || ps.last().text is None {
        props_from(ps.drop_last(), class)
    } else {
        props_from(ps.drop_last(), class).insert(key_of(ps.last()), ps.last().text->0@)
    }
}

pub open spec fn display_of(n: SourceNode) -> Seq<char> {
    display_from(entries_of(n), class_of(n))
}

pub open spec fn script_of(n: SourceNode) -> Option<Seq<char>> {
    script_from(entries_of(n))
}

pub open spec fn props_of(n: SourceNode) -> Map<Seq<char>, Seq<char>> {
    props_from(entries_of(n), class_of(n))
}

pub open spec fn opt_view(o: Option<String>) -> Option<Seq<char>> {
    match o {
        Some(s) => Some(s@),
        None => None,
    }
}

/// Setting the value of a key that the list already holds at `j`.
proof fn lemma_pairs_map_update(v: Seq<(String, String)>, j: int, p: (String, String))
    requires
        keys_unique(v),
        0 <= j < v.len(),
        p.0@ == v[j].0@,
    ensures
        pairs_map(v.update(j, p)) == pairs_map(v).insert(p.0@, p.1@),
    decreases v.len(),
{
    let w = v.update(j, p);
    if j == v.len() - 1 {
        assert(w.drop_last() == v.drop_last());
        assert(pairs_map(v).insert(p.0@, p.1@) =~= pairs_map(v.drop_last()).insert(p.0@, p.1@));
    } else {
        assert(w.drop_last() == v.drop_last().update(j, p));
        lemma_pairs_map_update(v.drop_last(), j, p);
        assert(v.last().0@ != p.0@);
        assert(pairs_map(w) =~= pairs_map(v).insert(p.0@, p.1@));
    }
}

/// A key that no pair holds is not in the map.
proof fn lemma_pairs_map_absent(v: Seq<(String, String)>, k: Seq<char>)
    requires
        forall|i: int| 0 <= i < v.len() ==> v[i].0@ != k,
    ensures
        !pairs_map(v).contains_key(k),
    decreases v.len(),
{
    if v.len() > 0 {
        lemma_pairs_map_absent(v.drop_last(), k);
    }
}

/// Sets `key` to `value`, replacing the value of an entry with that key.
fn set_property(v: &mut Vec<(String, String)>, key: String, value: String)
    requires
        keys_unique(old(v)@),
    ensures
        keys_unique(final(v)@),
        pairs_map(final(v)@) == pairs_map(old(v)@).insert(key@, value@),
{
    let mut j: usize = 0;
    while j < v.len()
        invariant
            j <= v@.len(),
            v@ == old(v)@,
            keys_unique(v@),
            forall|i: int| 0 <= i < j ==> v@[i].0@ != key@,
        decreases v.len() - j,
    {
        if same_text(v[j].0.as_str(), key.as_str()) {
            proof {
                lemma_pairs_map_update(v@, j as int, (key, value));
            }
            v.set(j, (key, value));
            assert(forall|i: int| 0 <= i < v@.len() ==> v@[i].0@ == old(v)@[i].0@);
            return;
        }
        j = j + 1;
    }
    proof {
        lemma_pairs_map_absent(v@, key@);
    }
    v.push((key, value));
    assert(v@.drop_last() == old(v)@);
    assert(forall|i: int| 0 <= i < old(v)@.len() ==> v@[i] == old(v)@[i]);
}

/// Collects what the folder of `node` holds: the display name (last `Name`
/// with text, else the class), the properties (`ClassName` and every other
/// entry with text but `Source`), and the script (the last `Source` entry).
pub fn node_record(node: &SourceNode) -> (r: ObjectRecord)
    ensures
        r.class_name@ == class_of(*node),
        r.display_name@ == display_of(*node),
        keys_unique(r.properties@),
        pairs_map(r.properties@) == props_of(*node),
        opt_view(r.script) == script_of(*node),
{
    let class = node.class_name();
    let mut name = owned(class.as_str());
    let mut script: Option<String> = None;
    let mut props: Vec<(String, String)> = Vec::new();
    set_property(&mut props, owned("ClassName"), owned(class.as_str()));
    assert(pairs_map(props@) =~= map!["ClassName"@ => class@]);
    let ghost ps = entries_of(*node);
    let empty: Vec<Property> = Vec::new();
    let entries = match &node.properties {
        Some(v) => v,
        None => &empty,
    };
    assert(entries@ == ps);
    let mut i: usize = 0;
    while i < entries.len()
        invariant
            i <= entries@.len(),
            entries@ == ps,
            ps == entries_of(*node),
            class@ == class_of(*node),
            name@ == display_from(ps.subrange(0, i as int), class@),
            opt_view(script) == script_from(ps.subrange(0, i as int)),
            keys_unique(props@),
            pairs_map(props@) == props_from(ps.subrange(0, i as int), class@),
        decreases entries.len() - i,
    {
        let p = &entries[i];
        let key = p.key();
        proof {
            reveal_strlit("Source");
            reveal_strlit("Name");
        }
        let ghost pre = ps.subrange(0, i as int);
        assert(ps.subrange(0, i + 1).drop_last() == pre);
        assert(ps.subrange(0, i + 1).last() == ps[i as int]);
        if same_text(key.as_str(), "Source") {
            assert("Source"@.len() == 6);
            assert("Name"@.len() == 4);
            assert(key@ != "Name"@);
            script = match &p.text {
                Some(t) => Some(owned(t.as_str())),
                None => None,
            };
        } else {
            if let Some(t) = &p.text {
                if same_text(key.as_str(), "Name") {
                    name = owned(t.as_str());
                }
                set_property(&mut props, key, owned(t.as_str()));
            }
        }
        i = i + 1;
    }
    assert(ps.subrange(0, ps.len() as int) == ps);
    ObjectRecord { class_name: class, display_name: name, properties: props, script }
}

} // verus!
