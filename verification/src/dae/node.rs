//! Collada nodes: their names, looking them up, and the document's
//! metadata entries.
use vstd::prelude::*;

use crate::text::{decimal, push_decimal, string_from_chars, string_is_empty};
use crate::textmap::TextMap;

verus! {

/// The prefix of generated node names.
pub open spec fn auto_name_prefix() -> Seq<char> {
    "$ColladaAutoName$_"@
}

/// An optional text, when it is present and not empty.
pub open spec fn non_empty(s: Option<String>) -> Option<Seq<char>> {
    match s {
        Some(t) => if t@.len() > 0 { Some(t@) } else { None },
        None => None,
    }
}

/// The name a node gets: its Collada name (when names are preferred), else
/// its id, else its sid, else `$ColladaAutoName$_<n>` with `n` the counter.
pub open spec fn node_name_spec(name: Option<String>, id: Option<String>, sid: Option<String>, use_name: bool, counter: u32) -> Seq<char> {
    if use_name && non_empty(name) is Some {
        non_empty(name)->0
    } else if non_empty(id) is Some {
        non_empty(id)->0
    } else if non_empty(sid) is Some {
        non_empty(sid)->0
    } else {
        auto_name_prefix() + decimal(counter as nat)
    }
}

/// An optional text, when it is present and not empty.
pub open spec fn non_empty_text(s: Option<Seq<char>>) -> Option<Seq<char>> {
    match s {
        Some(t) => if t.len() > 0 { Some(t) } else { None },
        None => None,
    }
}

/// The name a node gets (see `node_name_spec`), from the values of its
/// name, id and sid.
pub open spec fn node_name_view(name: Option<Seq<char>>, id: Option<Seq<char>>, sid: Option<Seq<char>>, use_name: bool, counter: u32) -> Seq<char> {
    if use_name && non_empty_text(name) is Some {
        non_empty_text(name)->0
    } else if non_empty_text(id) is Some {
        non_empty_text(id)->0
    } else if non_empty_text(sid) is Some {
        non_empty_text(sid)->0
    } else {
        auto_name_prefix() + decimal(counter as nat)
    }
}

/// The name of a node depends on the values of its name, id and sid alone.
pub proof fn lemma_node_name_view(name: Option<String>, id: Option<String>, sid: Option<String>, use_name: bool, counter: u32)
    ensures
        node_name_spec(name, id, sid, use_name, counter)
            == node_name_view(crate::dae::metadata::opt_view(name), crate::dae::metadata::opt_view(id), crate::dae::metadata::opt_view(sid), use_name, counter),
{
}

/// Whether a node is named by the counter (it has no usable name).
pub open spec fn takes_counter(name: Option<String>, id: Option<String>, sid: Option<String>, use_name: bool) -> bool {
    !(use_name && non_empty(name) is Some) && non_empty(id) is None && non_empty(sid) is None
}

fn present(s: &Option<String>) -> (r: Option<String>)
    ensures
        match r {
            Some(t) => non_empty(*s) == Some(t@),
            None => non_empty(*s) is None,
        },
{
    match s {
        Some(t) => if string_is_empty(t) { None } else { Some(t.clone()) },
        None => None,
    }
}

/// The name of a node; a generated name takes the counter and steps it.
pub fn find_name_for_node(name: &Option<String>, id: &Option<String>, sid: &Option<String>, use_collada_name: bool,
    node_name_counter: &mut u32) -> (r: String)
    requires
        takes_counter(*name, *id, *sid, use_collada_name) ==> *old(node_name_counter) < u32::MAX,
    ensures
        r@ == node_name_spec(*name, *id, *sid, use_collada_name, *old(node_name_counter)),
        *final(node_name_counter) == if takes_counter(*name, *id, *sid, use_collada_name) {
            (*old(node_name_counter) + 1) as u32
        } else {
            *old(node_name_counter)
        },
{
    if use_collada_name {
        match present(name) {
            Some(n) => return n,
            None => {},
        }
    }
    match present(id) {
        Some(n) => return n,
        None => {},
    }
    match present(sid) {
        Some(n) => return n,
        None => {},
    }
    proof { reveal_strlit("$ColladaAutoName$_"); }
    let mut v = crate::text::chars_of("$ColladaAutoName$_");
    let ghost head = v@;
    push_decimal(&mut v, *node_name_counter as usize);
    *node_name_counter = *node_name_counter + 1;
    string_from_chars(&v)
}

/// The metadata after `value` is offered under `key`: kept only when it is
/// present, not empty, and the key has no entry yet.
pub open spec fn insert_first_spec(m: Map<Seq<char>, String>, key: Seq<char>, value: Option<String>) -> Map<Seq<char>, String> {
    match value {
        Some(v) => if v@.len() > 0 && !m.dom().contains(key) { m.insert(key, v) } else { m },
        None => m,
    }
}

/// Offers `value` under `key`: the first present, non-empty value of a
/// key stays.
pub fn insert_first(metadata: &mut TextMap<String>, key: &str, value: Option<String>)
    requires
        old(metadata).wf(),
    ensures
        final(metadata).wf(),
        final(metadata).as_map() == insert_first_spec(old(metadata).as_map(), key@, value),
{
    match value {
        Some(v) => {
            if !string_is_empty(&v) {
                match metadata.get(key) {
                    Some(_) => {},
                    None => {
                        metadata.insert(String::from_str(key), v);
                    },
                }
            }
        },
        None => {},
    }
}

/// The name of a material: its name, else its id.
pub fn get_material_name(name: &Option<String>, id: &Option<String>) -> (r: Option<String>)
    ensures
        match *name {
            Some(n) => r is Some && r->0@ == n@,
            None => match *id {
                Some(i) => r is Some && r->0@ == i@,
                None => r is None,
            },
        },
{
    match name {
        Some(n) => Some(n.clone()),
        None => match id {
            Some(i) => Some(i.clone()),
            None => None,
        },
    }
}

/// A node of a Collada visual scene: its name, its id and its children.
pub struct NodeInfo {
    pub name: Option<String>,
    pub id: Option<String>,
    pub children: Vec<NodeInfo>,
}

/// Whether a node is called `name` (by name or by id).
pub open spec fn called(n: NodeInfo, name: Seq<char>) -> bool {
    (n.name is Some && n.name->0@ == name) || (n.id is Some && n.id->0@ == name)
}

/// The first node called `name` in a depth-first, pre-order walk of the
/// tree under `n`: the path of child positions leading to it.
pub open spec fn find_node_spec(n: NodeInfo, name: Seq<char>) -> Option<Seq<int>>
    decreases n, 0int,
{
    if called(n, name) {
        Some(Seq::empty())
    } else {
        find_in_children(n.children@, name, 0)
    }
}

/// The first node called `name` under the children from position `i` on.
pub open spec fn find_in_children(cs: Seq<NodeInfo>, name: Seq<char>, i: int) -> Option<Seq<int>>
    decreases cs, cs.len() - i,
{
    if i < 0 || i >= cs.len() {
        None
    } else {
        match find_node_spec(cs[i], name) {
            Some(p) => Some(seq![i] + p),
            None => find_in_children(cs, name, i + 1),
        }
    }
}

/// The node at a path of child positions under `n`.
pub open spec fn node_at(n: NodeInfo, path: Seq<int>) -> NodeInfo
    decreases path.len(),
{
    if path.len() == 0 || path[0] < 0 || path[0] >= n.children@.len() {
        n
    } else {
        node_at(n.children@[path[0]], path.skip(1))
    }
}

fn is_called(n: &NodeInfo, name: &str) -> (b: bool)
    ensures
        b == called(*n, name@),
{
    let by_name = match &n.name {
        Some(x) => crate::text::str_eq(x.as_str(), name),
        None => false,
    };
    let by_id = match &n.id {
        Some(x) => crate::text::str_eq(x.as_str(), name),
        None => false,
    };
    by_name || by_id
}

/// The first node called `name` in a depth-first, pre-order walk of the
/// tree under `n` (by name or by id).
pub fn find_node<'a>(n: &'a NodeInfo, name: &str) -> (r: Option<&'a NodeInfo>)
    ensures
        match find_node_spec(*n, name@) {
            Some(p) => r == Some(&node_at(*n, p)),
            None => r is None,
        },
    decreases n, 0int,
{
    if is_called(n, name) {
        return Some(n);
    }
    find_in_child_list(n, name, 0)
}

fn find_in_child_list<'a>(n: &'a NodeInfo, name: &str, i: usize) -> (r: Option<&'a NodeInfo>)
    requires
        i <= n.children@.len(),
    ensures
        match find_in_children(n.children@, name@, i as int) {
            Some(p) => p.len() > 0 && 0 <= p[0] < n.children@.len()
                && r == Some(&node_at(n.children@[p[0]], p.skip(1))),
            None => r is None,
        },
    decreases n.children@, n.children@.len() - i,
{
    if i >= n.children.len() {
        return None;
    }
    let child = &n.children[i];
    match find_node(child, name) {
        Some(found) => {
            proof {
                let p = find_node_spec(*child, name@)->0;
                assert((seq![i as int] + p).skip(1) =~= p);
            }
            Some(found)
        },
        None => find_in_child_list(n, name, i + 1),
    }
}

} // verus!
