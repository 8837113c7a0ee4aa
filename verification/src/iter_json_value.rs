//! Depth-first traversal of a document: every node with its pointer.

use crate::json::Document;
use crate::text::{decimal, decimal_string, push_char, replace, replaced};
use vstd::prelude::*;

verus! {

/// A key as it stands in a pointer: `~` written `~0`, then `/` written `~1`.
pub open spec fn escaped_key(key: Seq<char>) -> Seq<char> {
    replaced(replaced(key, seq!['~'], seq!['~', '0']), seq!['/'], seq!['~', '1'])
}

/// The key that a pointer segment stands for: `~1` read as `/`, then `~0`
/// read as `~`.
pub open spec fn unescaped_key(segment: Seq<char>) -> Seq<char> {
    replaced(replaced(segment, seq!['~', '1'], seq!['/']), seq!['~', '0'], seq!['~'])
}

/// The pointer of the child that `segment` names below `parent`.
pub open spec fn child_pointer(parent: Seq<char>, segment: Seq<char>) -> Seq<char> {
    parent + seq!['/'] + segment
}

/// The nodes below the first `n` of `items`, each item before its own
/// children, items by increasing index.
pub open spec fn array_nodes(pointer: Seq<char>, items: Seq<Document>, n: nat) -> Seq<
    (Seq<char>, Document),
>
    decreases items, n,
{
    if n == 0 || n > items.len() {
        Seq::empty()
    } else {
        array_nodes(pointer, items, (n - 1) as nat) + nodes(
            child_pointer(pointer, decimal((n - 1) as nat)),
            items[n - 1],
        )
    }
}

/// The nodes below the first `n` of `members`, in the members' order.
pub open spec fn object_nodes(pointer: Seq<char>, members: Seq<(String, Document)>, n: nat) -> Seq<
    (Seq<char>, Document),
>
    decreases members, n,
{
    if n == 0 || n > members.len() {
        Seq::empty()
    } else {
        object_nodes(pointer, members, (n - 1) as nat) + nodes(
            child_pointer(pointer, escaped_key(members[n - 1].0@)),
            members[n - 1].1,
        )
    }
}

/// Every node of `d` in depth-first pre-order, `d` itself first under
/// `pointer`, each with its pointer.
pub open spec fn nodes(pointer: Seq<char>, d: Document) -> Seq<(Seq<char>, Document)>
    decreases d,
{
    match d {
        Document::Array(items) => seq![(pointer, d)] + array_nodes(pointer, items@, items@.len()),
        Document::Object(members) => seq![(pointer, d)] + object_nodes(
            pointer,
            members@,
            members@.len(),
        ),
        _ => seq![(pointer, d)],
    }
}

/// Every node of `d` with its pointer; the root has the empty pointer.
pub open spec fn document_nodes(d: Document) -> Seq<(Seq<char>, Document)> {
    nodes(Seq::empty(), d)
}

/// What a list of visited nodes stands for: pointers as characters, nodes
/// by value.
pub open spec fn node_views(visited: Seq<(String, &Document)>) -> Seq<(Seq<char>, Document)> {
    visited.map_values(|e: (String, &Document)| (e.0@, *e.1))
}

/// Escapes a key for use as a pointer segment.
pub fn escape_key(key: &str) -> (out: String)
    ensures
        out@ == escaped_key(key@),
{
    proof {
        reveal_strlit("~");
        reveal_strlit("~0");
        reveal_strlit("/");
        reveal_strlit("~1");
    }
    assert("~"@ =~= seq!['~']);
    assert("~0"@ =~= seq!['~', '0']);
    assert("/"@ =~= seq!['/']);
    assert("~1"@ =~= seq!['~', '1']);
    let tilde = replace(key, "~", "~0");
    replace(tilde.as_str(), "/", "~1")
}

/// Restores the key that a pointer segment stands for.
pub fn unescape_key(segment: &str) -> (key: String)
    ensures
        key@ == unescaped_key(segment@),
{
    proof {
        reveal_strlit("~1");
        reveal_strlit("/");
        reveal_strlit("~0");
        reveal_strlit("~");
    }
    assert("~1"@ =~= seq!['~', '1']);
    assert("/"@ =~= seq!['/']);
    assert("~0"@ =~= seq!['~', '0']);
    assert("~"@ =~= seq!['~']);
    let slashes = replace(segment, "~1", "/");
    replace(slashes.as_str(), "~0", "~")
}

/// Builds the pointer of a child from its parent's pointer and its segment.
fn join_pointer(parent: &str, segment: &str) -> (out: String)
    ensures
        out@ == child_pointer(parent@, segment@),
{
    let mut out = String::new();
    out.append(parent);
    push_char(&mut out, '/');
    out.append(segment);
    assert(out@ =~= child_pointer(parent@, segment@));
    out
}

/// Visits every node of a document in depth-first pre-order and yields it
/// with its pointer: a node before its children, object members in the
/// document's own order, array elements by increasing index. The nodes are
/// references into the document.
pub fn iter_json_value<'a>(value: &'a Document) -> (out: Vec<(String, &'a Document)>)
    ensures
        node_views(out@) == document_nodes(*value),
{
    let mut out: Vec<(String, &'a Document)> = Vec::new();
    assert(node_views(out@) =~= Seq::empty());
    iter_json_value_in_pointer(String::new(), value, &mut out);
    assert(node_views(out@) =~= document_nodes(*value));
    out
}

/// Appends the nodes of `value`, which stands under `pointer`, to `out`.
fn iter_json_value_in_pointer<'a>(
    pointer: String,
    value: &'a Document,
    out: &mut Vec<(String, &'a Document)>,
)
    ensures
        node_views(final(out)@) == node_views(old(out)@) + nodes(pointer@, *value),
    decreases *value,
{
    let ghost before = node_views(out@);
    out.push((pointer.clone(), value));
    assert(node_views(out@) =~= before + seq![(pointer@, *value)]);
    match value {
        Document::Array(items) => {
            let mut i: usize = 0;
            while i < items.len()
                invariant
                    i <= items@.len(),
                    *value is Array,
                    value->Array_0 == *items,
                    node_views(out@) == before + seq![(pointer@, *value)] + array_nodes(
                        pointer@,
                        items@,
                        i as nat,
                    ),
                decreases items@.len() - i,
            {
                let index = decimal_string(i);
                let child = join_pointer(pointer.as_str(), index.as_str());
                assert(decreases_to!(*items => items[i as int]));
                iter_json_value_in_pointer(child, &items[i], out);
                i += 1;
            }
        },
        Document::Object(members) => {
            let mut i: usize = 0;
            while i < members.len()
                invariant
                    i <= members@.len(),
                    *value is Object,
                    value->Object_0 == *members,
                    node_views(out@) == before + seq![(pointer@, *value)] + object_nodes(
                        pointer@,
                        members@,
                        i as nat,
                    ),
                decreases members@.len() - i,
            {
                let key = escape_key(members[i].0.as_str());
                let child = join_pointer(pointer.as_str(), key.as_str());
                assert(decreases_to!(*members => members[i as int]));
                iter_json_value_in_pointer(child, &members[i].1, out);
                i += 1;
            }
        },
        _ => {},
    }
}

} // verus!
