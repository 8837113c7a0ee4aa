//! What holds of pointers: a key that was escaped into a pointer segment
//! comes back from it, and in a document whose objects have each key once a
//! pointer names at most one node.

use crate::data::model::pointer_key;
use crate::iter_json_value::{
    array_nodes, child_pointer, escaped_key, nodes, object_nodes, unescaped_key,
};
use crate::json::{unique_keys, Document};
use crate::record::distinct_keys;
use crate::text::{decimal, is_digit, lemma_decimal_value, replaced};
use vstd::prelude::*;

verus! {

/// A key with `~` written `~0`.
pub open spec fn tildes_escaped(key: Seq<char>) -> Seq<char>
    decreases key.len(),
{
    if key.len() == 0 {
        key
    } else if key[0] == '~' {
        seq!['~', '0'] + tildes_escaped(key.skip(1))
    } else {
        seq![key[0]] + tildes_escaped(key.skip(1))
    }
}

/// A key with `~` written `~0` and `/` written `~1`, character by
/// character.
pub open spec fn segment_of(key: Seq<char>) -> Seq<char>
    decreases key.len(),
{
    if key.len() == 0 {
        key
    } else if key[0] == '~' {
        seq!['~', '0'] + segment_of(key.skip(1))
    } else if key[0] == '/' {
        seq!['~', '1'] + segment_of(key.skip(1))
    } else {
        seq![key[0]] + segment_of(key.skip(1))
    }
}

/// Replacing a single character works on each part of a text by itself.
proof fn lemma_replaced_char_concat(a: Seq<char>, b: Seq<char>, c: char, to: Seq<char>)
    ensures
        replaced(a + b, seq![c], to) == replaced(a, seq![c], to) + replaced(b, seq![c], to),
    decreases a.len(),
{
    if a.len() == 0 {
        assert(a + b =~= b);
        assert(replaced(a, seq![c], to) + replaced(b, seq![c], to) =~= replaced(b, seq![c], to));
    } else {
        let rest = a.skip(1);
        lemma_replaced_char_concat(rest, b, c, to);
        assert((a + b).skip(1) =~= rest + b);
        assert((a + b)[0] == a[0]);
        lemma_single_prefix(a + b, c);
        lemma_single_prefix(a, c);
        if a[0] == c {
            assert(replaced(a + b, seq![c], to) =~= to + replaced(rest + b, seq![c], to));
            assert(replaced(a, seq![c], to) =~= to + replaced(rest, seq![c], to));
            assert(replaced(a + b, seq![c], to) =~= replaced(a, seq![c], to) + replaced(
                b,
                seq![c],
                to,
            ));
        } else {
            assert(replaced(a + b, seq![c], to) =~= seq![a[0]] + replaced(rest + b, seq![c], to));
            assert(replaced(a, seq![c], to) =~= seq![a[0]] + replaced(rest, seq![c], to));
            assert(replaced(a + b, seq![c], to) =~= replaced(a, seq![c], to) + replaced(
                b,
                seq![c],
                to,
            ));
        }
    }
}

/// Replacing in a text of one character gives the replacement or the
/// character.
proof fn lemma_replaced_one(x: char, c: char, to: Seq<char>)
    ensures
        replaced(seq![x], seq![c], to) == if x == c {
            to
        } else {
            seq![x]
        },
{
    let s = seq![x];
    lemma_single_prefix(s, c);
    assert(s.skip(1) =~= Seq::<char>::empty());
    assert(replaced(s.skip(1), seq![c], to) =~= Seq::<char>::empty());
    if x == c {
        assert(replaced(s, seq![c], to) =~= to);
    } else {
        assert(replaced(s, seq![c], to) =~= s);
    }
}

/// A single character stands in front of a text where it is the first
/// character of the text.
proof fn lemma_single_prefix(s: Seq<char>, c: char)
    requires
        s.len() > 0,
    ensures
        seq![c].is_prefix_of(s) == (s[0] == c),
        s.skip(seq![c].len() as int) == s.skip(1),
{
    if s[0] == c {
        assert(seq![c] =~= s.subrange(0, 1));
    } else {
        if seq![c].is_prefix_of(s) {
            assert(seq![c][0] == s[0]);
        }
    }
}

/// Replacing `~` by `~0` escapes the tildes.
proof fn lemma_tildes_escaped(key: Seq<char>)
    ensures
        replaced(key, seq!['~'], seq!['~', '0']) == tildes_escaped(key),
    decreases key.len(),
{
    if key.len() > 0 {
        lemma_tildes_escaped(key.skip(1));
        lemma_single_prefix(key, '~');
    }
}

/// Escaping a key is escaping each of its characters.
pub proof fn lemma_escaped_key(key: Seq<char>)
    ensures
        escaped_key(key) == segment_of(key),
    decreases key.len(),
{
    lemma_tildes_escaped(key);
    lemma_slashes_of_tildes(key);
}

/// Replacing `/` by `~1` in a key whose tildes are escaped gives the
/// segment.
proof fn lemma_slashes_of_tildes(key: Seq<char>)
    ensures
        replaced(tildes_escaped(key), seq!['/'], seq!['~', '1']) == segment_of(key),
    decreases key.len(),
{
    let slash = seq!['/'];
    let to = seq!['~', '1'];
    if key.len() > 0 {
        let rest = key.skip(1);
        lemma_slashes_of_tildes(rest);
        let head = if key[0] == '~' {
            seq!['~', '0']
        } else {
            seq![key[0]]
        };
        assert(tildes_escaped(key) == head + tildes_escaped(rest));
        lemma_replaced_char_concat(head, tildes_escaped(rest), '/', to);
        if key[0] == '~' {
            assert(head =~= seq!['~'] + seq!['0']);
            lemma_replaced_char_concat(seq!['~'], seq!['0'], '/', to);
            lemma_replaced_one('~', '/', to);
            lemma_replaced_one('0', '/', to);
            assert(replaced(head, slash, to) =~= head);
        } else {
            lemma_replaced_one(key[0], '/', to);
        }
    }
}

/// Restoring `/` from `~1` in a segment leaves the key with its tildes
/// escaped.
proof fn lemma_slashes_restored(key: Seq<char>)
    ensures
        replaced(segment_of(key), seq!['~', '1'], seq!['/']) == tildes_escaped(key),
    decreases key.len(),
{
    let from = seq!['~', '1'];
    let to = seq!['/'];
    if key.len() > 0 {
        let rest = key.skip(1);
        lemma_slashes_restored(rest);
        let s = segment_of(key);
        if key[0] == '~' {
            assert(s == seq!['~', '0'] + segment_of(rest));
            assert(!from.is_prefix_of(s)) by {
                if from.is_prefix_of(s) {
                    assert(from[1] == s[1]);
                }
            }
            let t = s.skip(1);
            assert(t =~= seq!['0'] + segment_of(rest));
            assert(!from.is_prefix_of(t)) by {
                if from.is_prefix_of(t) {
                    assert(from[0] == t[0]);
                }
            }
            assert(t.skip(1) =~= segment_of(rest));
            assert(replaced(t, from, to) =~= seq!['0'] + replaced(segment_of(rest), from, to));
            assert(replaced(s, from, to) =~= seq!['~'] + replaced(t, from, to));
            assert(replaced(s, from, to) =~= tildes_escaped(key));
        } else if key[0] == '/' {
            assert(s == from + segment_of(rest));
            assert(from.is_prefix_of(s)) by {
                assert(from =~= s.subrange(0, 2));
            }
            assert(s.skip(from.len() as int) =~= segment_of(rest));
            assert(replaced(s, from, to) =~= to + replaced(segment_of(rest), from, to));
            assert(replaced(s, from, to) =~= tildes_escaped(key));
        } else {
            assert(s == seq![key[0]] + segment_of(rest));
            assert(!from.is_prefix_of(s)) by {
                if from.is_prefix_of(s) {
                    assert(from[0] == s[0]);
                }
            }
            assert(s.skip(1) =~= segment_of(rest));
            assert(replaced(s, from, to) =~= seq![key[0]] + replaced(segment_of(rest), from, to));
            assert(replaced(s, from, to) =~= tildes_escaped(key));
        }
    }
}

/// Restoring `~` from `~0` in a key whose tildes are escaped gives the
/// key.
proof fn lemma_tildes_restored(key: Seq<char>)
    ensures
        replaced(tildes_escaped(key), seq!['~', '0'], seq!['~']) == key,
    decreases key.len(),
{
    let from = seq!['~', '0'];
    let to = seq!['~'];
    if key.len() > 0 {
        let rest = key.skip(1);
        lemma_tildes_restored(rest);
        let s = tildes_escaped(key);
        if key[0] == '~' {
            assert(s == from + tildes_escaped(rest));
            assert(from.is_prefix_of(s)) by {
                assert(from =~= s.subrange(0, 2));
            }
            assert(s.skip(from.len() as int) =~= tildes_escaped(rest));
            assert(replaced(s, from, to) =~= to + replaced(tildes_escaped(rest), from, to));
            assert(replaced(s, from, to) =~= key);
        } else {
            assert(s == seq![key[0]] + tildes_escaped(rest));
            assert(!from.is_prefix_of(s)) by {
                if from.is_prefix_of(s) {
                    assert(from[0] == s[0]);
                }
            }
            assert(s.skip(1) =~= tildes_escaped(rest));
            assert(replaced(s, from, to) =~= seq![key[0]] + replaced(
                tildes_escaped(rest),
                from,
                to,
            ));
            assert(replaced(s, from, to) =~= key);
        }
    }
}

/// A key comes back from the segment that it was escaped into.
pub proof fn lemma_key_comes_back(key: Seq<char>)
    ensures
        unescaped_key(escaped_key(key)) == key,
{
    lemma_escaped_key(key);
    lemma_slashes_restored(key);
    lemma_tildes_restored(key);
}

/// A segment holds no `/`.
pub proof fn lemma_segment_has_no_slash(key: Seq<char>)
    ensures
        !escaped_key(key).contains('/'),
    decreases key.len(),
{
    lemma_escaped_key(key);
    lemma_segment_of_has_no_slash(key);
}

proof fn lemma_segment_of_has_no_slash(key: Seq<char>)
    ensures
        !segment_of(key).contains('/'),
    decreases key.len(),
{
    if key.len() > 0 {
        let rest = key.skip(1);
        lemma_segment_of_has_no_slash(rest);
        let s = segment_of(key);
        if s.contains('/') {
            let i = choose|i: int| 0 <= i < s.len() && s[i] == '/';
            if key[0] == '~' || key[0] == '/' {
                if i >= 2 {
                    assert(segment_of(rest)[i - 2] == '/');
                }
            } else {
                if i >= 1 {
                    assert(segment_of(rest)[i - 1] == '/');
                }
            }
        }
    }
}

/// The column that a member of the document's root gets as a direct value
/// has the member's key for its name.
pub proof fn lemma_member_column_is_key(key: Seq<char>)
    ensures
        pointer_key(child_pointer(Seq::empty(), escaped_key(key))) == key,
{
    let segment = escaped_key(key);
    let pointer = child_pointer(Seq::empty(), segment);
    assert(pointer =~= seq!['/'] + segment);
    assert(pointer.skip(1) =~= segment);
    lemma_segment_has_no_slash(key);
    lemma_replaced_without(segment, '/', seq!['_']);
    lemma_key_comes_back(key);
}

/// Replacing a character that a text does not hold changes nothing.
proof fn lemma_replaced_without(s: Seq<char>, c: char, to: Seq<char>)
    requires
        !s.contains(c),
    ensures
        replaced(s, seq![c], to) == s,
    decreases s.len(),
{
    if s.len() > 0 {
        let rest = s.skip(1);
        assert(!rest.contains(c)) by {
            if rest.contains(c) {
                let i = choose|i: int| 0 <= i < rest.len() && rest[i] == c;
                assert(s[i + 1] == c);
            }
        }
        lemma_replaced_without(rest, c, to);
        lemma_single_prefix(s, c);
        assert(s[0] != c);
        assert(s =~= seq![s[0]] + rest);
    }
}

/// Whether `q` points below `p`: it is `p`, a `/`, and more.
pub open spec fn extends(p: Seq<char>, q: Seq<char>) -> bool {
    &&& q.len() > p.len()
    &&& q.take(p.len() as int) == p
    &&& q[p.len() as int] == '/'
}

/// Whether `q` points to the child that `segment` names below `parent`, or
/// below that child.
pub open spec fn under(parent: Seq<char>, segment: Seq<char>, q: Seq<char>) -> bool {
    q == child_pointer(parent, segment) || extends(child_pointer(parent, segment), q)
}

/// What points to a child or below it, points below the parent.
proof fn lemma_under_extends(parent: Seq<char>, segment: Seq<char>, q: Seq<char>)
    requires
        under(parent, segment, q),
    ensures
        extends(parent, q),
{
    let child = child_pointer(parent, segment);
    assert(child.take(parent.len() as int) =~= parent);
    assert(child[parent.len() as int] == '/');
    if q != child {
        assert(q.take(parent.len() as int) =~= q.take(child.len() as int).take(
            parent.len() as int,
        ));
        assert(q[parent.len() as int] == q.take(child.len() as int)[parent.len() as int]);
    }
}

/// Pointers to different children of one parent, or below them, differ,
/// where the children's segments hold no `/`.
proof fn lemma_under_differs(
    parent: Seq<char>,
    a: Seq<char>,
    b: Seq<char>,
    q: Seq<char>,
    r: Seq<char>,
)
    requires
        a != b,
        !a.contains('/'),
        !b.contains('/'),
        under(parent, a, q),
        under(parent, b, r),
    ensures
        q != r,
{
    if q == r {
        let base = parent.len() + 1;
        let ca = child_pointer(parent, a);
        let cb = child_pointer(parent, b);
        assert(ca.len() == base + a.len() && cb.len() == base + b.len());
        assert(q.take(ca.len() as int) =~= ca) by {
            if q == ca {
                assert(q.take(ca.len() as int) =~= q);
            }
        }
        assert(q.take(cb.len() as int) =~= cb) by {
            if q == cb {
                assert(q.take(cb.len() as int) =~= q);
            }
        }
        assert forall|i: int| 0 <= i < a.len() implies a[i] == q[base + i] by {
            assert(ca[base + i] == a[i]);
            assert(q.take(ca.len() as int)[base + i] == q[base + i]);
        }
        assert forall|i: int| 0 <= i < b.len() implies b[i] == q[base + i] by {
            assert(cb[base + i] == b[i]);
            assert(q.take(cb.len() as int)[base + i] == q[base + i]);
        }
        if a.len() == b.len() {
            assert(a =~= b);
        } else if a.len() < b.len() {
            assert(q != ca);
            assert(q[ca.len() as int] == '/');
            assert(b[a.len() as int] == '/');
        } else {
            assert(q != cb);
            assert(q[cb.len() as int] == '/');
            assert(a[b.len() as int] == '/');
        }
    }
}

/// The decimal texts of different numbers differ, and none holds a `/`.
proof fn lemma_decimal_segments(i: nat, j: nat)
    ensures
        !decimal(i).contains('/'),
        i != j ==> decimal(i) != decimal(j),
{
    lemma_decimal_value(i);
    lemma_decimal_value(j);
    if decimal(i).contains('/') {
        let k = choose|k: int| 0 <= k < decimal(i).len() && decimal(i)[k] == '/';
        assert(is_digit(decimal(i)[k]));
    }
}

/// The segments of different keys differ.
proof fn lemma_key_segments(a: Seq<char>, b: Seq<char>)
    ensures
        a != b ==> escaped_key(a) != escaped_key(b),
{
    lemma_key_comes_back(a);
    lemma_key_comes_back(b);
}

/// Whether every pointer among the nodes points to one of the first `n`
/// children of `parent`, or below it, the children named by `segment`.
spec fn all_under(
    ns: Seq<(Seq<char>, Document)>,
    parent: Seq<char>,
    segment: spec_fn(int) -> Seq<char>,
    n: nat,
) -> bool {
    forall|k: int| 0 <= k < ns.len() ==> under_one(parent, segment, n, (#[trigger] ns[k]).0)
}

/// Whether `q` points to one of the first `n` children of `parent`, or
/// below it.
spec fn under_one(parent: Seq<char>, segment: spec_fn(int) -> Seq<char>, n: nat, q: Seq<char>) -> bool {
    exists|i: int| 0 <= i < n && under(parent, #[trigger] segment(i), q)
}

/// In a document whose objects have each key once, the nodes below the
/// first `n` items of an array have pointers that differ, each to an item
/// or below one.
proof fn lemma_array_nodes_distinct(pointer: Seq<char>, items: Seq<Document>, n: nat)
    requires
        n <= items.len(),
        forall|i: int| 0 <= i < items.len() ==> unique_keys(#[trigger] items[i]),
    ensures
        distinct_keys(array_nodes(pointer, items, n)),
        all_under(array_nodes(pointer, items, n), pointer, |i: int| decimal(i as nat), n),
    decreases items, n,
{
    let segment = |i: int| decimal(i as nat);
    if n > 0 {
        let m = (n - 1) as nat;
        let child = child_pointer(pointer, decimal(m));
        let first = array_nodes(pointer, items, m);
        let second = nodes(child, items[m as int]);
        let all = array_nodes(pointer, items, n);
        lemma_array_nodes_distinct(pointer, items, m);
        lemma_nodes_distinct(child, items[m as int]);
        assert(all == first + second);
        assert forall|k: int| 0 <= k < all.len() implies under_one(
            pointer,
            segment,
            n,
            (#[trigger] all[k]).0,
        ) by {
            if k < first.len() {
                assert(all[k] == first[k]);
                assert(under_one(pointer, segment, m, first[k].0));
                let i = choose|i: int|
                    0 <= i < m && under(pointer, #[trigger] segment(i), first[k].0);
                assert(0 <= i < n && under(pointer, segment(i), all[k].0));
            } else {
                assert(all[k] == second[k - first.len()]);
                assert(under(pointer, segment(m as int), all[k].0));
            }
        }
        assert forall|a: int, b: int| 0 <= a < b < all.len() implies (#[trigger] all[a]).0 != (
        #[trigger] all[b]).0 by {
            if b < first.len() {
                assert(all[a] == first[a] && all[b] == first[b]);
            } else if a >= first.len() {
                assert(all[a] == second[a - first.len()] && all[b] == second[b - first.len()]);
            } else {
                assert(all[a] == first[a] && all[b] == second[b - first.len()]);
                assert(under_one(pointer, segment, m, first[a].0));
                let i = choose|i: int|
                    0 <= i < m && under(pointer, #[trigger] segment(i), first[a].0);
                assert(under(pointer, segment(m as int), all[b].0));
                lemma_decimal_segments(i as nat, m);
                lemma_decimal_segments(m, i as nat);
                lemma_under_differs(pointer, decimal(i as nat), decimal(m), all[a].0, all[b].0);
            }
        }
    }
}

/// In a document whose objects have each key once, the nodes below the
/// first `n` members of an object have pointers that differ, each to a
/// member or below one.
proof fn lemma_object_nodes_distinct(
    pointer: Seq<char>,
    members: Seq<(String, Document)>,
    n: nat,
)
    requires
        n <= members.len(),
        forall|i: int, j: int|
            0 <= i < j < members.len() ==> (#[trigger] members[i]).0@ != (#[trigger] members[j]).0@,
        forall|i: int| 0 <= i < members.len() ==> unique_keys((#[trigger] members[i]).1),
    ensures
        distinct_keys(object_nodes(pointer, members, n)),
        all_under(
            object_nodes(pointer, members, n),
            pointer,
            |i: int| escaped_key(members[i].0@),
            n,
        ),
    decreases members, n,
{
    let segment = |i: int| escaped_key(members[i].0@);
    if n > 0 {
        let m = (n - 1) as nat;
        let child = child_pointer(pointer, escaped_key(members[m as int].0@));
        let first = object_nodes(pointer, members, m);
        let second = nodes(child, members[m as int].1);
        let all = object_nodes(pointer, members, n);
        lemma_object_nodes_distinct(pointer, members, m);
        lemma_nodes_distinct(child, members[m as int].1);
        assert(all == first + second);
        assert forall|k: int| 0 <= k < all.len() implies under_one(
            pointer,
            segment,
            n,
            (#[trigger] all[k]).0,
        ) by {
            if k < first.len() {
                assert(all[k] == first[k]);
                assert(under_one(pointer, segment, m, first[k].0));
                let i = choose|i: int|
                    0 <= i < m && under(pointer, #[trigger] segment(i), first[k].0);
                assert(0 <= i < n && under(pointer, segment(i), all[k].0));
            } else {
                assert(all[k] == second[k - first.len()]);
                assert(under(pointer, segment(m as int), all[k].0));
            }
        }
        assert forall|a: int, b: int| 0 <= a < b < all.len() implies (#[trigger] all[a]).0 != (
        #[trigger] all[b]).0 by {
            if b < first.len() {
                assert(all[a] == first[a] && all[b] == first[b]);
            } else if a >= first.len() {
                assert(all[a] == second[a - first.len()] && all[b] == second[b - first.len()]);
            } else {
                assert(all[a] == first[a] && all[b] == second[b - first.len()]);
                assert(under_one(pointer, segment, m, first[a].0));
                let i = choose|i: int|
                    0 <= i < m && under(pointer, #[trigger] segment(i), first[a].0);
                assert(under(pointer, segment(m as int), all[b].0));
                assert(members[i].0@ != members[m as int].0@);
                lemma_key_segments(members[i].0@, members[m as int].0@);
                lemma_segment_has_no_slash(members[i].0@);
                lemma_segment_has_no_slash(members[m as int].0@);
                lemma_under_differs(
                    pointer,
                    escaped_key(members[i].0@),
                    escaped_key(members[m as int].0@),
                    all[a].0,
                    all[b].0,
                );
            }
        }
    }
}

/// In a document whose objects have each key once, no two nodes have the
/// same pointer: a pointer names at most one node. The first node is the
/// document itself, and every other node lies below it.
pub proof fn lemma_nodes_distinct(pointer: Seq<char>, d: Document)
    requires
        unique_keys(d),
    ensures
        distinct_keys(nodes(pointer, d)),
        nodes(pointer, d).len() > 0,
        nodes(pointer, d)[0] == (pointer, d),
        forall|k: int|
            1 <= k < nodes(pointer, d).len() ==> extends(pointer, (#[trigger] nodes(pointer, d)[k]).0),
    decreases d,
{
    let all = nodes(pointer, d);
    match d {
        Document::Array(items) => {
            let below = array_nodes(pointer, items@, items@.len());
            lemma_array_nodes_distinct(pointer, items@, items@.len());
            assert(all == seq![(pointer, d)] + below);
            assert forall|k: int| 1 <= k < all.len() implies extends(pointer, (#[trigger] all[k]).0) by {
                assert(all[k] == below[k - 1]);
                let segment = |i: int| decimal(i as nat);
                assert(under_one(pointer, segment, items@.len(), below[k - 1].0));
                let i = choose|i: int|
                    0 <= i < items@.len() && under(pointer, #[trigger] segment(i), below[k - 1].0);
                lemma_under_extends(pointer, decimal(i as nat), all[k].0);
            }
            assert forall|a: int, b: int| 0 <= a < b < all.len() implies (#[trigger] all[a]).0 != (
            #[trigger] all[b]).0 by {
                if a == 0 {
                    assert(extends(pointer, all[b].0));
                } else {
                    assert(all[a] == below[a - 1] && all[b] == below[b - 1]);
                }
            }
        },
        Document::Object(members) => {
            let below = object_nodes(pointer, members@, members@.len());
            lemma_object_nodes_distinct(pointer, members@, members@.len());
            assert(all == seq![(pointer, d)] + below);
            assert forall|k: int| 1 <= k < all.len() implies extends(pointer, (#[trigger] all[k]).0) by {
                assert(all[k] == below[k - 1]);
                let segment = |i: int| escaped_key(members@[i].0@);
                assert(under_one(pointer, segment, members@.len(), below[k - 1].0));
                let i = choose|i: int|
                    0 <= i < members@.len() && under(
                        pointer,
                        #[trigger] segment(i),
                        below[k - 1].0,
                    );
                lemma_under_extends(pointer, escaped_key(members@[i].0@), all[k].0);
            }
            assert forall|a: int, b: int| 0 <= a < b < all.len() implies (#[trigger] all[a]).0 != (
            #[trigger] all[b]).0 by {
                if a == 0 {
                    assert(extends(pointer, all[b].0));
                } else {
                    assert(all[a] == below[a - 1] && all[b] == below[b - 1]);
                }
            }
        },
        _ => {},
    }
}

} // verus!
