//! What holds of the mappers for every document and every mapping.

use crate::backend::BackendEscaper;
use crate::data::model::{
    constant_values, direct_values, extended, extracted, finds_node, first_match, has_match,
    is_first_match, narrow_step, pointer_values, rule_value, wide_record, Nodes, Rules,
};
use crate::data::WideToWide;
use crate::eval::{EvalError, Script};
use crate::json::Document;
use crate::record::{distinct_keys, has_key, lemma_upsert, upsert, value_of, Entries};
use vstd::prelude::*;

verus! {

/// Feeding a document to a wide mapper twice gives the same record twice,
/// and leaves the mapper as it was.
pub proof fn lemma_wide_to_wide_repeats<E: BackendEscaper>(
    fresh: WideToWide<E>,
    value: Document,
    model: Script,
    between: WideToWide<E>,
    first: Result<Option<Entries>, EvalError>,
    after: WideToWide<E>,
    second: Result<Option<Entries>, EvalError>,
)
    requires
        WideToWide::consumed(fresh, value, model, between, first),
        WideToWide::consumed(between, value, model, after, second),
    ensures
        first == second,
        after == fresh,
{
}

/// Whether `entries` hold what the first `n` rules take from the nodes:
/// exactly the names of the rules whose pointer stands among the nodes,
/// each once, each with the processed text of its node.
pub open spec fn holds_pointer_values<E: BackendEscaper>(
    entries: Entries,
    rules: Rules,
    n: nat,
    ns: Nodes,
    escaper: E,
    model: Script,
) -> bool {
    &&& distinct_keys(entries)
    &&& forall|name: Seq<char>| #[trigger]
        has_key(entries, name) <==> exists|i: int|
            0 <= i < n && (#[trigger] rules[i]).0 == name && finds_node(rules[i].1, ns)
    &&& forall|i: int|
        0 <= i < n && finds_node((#[trigger] rules[i]).1, ns) ==> {
            &&& value_of(entries, rules[i].0) is Some
            &&& rule_value(rules[i].1, ns, escaper, model) == Ok::<Seq<char>, EvalError>(
                value_of(entries, rules[i].0)->0,
            )
        }
}

/// What the first `n` rules take from the nodes, where no name stands
/// twice among the rules: the names of the rules whose pointer stands among
/// the nodes, each with its processed text; or the error of a rule whose
/// expression failed.
pub proof fn lemma_pointer_values<E: BackendEscaper>(
    rules: Rules,
    n: nat,
    ns: Nodes,
    escaper: E,
    model: Script,
)
    requires
        n <= rules.len(),
        distinct_keys(rules),
    ensures
        match pointer_values(rules, n, ns, escaper, model) {
            Ok(entries) => holds_pointer_values(entries, rules, n, ns, escaper, model),
            Err(e) => exists|i: int|
                0 <= i < n && finds_node((#[trigger] rules[i]).1, ns) && rule_value(
                    rules[i].1,
                    ns,
                    escaper,
                    model,
                ) == Err::<Seq<char>, EvalError>(e),
        },
    decreases n,
{
    if n == 0 {
        let entries = Seq::<(Seq<char>, Seq<char>)>::empty();
        assert(pointer_values(rules, n, ns, escaper, model) == Ok::<Entries, EvalError>(
            entries,
        ));
        assert forall|name: Seq<char>| !#[trigger] has_key(entries, name) by {}
    } else {
        let m = (n - 1) as nat;
        lemma_pointer_values(rules, m, ns, escaper, model);
        let name = rules[m as int].0;
        let rule = rules[m as int].1;
        match pointer_values(rules, m, ns, escaper, model) {
            Err(e) => {
                let i = choose|i: int|
                    0 <= i < m && finds_node((#[trigger] rules[i]).1, ns) && rule_value(
                        rules[i].1,
                        ns,
                        escaper,
                        model,
                    ) == Err::<Seq<char>, EvalError>(e);
                assert(0 <= i < n && finds_node(rules[i].1, ns));
            },
            Ok(entries) => {
                if !finds_node(rule, ns) {
                    assert(holds_pointer_values(entries, rules, n, ns, escaper, model)) by {
                        assert forall|x: Seq<char>| #[trigger]
                            has_key(entries, x) <==> exists|i: int|
                                0 <= i < n && (#[trigger] rules[i]).0 == x && finds_node(
                                    rules[i].1,
                                    ns,
                                ) by {
                            if has_key(entries, x) {
                                let i = choose|i: int|
                                    0 <= i < m && (#[trigger] rules[i]).0 == x && finds_node(
                                        rules[i].1,
                                        ns,
                                    );
                                assert(0 <= i < n && rules[i].0 == x);
                            }
                            if exists|i: int|
                                0 <= i < n && (#[trigger] rules[i]).0 == x && finds_node(
                                    rules[i].1,
                                    ns,
                                ) {
                                let i = choose|i: int|
                                    0 <= i < n && (#[trigger] rules[i]).0 == x && finds_node(
                                        rules[i].1,
                                        ns,
                                    );
                                assert(0 <= i < m && rules[i].0 == x);
                            }
                        }
                    }
                } else {
                    match rule_value(rule, ns, escaper, model) {
                        Err(e) => {
                            assert(0 <= m < n && finds_node(rules[m as int].1, ns));
                        },
                        Ok(text) => {
                            let after = upsert(entries, name, text);
                            lemma_upsert(entries, name, text);
                            assert forall|x: Seq<char>| #[trigger]
                                has_key(after, x) <==> exists|i: int|
                                    0 <= i < n && (#[trigger] rules[i]).0 == x && finds_node(
                                        rules[i].1,
                                        ns,
                                    ) by {
                                if x == name {
                                    assert(rules[m as int].0 == x && finds_node(
                                        rules[m as int].1,
                                        ns,
                                    ));
                                } else {
                                    assert(has_key(after, x) == has_key(entries, x));
                                    if has_key(entries, x) {
                                        let i = choose|i: int|
                                            0 <= i < m && (#[trigger] rules[i]).0 == x
                                                && finds_node(rules[i].1, ns);
                                        assert(0 <= i < n && rules[i].0 == x);
                                    }
                                    if exists|i: int|
                                        0 <= i < n && (#[trigger] rules[i]).0 == x && finds_node(
                                            rules[i].1,
                                            ns,
                                        ) {
                                        let i = choose|i: int|
                                            0 <= i < n && (#[trigger] rules[i]).0 == x
                                                && finds_node(rules[i].1, ns);
                                        assert(0 <= i < m && rules[i].0 == x);
                                    }
                                }
                            }
                            assert forall|i: int|
                                0 <= i < n && finds_node((#[trigger] rules[i]).1, ns) implies {
                                &&& value_of(after, rules[i].0) is Some
                                &&& rule_value(rules[i].1, ns, escaper, model) == Ok::<
                                    Seq<char>,
                                    EvalError,
                                >(value_of(after, rules[i].0)->0)
                            } by {
                                if i < m {
                                    assert(rules[i].0 != rules[m as int].0);
                                    assert(has_key(after, rules[i].0) == has_key(
                                        entries,
                                        rules[i].0,
                                    ));
                                }
                            }
                        },
                    }
                }
            },
        }
    }
}

/// Without a policy no direct value is added.
pub proof fn lemma_no_direct_values<E: BackendEscaper>(
    entries: Entries,
    ns: Nodes,
    n: nat,
    rules: Rules,
    escaper: E,
)
    ensures
        direct_values(entries, ns, n, rules, None, escaper) == entries,
    decreases n,
{
    if n > 0 {
        lemma_no_direct_values(entries, ns, (n - 1) as nat, rules, escaper);
    }
}

/// Rules that are all pointers hold no constant.
pub proof fn lemma_no_constants<E: BackendEscaper>(
    rules: Rules,
    n: nat,
    escaper: E,
    model: Script,
)
    requires
        forall|i: int| 0 <= i < rules.len() ==> (#[trigger] rules[i]).1.kind is Pointer,
    ensures
        constant_values(rules, n, escaper, model) == Ok::<Entries, EvalError>(Seq::empty()),
    decreases n,
{
    if n > 0 && n <= rules.len() {
        lemma_no_constants(rules, (n - 1) as nat, escaper, model);
        assert(rules[n - 1].1.kind is Pointer);
    }
}

/// The record of a wide document under a mapping that holds pointer rules
/// only and no policy for direct values: it holds exactly the names of the
/// rules whose pointer stands in the document, each with the processed text
/// of the node under its pointer. Where an expression fails, the error is
/// that of a rule whose pointer stands in the document.
pub proof fn lemma_wide_record_of_pointers<E: BackendEscaper>(
    rules: Rules,
    ns: Nodes,
    escaper: E,
    model: Script,
)
    requires
        distinct_keys(rules),
        forall|i: int| 0 <= i < rules.len() ==> (#[trigger] rules[i]).1.kind is Pointer,
    ensures
        match wide_record(rules, None, ns, escaper, model) {
            Ok(entries) => holds_pointer_values(
                entries,
                rules,
                rules.len(),
                ns,
                escaper,
                model,
            ),
            Err(e) => exists|i: int|
                0 <= i < rules.len() && finds_node((#[trigger] rules[i]).1, ns) && rule_value(
                    rules[i].1,
                    ns,
                    escaper,
                    model,
                ) == Err::<Seq<char>, EvalError>(e),
        },
{
    lemma_pointer_values(rules, rules.len(), ns, escaper, model);
    lemma_no_constants(rules, rules.len(), escaper, model);
    match pointer_values(rules, rules.len(), ns, escaper, model) {
        Ok(entries) => {
            lemma_no_direct_values(entries, ns, ns.len(), rules, escaper);
        },
        Err(e) => {},
    }
}

/// Once a rule has failed, the rules after it change nothing.
pub proof fn lemma_pointer_values_failed<E: BackendEscaper>(
    rules: Rules,
    n: nat,
    m: nat,
    ns: Nodes,
    escaper: E,
    model: Script,
)
    requires
        n <= m <= rules.len(),
        pointer_values(rules, n, ns, escaper, model) is Err,
    ensures
        pointer_values(rules, m, ns, escaper, model) == pointer_values(
            rules,
            n,
            ns,
            escaper,
            model,
        ),
    decreases m,
{
    if n < m {
        lemma_pointer_values_failed(rules, n, (m - 1) as nat, ns, escaper, model);
    }
}

/// Once a constant has failed, the rules after it change nothing.
pub proof fn lemma_constant_values_failed<E: BackendEscaper>(
    rules: Rules,
    n: nat,
    m: nat,
    escaper: E,
    model: Script,
)
    requires
        n <= m <= rules.len(),
        constant_values(rules, n, escaper, model) is Err,
    ensures
        constant_values(rules, m, escaper, model) == constant_values(
            rules,
            n,
            escaper,
            model,
        ),
    decreases m,
{
    if n < m {
        lemma_constant_values_failed(rules, n, (m - 1) as nat, escaper, model);
    }
}

/// A first match is the first match.
pub proof fn lemma_first_match_unique(rules: Rules, ns: Nodes, i: int)
    requires
        is_first_match(rules, ns, i),
    ensures
        has_match(rules, ns),
        first_match(rules, ns) == i,
{
    let p = first_match(rules, ns);
    assert(is_first_match(rules, ns, p));
    if p < i {
        assert(!finds_node(rules[p].1, ns));
    } else if i < p {
        assert(!finds_node(rules[i].1, ns));
    }
}

/// A narrow mapper completes a row when a column comes again: of three
/// documents that give the columns `x`, `y` and `x` again, fed into an
/// empty buffer, the first two complete nothing, and the third completes
/// the row of the first two with the constants and leaves the buffer with
/// its own pair alone.
pub proof fn lemma_narrow_row_on_repeat<E: BackendEscaper>(
    rules: Rules,
    first: Nodes,
    second: Nodes,
    third: Nodes,
    x: Seq<char>,
    y: Seq<char>,
    values: (Seq<char>, Seq<char>, Seq<char>),
    constants: Entries,
    escaper: E,
    model: Script,
)
    requires
        x != y,
        extracted(rules, first, escaper, model) == Ok::<
            Option<(Seq<char>, Seq<char>)>,
            EvalError,
        >(Some((x, values.0))),
        extracted(rules, second, escaper, model) == Ok::<
            Option<(Seq<char>, Seq<char>)>,
            EvalError,
        >(Some((y, values.1))),
        extracted(rules, third, escaper, model) == Ok::<
            Option<(Seq<char>, Seq<char>)>,
            EvalError,
        >(Some((x, values.2))),
        constant_values(rules, rules.len(), escaper, model) == Ok::<Entries, EvalError>(constants),
    ensures
        narrow_step(Seq::empty(), rules, first, escaper, model) == Ok::<
            (Entries, Option<Entries>),
            EvalError,
        >((seq![(x, values.0)], None)),
        narrow_step(seq![(x, values.0)], rules, second, escaper, model) == Ok::<
            (Entries, Option<Entries>),
            EvalError,
        >((seq![(x, values.0), (y, values.1)], None)),
        narrow_step(seq![(x, values.0), (y, values.1)], rules, third, escaper, model) == Ok::<
            (Entries, Option<Entries>),
            EvalError,
        >(
            (
                seq![(x, values.2)],
                Some(extended(seq![(x, values.0), (y, values.1)], constants, constants.len())),
            ),
        ),
{
    let empty = Seq::<(Seq<char>, Seq<char>)>::empty();
    let one = seq![(x, values.0)];
    let two = seq![(x, values.0), (y, values.1)];
    assert(!has_key(empty, x));
    assert(empty.push((x, values.0)) =~= one);
    assert(!has_key(one, y)) by {
        if has_key(one, y) {
            let i = choose|i: int| 0 <= i < one.len() && (#[trigger] one[i]).0 == y;
            assert(one[i].0 == x);
        }
    }
    assert(one.push((y, values.1)) =~= two);
    assert(has_key(two, x)) by {
        assert(two[0].0 == x);
    }
}

} // verus!
