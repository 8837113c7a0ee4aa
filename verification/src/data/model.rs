//! The record mapper as mathematics: what the value pipeline makes of a
//! text, which record a wide document gives, and what a narrow document
//! does to a buffered row.

use crate::backend::BackendEscaper;
use crate::config::{DirectValues, Value, ValueKind};
use crate::eval::{agrees_on_option, text_option, EvalError, Script};
use crate::iter_json_value::unescaped_key;
use crate::json::Document;
use crate::record::{has_key, key_position, record_entries, upsert, Entries, Record};
use crate::text::replaced;
use vstd::prelude::*;

verus! {

/// The value pipeline: what preprocessing, escaping and postprocessing, in
/// this order and each only where configured, make of `val`.
pub open spec fn processed<E: BackendEscaper>(
    val: Seq<char>,
    preprocess: Option<Seq<char>>,
    postprocess: Option<Seq<char>>,
    escaper: E,
    model: Script,
) -> Result<Seq<char>, EvalError> {
    let first = match preprocess {
        Some(expression) => model(expression, val),
        None => Ok(val),
    };
    match first {
        Err(e) => Err(e),
        Ok(prepared) => match postprocess {
            Some(expression) => model(expression, escaper.escaped(prepared)),
            None => Ok(escaper.escaped(prepared)),
        },
    }
}

/// A pointer without its leading `/`.
pub open spec fn without_leading_slash(pointer: Seq<char>) -> Seq<char> {
    if pointer.len() > 0 && pointer[0] == '/' {
        pointer.skip(1)
    } else {
        pointer
    }
}

/// The flat column name for a pointer: the leading `/` goes, each further
/// `/` becomes `_`, then `~1` is restored to `/` and `~0` to `~`.
pub open spec fn pointer_key(pointer: Seq<char>) -> Seq<char> {
    unescaped_key(replaced(without_leading_slash(pointer), seq!['/'], seq!['_']))
}

/// The nodes of a document, each with its pointer.
pub type Nodes = Seq<(Seq<char>, Document)>;

/// The rules of a mapping, each with its column name.
pub type Rules = Seq<(Seq<char>, Value)>;

/// Whether the node that `rule` reads stands among the nodes. A constant
/// reads none.
pub open spec fn finds_node(rule: Value, ns: Nodes) -> bool {
    match rule.kind {
        ValueKind::Pointer { pointer } => has_key(ns, pointer@),
        ValueKind::Constant { .. } => false,
    }
}

/// What the value pipeline makes of `text` with the expressions of `rule`.
pub open spec fn piped<E: BackendEscaper>(
    text: Seq<char>,
    rule: Value,
    escaper: E,
    model: Script,
) -> Result<Seq<char>, EvalError> {
    processed(
        text,
        text_option(rule.preprocess),
        text_option(rule.postprocess),
        escaper,
        model,
    )
}

/// The text that a column takes from the first node under `pointer`.
pub open spec fn node_text(ns: Nodes, pointer: Seq<char>) -> Seq<char> {
    ns[key_position(ns, pointer)].1.column_text()
}

/// What the value pipeline makes of the text that `rule` starts from: the
/// text of the node that a pointer rule reads, or the constant.
pub open spec fn rule_value<E: BackendEscaper>(
    rule: Value,
    ns: Nodes,
    escaper: E,
    model: Script,
) -> Result<Seq<char>, EvalError> {
    match rule.kind {
        ValueKind::Pointer { pointer } => piped(node_text(ns, pointer@), rule, escaper, model),
        ValueKind::Constant { constant_value } => piped(
            constant_value@,
            rule,
            escaper,
            model,
        ),
    }
}

/// The entries after one rule was applied: a pointer rule whose pointer
/// stands among the nodes sets its column to the processed text of that
/// node; any other rule changes nothing.
pub open spec fn pointer_step<E: BackendEscaper>(
    acc: Result<Entries, EvalError>,
    name: Seq<char>,
    rule: Value,
    ns: Nodes,
    escaper: E,
    model: Script,
) -> Result<Entries, EvalError> {
    match acc {
        Err(e) => Err(e),
        Ok(entries) => if finds_node(rule, ns) {
            match rule_value(rule, ns, escaper, model) {
                Ok(text) => Ok(upsert(entries, name, text)),
                Err(e) => Err(e),
            }
        } else {
            Ok(entries)
        },
    }
}

/// The entries that the first `n` rules take from the nodes, in the rules'
/// order; the first expression that fails, fails them all.
pub open spec fn pointer_values<E: BackendEscaper>(
    rules: Rules,
    n: nat,
    ns: Nodes,
    escaper: E,
    model: Script,
) -> Result<Entries, EvalError>
    decreases n,
{
    if n == 0 || n > rules.len() {
        Ok(Seq::empty())
    } else {
        pointer_step(
            pointer_values(rules, (n - 1) as nat, ns, escaper, model),
            rules[n - 1].0,
            rules[n - 1].1,
            ns,
            escaper,
            model,
        )
    }
}

/// Whether `rule` reads the node under `pointer`.
pub open spec fn reads(rule: Value, pointer: Seq<char>) -> bool {
    match rule.kind {
        ValueKind::Pointer { pointer: p } => p@ == pointer,
        ValueKind::Constant { .. } => false,
    }
}

/// Whether a pointer rule reads the node under `pointer`.
pub open spec fn is_claimed(rules: Rules, pointer: Seq<char>) -> bool {
    exists|i: int| 0 <= i < rules.len() && reads((#[trigger] rules[i]).1, pointer)
}

/// Whether the policy lets the leaf under `pointer` become a column.
pub open spec fn is_allowed(direct: Option<DirectValues>, pointer: Seq<char>) -> bool {
    match direct {
        None => false,
        Some(DirectValues::All(_)) => true,
        Some(DirectValues::Keys(keys)) => exists|i: int|
            0 <= i < keys@.len() && (#[trigger] keys@[i])@ == pointer,
    }
}

/// Whether a node becomes a column without a rule of its own: a leaf that
/// no pointer rule reads and that the policy lets pass.
pub open spec fn is_direct(node: (Seq<char>, Document), rules: Rules, direct: Option<DirectValues>) -> bool {
    node.1.is_leaf() && !is_claimed(rules, node.0) && is_allowed(direct, node.0)
}

/// The entries after the direct values among the first `n` nodes were
/// added, in the nodes' order: each under its flat name, escaped.
pub open spec fn direct_values<E: BackendEscaper>(
    entries: Entries,
    ns: Nodes,
    n: nat,
    rules: Rules,
    direct: Option<DirectValues>,
    escaper: E,
) -> Entries
    decreases n,
{
    if n == 0 || n > ns.len() {
        entries
    } else {
        let before = direct_values(entries, ns, (n - 1) as nat, rules, direct, escaper);
        if is_direct(ns[n - 1], rules, direct) {
            upsert(before, pointer_key(ns[n - 1].0), escaper.escaped(ns[n - 1].1.column_text()))
        } else {
            before
        }
    }
}

/// What a document gives without the constants: the values of the pointer
/// rules in the rules' order, then the direct values in the nodes' order.
pub open spec fn document_values<E: BackendEscaper>(
    rules: Rules,
    direct: Option<DirectValues>,
    ns: Nodes,
    escaper: E,
    model: Script,
) -> Result<Entries, EvalError> {
    match pointer_values(rules, rules.len(), ns, escaper, model) {
        Err(e) => Err(e),
        Ok(entries) => Ok(direct_values(entries, ns, ns.len(), rules, direct, escaper)),
    }
}

/// The constants among the first `n` rules, processed, each with its column
/// name, in the rules' order; the first expression that fails, fails them
/// all.
pub open spec fn constant_values<E: BackendEscaper>(
    rules: Rules,
    n: nat,
    escaper: E,
    model: Script,
) -> Result<Entries, EvalError>
    decreases n,
{
    if n == 0 || n > rules.len() {
        Ok(Seq::empty())
    } else {
        match constant_values(rules, (n - 1) as nat, escaper, model) {
            Err(e) => Err(e),
            Ok(pairs) => match rules[n - 1].1.kind {
                ValueKind::Pointer { .. } => Ok(pairs),
                ValueKind::Constant { constant_value } => match piped(
                    constant_value@,
                    rules[n - 1].1,
                    escaper,
                    model,
                ) {
                    Ok(text) => Ok(pairs.push((rules[n - 1].0, text))),
                    Err(e) => Err(e),
                },
            },
        }
    }
}

/// The entries after the first `n` of `pairs` were set, one after the
/// other.
pub open spec fn extended(entries: Entries, pairs: Entries, n: nat) -> Entries
    decreases n,
{
    if n == 0 || n > pairs.len() {
        entries
    } else {
        upsert(extended(entries, pairs, (n - 1) as nat), pairs[n - 1].0, pairs[n - 1].1)
    }
}

/// The record that a wide document gives: the values of the pointer rules,
/// the direct values, then the constants.
pub open spec fn wide_record<E: BackendEscaper>(
    rules: Rules,
    direct: Option<DirectValues>,
    ns: Nodes,
    escaper: E,
    model: Script,
) -> Result<Entries, EvalError> {
    match document_values(rules, direct, ns, escaper, model) {
        Err(e) => Err(e),
        Ok(entries) => match constant_values(rules, rules.len(), escaper, model) {
            Err(e) => Err(e),
            Ok(pairs) => Ok(extended(entries, pairs, pairs.len())),
        },
    }
}

/// Whether some rule reads a node that stands among the nodes.
pub open spec fn has_match(rules: Rules, ns: Nodes) -> bool {
    exists|i: int| 0 <= i < rules.len() && finds_node((#[trigger] rules[i]).1, ns)
}

/// Whether `i` is the first rule that reads a node that stands among the
/// nodes.
pub open spec fn is_first_match(rules: Rules, ns: Nodes, i: int) -> bool {
    &&& 0 <= i < rules.len()
    &&& finds_node(rules[i].1, ns)
    &&& forall|j: int| 0 <= j < i ==> !finds_node((#[trigger] rules[j]).1, ns)
}

/// The first rule that reads a node that stands among the nodes, where
/// there is one.
pub open spec fn first_match(rules: Rules, ns: Nodes) -> int {
    choose|i: int| is_first_match(rules, ns, i)
}

/// Whether more than one rule reads a node that stands among the nodes.
pub open spec fn has_several_matches(rules: Rules, ns: Nodes) -> bool {
    exists|i: int, j: int|
        0 <= i < j < rules.len() && finds_node((#[trigger] rules[i]).1, ns) && finds_node(
            (#[trigger] rules[j]).1,
            ns,
        )
}

/// The one pair that a narrow document gives: the column of the first
/// pointer rule whose pointer stands in the document, with the processed
/// text of that node. A document in which none stands gives no pair.
pub open spec fn extracted<E: BackendEscaper>(
    rules: Rules,
    ns: Nodes,
    escaper: E,
    model: Script,
) -> Result<Option<(Seq<char>, Seq<char>)>, EvalError> {
    if has_match(rules, ns) {
        let i = first_match(rules, ns);
        match rule_value(rules[i].1, ns, escaper, model) {
            Ok(text) => Ok(Some((rules[i].0, text))),
            Err(e) => Err(e),
        }
    } else {
        Ok(None)
    }
}

/// What one document does to a buffered row: the buffer afterwards, and
/// the row that is complete, if one is.
///
/// A column that the buffer lacks is added to it. A column that the buffer
/// has starts a new row: the buffered row takes the constants and is
/// complete, and the new buffer holds the new pair alone. A document that
/// gives no pair changes nothing.
pub open spec fn narrow_step<E: BackendEscaper>(
    buffer: Entries,
    rules: Rules,
    ns: Nodes,
    escaper: E,
    model: Script,
) -> Result<(Entries, Option<Entries>), EvalError> {
    match extracted(rules, ns, escaper, model) {
        Err(e) => Err(e),
        Ok(None) => Ok((buffer, None)),
        Ok(Some(pair)) => if !has_key(buffer, pair.0) {
            Ok((buffer.push(pair), None))
        } else {
            match constant_values(rules, rules.len(), escaper, model) {
                Err(e) => Err(e),
                Ok(constants) => Ok(
                    (seq![pair], Some(extended(buffer, constants, constants.len()))),
                ),
            }
        },
    }
}

/// Whether `evaluate` follows `model` on every expression of the rules.
pub open spec fn follows<F: Fn(String, String) -> Result<String, EvalError>>(
    evaluate: F,
    model: Script,
    rules: Rules,
) -> bool {
    forall|i: int|
        0 <= i < rules.len() ==> {
            &&& agrees_on_option(evaluate, model, text_option((#[trigger] rules[i]).1.preprocess))
            &&& agrees_on_option(evaluate, model, text_option(rules[i].1.postprocess))
        }
}

/// A record or the error that stood in its way, as entries.
pub open spec fn entries_result(result: Result<Record, EvalError>) -> Result<Entries, EvalError> {
    match result {
        Ok(record) => Ok(record_entries(record)),
        Err(e) => Err(e),
    }
}

/// A list of pairs as entries.
pub open spec fn pair_views(pairs: Seq<(String, String)>) -> Entries {
    pairs.map_values(|p: (String, String)| (p.0@, p.1@))
}

/// A list of pairs or the error that stood in its way, as entries.
pub open spec fn pairs_result(result: Result<Vec<(String, String)>, EvalError>) -> Result<
    Entries,
    EvalError,
> {
    match result {
        Ok(pairs) => Ok(pair_views(pairs@)),
        Err(e) => Err(e),
    }
}

/// What a mapper hands back for one document, as entries.
pub open spec fn emitted(result: Result<Option<Record>, EvalError>) -> Result<
    Option<Entries>,
    EvalError,
> {
    match result {
        Ok(Some(record)) => Ok(Some(record_entries(record))),
        Ok(None) => Ok(None),
        Err(e) => Err(e),
    }
}

} // verus!
