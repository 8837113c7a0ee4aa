//! The record mapper: from one document at a time to assembled records.

use crate::backend::BackendEscaper;
use crate::config::{mapping_entries, mapping_items, DirectValues, Mapping, Value, ValueKind};
use crate::data::laws::{
    lemma_constant_values_failed, lemma_first_match_unique, lemma_pointer_values_failed,
};
use crate::data::model::{
    constant_values, direct_values, document_values, emitted, entries_result, extended, extracted,
    finds_node, follows, has_match, has_several_matches, is_allowed, is_claimed,
    is_first_match, narrow_step, node_text, pair_views, pairs_result, piped, pointer_key,
    pointer_values, processed, reads, rule_value, wide_record, without_leading_slash, Rules,
};
use crate::eval::{agrees_on_option, callable, text_option, text_result, EvalError, Script};
use crate::iter_json_value::{document_nodes, iter_json_value, node_views, unescape_key};
use crate::json::Document;
use crate::record::{
    empty_record, has_key, is_first_position, lemma_position_unique, record_entries,
    record_insert, record_len, record_position, Entries, Record,
};
use crate::text::replace;
use vstd::prelude::*;

pub mod laws;
pub mod model;

verus! {

/// Runs one extracted value through the pipeline. The value is escaped
/// exactly once; a failing expression fails the whole value.
///
/// `evaluate` is called with an expression and its input, first with
/// `preprocess` and `val`, then with `postprocess` and the escaped value.
/// Against every model that `evaluate` follows on the two expressions the
/// result is what the pipeline makes of `val`.
pub fn process_value<E: BackendEscaper, F: Fn(String, String) -> Result<String, EvalError>>(
    val: String,
    preprocess: Option<String>,
    postprocess: Option<String>,
    escaper: &E,
    evaluate: &F,
) -> (result: Result<String, EvalError>)
    requires
        callable(*evaluate),
    ensures
        forall|model: Script|
            agrees_on_option(*evaluate, model, text_option(preprocess)) && agrees_on_option(
                *evaluate,
                model,
                text_option(postprocess),
            ) ==> text_result(result) == #[trigger] processed(
                val@,
                text_option(preprocess),
                text_option(postprocess),
                *escaper,
                model,
            ),
{
    let val = match preprocess {
        Some(expression) => match evaluate(expression, val) {
            Ok(prepared) => prepared,
            Err(e) => {
                return Err(e);
            },
        },
        None => val,
    };
    let val = escaper.escape_value(val);
    match postprocess {
        Some(expression) => evaluate(expression, val),
        None => Ok(val),
    }
}

/// Makes the flat column name for the node under `json_pointer`.
pub fn json_pointer_to_key(json_pointer: &String) -> (key: String)
    ensures
        key@ == pointer_key(json_pointer@),
{
    let chars = crate::text::chars_of(json_pointer.as_str());
    let from: usize = if chars.len() > 0 && chars[0] == '/' {
        1
    } else {
        0
    };
    let tail = crate::text::string_of(&chars, from, chars.len());
    assert(tail@ =~= without_leading_slash(json_pointer@));
    proof {
        reveal_strlit("/");
        reveal_strlit("_");
    }
    assert("/"@ =~= seq!['/']);
    assert("_"@ =~= seq!['_']);
    let flat = replace(tail.as_str(), "/", "_");
    unescape_key(flat.as_str())
}

/// The position of the first node under `pointer`.
fn find_node(nodes: &Vec<(String, &Document)>, pointer: &String) -> (found: Option<usize>)
    ensures
        match found {
            Some(i) => is_first_position(node_views(nodes@), pointer@, i as int),
            None => !has_key(node_views(nodes@), pointer@),
        },
{
    let mut i: usize = 0;
    while i < nodes.len()
        invariant
            i <= nodes@.len(),
            forall|j: int| 0 <= j < i ==> (#[trigger] node_views(nodes@)[j]).0 != pointer@,
        decreases nodes@.len() - i,
    {
        if nodes[i].0 == *pointer {
            assert(node_views(nodes@)[i as int].0 == pointer@);
            return Some(i);
        }
        i += 1;
    }
    None
}

/// Whether a pointer rule reads the node under `pointer`.
fn claimed(items: &Vec<(&String, &Value)>, pointer: &String) -> (found: bool)
    ensures
        found == is_claimed(items@.map_values(|e: (&String, &Value)| (e.0@, *e.1)), pointer@),
{
    let ghost rules = items@.map_values(|e: (&String, &Value)| (e.0@, *e.1));
    let mut i: usize = 0;
    while i < items.len()
        invariant
            i <= items@.len(),
            rules == items@.map_values(|e: (&String, &Value)| (e.0@, *e.1)),
            forall|j: int| 0 <= j < i ==> !reads((#[trigger] rules[j]).1, pointer@),
        decreases items@.len() - i,
    {
        match &items[i].1.kind {
            ValueKind::Pointer { pointer: p } => {
                if *p == *pointer {
                    assert(reads(rules[i as int].1, pointer@));
                    return true;
                }
            },
            ValueKind::Constant { .. } => {},
        }
        i += 1;
    }
    false
}

/// Whether the policy lets the leaf under `pointer` become a column.
fn allowed(direct: &Option<DirectValues>, pointer: &String) -> (found: bool)
    ensures
        found == is_allowed(*direct, pointer@),
{
    match direct {
        None => false,
        Some(DirectValues::All(_)) => true,
        Some(DirectValues::Keys(keys)) => {
            let mut i: usize = 0;
            while i < keys.len()
                invariant
                    i <= keys@.len(),
                    *direct matches Some(DirectValues::Keys(k)) && k == *keys,
                    forall|j: int| 0 <= j < i ==> (#[trigger] keys@[j])@ != pointer@,
                decreases keys@.len() - i,
            {
                if keys[i] == *pointer {
                    assert(keys@[i as int]@ == pointer@);
                    return true;
                }
                i += 1;
            }
            false
        },
    }
}

/// What a document gives without the constants: for each pointer rule
/// whose pointer stands in the document the processed text of that node,
/// then each direct value under its flat name.
///
/// Against every model that `evaluate` follows on the mapping's expressions
/// the result is [`document_values`].
pub fn get_and_process_values<E: BackendEscaper, F: Fn(String, String) -> Result<String, EvalError>>(
    value: &Document,
    mapping: &Mapping,
    escaper: &E,
    evaluate: &F,
) -> (result: Result<Record, EvalError>)
    requires
        callable(*evaluate),
    ensures
        forall|model: Script| #[trigger]
            follows(*evaluate, model, mapping_entries(mapping.values)) ==> entries_result(result)
                == document_values(
                mapping_entries(mapping.values),
                mapping.direct_values,
                document_nodes(*value),
                *escaper,
                model,
            ),
{
    let nodes = iter_json_value(value);
    let items = mapping_items(&mapping.values);
    let ghost ns = document_nodes(*value);
    let ghost rules = mapping_entries(mapping.values);
    assert(items@.map_values(|e: (&String, &Value)| (e.0@, *e.1)) =~= rules);
    let mut record = empty_record();
    let mut i: usize = 0;
    while i < items.len()
        invariant
            i <= items@.len(),
            items@.len() == rules.len(),
            rules == mapping_entries(mapping.values),
            ns == document_nodes(*value),
            callable(*evaluate),
            forall|k: int|
                0 <= k < items@.len() ==> {
                    &&& (#[trigger] items@[k]).0@ == rules[k].0
                    &&& *items@[k].1 == rules[k].1
                },
            node_views(nodes@) == ns,
            forall|model: Script| #[trigger]
                follows(*evaluate, model, rules) ==> pointer_values(
                    rules,
                    i as nat,
                    ns,
                    *escaper,
                    model,
                ) == Ok::<Entries, EvalError>(record_entries(record)),
        decreases items@.len() - i,
    {
        let name = items[i].0;
        let rule = items[i].1;
        assert(name@ == rules[i as int].0 && *rule == rules[i as int].1);
        let ghost before = record_entries(record);
        match &rule.kind {
            ValueKind::Pointer { pointer } => {
                match find_node(&nodes, pointer) {
                    Some(at) => {
                        proof {
                            lemma_position_unique(ns, pointer@, at as int);
                        }
                        let text = nodes[at].1.to_column_text();
                        assert(text@ == node_text(ns, pointer@));
                        match process_value(
                            text,
                            rule.preprocess.clone(),
                            rule.postprocess.clone(),
                            escaper,
                            evaluate,
                        ) {
                            Ok(processed_text) => {
                                record_insert(&mut record, name.clone(), processed_text);
                                assert forall|model: Script| #[trigger]
                                    follows(*evaluate, model, rules) implies pointer_values(
                                    rules,
                                    (i + 1) as nat,
                                    ns,
                                    *escaper,
                                    model,
                                ) == Ok::<Entries, EvalError>(record_entries(record)) by {
                                    assert(pointer_values(rules, i as nat, ns, *escaper, model)
                                        == Ok::<Entries, EvalError>(before));
                                    assert(rule_value(rules[i as int].1, ns, *escaper, model)
                                        == Ok::<Seq<char>, EvalError>(processed_text@));
                                }
                            },
                            Err(e) => {
                                assert forall|model: Script| #[trigger]
                                    follows(*evaluate, model, rules) implies document_values(
                                    rules,
                                    mapping.direct_values,
                                    ns,
                                    *escaper,
                                    model,
                                ) == Err::<Entries, EvalError>(e) by {
                                    assert(pointer_values(rules, i as nat, ns, *escaper, model)
                                        == Ok::<Entries, EvalError>(before));
                                    assert(rule_value(rules[i as int].1, ns, *escaper, model)
                                        == Err::<Seq<char>, EvalError>(e));
                                    assert(pointer_values(
                                        rules,
                                        (i + 1) as nat,
                                        ns,
                                        *escaper,
                                        model,
                                    ) == Err::<Entries, EvalError>(e));
                                    lemma_pointer_values_failed(
                                        rules,
                                        (i + 1) as nat,
                                        rules.len(),
                                        ns,
                                        *escaper,
                                        model,
                                    );
                                }
                                return Err(e);
                            },
                        }
                    },
                    None => {
                        assert forall|model: Script| #[trigger]
                            follows(*evaluate, model, rules) implies pointer_values(
                            rules,
                            (i + 1) as nat,
                            ns,
                            *escaper,
                            model,
                        ) == Ok::<Entries, EvalError>(record_entries(record)) by {
                            assert(pointer_values(rules, i as nat, ns, *escaper, model) == Ok::<
                                Entries,
                                EvalError,
                            >(before));
                        }
                    },
                }
            },
            ValueKind::Constant { .. } => {
                assert forall|model: Script| #[trigger]
                    follows(*evaluate, model, rules) implies pointer_values(
                    rules,
                    (i + 1) as nat,
                    ns,
                    *escaper,
                    model,
                ) == Ok::<Entries, EvalError>(record_entries(record)) by {
                    assert(pointer_values(rules, i as nat, ns, *escaper, model) == Ok::<
                        Entries,
                        EvalError,
                    >(before));
                }
            },
        }
        i += 1;
    }
    let ghost from_rules = record_entries(record);
    let mut j: usize = 0;
    while j < nodes.len()
        invariant
            j <= nodes@.len(),
            node_views(nodes@) == ns,
            items@.map_values(|e: (&String, &Value)| (e.0@, *e.1)) == rules,
            record_entries(record) == direct_values(
                from_rules,
                ns,
                j as nat,
                rules,
                mapping.direct_values,
                *escaper,
            ),
        decreases nodes@.len() - j,
    {
        let pointer = &nodes[j].0;
        let node = nodes[j].1;
        assert(ns[j as int] == (pointer@, *node));
        if node.has_no_children() && !claimed(&items, pointer) && allowed(
            &mapping.direct_values,
            pointer,
        ) {
            let key = json_pointer_to_key(pointer);
            let text = escaper.escape_value(node.to_column_text());
            record_insert(&mut record, key, text);
        }
        j += 1;
    }
    assert(nodes@.len() == ns.len());
    Ok(record)
}

/// The constants of a mapping, processed, each with its column name, in
/// the mapping's order.
///
/// Against every model that `evaluate` follows on the mapping's expressions
/// the result is [`constant_values`].
pub fn iter_mapped_constants<E: BackendEscaper, F: Fn(String, String) -> Result<String, EvalError>>(
    mapping: &Mapping,
    escaper: &E,
    evaluate: &F,
) -> (result: Result<Vec<(String, String)>, EvalError>)
    requires
        callable(*evaluate),
    ensures
        forall|model: Script| #[trigger]
            follows(*evaluate, model, mapping_entries(mapping.values)) ==> pairs_result(result)
                == constant_values(
                mapping_entries(mapping.values),
                mapping_entries(mapping.values).len(),
                *escaper,
                model,
            ),
{
    let items = mapping_items(&mapping.values);
    let ghost rules = mapping_entries(mapping.values);
    let mut pairs: Vec<(String, String)> = Vec::new();
    assert(pair_views(pairs@) =~= Seq::empty());
    let mut i: usize = 0;
    while i < items.len()
        invariant
            i <= items@.len(),
            items@.len() == rules.len(),
            rules == mapping_entries(mapping.values),
            callable(*evaluate),
            forall|k: int|
                0 <= k < items@.len() ==> {
                    &&& (#[trigger] items@[k]).0@ == rules[k].0
                    &&& *items@[k].1 == rules[k].1
                },
            forall|model: Script| #[trigger]
                follows(*evaluate, model, rules) ==> constant_values(
                    rules,
                    i as nat,
                    *escaper,
                    model,
                ) == Ok::<Entries, EvalError>(pair_views(pairs@)),
        decreases items@.len() - i,
    {
        let name = items[i].0;
        let rule = items[i].1;
        assert(name@ == rules[i as int].0 && *rule == rules[i as int].1);
        let ghost before = pair_views(pairs@);
        match &rule.kind {
            ValueKind::Pointer { .. } => {
                assert forall|model: Script| #[trigger]
                    follows(*evaluate, model, rules) implies constant_values(
                    rules,
                    (i + 1) as nat,
                    *escaper,
                    model,
                ) == Ok::<Entries, EvalError>(pair_views(pairs@)) by {
                    assert(constant_values(rules, i as nat, *escaper, model) == Ok::<
                        Entries,
                        EvalError,
                    >(before));
                }
            },
            ValueKind::Constant { constant_value } => {
                match process_value(
                    constant_value.clone(),
                    rule.preprocess.clone(),
                    rule.postprocess.clone(),
                    escaper,
                    evaluate,
                ) {
                    Ok(text) => {
                        pairs.push((name.clone(), text));
                        assert(pair_views(pairs@) =~= before.push((name@, text@)));
                        assert forall|model: Script| #[trigger]
                            follows(*evaluate, model, rules) implies constant_values(
                            rules,
                            (i + 1) as nat,
                            *escaper,
                            model,
                        ) == Ok::<Entries, EvalError>(pair_views(pairs@)) by {
                            assert(constant_values(rules, i as nat, *escaper, model) == Ok::<
                                Entries,
                                EvalError,
                            >(before));
                            assert(piped(constant_value@, rules[i as int].1, *escaper, model)
                                == Ok::<Seq<char>, EvalError>(text@));
                        }
                    },
                    Err(e) => {
                        assert forall|model: Script| #[trigger]
                            follows(*evaluate, model, rules) implies constant_values(
                            rules,
                            rules.len(),
                            *escaper,
                            model,
                        ) == Err::<Entries, EvalError>(e) by {
                            assert(constant_values(rules, i as nat, *escaper, model) == Ok::<
                                Entries,
                                EvalError,
                            >(before));
                            assert(piped(constant_value@, rules[i as int].1, *escaper, model)
                                == Err::<Seq<char>, EvalError>(e));
                            assert(constant_values(rules, (i + 1) as nat, *escaper, model)
                                == Err::<Entries, EvalError>(e));
                            lemma_constant_values_failed(
                                rules,
                                (i + 1) as nat,
                                rules.len(),
                                *escaper,
                                model,
                            );
                        }
                        return Err(e);
                    },
                }
            },
        }
        i += 1;
    }
    Ok(pairs)
}

/// Sets each of `pairs` in `record`, one after the other.
fn extend_record(record: &mut Record, pairs: &Vec<(String, String)>)
    ensures
        record_entries(*final(record)) == extended(
            record_entries(*old(record)),
            pair_views(pairs@),
            pairs@.len(),
        ),
{
    let mut i: usize = 0;
    while i < pairs.len()
        invariant
            i <= pairs@.len(),
            record_entries(*record) == extended(
                record_entries(*old(record)),
                pair_views(pairs@),
                i as nat,
            ),
        decreases pairs@.len() - i,
    {
        assert(pair_views(pairs@)[i as int] == (pairs@[i as int].0@, pairs@[i as int].1@));
        record_insert(record, pairs[i].0.clone(), pairs[i].1.clone());
        i += 1;
    }
}

/// Consumes one document at a time and hands back the records that are
/// complete. The expressions of the mapping are run by `evaluate`.
pub trait DataMapper: Sized {
    type Escaper: BackendEscaper;

    fn new(mapping: Mapping, escaper: Self::Escaper) -> Self;

    fn consume_value<F: Fn(String, String) -> Result<String, EvalError>>(
        &mut self,
        value: &Document,
        evaluate: &F,
    ) -> Result<Option<Record>, EvalError>
        requires
            callable(*evaluate),
    ;
}

/// The mapper for documents that carry a whole row each. It keeps nothing
/// from one document to the next.
pub struct WideToWide<E> {
    mapping: Mapping,
    escaper: E,
}

impl<E: BackendEscaper> WideToWide<E> {
    /// The mapping that the records are assembled by.
    pub closed spec fn mapping(&self) -> Mapping {
        self.mapping
    }

    /// The escaper that every value passes through.
    pub closed spec fn escaper(&self) -> E {
        self.escaper
    }

    /// The rules of the mapping.
    pub open spec fn rules(&self) -> Rules {
        mapping_entries(self.mapping().values)
    }

    /// The record that this mapper gives for `value` where the expressions
    /// compute what `model` says.
    pub open spec fn record_for(&self, value: Document, model: Script) -> Result<
        Entries,
        EvalError,
    > {
        wide_record(
            self.rules(),
            self.mapping().direct_values,
            document_nodes(value),
            self.escaper(),
            model,
        )
    }

    /// What one call of `consume_value` does where the expressions compute
    /// what `model` says: the mapper stays as it was, and the document's
    /// record comes back, or the error of the first expression that failed.
    pub open spec fn consumed(
        before: Self,
        value: Document,
        model: Script,
        after: Self,
        result: Result<Option<Entries>, EvalError>,
    ) -> bool {
        &&& after == before
        &&& result == match before.record_for(value, model) {
            Ok(entries) => Ok::<Option<Entries>, EvalError>(Some(entries)),
            Err(e) => Err(e),
        }
    }
}

impl<E: BackendEscaper> DataMapper for WideToWide<E> {
    type Escaper = E;

    fn new(mapping: Mapping, escaper: E) -> (mapper: Self)
        ensures
            mapper.mapping() == mapping,
            mapper.escaper() == escaper,
    {
        WideToWide { mapping, escaper }
    }

    /// Assembles the record of one document: the values of the pointer
    /// rules, the direct values, the constants. Every document gives
    /// exactly one record, unless an expression fails.
    fn consume_value<F: Fn(String, String) -> Result<String, EvalError>>(
        &mut self,
        value: &Document,
        evaluate: &F,
    ) -> (result: Result<Option<Record>, EvalError>)
        ensures
            *final(self) == *old(self),
            forall|model: Script| #[trigger]
                follows(*evaluate, model, old(self).rules()) ==> Self::consumed(
                    *old(self),
                    *value,
                    model,
                    *final(self),
                    emitted(result),
                ),
    {
        let mut map = match get_and_process_values(value, &self.mapping, &self.escaper, evaluate) {
            Ok(map) => map,
            Err(e) => {
                return Err(e);
            },
        };
        let constants = match iter_mapped_constants(&self.mapping, &self.escaper, evaluate) {
            Ok(constants) => constants,
            Err(e) => {
                return Err(e);
            },
        };
        extend_record(&mut map, &constants);
        Ok(Some(map))
    }
}

/// The mapper for documents that carry one value each. It buffers the row
/// that is being assembled and hands it back when a column comes again.
pub struct NarrowToWide<E> {
    mapping: Mapping,
    escaper: E,
    buffered_value: Record,
    several_matches: bool,
}

impl<E: BackendEscaper> NarrowToWide<E> {
    /// The mapping that the records are assembled by.
    pub closed spec fn mapping(&self) -> Mapping {
        self.mapping
    }

    /// The escaper that every value passes through.
    pub closed spec fn escaper(&self) -> E {
        self.escaper
    }

    /// The row that is being assembled.
    pub closed spec fn buffered(&self) -> Entries {
        record_entries(self.buffered_value)
    }

    /// Whether the last document held the nodes of more than one pointer
    /// rule.
    pub closed spec fn flagged(&self) -> bool {
        self.several_matches
    }

    /// The rules of the mapping.
    pub open spec fn rules(&self) -> Rules {
        mapping_entries(self.mapping().values)
    }

    /// What one call of `consume_value` does where the expressions compute
    /// what `model` says: the buffer and the result follow [`narrow_step`],
    /// and an error leaves the buffer as it was.
    pub open spec fn consumed(
        before: Self,
        value: Document,
        model: Script,
        after: Self,
        result: Result<Option<Entries>, EvalError>,
    ) -> bool {
        &&& after.mapping() == before.mapping()
        &&& after.escaper() == before.escaper()
        &&& match narrow_step(
            before.buffered(),
            before.rules(),
            document_nodes(value),
            before.escaper(),
            model,
        ) {
            Ok((buffer, complete)) => after.buffered() == buffer && result == Ok::<
                Option<Entries>,
                EvalError,
            >(complete),
            Err(e) => after.buffered() == before.buffered() && result == Err::<
                Option<Entries>,
                EvalError,
            >(e),
        }
    }

    /// Whether the last document held the nodes of more than one pointer
    /// rule. Only the first of them was taken.
    pub fn several_matches(&self) -> (flag: bool)
        ensures
            flag == self.flagged(),
    {
        self.several_matches
    }

    /// The number of columns that wait in the buffer.
    pub fn buffered_len(&self) -> (n: usize)
        ensures
            n == self.buffered().len(),
    {
        record_len(&self.buffered_value)
    }
}

impl<E: BackendEscaper> DataMapper for NarrowToWide<E> {
    type Escaper = E;

    fn new(mapping: Mapping, escaper: E) -> (mapper: Self)
        ensures
            mapper.mapping() == mapping,
            mapper.escaper() == escaper,
            mapper.buffered() == Seq::<(Seq<char>, Seq<char>)>::empty(),
            !mapper.flagged(),
    {
        NarrowToWide { mapping, escaper, buffered_value: empty_record(), several_matches: false }
    }

    /// Takes the one value of a narrow document into the buffered row, and
    /// hands the row back, with the constants, when its column was there
    /// already. Of several pointer rules whose node stands in the document
    /// the first is taken, and the mapper flags the document.
    fn consume_value<F: Fn(String, String) -> Result<String, EvalError>>(
        &mut self,
        value: &Document,
        evaluate: &F,
    ) -> (result: Result<Option<Record>, EvalError>)
        ensures
            final(self).flagged() == has_several_matches(old(self).rules(), document_nodes(*value)),
            forall|model: Script| #[trigger]
                follows(*evaluate, model, old(self).rules()) ==> Self::consumed(
                    *old(self),
                    *value,
                    model,
                    *final(self),
                    emitted(result),
                ),
    {
        let nodes = iter_json_value(value);
        let items = mapping_items(&self.mapping.values);
        let ghost ns = document_nodes(*value);
        let ghost rules = mapping_entries(self.mapping.values);
        let mut first: Option<(usize, usize)> = None;
        let mut several = false;
        let mut i: usize = 0;
        while i < items.len()
            invariant
                i <= items@.len(),
                items@.len() == rules.len(),
                forall|k: int|
                    0 <= k < items@.len() ==> {
                        &&& (#[trigger] items@[k]).0@ == rules[k].0
                        &&& *items@[k].1 == rules[k].1
                    },
                node_views(nodes@) == ns,
                match first {
                    None => !several && forall|j: int|
                        0 <= j < i ==> !finds_node((#[trigger] rules[j]).1, ns),
                    Some((rule_at, node_at)) => {
                        &&& rule_at < i
                        &&& is_first_match(rules, ns, rule_at as int)
                        &&& rules[rule_at as int].1.kind matches ValueKind::Pointer { pointer }
                        &&& is_first_position(ns, pointer@, node_at as int)
                        &&& several == exists|j: int|
                            rule_at < j < i && finds_node((#[trigger] rules[j]).1, ns)
                    },
                },
            decreases items@.len() - i,
        {
            let rule = items[i].1;
            assert(*rule == rules[i as int].1);
            match &rule.kind {
                ValueKind::Pointer { pointer } => {
                    match find_node(&nodes, pointer) {
                        Some(at) => {
                            proof {
                                lemma_position_unique(ns, pointer@, at as int);
                            }
                            assert(finds_node(rules[i as int].1, ns));
                            match first {
                                None => {
                                    first = Some((i, at));
                                },
                                Some(_) => {
                                    several = true;
                                },
                            }
                        },
                        None => {},
                    }
                },
                ValueKind::Constant { .. } => {},
            }
            i += 1;
        }
        self.several_matches = several;
        let (rule_at, node_at) = match first {
            None => {
                assert(!has_match(rules, ns));
                assert(!has_several_matches(rules, ns));
                return Ok(None);
            },
            Some(found) => found,
        };
        proof {
            lemma_first_match_unique(rules, ns, rule_at as int);
            if several {
                let j = choose|j: int|
                    rule_at < j < rules.len() && finds_node((#[trigger] rules[j]).1, ns);
                assert(finds_node(rules[rule_at as int].1, ns) && finds_node(rules[j].1, ns));
            } else if has_several_matches(rules, ns) {
                let (a, b) = choose|a: int, b: int|
                    0 <= a < b < rules.len() && finds_node((#[trigger] rules[a]).1, ns)
                        && finds_node((#[trigger] rules[b]).1, ns);
                assert(rule_at <= a);
                assert(rule_at < b && finds_node(rules[b].1, ns));
            }
        }
        let name = items[rule_at].0;
        let rule = items[rule_at].1;
        assert(name@ == rules[rule_at as int].0 && *rule == rules[rule_at as int].1);
        let text = nodes[node_at].1.to_column_text();
        proof {
            let pointer = rule.kind->pointer;
            lemma_position_unique(ns, pointer@, node_at as int);
            assert(text@ == node_text(ns, pointer@));
        }
        let ghost buffer = record_entries(self.buffered_value);
        let text = match process_value(
            text,
            rule.preprocess.clone(),
            rule.postprocess.clone(),
            &self.escaper,
            evaluate,
        ) {
            Ok(text) => text,
            Err(e) => {
                assert forall|model: Script| #[trigger]
                    follows(*evaluate, model, rules) implies narrow_step(
                    buffer,
                    rules,
                    ns,
                    self.escaper,
                    model,
                ) == Err::<(Entries, Option<Entries>), EvalError>(e) by {
                    assert(rule_value(rules[rule_at as int].1, ns, self.escaper, model) == Err::<
                        Seq<char>,
                        EvalError,
                    >(e));
                }
                return Err(e);
            },
        };
        assert forall|model: Script| #[trigger]
            follows(*evaluate, model, rules) implies extracted(rules, ns, self.escaper, model)
            == Ok::<Option<(Seq<char>, Seq<char>)>, EvalError>(Some((name@, text@))) by {
            assert(rule_value(rules[rule_at as int].1, ns, self.escaper, model) == Ok::<
                Seq<char>,
                EvalError,
            >(text@));
        }
        match record_position(&self.buffered_value, name.as_str()) {
            None => {
                record_insert(&mut self.buffered_value, name.clone(), text);
                assert(record_entries(self.buffered_value) == buffer.push((name@, text@)));
                Ok(None)
            },
            Some(at) => {
                proof {
                    lemma_position_unique(buffer, name@, at as int);
                }
                let constants = match iter_mapped_constants(
                    &self.mapping,
                    &self.escaper,
                    evaluate,
                ) {
                    Ok(constants) => constants,
                    Err(e) => {
                        return Err(e);
                    },
                };
                let mut map = empty_record();
                record_insert(&mut map, name.clone(), text);
                assert(record_entries(map) =~= seq![(name@, text@)]);
                std::mem::swap(&mut self.buffered_value, &mut map);
                extend_record(&mut map, &constants);
                Ok(Some(map))
            },
        }
    }
}

} // verus!
