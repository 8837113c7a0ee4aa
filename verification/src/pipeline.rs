//! One pipeline per data entry: filter, map, and hand to the backend.

use crate::backend::{BackendEscaper, DataToInsert};
use crate::config::{DataType, Mapping};
use crate::data::model::{emitted, follows, Rules};
use crate::data::{DataMapper, NarrowToWide, WideToWide};
use crate::eval::{callable, EvalError, Script};
use crate::json::Document;
use crate::record::{record_entries, Entries};
use vstd::prelude::*;

verus! {

/// The seconds between two retention sweeps: one day.
pub const SWEEP_PERIOD_SECS: u64 = 60 * 60 * 24;

/// A model of a filter: whether an expression lets a document pass.
pub type Verdicts = spec_fn(Seq<char>, Document) -> Result<bool, EvalError>;

/// Whether `accept` can be called with every expression and document.
pub open spec fn askable<G: Fn(String, &Document) -> Result<bool, EvalError>>(accept: G) -> bool {
    forall|expression: String, document: &Document| call_requires(accept, (expression, document))
}

/// Whether whatever `accept` returns for the filter of a pipeline is what
/// `verdicts` says. A pipeline without a filter asks nothing.
pub open spec fn rules_on<G: Fn(String, &Document) -> Result<bool, EvalError>>(
    accept: G,
    verdicts: Verdicts,
    filter: Option<String>,
) -> bool {
    forall|code: String, document: &Document, result: Result<bool, EvalError>|
        filter is Some && code@ == filter->0@ && #[trigger] call_ensures(
            accept,
            (code, document),
            result,
        ) ==> result == verdicts(code@, *document)
}

/// The mapper of a pipeline, by the shape of its frontend.
pub enum Mapper<E> {
    Wide(WideToWide<E>),
    Narrow(NarrowToWide<E>),
}

/// What is handed to a backend, as entries.
pub open spec fn handed(result: Result<Option<DataToInsert>, EvalError>) -> Result<
    Option<(Entries, Option<u32>)>,
    EvalError,
> {
    match result {
        Ok(Some(data)) => Ok(Some((record_entries(data.escaped_values), data.persistent_every_secs))),
        Ok(None) => Ok(None),
        Err(e) => Err(e),
    }
}

/// A record with the directive of its pipeline.
pub open spec fn directed(
    result: Result<Option<Entries>, EvalError>,
    persistent_every_secs: Option<u32>,
) -> Result<Option<(Entries, Option<u32>)>, EvalError> {
    match result {
        Ok(Some(entries)) => Ok(Some((entries, persistent_every_secs))),
        Ok(None) => Ok(None),
        Err(e) => Err(e),
    }
}

/// The pipeline of one data entry: an optional filter, the entry's own
/// mapper, and the directive that goes with every record.
pub struct Pipeline<E> {
    filter: Option<String>,
    mapper: Mapper<E>,
    persistent_every_secs: Option<u32>,
}

impl<E: BackendEscaper> Pipeline<E> {
    /// The expression that decides which documents are mapped.
    pub closed spec fn filter(&self) -> Option<String> {
        self.filter
    }

    /// The mapper.
    pub closed spec fn mapper(&self) -> Mapper<E> {
        self.mapper
    }

    /// The directive that goes with every record.
    pub closed spec fn directive(&self) -> Option<u32> {
        self.persistent_every_secs
    }

    /// What the mapper of a pipeline does with one document, and what is
    /// handed on.
    pub open spec fn mapped(
        before: Mapper<E>,
        value: Document,
        model: Script,
        after: Mapper<E>,
        result: Result<Option<Entries>, EvalError>,
    ) -> bool {
        match before {
            Mapper::Wide(wide) => after matches Mapper::Wide(then) && WideToWide::consumed(
                wide,
                value,
                model,
                then,
                result,
            ),
            Mapper::Narrow(narrow) => after matches Mapper::Narrow(then) && NarrowToWide::consumed(
                narrow,
                value,
                model,
                then,
                result,
            ),
        }
    }

    /// The rules of the pipeline's mapping.
    pub open spec fn rules(&self) -> Rules {
        match self.mapper() {
            Mapper::Wide(wide) => wide.rules(),
            Mapper::Narrow(narrow) => narrow.rules(),
        }
    }

    /// What one call of `process` does. A document that the filter turns
    /// away changes nothing and gives nothing; so does a filter that
    /// fails, which is an error. Every other document goes to the mapper,
    /// and a record that the mapper completes is handed on with the
    /// pipeline's directive.
    pub open spec fn processed(
        before: Self,
        value: Document,
        verdicts: Verdicts,
        model: Script,
        after: Self,
        result: Result<Option<(Entries, Option<u32>)>, EvalError>,
    ) -> bool {
        let verdict = match before.filter() {
            Some(expression) => verdicts(expression@, value),
            None => Ok(true),
        };
        &&& after.filter() == before.filter()
        &&& after.directive() == before.directive()
        &&& match verdict {
            Err(e) => after.mapper() == before.mapper() && result == Err::<
                Option<(Entries, Option<u32>)>,
                EvalError,
            >(e),
            Ok(false) => after.mapper() == before.mapper() && result == Ok::<
                Option<(Entries, Option<u32>)>,
                EvalError,
            >(None),
            Ok(true) => exists|mapped: Result<Option<Entries>, EvalError>|
                {
                    &&& #[trigger] Self::mapped(before.mapper(), value, model, after.mapper(), mapped)
                    &&& result == directed(mapped, before.directive())
                },
        }
    }

    /// The pipeline of a data entry: the mapper for the shape of its
    /// frontend, over the entry's mapping and the escaper of its backend.
    pub fn new(
        data_type: DataType,
        mapping: Mapping,
        escaper: E,
        filter: Option<String>,
        persistent_every_secs: Option<u32>,
    ) -> (pipeline: Self)
        ensures
            pipeline.filter() == filter,
            pipeline.directive() == persistent_every_secs,
            match data_type {
                DataType::Wide => pipeline.mapper() matches Mapper::Wide(wide) && wide.mapping()
                    == mapping && wide.escaper() == escaper,
                DataType::Narrow => pipeline.mapper() matches Mapper::Narrow(narrow)
                    && narrow.mapping() == mapping && narrow.escaper() == escaper
                    && narrow.buffered() == Seq::<(Seq<char>, Seq<char>)>::empty(),
            },
    {
        let mapper = match data_type {
            DataType::Wide => Mapper::Wide(WideToWide::new(mapping, escaper)),
            DataType::Narrow => Mapper::Narrow(NarrowToWide::new(mapping, escaper)),
        };
        Pipeline { filter, mapper, persistent_every_secs }
    }

    /// Takes one document through the pipeline: the filter, where there is
    /// one, then the mapper, and hands back what goes to the backend.
    ///
    /// `accept` is called with the filter and the document, `evaluate` with
    /// the expressions of the mapping. Against every pair of models that the
    /// two follow the call does what [`Pipeline::processed`] says.
    pub fn process<
        G: Fn(String, &Document) -> Result<bool, EvalError>,
        F: Fn(String, String) -> Result<String, EvalError>,
    >(&mut self, document: &Document, accept: &G, evaluate: &F) -> (result: Result<
        Option<DataToInsert>,
        EvalError,
    >)
        requires
            askable(*accept),
            callable(*evaluate),
        ensures
            forall|verdicts: Verdicts, model: Script|
                #![trigger rules_on(*accept, verdicts, old(self).filter()), follows(*evaluate, model, old(self).rules())]
                rules_on(*accept, verdicts, old(self).filter()) && follows(
                    *evaluate,
                    model,
                    old(self).rules(),
                ) ==> Self::processed(
                    *old(self),
                    *document,
                    verdicts,
                    model,
                    *final(self),
                    handed(result),
                ),
    {
        match &self.filter {
            Some(expression) => {
                match accept(expression.clone(), document) {
                    Ok(true) => {},
                    Ok(false) => {
                        return Ok(None);
                    },
                    Err(e) => {
                        return Err(e);
                    },
                }
            },
            None => {},
        }
        let record = match &mut self.mapper {
            Mapper::Wide(wide) => wide.consume_value(document, evaluate),
            Mapper::Narrow(narrow) => narrow.consume_value(document, evaluate),
        };
        assert forall|model: Script| #[trigger]
            follows(*evaluate, model, old(self).rules()) implies Self::mapped(
            old(self).mapper(),
            *document,
            model,
            self.mapper(),
            emitted(record),
        ) by {}
        match record {
            Ok(Some(escaped_values)) => Ok(
                Some(DataToInsert { escaped_values, persistent_every_secs: self.persistent_every_secs }),
            ),
            Ok(None) => Ok(None),
            Err(e) => Err(e),
        }
    }
}

} // verus!
