//! Frontends: the sources that documents come from, by name.

use crate::config::{DataType, FrontendConfig, FrontendRef, FrontendRefData};
use crate::record::{has_key, key_position, lemma_position_unique};
use crate::registry::Registry;
use vstd::prelude::*;

pub mod homematic_ccu3;
pub mod journald;
pub mod mqtt;

verus! {

/// Why a data entry's frontend could not be resolved.
#[derive(Debug, Clone, Copy, PartialEq, Eq, Structural)]
pub enum FrontendError {
    /// A frontend of this name is there already.
    Duplicate,
    /// No frontend has this name.
    Unknown,
    /// The frontend takes no addressing, and the entry gives some.
    UnexpectedData,
    /// The frontend delivers whole rows, and the entry asks for another
    /// shape.
    NotWide,
    /// The frontend needs a topic, and the entry gives none.
    NoTopic,
}

/// The stream that a data entry asks for: the position of its frontend
/// among the registered ones, and for MQTT the topic to subscribe to.
#[derive(Debug, PartialEq, Eq)]
pub enum StreamRequest {
    HomematicCcu3 { frontend: usize },
    HttpRest { frontend: usize },
    Mqtt { frontend: usize, topic: String },
    Shell { frontend: usize },
    Journald { frontend: usize },
}

/// The stream that an entry gets from a frontend of the given
/// configuration at position `at`, or why it gets none. The MQTT frontend
/// takes a topic and delivers either shape; every other frontend takes no
/// addressing and delivers whole rows.
pub open spec fn request_for(config: FrontendConfig, at: usize, frontend_ref: FrontendRef) -> Result<
    StreamRequest,
    FrontendError,
> {
    match config {
        FrontendConfig::Mqtt(_) => match frontend_ref.data {
            Some(FrontendRefData::Mqtt { mqtt_topic }) => Ok(
                StreamRequest::Mqtt { frontend: at, topic: mqtt_topic },
            ),
            None => Err(FrontendError::NoTopic),
        },
        _ => if frontend_ref.data is Some {
            Err(FrontendError::UnexpectedData)
        } else if frontend_ref.data_type != DataType::Wide {
            Err(FrontendError::NotWide)
        } else {
            Ok(
                match config {
                    FrontendConfig::HomematicCcu3(_) => StreamRequest::HomematicCcu3 {
                        frontend: at,
                    },
                    FrontendConfig::HttpRest(_) => StreamRequest::HttpRest { frontend: at },
                    FrontendConfig::Shell(_) => StreamRequest::Shell { frontend: at },
                    _ => StreamRequest::Journald { frontend: at },
                },
            )
        },
    }
}

/// The frontends of a deployment, each under its name.
pub struct Frontends {
    frontends: Registry<FrontendConfig>,
}

impl Frontends {
    /// The registered frontends: name and configuration, in the order in
    /// which they were added.
    pub closed spec fn registered(&self) -> Seq<(Seq<char>, FrontendConfig)> {
        self.frontends.registered()
    }

    /// No frontends.
    pub fn new() -> (frontends: Self)
        ensures
            frontends.registered() == Seq::<(Seq<char>, FrontendConfig)>::empty(),
    {
        Frontends { frontends: Registry::new() }
    }

    /// Registers a frontend under a name that is not taken, and says at
    /// which position it stands. A name that is taken is an error, and
    /// changes nothing.
    pub fn add(&mut self, name: String, config: FrontendConfig) -> (result: Result<
        usize,
        FrontendError,
    >)
        ensures
            if has_key(old(self).registered(), name@) {
                &&& result == Err::<usize, FrontendError>(FrontendError::Duplicate)
                &&& final(self).registered() == old(self).registered()
            } else {
                &&& result == Ok::<usize, FrontendError>(old(self).registered().len() as usize)
                &&& final(self).registered() == old(self).registered().push((name@, config))
            },
    {
        match self.frontends.add(name, config) {
            Ok(at) => Ok(at),
            Err(_) => Err(FrontendError::Duplicate),
        }
    }

    /// The number of registered frontends.
    pub fn len(&self) -> (n: usize)
        ensures
            n == self.registered().len(),
    {
        self.frontends.len()
    }

    /// The frontend at position `at`, with its name.
    pub fn get(&self, at: usize) -> (found: Option<(&String, &FrontendConfig)>)
        ensures
            match found {
                Some(entry) => at < self.registered().len() && (entry.0@, *entry.1)
                    == self.registered()[at as int],
                None => at >= self.registered().len(),
            },
    {
        self.frontends.get(at)
    }

    /// Resolves the frontend that a data entry names and says which stream
    /// the entry gets from it. An unknown name is an error; so is an entry
    /// that does not fit its frontend.
    pub fn stream(&self, frontend_ref: &FrontendRef) -> (result: Result<
        StreamRequest,
        FrontendError,
    >)
        ensures
            result == if has_key(self.registered(), frontend_ref.name@) {
                request_for(
                    self.registered()[key_position(self.registered(), frontend_ref.name@)].1,
                    key_position(self.registered(), frontend_ref.name@) as usize,
                    *frontend_ref,
                )
            } else {
                Err(FrontendError::Unknown)
            },
    {
        let at = match self.frontends.position(&frontend_ref.name) {
            Some(at) => at,
            None => {
                return Err(FrontendError::Unknown);
            },
        };
        proof {
            lemma_position_unique(self.registered(), frontend_ref.name@, at as int);
        }
        let config = match self.frontends.get(at) {
            Some(entry) => entry.1,
            None => {
                return Err(FrontendError::Unknown);
            },
        };
        match config {
            FrontendConfig::Mqtt(_) => match &frontend_ref.data {
                Some(FrontendRefData::Mqtt { mqtt_topic }) => Ok(
                    StreamRequest::Mqtt { frontend: at, topic: mqtt_topic.clone() },
                ),
                None => Err(FrontendError::NoTopic),
            },
            other => {
                if frontend_ref.data.is_some() {
                    return Err(FrontendError::UnexpectedData);
                }
                match frontend_ref.data_type {
                    DataType::Wide => {},
                    DataType::Narrow => {
                        return Err(FrontendError::NotWide);
                    },
                }
                Ok(
                    match other {
                        FrontendConfig::HomematicCcu3(_) => StreamRequest::HomematicCcu3 {
                            frontend: at,
                        },
                        FrontendConfig::HttpRest(_) => StreamRequest::HttpRest { frontend: at },
                        FrontendConfig::Shell(_) => StreamRequest::Shell { frontend: at },
                        _ => StreamRequest::Journald { frontend: at },
                    },
                )
            },
        }
    }
}

} // verus!
