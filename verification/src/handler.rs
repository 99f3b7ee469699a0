//! The request handler's decisions: refuse non-queries, plan the
//! fan-out, and map the dispatch outcome to a response code.

use vstd::prelude::*;
use crate::config::Config;
use crate::dispatch::UpstreamEvent;
use crate::dispatch::first_accepted;
use crate::dispatch::spec_first_accepted;
use crate::filter::resolvers;
use crate::filter::spec_select;

verus! {

/// The operation of an inbound DNS message.
#[derive(Debug, Clone, Copy, PartialEq, Eq, Structural)]
pub enum OpCode {
    Query,
    Status,
    Notify,
    Update,
}

/// Whether an inbound message is a query or a response.
#[derive(Debug, Clone, Copy, PartialEq, Eq, Structural)]
pub enum MessageType {
    Query,
    Response,
}

/// The response codes this server sends.
#[derive(Debug, Clone, Copy, PartialEq, Eq, Structural)]
pub enum ResponseCode {
    NoError,
    NXDomain,
    ServFail,
    Refused,
}

/// A message is refused unless it is a query operation carried by a
/// query message.
pub open spec fn spec_refused(op_code: OpCode, message_type: MessageType) -> bool {
    !(op_code == OpCode::Query && message_type == MessageType::Query)
}

/// The DNS request handler: the built configuration, shared read-only.
pub struct Handler {
    pub config: Config,
}

impl Handler {
    /// Create handler from the built configuration.
    pub fn new(cfg: Config) -> (r: Handler)
        ensures
            r.config == cfg,
    {
        Handler { config: cfg }
    }

    /// Whether an inbound message is refused before any lookup.
    pub fn should_refuse(op_code: OpCode, message_type: MessageType) -> (r: bool)
        ensures
            r == spec_refused(op_code, message_type),
    {
        !(op_code == OpCode::Query && message_type == MessageType::Query)
    }

    /// The ordered upstream names to contact for a query: the router's
    /// selection for the queried name and record type.
    pub fn lookup_plan(&self, qname: &str, qtype: u16) -> (r: Vec<String>)
        ensures
            r.deep_view() == spec_select(self.config, qname@, qtype),
    {
        resolvers(&self.config, qname, qtype)
    }

    /// Decide over the arrival-ordered events of one query: the first
    /// accepted answer's index with `NoError`, or no winner with
    /// `NXDomain`.
    pub fn decide(&self, qname: &str, events: &Vec<UpstreamEvent>) -> (r: (
        ResponseCode,
        Option<usize>,
    ))
        requires
            self.config.wf(),
        ensures
            match r.1 {
                Some(i) => spec_first_accepted(self.config, qname@, events@) == Some(i as int)
                    && r.0 == ResponseCode::NoError,
                None => spec_first_accepted(self.config, qname@, events@) is None && r.0
                    == ResponseCode::NXDomain,
            },
    {
        match first_accepted(&self.config, qname, events) {
            Some(i) => (ResponseCode::NoError, Some(i)),
            None => (ResponseCode::NXDomain, None),
        }
    }
}

} // verus!
