use vstd::prelude::*;

use crate::question::{Question, SpecQuestion};
use crate::record::{Record, SpecRecord};

verus! {

/// A request carrying the first question of a query message.
#[derive(Debug)]
pub struct QueryRequest {
    question: Question,
}

impl View for QueryRequest {
    type V = SpecQuestion;

    closed spec fn view(&self) -> SpecQuestion {
        self.question@
    }
}

impl QueryRequest {
    pub fn new(question: Question) -> (r: QueryRequest)
        ensures
            r@ == question@,
    {
        QueryRequest { question }
    }

    pub fn question(&self) -> (r: &Question)
        ensures
            r@ == self@,
    {
        &self.question
    }
}

impl Clone for QueryRequest {
    fn clone(&self) -> (r: QueryRequest)
        ensures
            r@ == self@,
    {
        QueryRequest { question: self.question.clone() }
    }
}

impl PartialEq for QueryRequest {
    fn eq(&self, other: &QueryRequest) -> (r: bool) {
        self.question == other.question
    }
}

impl Eq for QueryRequest {

}

impl vstd::std_specs::cmp::PartialEqSpecImpl for QueryRequest {
    open spec fn obeys_eq_spec() -> bool {
        true
    }

    open spec fn eq_spec(&self, other: &QueryRequest) -> bool {
        self@ == other@
    }
}

/// The record sections of an answer to a query.
pub struct SpecQueryResponse {
    pub answers: Seq<SpecRecord>,
    pub authorities: Seq<SpecRecord>,
    pub additional: Seq<SpecRecord>,
}

#[derive(Debug)]
pub struct QueryResponse {
    answers: Vec<Record>,
    authorities: Vec<Record>,
    additional: Vec<Record>,
}

impl View for QueryResponse {
    type V = SpecQueryResponse;

    closed spec fn view(&self) -> SpecQueryResponse {
        SpecQueryResponse {
            answers: self.answers.deep_view(),
            authorities: self.authorities.deep_view(),
            additional: self.additional.deep_view(),
        }
    }
}

impl QueryResponse {
    pub fn new(answers: Vec<Record>, authorities: Vec<Record>, additional: Vec<Record>) -> (r:
        QueryResponse)
        ensures
            r@.answers == answers.deep_view(),
            r@.authorities == authorities.deep_view(),
            r@.additional == additional.deep_view(),
    {
        QueryResponse { answers, authorities, additional }
    }

    pub fn answers(&self) -> (r: &Vec<Record>)
        ensures
            r.deep_view() == self@.answers,
    {
        &self.answers
    }

    pub fn authorities(&self) -> (r: &Vec<Record>)
        ensures
            r.deep_view() == self@.authorities,
    {
        &self.authorities
    }

    pub fn additional(&self) -> (r: &Vec<Record>)
        ensures
            r.deep_view() == self@.additional,
    {
        &self.additional
    }
}

impl Default for QueryResponse {
    /// The empty response: no records in any section.
    fn default() -> (r: QueryResponse)
        ensures
            r@.answers == Seq::<SpecRecord>::empty(),
            r@.authorities == Seq::<SpecRecord>::empty(),
            r@.additional == Seq::<SpecRecord>::empty(),
    {
        let r = QueryResponse { answers: Vec::new(), authorities: Vec::new(), additional: Vec::new() };
        proof {
            assert(r@.answers =~~= Seq::<SpecRecord>::empty());
            assert(r@.authorities =~~= Seq::<SpecRecord>::empty());
            assert(r@.additional =~~= Seq::<SpecRecord>::empty());
        }
        r
    }
}

#[derive(Debug, Clone, Copy, PartialEq, Eq, Structural)]
pub enum HandlerError {
    NotImplemented,
}

/// Answers query requests.
pub trait Handler {
    fn handle_query(&self, request: QueryRequest) -> Result<QueryResponse, HandlerError>;
}

/// A handler that answers every query with the empty response.
pub struct EmptyHandler {}

impl EmptyHandler {
    pub fn new() -> (r: EmptyHandler) {
        EmptyHandler {  }
    }
}

impl Handler for EmptyHandler {
    fn handle_query(&self, _request: QueryRequest) -> Result<QueryResponse, HandlerError> {
        Ok(QueryResponse::default())
    }
}

} // verus!
