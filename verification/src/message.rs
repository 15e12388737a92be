use vstd::prelude::*;

use crate::handler::{HandlerError, QueryRequest, QueryResponse};
use crate::question::{Question, SpecQuestion};
use crate::record::{Record, SpecRecord};

verus! {

pub type MessageId = u16;

#[derive(Debug, Clone, Copy, PartialEq, Eq, Structural)]
pub enum OpCode {
    /// A standard query (QUERY)
    Query,
    /// An inverse query (IQUERY)
    IQuery,
    /// A server status request (STATUS)
    Status,
    /// This value is reserved for future use.
    Unkown(u8),
}

pub open spec fn spec_opcode_from_u8(value: u8) -> OpCode {
    match value {
        0u8 => OpCode::Query,
        1u8 => OpCode::IQuery,
        2u8 => OpCode::Status,
        _ => OpCode::Unkown(value),
    }
}

pub open spec fn spec_opcode_to_u8(c: OpCode) -> u8 {
    match c {
        OpCode::Query => 0,
        OpCode::IQuery => 1,
        OpCode::Status => 2,
        OpCode::Unkown(value) => value,
    }
}

impl OpCode {
    pub fn from_u8(value: u8) -> (r: OpCode)
        ensures
            r == spec_opcode_from_u8(value),
    {
        match value {
            0 => OpCode::Query,
            1 => OpCode::IQuery,
            2 => OpCode::Status,
            _ => OpCode::Unkown(value),
        }
    }

    pub fn to_u8(&self) -> (r: u8)
        ensures
            r == spec_opcode_to_u8(*self),
    {
        match self {
            OpCode::Query => 0,
            OpCode::IQuery => 1,
            OpCode::Status => 2,
            OpCode::Unkown(value) => *value,
        }
    }
}

impl From<u8> for OpCode {
    fn from(value: u8) -> OpCode {
        OpCode::from_u8(value)
    }
}

impl vstd::std_specs::convert::FromSpecImpl<u8> for OpCode {
    open spec fn obeys_from_spec() -> bool {
        true
    }

    open spec fn from_spec(v: u8) -> OpCode {
        spec_opcode_from_u8(v)
    }
}

impl From<OpCode> for u8 {
    fn from(value: OpCode) -> u8 {
        value.to_u8()
    }
}

impl vstd::std_specs::convert::FromSpecImpl<OpCode> for u8 {
    open spec fn obeys_from_spec() -> bool {
        true
    }

    open spec fn from_spec(v: OpCode) -> u8 {
        spec_opcode_to_u8(v)
    }
}

#[derive(Debug, Clone, Copy, PartialEq, Eq, Structural)]
pub enum ResponseCode {
    /// No error condition
    NoError,
    /// The name server was unable to interpret the query.
    FormatError,
    /// The name server was unable to process this query due to a problem
    /// with the name server.
    ServerFailure,
    /// Meaningful only for responses from an authoritative name server,
    /// this code signifies that the domain name referenced in the query
    /// does not exist.
    NameError,
    /// The name server does not support the requested kind of query.
    NotImplemented,
    /// The name server refuses to perform the specified operation for
    /// policy reasons.
    Refused,
    /// This value is reserved for future use.
    Unkown(u8),
}

pub open spec fn spec_response_code_from_u8(value: u8) -> ResponseCode {
    match value {
        0u8 => ResponseCode::NoError,
        1u8 => ResponseCode::FormatError,
        2u8 => ResponseCode::ServerFailure,
        3u8 => ResponseCode::NameError,
        4u8 => ResponseCode::NotImplemented,
        5u8 => ResponseCode::Refused,
        _ => ResponseCode::Unkown(value),
    }
}

pub open spec fn spec_response_code_to_u8(c: ResponseCode) -> u8 {
    match c {
        ResponseCode::NoError => 0,
        ResponseCode::FormatError => 1,
        ResponseCode::ServerFailure => 2,
        ResponseCode::NameError => 3,
        ResponseCode::NotImplemented => 4,
        ResponseCode::Refused => 5,
        ResponseCode::Unkown(value) => value,
    }
}

impl ResponseCode {
    pub fn from_u8(value: u8) -> (r: ResponseCode)
        ensures
            r == spec_response_code_from_u8(value),
    {
        match value {
            0 => ResponseCode::NoError,
            1 => ResponseCode::FormatError,
            2 => ResponseCode::ServerFailure,
            3 => ResponseCode::NameError,
            4 => ResponseCode::NotImplemented,
            5 => ResponseCode::Refused,
            _ => ResponseCode::Unkown(value),
        }
    }

    pub fn to_u8(&self) -> (r: u8)
        ensures
            r == spec_response_code_to_u8(*self),
    {
        match self {
            ResponseCode::NoError => 0,
            ResponseCode::FormatError => 1,
            ResponseCode::ServerFailure => 2,
            ResponseCode::NameError => 3,
            ResponseCode::NotImplemented => 4,
            ResponseCode::Refused => 5,
            ResponseCode::Unkown(value) => *value,
        }
    }
}

impl From<u8> for ResponseCode {
    fn from(value: u8) -> ResponseCode {
        ResponseCode::from_u8(value)
    }
}

impl vstd::std_specs::convert::FromSpecImpl<u8> for ResponseCode {
    open spec fn obeys_from_spec() -> bool {
        true
    }

    open spec fn from_spec(v: u8) -> ResponseCode {
        spec_response_code_from_u8(v)
    }
}

impl From<ResponseCode> for u8 {
    fn from(value: ResponseCode) -> u8 {
        value.to_u8()
    }
}

impl vstd::std_specs::convert::FromSpecImpl<ResponseCode> for u8 {
    open spec fn obeys_from_spec() -> bool {
        true
    }

    open spec fn from_spec(v: ResponseCode) -> u8 {
        spec_response_code_to_u8(v)
    }
}

/// All communications inside of the domain protocol are carried in a single
/// format called a message.
#[derive(Debug)]
pub struct Message {
    /// This identifier is copied to the corresponding reply and can be used
    /// by the requester to match up replies to outstanding queries.
    id: MessageId,
    /// QR (Query/Response) flag.
    is_response: bool,
    /// A four bit field that specifies kind of query in this message.
    opcode: OpCode,
    /// This bit is valid in responses, and specifies that the responding
    /// name server is an authority for the domain name in question section.
    is_authoritative_answer: bool,
    /// Specifies that this message was truncated due to length greater
    /// than that permitted on the transmission channel.
    is_truncation: bool,
    /// This bit may be set in a query and is copied into the response.
    recursion_desired: bool,
    /// This bit is set or cleared in a response, and denotes whether
    /// recursive query support is available in the name server.
    recursion_available: bool,
    /// This 4 bit field is set as part of responses.
    response_code: ResponseCode,
    /// The parameters that define what is being asked.
    questions: Vec<Question>,
    answers: Vec<Record>,
    authorities: Vec<Record>,
    additional: Vec<Record>,
}

/// The mathematical model of a message.
pub struct SpecMessage {
    pub id: u16,
    pub is_response: bool,
    pub opcode: OpCode,
    pub is_authoritative_answer: bool,
    pub is_truncation: bool,
    pub recursion_desired: bool,
    pub recursion_available: bool,
    pub response_code: ResponseCode,
    pub questions: Seq<SpecQuestion>,
    pub answers: Seq<SpecRecord>,
    pub authorities: Seq<SpecRecord>,
    pub additional: Seq<SpecRecord>,
}

impl View for Message {
    type V = SpecMessage;

    closed spec fn view(&self) -> SpecMessage {
        SpecMessage {
            id: self.id,
            is_response: self.is_response,
            opcode: self.opcode,
            is_authoritative_answer: self.is_authoritative_answer,
            is_truncation: self.is_truncation,
            recursion_desired: self.recursion_desired,
            recursion_available: self.recursion_available,
            response_code: self.response_code,
            questions: self.questions.deep_view(),
            answers: self.answers.deep_view(),
            authorities: self.authorities.deep_view(),
            additional: self.additional.deep_view(),
        }
    }
}

/// The fresh message with the given id: a query with no flags set and all
/// sections empty.
pub open spec fn spec_new_message(id: u16) -> SpecMessage {
    SpecMessage {
        id,
        is_response: false,
        opcode: OpCode::Query,
        is_authoritative_answer: false,
        is_truncation: false,
        recursion_desired: false,
        recursion_available: false,
        response_code: ResponseCode::NoError,
        questions: Seq::empty(),
        answers: Seq::empty(),
        authorities: Seq::empty(),
        additional: Seq::empty(),
    }
}

/// The empty response to a message: same id, opcode and recursion-desired
/// flag, the response flag set, everything else fresh.
pub open spec fn spec_empty_response(m: SpecMessage) -> SpecMessage {
    SpecMessage {
        opcode: m.opcode,
        is_response: true,
        recursion_desired: m.recursion_desired,
        ..spec_new_message(m.id)
    }
}

#[derive(Debug)]
pub enum Request {
    Query(QueryRequest),
}

pub enum SpecRequest {
    Query(SpecQuestion),
}

impl View for Request {
    type V = SpecRequest;

    open spec fn view(&self) -> SpecRequest {
        match self {
            Request::Query(q) => SpecRequest::Query(q@),
        }
    }
}

impl PartialEq for Request {
    fn eq(&self, other: &Request) -> (r: bool) {
        match (self, other) {
            (Request::Query(a), Request::Query(b)) => *a == *b,
        }
    }
}

impl Eq for Request {

}

impl vstd::std_specs::cmp::PartialEqSpecImpl for Request {
    open spec fn obeys_eq_spec() -> bool {
        true
    }

    open spec fn eq_spec(&self, other: &Request) -> bool {
        self@ == other@
    }
}

impl Message {
    pub fn new(id: MessageId) -> (r: Message)
        ensures
            r@ == spec_new_message(id),
    {
        let r = Message {
            id,
            is_response: false,
            opcode: OpCode::Query,
            is_authoritative_answer: false,
            is_truncation: false,
            recursion_desired: false,
            recursion_available: false,
            response_code: ResponseCode::NoError,
            questions: Vec::new(),
            answers: Vec::new(),
            authorities: Vec::new(),
            additional: Vec::new(),
        };
        proof {
            assert(r@.questions =~~= spec_new_message(id).questions);
            assert(r@.answers =~~= spec_new_message(id).answers);
            assert(r@.authorities =~~= spec_new_message(id).authorities);
            assert(r@.additional =~~= spec_new_message(id).additional);
        }
        r
    }

    pub fn id(&self) -> (r: MessageId)
        ensures
            r == self@.id,
    {
        self.id
    }

    pub fn set_is_response(self, is_response: bool) -> (r: Message)
        ensures
            r@ == (SpecMessage { is_response, ..self@ }),
    {
        Message { is_response, ..self }
    }

    pub fn is_response(&self) -> (r: bool)
        ensures
            r == self@.is_response,
    {
        self.is_response
    }

    pub fn set_opcode(self, opcode: OpCode) -> (r: Message)
        ensures
            r@ == (SpecMessage { opcode, ..self@ }),
    {
        Message { opcode, ..self }
    }

    pub fn opcode(&self) -> (r: OpCode)
        ensures
            r == self@.opcode,
    {
        self.opcode
    }

    pub fn set_is_authoritative_answer(self, is_authoritative_answer: bool) -> (r: Message)
        ensures
            r@ == (SpecMessage { is_authoritative_answer, ..self@ }),
    {
        Message { is_authoritative_answer, ..self }
    }

    pub fn is_authoritative_answer(&self) -> (r: bool)
        ensures
            r == self@.is_authoritative_answer,
    {
        self.is_authoritative_answer
    }

    pub fn set_is_truncation(self, is_truncation: bool) -> (r: Message)
        ensures
            r@ == (SpecMessage { is_truncation, ..self@ }),
    {
        Message { is_truncation, ..self }
    }

    pub fn is_truncation(&self) -> (r: bool)
        ensures
            r == self@.is_truncation,
    {
        self.is_truncation
    }

    pub fn set_recursion_desired(self, recursion_desired: bool) -> (r: Message)
        ensures
            r@ == (SpecMessage { recursion_desired, ..self@ }),
    {
        Message { recursion_desired, ..self }
    }

    pub fn recursion_desired(&self) -> (r: bool)
        ensures
            r == self@.recursion_desired,
    {
        self.recursion_desired
    }

    pub fn set_recursion_available(self, recursion_available: bool) -> (r: Message)
        ensures
            r@ == (SpecMessage { recursion_available, ..self@ }),
    {
        Message { recursion_available, ..self }
    }

    pub fn recursion_available(&self) -> (r: bool)
        ensures
            r == self@.recursion_available,
    {
        self.recursion_available
    }

    pub fn set_response_code(self, response_code: ResponseCode) -> (r: Message)
        ensures
            r@ == (SpecMessage { response_code, ..self@ }),
    {
        Message { response_code, ..self }
    }

    pub fn response_code(&self) -> (r: ResponseCode)
        ensures
            r == self@.response_code,
    {
        self.response_code
    }

    pub fn set_questions(self, questions: Vec<Question>) -> (r: Message)
        ensures
            r@ == (SpecMessage { questions: questions.deep_view(), ..self@ }),
    {
        Message { questions, ..self }
    }

    pub fn questions(&self) -> (r: &Vec<Question>)
        ensures
            r.deep_view() == self@.questions,
    {
        &self.questions
    }

    pub fn set_answers(self, answers: Vec<Record>) -> (r: Message)
        ensures
            r@ == (SpecMessage { answers: answers.deep_view(), ..self@ }),
    {
        Message { answers, ..self }
    }

    pub fn answers(&self) -> (r: &Vec<Record>)
        ensures
            r.deep_view() == self@.answers,
    {
        &self.answers
    }

    pub fn set_authorities(self, authorities: Vec<Record>) -> (r: Message)
        ensures
            r@ == (SpecMessage { authorities: authorities.deep_view(), ..self@ }),
    {
        Message { authorities, ..self }
    }

    pub fn authorities(&self) -> (r: &Vec<Record>)
        ensures
            r.deep_view() == self@.authorities,
    {
        &self.authorities
    }

    pub fn set_additional(self, additional: Vec<Record>) -> (r: Message)
        ensures
            r@ == (SpecMessage { additional: additional.deep_view(), ..self@ }),
    {
        Message { additional, ..self }
    }

    pub fn additional(&self) -> (r: &Vec<Record>)
        ensures
            r.deep_view() == self@.additional,
    {
        &self.additional
    }

    /// The empty response to this message.
    pub fn to_empty_response(&self) -> (r: Message)
        ensures
            r@ == spec_empty_response(self@),
    {
        Message::new(self.id).set_opcode(self.opcode()).set_is_response(true).set_recursion_desired(
            self.recursion_desired,
        )
    }

    /// The empty response to this message with the given response code.
    pub fn into_response(&self, response_code: ResponseCode) -> (r: Message)
        ensures
            r@ == (SpecMessage { response_code, ..spec_empty_response(self@) }),
    {
        self.to_empty_response().set_response_code(response_code)
    }

    /// Reads this message as a request: a response is malformed, only QUERY
    /// is implemented, and the first question is taken; the error is the
    /// message to send back.
    pub fn into_request(&self) -> (r: Result<Request, Message>)
        ensures
            self@.is_response ==> (r matches Err(m) && m@ == (SpecMessage {
                response_code: ResponseCode::FormatError,
                ..spec_empty_response(self@)
            })),
            !self@.is_response && self@.opcode != OpCode::Query ==> (r matches Err(m) && m@ == (
            SpecMessage {
                response_code: ResponseCode::NotImplemented,
                ..spec_empty_response(self@)
            })),
            !self@.is_response && self@.opcode == OpCode::Query && self@.questions.len() > 0 ==> (
            r matches Ok(q) && q@ == SpecRequest::Query(self@.questions[0])),
            !self@.is_response && self@.opcode == OpCode::Query && self@.questions.len() == 0 ==> (
            r matches Err(m) && m@ == (SpecMessage {
                response_code: ResponseCode::FormatError,
                ..spec_empty_response(self@)
            })),
    {
        if self.is_response() {
            Err(self.to_empty_response().set_response_code(ResponseCode::FormatError))
        } else if !(self.opcode() == OpCode::Query) {
            Err(self.to_empty_response().set_response_code(ResponseCode::NotImplemented))
        } else if self.questions.len() > 0 {
            let question = self.questions[0].clone();
            proof {
                assert(question@ == self@.questions[0]);
            }
            let query_request = QueryRequest::new(question);
            Ok(Request::Query(query_request))
        } else {
            Err(self.to_empty_response().set_response_code(ResponseCode::FormatError))
        }
    }

    /// The response to a request message carrying the resolver's sections.
    pub fn from_query_reponse(request_message: &Message, response: &QueryResponse) -> (r: Message)
        ensures
            r@ == (SpecMessage {
                answers: response@.answers,
                authorities: response@.authorities,
                additional: response@.additional,
                ..spec_empty_response(request_message@)
            }),
    {
        let answers = crate::record::clone_records(response.answers());
        let authorities = crate::record::clone_records(response.authorities());
        let additional = crate::record::clone_records(response.additional());
        request_message.to_empty_response().set_answers(answers).set_authorities(
            authorities,
        ).set_additional(additional)
    }

    /// The response for a failed handler call.
    pub fn from_handler_error(id: MessageId, error: HandlerError) -> (r: Message)
        ensures
            error == HandlerError::NotImplemented ==> r@ == (SpecMessage {
                is_response: true,
                response_code: ResponseCode::NotImplemented,
                ..spec_new_message(id)
            }),
    {
        match error {
            HandlerError::NotImplemented => Message::new(id).set_is_response(true).set_response_code(
                ResponseCode::NotImplemented,
            ),
        }
    }
}

impl Clone for Message {
    fn clone(&self) -> (r: Message)
        ensures
            r@ == self@,
    {
        Message {
            id: self.id,
            is_response: self.is_response,
            opcode: self.opcode,
            is_authoritative_answer: self.is_authoritative_answer,
            is_truncation: self.is_truncation,
            recursion_desired: self.recursion_desired,
            recursion_available: self.recursion_available,
            response_code: self.response_code,
            questions: crate::question::clone_questions(&self.questions),
            answers: crate::record::clone_records(&self.answers),
            authorities: crate::record::clone_records(&self.authorities),
            additional: crate::record::clone_records(&self.additional),
        }
    }
}

} // verus!
