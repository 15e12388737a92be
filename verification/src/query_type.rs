use vstd::prelude::*;
use vstd::string::StringExecFns;

use crate::ascii::str_eq;
use crate::record_type::{
    spec_record_type_from_text, spec_record_type_from_u16, spec_record_type_text,
    spec_record_type_to_u16, RecordType, RecordTypeFromStrErr,
};

verus! {

/// QTYPE fields appear in the question part of a query. QTYPES are a
/// superset of TYPEs, hence all TYPEs are valid QTYPEs.
#[derive(Debug, Clone, Copy, PartialEq, Eq, Structural)]
pub enum QueryType {
    /// Represents a regular RecordType
    Type(RecordType),
    /// Request for a transfer of an entire zone
    Axfr,
    /// Request for mailbox-related records (MB, MG or MR)
    MailB,
    /// Request for mail agent RRs (Obsolete - see MX)
    MailA,
    /// Request for all records (*)
    Any,
}

pub open spec fn spec_query_type_from_u16(value: u16) -> QueryType {
    match value {
        252u16 => QueryType::Axfr,
        253u16 => QueryType::MailB,
        254u16 => QueryType::MailA,
        255u16 => QueryType::Any,
        _ => QueryType::Type(spec_record_type_from_u16(value)),
    }
}

pub open spec fn spec_query_type_to_u16(q: QueryType) -> u16 {
    match q {
        QueryType::Axfr => 252,
        QueryType::MailB => 253,
        QueryType::MailA => 254,
        QueryType::Any => 255,
        QueryType::Type(t) => spec_record_type_to_u16(t),
    }
}

/// A query type matches a record type if it is ANY or names that type.
pub open spec fn spec_query_type_matches(q: QueryType, t: RecordType) -> bool {
    match q {
        QueryType::Any => true,
        QueryType::Type(qt) => qt == t,
        _ => false,
    }
}

pub open spec fn spec_query_type_text(q: QueryType) -> Seq<char> {
    match q {
        QueryType::Type(t) => spec_record_type_text(t),
        QueryType::Axfr => seq!['A', 'X', 'F', 'R'],
        QueryType::MailB => seq!['M', 'A', 'I', 'L', 'B'],
        QueryType::MailA => seq!['M', 'A', 'I', 'L', 'A'],
        QueryType::Any => seq!['A', 'N', 'Y'],
    }
}

/// The query type named by text, if any.
pub open spec fn spec_query_type_from_text(s: Seq<char>) -> Option<QueryType> {
    if s == seq!['*'] {
        Some(QueryType::Any)
    } else if s == seq!['A', 'X', 'F', 'R'] {
        Some(QueryType::Axfr)
    } else if s == seq!['M', 'A', 'I', 'L', 'B'] {
        Some(QueryType::MailB)
    } else if s == seq!['M', 'A', 'I', 'L', 'A'] {
        Some(QueryType::MailA)
    } else if s == seq!['A', 'N', 'Y'] {
        Some(QueryType::Any)
    } else {
        match spec_record_type_from_text(s) {
            Some(t) => Some(QueryType::Type(t)),
            None => None,
        }
    }
}

impl QueryType {
    pub fn from_u16(value: u16) -> (r: QueryType)
        ensures
            r == spec_query_type_from_u16(value),
    {
        match value {
            252 => QueryType::Axfr,
            253 => QueryType::MailB,
            254 => QueryType::MailA,
            255 => QueryType::Any,
            _ => QueryType::Type(RecordType::from_u16(value)),
        }
    }

    pub fn to_u16(&self) -> (r: u16)
        ensures
            r == spec_query_type_to_u16(*self),
    {
        match self {
            QueryType::Axfr => 252,
            QueryType::MailB => 253,
            QueryType::MailA => 254,
            QueryType::Any => 255,
            QueryType::Type(t) => t.to_u16(),
        }
    }

    pub fn matches(&self, record_type: RecordType) -> (r: bool)
        ensures
            r == spec_query_type_matches(*self, record_type),
    {
        match self {
            QueryType::Any => true,
            QueryType::Type(query_record_type) => *query_record_type == record_type,
            _ => false,
        }
    }

    /// Parses the textual query type mnemonic.
    pub fn parse_query_type(s: &str) -> (r: Result<QueryType, RecordTypeFromStrErr>)
        ensures
            match spec_query_type_from_text(s@) {
                Some(q) => r == Ok::<QueryType, RecordTypeFromStrErr>(q),
                None => r == Err::<QueryType, RecordTypeFromStrErr>(RecordTypeFromStrErr::Invalid),
            },
    {
        proof {
            reveal_strlit("*");
            assert("*"@ =~= seq!['*']);
            reveal_strlit("AXFR");
            reveal_strlit("MAILB");
            reveal_strlit("MAILA");
            reveal_strlit("ANY");
            assert("AXFR"@ =~= seq!['A', 'X', 'F', 'R']);
            assert("MAILB"@ =~= seq!['M', 'A', 'I', 'L', 'B']);
            assert("MAILA"@ =~= seq!['M', 'A', 'I', 'L', 'A']);
            assert("ANY"@ =~= seq!['A', 'N', 'Y']);
        }
        if str_eq(s, "*") {
            Ok(QueryType::Any)
        } else if str_eq(s, "AXFR") {
            Ok(QueryType::Axfr)
        } else if str_eq(s, "MAILB") {
            Ok(QueryType::MailB)
        } else if str_eq(s, "MAILA") {
            Ok(QueryType::MailA)
        } else if str_eq(s, "ANY") {
            Ok(QueryType::Any)
        } else {
            match RecordType::parse_record_type(s) {
                Ok(t) => Ok(QueryType::Type(t)),
                Err(e) => Err(e),
            }
        }
    }

    pub fn to_string(&self) -> (r: String)
        ensures
            r@ == spec_query_type_text(*self),
    {
        match self {
            QueryType::Type(record_type) => record_type.to_string(),
            QueryType::Axfr => {
                let s = String::from_str("AXFR");
                proof {
                    reveal_strlit("AXFR");
                    assert(s@ =~= seq!['A', 'X', 'F', 'R']);
                }
                s
            },
            QueryType::MailB => {
                let s = String::from_str("MAILB");
                proof {
                    reveal_strlit("MAILB");
                    assert(s@ =~= seq!['M', 'A', 'I', 'L', 'B']);
                }
                s
            },
            QueryType::MailA => {
                let s = String::from_str("MAILA");
                proof {
                    reveal_strlit("MAILA");
                    assert(s@ =~= seq!['M', 'A', 'I', 'L', 'A']);
                }
                s
            },
            QueryType::Any => {
                let s = String::from_str("ANY");
                proof {
                    reveal_strlit("ANY");
                    assert(s@ =~= seq!['A', 'N', 'Y']);
                }
                s
            },
        }
    }
}

impl From<u16> for QueryType {
    fn from(value: u16) -> QueryType {
        QueryType::from_u16(value)
    }
}

impl vstd::std_specs::convert::FromSpecImpl<u16> for QueryType {
    open spec fn obeys_from_spec() -> bool {
        true
    }

    open spec fn from_spec(v: u16) -> QueryType {
        spec_query_type_from_u16(v)
    }
}

impl From<QueryType> for u16 {
    fn from(value: QueryType) -> u16 {
        value.to_u16()
    }
}

impl vstd::std_specs::convert::FromSpecImpl<QueryType> for u16 {
    open spec fn obeys_from_spec() -> bool {
        true
    }

    open spec fn from_spec(v: QueryType) -> u16 {
        spec_query_type_to_u16(v)
    }
}

impl core::str::FromStr for QueryType {
    type Err = RecordTypeFromStrErr;

    fn from_str(s: &str) -> Result<QueryType, RecordTypeFromStrErr> {
        QueryType::parse_query_type(s)
    }
}

} // verus!
