use vstd::prelude::*;
use vstd::string::StringExecFns;

use crate::ascii::str_eq;
use crate::class::{spec_class_from_u16, spec_class_text, spec_class_to_u16, Class};

verus! {

/// QCLASS fields appear in the question section; "*" asks for any class.
#[derive(Debug, Clone, Copy, PartialEq, Eq, Structural)]
pub enum QueryClass {
    Class(Class),
    Any,
}

pub open spec fn spec_query_class_from_u16(value: u16) -> QueryClass {
    if value == 255 {
        QueryClass::Any
    } else {
        QueryClass::Class(spec_class_from_u16(value))
    }
}

pub open spec fn spec_query_class_to_u16(q: QueryClass) -> u16 {
    match q {
        QueryClass::Any => 255,
        QueryClass::Class(c) => spec_class_to_u16(c),
    }
}

/// A query class matches a record class if it is "*" or names that class.
pub open spec fn spec_query_class_matches(q: QueryClass, c: Class) -> bool {
    match q {
        QueryClass::Any => true,
        QueryClass::Class(qc) => qc == c,
    }
}

pub open spec fn spec_query_class_text(q: QueryClass) -> Seq<char> {
    match q {
        QueryClass::Class(c) => spec_class_text(c),
        QueryClass::Any => seq!['*'],
    }
}

impl QueryClass {
    pub fn from_u16(value: u16) -> (r: QueryClass)
        ensures
            r == spec_query_class_from_u16(value),
    {
        if value == 255 {
            QueryClass::Any
        } else {
            QueryClass::Class(Class::from_u16(value))
        }
    }

    pub fn to_u16(&self) -> (r: u16)
        ensures
            r == spec_query_class_to_u16(*self),
    {
        match self {
            QueryClass::Any => 255,
            QueryClass::Class(c) => c.to_u16(),
        }
    }

    pub fn matches(&self, class: Class) -> (r: bool)
        ensures
            r == spec_query_class_matches(*self, class),
    {
        match self {
            QueryClass::Any => true,
            QueryClass::Class(value) => *value == class,
        }
    }

    /// Parses the textual query class: "*" or a class mnemonic.
    pub fn parse_query_class(s: &str) -> (r: Result<QueryClass, ()>)
        ensures
            s@ == seq!['*'] ==> r == Ok::<QueryClass, ()>(QueryClass::Any),
            s@ == seq!['I', 'N'] ==> r == Ok::<QueryClass, ()>(QueryClass::Class(Class::In)),
            s@ != seq!['*'] && s@ != seq!['I', 'N'] ==> r == Err::<QueryClass, ()>(()),
    {
        proof {
            reveal_strlit("*");
            assert("*"@ =~= seq!['*']);
        }
        if str_eq(s, "*") {
            Ok(QueryClass::Any)
        } else {
            match Class::parse_class(s) {
                Ok(c) => Ok(QueryClass::Class(c)),
                Err(e) => Err(e),
            }
        }
    }

    pub fn to_string(&self) -> (r: String)
        ensures
            r@ == spec_query_class_text(*self),
    {
        match self {
            QueryClass::Class(c) => c.to_string(),
            QueryClass::Any => {
                let s = String::from_str("*");
                proof {
                    reveal_strlit("*");
                    assert(s@ =~= seq!['*']);
                }
                s
            },
        }
    }
}

impl From<u16> for QueryClass {
    fn from(value: u16) -> QueryClass {
        QueryClass::from_u16(value)
    }
}

impl vstd::std_specs::convert::FromSpecImpl<u16> for QueryClass {
    open spec fn obeys_from_spec() -> bool {
        true
    }

    open spec fn from_spec(v: u16) -> QueryClass {
        spec_query_class_from_u16(v)
    }
}

impl From<QueryClass> for u16 {
    fn from(value: QueryClass) -> u16 {
        value.to_u16()
    }
}

impl vstd::std_specs::convert::FromSpecImpl<QueryClass> for u16 {
    open spec fn obeys_from_spec() -> bool {
        true
    }

    open spec fn from_spec(v: QueryClass) -> u16 {
        spec_query_class_to_u16(v)
    }
}

impl core::str::FromStr for QueryClass {
    type Err = ();

    fn from_str(s: &str) -> Result<QueryClass, ()> {
        QueryClass::parse_query_class(s)
    }
}

} // verus!
