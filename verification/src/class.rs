use vstd::prelude::*;
use vstd::string::StringExecFns;

use crate::ascii::{dec_str, str_eq, u32_dec_string};

verus! {

/// The class of a resource record; only the Internet class is named.
#[derive(Debug, Clone, Copy, PartialEq, Eq, Structural)]
pub enum Class {
    In,
    Unknown(u16),
}

#[derive(Debug, Clone, Copy, PartialEq, Eq, Structural)]
pub enum ClassFromStrErr {
    InvalidClass,
}

pub open spec fn spec_class_from_u16(value: u16) -> Class {
    if value == 1 {
        Class::In
    } else {
        Class::Unknown(value)
    }
}

pub open spec fn spec_class_to_u16(c: Class) -> u16 {
    match c {
        Class::In => 1,
        Class::Unknown(value) => value,
    }
}

pub open spec fn spec_class_text(c: Class) -> Seq<char> {
    match c {
        Class::In => seq!['I', 'N'],
        Class::Unknown(value) => dec_str(value as int),
    }
}

impl Class {
    pub fn from_u16(value: u16) -> (r: Class)
        ensures
            r == spec_class_from_u16(value),
    {
        if value == 1 {
            Class::In
        } else {
            Class::Unknown(value)
        }
    }

    pub fn to_u16(&self) -> (r: u16)
        ensures
            r == spec_class_to_u16(*self),
    {
        match self {
            Class::In => 1,
            Class::Unknown(value) => *value,
        }
    }

    /// Parses the textual class; only "IN" is recognized.
    pub fn parse_class(s: &str) -> (r: Result<Class, ()>)
        ensures
            s@ == seq!['I', 'N'] ==> r == Ok::<Class, ()>(Class::In),
            s@ != seq!['I', 'N'] ==> r == Err::<Class, ()>(()),
    {
        proof {
            reveal_strlit("IN");
            assert("IN"@ =~= seq!['I', 'N']);
        }
        if str_eq(s, "IN") {
            Ok(Class::In)
        } else {
            Err(())
        }
    }

    pub fn to_string(&self) -> (r: String)
        ensures
            r@ == spec_class_text(*self),
    {
        match self {
            Class::In => {
                let s = String::from_str("IN");
                proof {
                    reveal_strlit("IN");
                    assert(s@ =~= seq!['I', 'N']);
                }
                s
            },
            Class::Unknown(value) => u32_dec_string(*value as u32),
        }
    }
}

impl From<u16> for Class {
    fn from(value: u16) -> Class {
        Class::from_u16(value)
    }
}

impl vstd::std_specs::convert::FromSpecImpl<u16> for Class {
    open spec fn obeys_from_spec() -> bool {
        true
    }

    open spec fn from_spec(v: u16) -> Class {
        spec_class_from_u16(v)
    }
}

impl From<Class> for u16 {
    fn from(value: Class) -> u16 {
        value.to_u16()
    }
}

impl vstd::std_specs::convert::FromSpecImpl<Class> for u16 {
    open spec fn obeys_from_spec() -> bool {
        true
    }

    open spec fn from_spec(v: Class) -> u16 {
        spec_class_to_u16(v)
    }
}

impl core::str::FromStr for Class {
    type Err = ();

    fn from_str(s: &str) -> Result<Class, ()> {
        Class::parse_class(s)
    }
}

} // verus!
