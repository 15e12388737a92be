use vstd::prelude::*;
use vstd::string::StringExecFns;

use crate::ascii::{dec_str, str_eq, u32_dec_string};

verus! {

#[derive(Debug, Clone, Copy, PartialEq, Eq, Structural)]
pub enum RecordType {
    A,
    /// Name server record
    Ns,
    /// Canonical name record
    Cname,
    /// Mail exchange record
    Mx,
    /// Text record
    Txt,
    /// IPv6 address record (RFC 3596)
    Aaaa,
    Unknown(u16),
}

#[derive(Debug, Clone, Copy, PartialEq, Eq, Structural)]
pub enum RecordTypeFromStrErr {
    Invalid,
}

pub open spec fn spec_record_type_from_u16(value: u16) -> RecordType {
    match value {
        1u16 => RecordType::A,
        2u16 => RecordType::Ns,
        5u16 => RecordType::Cname,
        15u16 => RecordType::Mx,
        16u16 => RecordType::Txt,
        28u16 => RecordType::Aaaa,
        _ => RecordType::Unknown(value),
    }
}

pub open spec fn spec_record_type_to_u16(t: RecordType) -> u16 {
    match t {
        RecordType::A => 1,
        RecordType::Ns => 2,
        RecordType::Cname => 5,
        RecordType::Mx => 15,
        RecordType::Txt => 16,
        RecordType::Aaaa => 28,
        RecordType::Unknown(value) => value,
    }
}

pub open spec fn spec_record_type_text(t: RecordType) -> Seq<char> {
    match t {
        RecordType::A => seq!['A'],
        RecordType::Ns => seq!['N', 'S'],
        RecordType::Cname => seq!['C', 'N', 'A', 'M', 'E'],
        RecordType::Mx => seq!['M', 'X'],
        RecordType::Txt => seq!['T', 'X', 'T'],
        RecordType::Aaaa => seq!['A', 'A', 'A', 'A'],
        RecordType::Unknown(value) => dec_str(value as int),
    }
}

/// The record type named by text, if any.
pub open spec fn spec_record_type_from_text(s: Seq<char>) -> Option<RecordType> {
    if s == seq!['A'] {
        Some(RecordType::A)
    } else if s == seq!['N', 'S'] {
        Some(RecordType::Ns)
    } else if s == seq!['C', 'N', 'A', 'M', 'E'] {
        Some(RecordType::Cname)
    } else if s == seq!['M', 'X'] {
        Some(RecordType::Mx)
    } else if s == seq!['T', 'X', 'T'] {
        Some(RecordType::Txt)
    } else if s == seq!['A', 'A', 'A', 'A'] {
        Some(RecordType::Aaaa)
    } else {
        None
    }
}

impl RecordType {
    pub fn from_u16(value: u16) -> (r: RecordType)
        ensures
            r == spec_record_type_from_u16(value),
    {
        match value {
            1 => RecordType::A,
            2 => RecordType::Ns,
            5 => RecordType::Cname,
            15 => RecordType::Mx,
            16 => RecordType::Txt,
            28 => RecordType::Aaaa,
            _ => RecordType::Unknown(value),
        }
    }

    pub fn to_u16(&self) -> (r: u16)
        ensures
            r == spec_record_type_to_u16(*self),
    {
        match self {
            RecordType::A => 1,
            RecordType::Ns => 2,
            RecordType::Cname => 5,
            RecordType::Mx => 15,
            RecordType::Txt => 16,
            RecordType::Aaaa => 28,
            RecordType::Unknown(value) => *value,
        }
    }

    /// Parses the textual record type mnemonic.
    pub fn parse_record_type(s: &str) -> (r: Result<RecordType, RecordTypeFromStrErr>)
        ensures
            match spec_record_type_from_text(s@) {
                Some(t) => r == Ok::<RecordType, RecordTypeFromStrErr>(t),
                None => r == Err::<RecordType, RecordTypeFromStrErr>(RecordTypeFromStrErr::Invalid),
            },
    {
        proof {
            reveal_strlit("A");
            reveal_strlit("NS");
            reveal_strlit("CNAME");
            reveal_strlit("MX");
            reveal_strlit("TXT");
            reveal_strlit("AAAA");
            assert("A"@ =~= seq!['A']);
            assert("NS"@ =~= seq!['N', 'S']);
            assert("CNAME"@ =~= seq!['C', 'N', 'A', 'M', 'E']);
            assert("MX"@ =~= seq!['M', 'X']);
            assert("TXT"@ =~= seq!['T', 'X', 'T']);
            assert("AAAA"@ =~= seq!['A', 'A', 'A', 'A']);
        }
        if str_eq(s, "A") {
            Ok(RecordType::A)
        } else if str_eq(s, "NS") {
            Ok(RecordType::Ns)
        } else if str_eq(s, "CNAME") {
            Ok(RecordType::Cname)
        } else if str_eq(s, "MX") {
            Ok(RecordType::Mx)
        } else if str_eq(s, "TXT") {
            Ok(RecordType::Txt)
        } else if str_eq(s, "AAAA") {
            Ok(RecordType::Aaaa)
        } else {
            Err(RecordTypeFromStrErr::Invalid)
        }
    }

    pub fn to_string(&self) -> (r: String)
        ensures
            r@ == spec_record_type_text(*self),
    {
        match self {
            RecordType::A => {
                let s = String::from_str("A");
                proof {
                    reveal_strlit("A");
                    assert(s@ =~= seq!['A']);
                }
                s
            },
            RecordType::Ns => {
                let s = String::from_str("NS");
                proof {
                    reveal_strlit("NS");
                    assert(s@ =~= seq!['N', 'S']);
                }
                s
            },
            RecordType::Cname => {
                let s = String::from_str("CNAME");
                proof {
                    reveal_strlit("CNAME");
                    assert(s@ =~= seq!['C', 'N', 'A', 'M', 'E']);
                }
                s
            },
            RecordType::Mx => {
                let s = String::from_str("MX");
                proof {
                    reveal_strlit("MX");
                    assert(s@ =~= seq!['M', 'X']);
                }
                s
            },
            RecordType::Txt => {
                let s = String::from_str("TXT");
                proof {
                    reveal_strlit("TXT");
                    assert(s@ =~= seq!['T', 'X', 'T']);
                }
                s
            },
            RecordType::Aaaa => {
                let s = String::from_str("AAAA");
                proof {
                    reveal_strlit("AAAA");
                    assert(s@ =~= seq!['A', 'A', 'A', 'A']);
                }
                s
            },
            RecordType::Unknown(value) => u32_dec_string(*value as u32),
        }
    }
}

impl From<u16> for RecordType {
    fn from(value: u16) -> RecordType {
        RecordType::from_u16(value)
    }
}

impl vstd::std_specs::convert::FromSpecImpl<u16> for RecordType {
    open spec fn obeys_from_spec() -> bool {
        true
    }

    open spec fn from_spec(v: u16) -> RecordType {
        spec_record_type_from_u16(v)
    }
}

impl From<RecordType> for u16 {
    fn from(value: RecordType) -> u16 {
        value.to_u16()
    }
}

impl vstd::std_specs::convert::FromSpecImpl<RecordType> for u16 {
    open spec fn obeys_from_spec() -> bool {
        true
    }

    open spec fn from_spec(v: RecordType) -> u16 {
        spec_record_type_to_u16(v)
    }
}

impl core::str::FromStr for RecordType {
    type Err = RecordTypeFromStrErr;

    fn from_str(s: &str) -> Result<RecordType, RecordTypeFromStrErr> {
        RecordType::parse_record_type(s)
    }
}

} // verus!
