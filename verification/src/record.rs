use vstd::prelude::*;
use vstd::string::StringExecFns;

use crate::ascii::{
    dec_str, find_char, find_char_exec, spec_parse_u32, str_to_chars, string_from_chars,
    subrange_chars, u32_dec_string,
};
use crate::class::{spec_class_text, Class};
use crate::data::{
    spec_parse_txt, AData, AaaaData, CnameData, Data, MxData, NsData, SpecData, TxtData,
    spec_data_record_type,
};
use crate::ip::{spec_ipv4_text, spec_ipv6_text, spec_parse_ipv4, spec_parse_ipv6, Ipv4Address,
    Ipv6Address};
use crate::name::{spec_from_str_relative, spec_name_text, FromStrErr, Name};
use crate::record_type::{
    spec_record_type_from_text, spec_record_type_text, RecordType, RecordTypeFromStrErr,
};

verus! {

/// Time-to-live of a record, in seconds.
pub type Ttl = u32;

/// A resource record.
#[derive(Debug)]
pub struct Record {
    name: Name,
    class: Class,
    ttl: Ttl,
    data: Data,
}

/// The mathematical model of a resource record.
pub struct SpecRecord {
    pub name: Seq<Seq<char>>,
    pub class: Class,
    pub ttl: u32,
    pub data: SpecData,
}

impl View for Record {
    type V = SpecRecord;

    closed spec fn view(&self) -> SpecRecord {
        SpecRecord { name: self.name@, class: self.class, ttl: self.ttl, data: self.data@ }
    }
}

impl DeepView for Record {
    type V = SpecRecord;

    open spec fn deep_view(&self) -> SpecRecord {
        self.view()
    }
}

#[derive(Debug, Clone, Copy, PartialEq, Eq, Structural)]
pub enum RecordFromStrErr {
    Invalid,
    NameErr(FromStrErr),
    TtlErr,
    ClassErr,
    RecordTypeErr(RecordTypeFromStrErr),
    ADataErr,
    NsDataErr(FromStrErr),
    CnameDataErr(FromStrErr),
    AaaaDataErr,
    MxDataErr(crate::data::MxDataFromStrErr),
    TxtDataErr,
}

/// What parsing record data of a given type yields; names are resolved
/// against `origin`.
pub open spec fn spec_parse_rdata(
    record_type: RecordType,
    text: Seq<char>,
    origin: Seq<Seq<char>>,
) -> Result<SpecData, RecordFromStrErr> {
    match record_type {
        RecordType::A => match spec_parse_ipv4(text) {
            Some(a) => Ok(SpecData::A(a)),
            None => Err(RecordFromStrErr::ADataErr),
        },
        RecordType::Ns => match spec_from_str_relative(text, origin) {
            Ok(n) => Ok(SpecData::Ns(n)),
            Err(e) => Err(RecordFromStrErr::NsDataErr(e)),
        },
        RecordType::Cname => match spec_from_str_relative(text, origin) {
            Ok(n) => Ok(SpecData::Cname(n)),
            Err(e) => Err(RecordFromStrErr::CnameDataErr(e)),
        },
        RecordType::Aaaa => match spec_parse_ipv6(text) {
            Some(a) => Ok(SpecData::Aaaa(a)),
            None => Err(RecordFromStrErr::AaaaDataErr),
        },
        RecordType::Mx => match crate::data::spec_parse_mx(text, origin) {
            Ok(m) => Ok(SpecData::Mx(m)),
            Err(e) => Err(RecordFromStrErr::MxDataErr(e)),
        },
        RecordType::Txt => match spec_parse_txt(text) {
            Ok(t) => Ok(SpecData::Txt(t)),
            Err(_) => Err(RecordFromStrErr::TxtDataErr),
        },
        RecordType::Unknown(_) => Err(RecordFromStrErr::Invalid),
    }
}

/// What parsing a textual record yields: "name ttl class type rdata", each
/// field split off at a single space, names resolved against `origin`.
pub open spec fn spec_parse_record(s: Seq<char>, origin: Seq<Seq<char>>) -> Result<
    SpecRecord,
    RecordFromStrErr,
> {
    match find_char(s, ' ', 0) {
        None => Err(RecordFromStrErr::Invalid),
        Some(p1) => {
            let name_text = s.take(p1);
            let rest1 = s.skip(p1 + 1);
            match find_char(rest1, ' ', 0) {
                None => Err(RecordFromStrErr::Invalid),
                Some(p2) => {
                    let ttl_text = rest1.take(p2);
                    let rest2 = rest1.skip(p2 + 1);
                    match find_char(rest2, ' ', 0) {
                        None => Err(RecordFromStrErr::Invalid),
                        Some(p3) => {
                            let class_text = rest2.take(p3);
                            let rest3 = rest2.skip(p3 + 1);
                            match find_char(rest3, ' ', 0) {
                                None => Err(RecordFromStrErr::Invalid),
                                Some(p4) => {
                                    let type_text = rest3.take(p4);
                                    let data_text = rest3.skip(p4 + 1);
                                    spec_parse_record_fields(
                                        name_text,
                                        ttl_text,
                                        class_text,
                                        type_text,
                                        data_text,
                                        origin,
                                    )
                                },
                            }
                        },
                    }
                },
            }
        },
    }
}

pub open spec fn spec_parse_record_fields(
    name_text: Seq<char>,
    ttl_text: Seq<char>,
    class_text: Seq<char>,
    type_text: Seq<char>,
    data_text: Seq<char>,
    origin: Seq<Seq<char>>,
) -> Result<SpecRecord, RecordFromStrErr> {
    match spec_from_str_relative(name_text, origin) {
        Err(e) => Err(RecordFromStrErr::NameErr(e)),
        Ok(name) => match spec_parse_u32(ttl_text) {
            None => Err(RecordFromStrErr::TtlErr),
            Some(ttl) => if class_text != seq!['I', 'N'] {
                Err(RecordFromStrErr::ClassErr)
            } else {
                match spec_record_type_from_text(type_text) {
                    None => Err(RecordFromStrErr::RecordTypeErr(RecordTypeFromStrErr::Invalid)),
                    Some(t) => match spec_parse_rdata(t, data_text, origin) {
                        Err(e) => Err(e),
                        Ok(data) => Ok(SpecRecord { name, class: Class::In, ttl, data }),
                    },
                }
            },
        },
    }
}

/// The textual form of record data.
pub open spec fn spec_data_text(d: SpecData) -> Seq<char> {
    match d {
        SpecData::A(a) => spec_ipv4_text(a),
        SpecData::Ns(n) => spec_name_text(n),
        SpecData::Cname(n) => spec_name_text(n),
        SpecData::Aaaa(a) => spec_ipv6_text(a),
        SpecData::Mx(m) => dec_str(m.preference as int) + seq![' '] + spec_name_text(m.exchange),
        SpecData::Txt(t) => seq!['"'] + t + seq!['"'],
        SpecData::Unknown(_, bytes) => bytes.map_values(
            |b: u8|
                if b < 128 {
                    b as char
                } else {
                    '?'
                },
        ),
    }
}

/// The textual form of a record: "name ttl class type rdata".
pub open spec fn spec_record_text(r: SpecRecord) -> Seq<char> {
    spec_name_text(r.name) + seq![' '] + dec_str(r.ttl as int) + seq![' '] + spec_class_text(
        r.class,
    ) + seq![' '] + spec_record_type_text(spec_data_record_type(r.data)) + seq![' ']
        + spec_data_text(r.data)
}

impl Record {
    pub fn new(name: Name, class: Class, ttl: u32, data: Data) -> (r: Record)
        ensures
            r@.name == name@,
            r@.class == class,
            r@.ttl == ttl,
            r@.data == data@,
    {
        Record { name, class, ttl, data }
    }

    /// The type of the record, given by its data.
    pub fn record_type(&self) -> (r: RecordType)
        ensures
            r == spec_data_record_type(self@.data),
    {
        self.data.record_type()
    }

    pub fn name(&self) -> (r: &Name)
        ensures
            r@ == self@.name,
    {
        &self.name
    }

    pub fn class(&self) -> (r: Class)
        ensures
            r == self@.class,
    {
        self.class
    }

    pub fn ttl(&self) -> (r: Ttl)
        ensures
            r == self@.ttl,
    {
        self.ttl
    }

    pub fn data(&self) -> (r: &Data)
        ensures
            r@ == self@.data,
    {
        &self.data
    }

    /// Parses "name ttl class type rdata" with names resolved against
    /// `origin`.
    pub fn from_str_relative(s: &str, origin: &Name) -> (r: Result<Record, RecordFromStrErr>)
        ensures
            match r {
                Ok(rec) => spec_parse_record(s@, origin@) == Ok::<SpecRecord, RecordFromStrErr>(
                    rec@,
                ),
                Err(e) => spec_parse_record(s@, origin@) == Err::<SpecRecord, RecordFromStrErr>(e),
            },
    {
        let chars = str_to_chars(s);
        Record::parse_record_chars(&chars, origin)
    }

    /// As `from_str_relative`, over the characters of the text.
    pub fn parse_record_chars(chars: &Vec<char>, origin: &Name) -> (r: Result<
        Record,
        RecordFromStrErr,
    >)
        ensures
            match r {
                Ok(rec) => spec_parse_record(chars@, origin@) == Ok::<SpecRecord, RecordFromStrErr>(
                    rec@,
                ),
                Err(e) => spec_parse_record(chars@, origin@) == Err::<SpecRecord, RecordFromStrErr>(
                    e,
                ),
            },
    {
        let n = chars.len();
        let p1 = match find_char_exec(chars, 0, ' ') {
            None => {
                return Err(RecordFromStrErr::Invalid);
            },
            Some(p) => p,
        };
        let name_text = subrange_chars(chars, 0, p1);
        let rest1 = subrange_chars(chars, p1 + 1, n);
        proof {
            assert(name_text@ =~= chars@.take(p1 as int));
            assert(rest1@ =~= chars@.skip(p1 + 1));
        }
        let p2 = match find_char_exec(&rest1, 0, ' ') {
            None => {
                return Err(RecordFromStrErr::Invalid);
            },
            Some(p) => p,
        };
        let ttl_text = subrange_chars(&rest1, 0, p2);
        let rest2 = subrange_chars(&rest1, p2 + 1, rest1.len());
        proof {
            assert(ttl_text@ =~= rest1@.take(p2 as int));
            assert(rest2@ =~= rest1@.skip(p2 + 1));
        }
        let p3 = match find_char_exec(&rest2, 0, ' ') {
            None => {
                return Err(RecordFromStrErr::Invalid);
            },
            Some(p) => p,
        };
        let class_text = subrange_chars(&rest2, 0, p3);
        let rest3 = subrange_chars(&rest2, p3 + 1, rest2.len());
        proof {
            assert(class_text@ =~= rest2@.take(p3 as int));
            assert(rest3@ =~= rest2@.skip(p3 + 1));
        }
        let p4 = match find_char_exec(&rest3, 0, ' ') {
            None => {
                return Err(RecordFromStrErr::Invalid);
            },
            Some(p) => p,
        };
        let type_text = subrange_chars(&rest3, 0, p4);
        let data_text = subrange_chars(&rest3, p4 + 1, rest3.len());
        proof {
            assert(type_text@ =~= rest3@.take(p4 as int));
            assert(data_text@ =~= rest3@.skip(p4 + 1));
        }
        let name_str = string_from_chars(name_text);
        let name = match Name::from_str_relative(name_str.as_str(), origin) {
            Err(e) => {
                return Err(RecordFromStrErr::NameErr(e));
            },
            Ok(nm) => nm,
        };
        let ttl = match crate::ascii::parse_u32_chars(&ttl_text) {
            None => {
                return Err(RecordFromStrErr::TtlErr);
            },
            Some(v) => v,
        };
        let class_str = string_from_chars(class_text);
        let class = match Class::parse_class(class_str.as_str()) {
            Err(_) => {
                return Err(RecordFromStrErr::ClassErr);
            },
            Ok(c) => c,
        };
        let type_str = string_from_chars(type_text);
        let record_type = match RecordType::parse_record_type(type_str.as_str()) {
            Err(e) => {
                return Err(RecordFromStrErr::RecordTypeErr(e));
            },
            Ok(t) => t,
        };
        let data_str = string_from_chars(data_text);
        let data = match Record::parse_rdata(record_type, data_str.as_str(), origin) {
            Err(e) => {
                return Err(e);
            },
            Ok(d) => d,
        };
        Ok(Record { name, class, ttl, data })
    }

    /// Parses record data of the given type, names resolved against
    /// `origin`.
    pub fn parse_rdata(record_type: RecordType, s: &str, origin: &Name) -> (r: Result<
        Data,
        RecordFromStrErr,
    >)
        ensures
            match r {
                Ok(d) => spec_parse_rdata(record_type, s@, origin@) == Ok::<
                    SpecData,
                    RecordFromStrErr,
                >(d@),
                Err(e) => spec_parse_rdata(record_type, s@, origin@) == Err::<
                    SpecData,
                    RecordFromStrErr,
                >(e),
            },
    {
        match record_type {
            RecordType::A => match AData::parse_a(s) {
                Ok(d) => Ok(Data::A(d)),
                Err(_) => Err(RecordFromStrErr::ADataErr),
            },
            RecordType::Ns => match NsData::from_str_relative(s, origin) {
                Ok(d) => Ok(Data::Ns(d)),
                Err(crate::data::NsDataFromStrErr::NameFromStrErr(e)) => Err(
                    RecordFromStrErr::NsDataErr(e),
                ),
            },
            RecordType::Cname => match CnameData::from_str_relative(s, origin) {
                Ok(d) => Ok(Data::Cname(d)),
                Err(crate::data::CnameDataFromStrErr::NameFromStrErr(e)) => Err(
                    RecordFromStrErr::CnameDataErr(e),
                ),
            },
            RecordType::Aaaa => match AaaaData::parse_aaaa(s) {
                Ok(d) => Ok(Data::Aaaa(d)),
                Err(_) => Err(RecordFromStrErr::AaaaDataErr),
            },
            RecordType::Mx => match MxData::from_str_relative(s, origin) {
                Ok(d) => Ok(Data::Mx(d)),
                Err(e) => Err(RecordFromStrErr::MxDataErr(e)),
            },
            RecordType::Txt => match TxtData::parse_txt(s) {
                Ok(d) => Ok(Data::Txt(d)),
                Err(_) => Err(RecordFromStrErr::TxtDataErr),
            },
            RecordType::Unknown(_) => Err(RecordFromStrErr::Invalid),
        }
    }

    pub fn to_string(&self) -> (r: String)
        ensures
            r@ == spec_record_text(self@),
    {
        let mut s = self.name.to_string();
        s.append(" ");
        let ttl_str = u32_dec_string(self.ttl);
        s.append(ttl_str.as_str());
        s.append(" ");
        let class_str = self.class.to_string();
        s.append(class_str.as_str());
        s.append(" ");
        let type_str = self.record_type().to_string();
        s.append(type_str.as_str());
        s.append(" ");
        let data_str = self.data_to_string();
        s.append(data_str.as_str());
        proof {
            reveal_strlit(" ");
            assert(" "@ =~= seq![' ']);
            assert(s@ =~= spec_record_text(self@));
        }
        s
    }

    /// The textual form of the record's data alone.
    pub fn data_to_string(&self) -> (r: String)
        ensures
            r@ == spec_data_text(self@.data),
    {
        match &self.data {
            Data::A(d) => d.to_string(),
            Data::Ns(d) => d.to_string(),
            Data::Cname(d) => d.to_string(),
            Data::Aaaa(d) => d.to_string(),
            Data::Mx(d) => d.to_string(),
            Data::Txt(d) => d.to_string(),
            Data::Unknown(_, bytes) => {
                let n = bytes.len();
                let mut chars: Vec<char> = Vec::new();
                let mut i: usize = 0;
                while i < n
                    invariant
                        i <= n,
                        n == bytes@.len(),
                        chars@ =~= spec_data_text(SpecData::Unknown(RecordType::A, bytes@)).take(
                            i as int,
                        ),
                    decreases n - i,
                {
                    let b = bytes[i];
                    let c: char = if b < 128 {
                        b as char
                    } else {
                        '?'
                    };
                    chars.push(c);
                    i = i + 1;
                    proof {
                        assert(chars@ =~= spec_data_text(
                            SpecData::Unknown(RecordType::A, bytes@),
                        ).take(i as int));
                    }
                }
                proof {
                    assert(chars@ =~= spec_data_text(self@.data));
                }
                string_from_chars(chars)
            },
        }
    }
}

impl Clone for Record {
    fn clone(&self) -> (r: Record)
        ensures
            r@ == self@,
    {
        Record {
            name: self.name.clone(),
            class: self.class,
            ttl: self.ttl,
            data: self.data.clone(),
        }
    }
}

impl PartialEq for Record {
    fn eq(&self, other: &Record) -> (r: bool) {
        let ne = self.name == other.name;
        let ce = self.class == other.class;
        let te = self.ttl == other.ttl;
        let de = self.data == other.data;
        ne && ce && te && de
    }
}

impl Eq for Record {

}

impl vstd::std_specs::cmp::PartialEqSpecImpl for Record {
    open spec fn obeys_eq_spec() -> bool {
        true
    }

    open spec fn eq_spec(&self, other: &Record) -> bool {
        self@ == other@
    }
}

/// Copies a record list.
pub fn clone_records(v: &Vec<Record>) -> (r: Vec<Record>)
    ensures
        r.deep_view() == v.deep_view(),
{
    let n = v.len();
    let mut out: Vec<Record> = Vec::new();
    let mut i: usize = 0;
    while i < n
        invariant
            i <= n,
            n == v@.len(),
            out@.len() == i,
            forall|j: int| 0 <= j < i ==> #[trigger] out@[j]@ == v@[j]@,
        decreases n - i,
    {
        out.push(v[i].clone());
        i = i + 1;
    }
    proof {
        assert forall|j: int| 0 <= j < n implies out.deep_view()[j] == v.deep_view()[j] by {
            assert(out.deep_view()[j] == out@[j]@);
            assert(v.deep_view()[j] == v@[j]@);
        }
        assert(out.deep_view() =~~= v.deep_view());
    }
    out
}

impl core::str::FromStr for Record {
    type Err = RecordFromStrErr;

    fn from_str(s: &str) -> Result<Record, RecordFromStrErr> {
        let root = Name::root();
        Record::from_str_relative(s, &root)
    }
}

} // verus!
