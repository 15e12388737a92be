use vstd::prelude::*;
use vstd::string::StringExecFns;

use crate::ascii::{digits_value, spec_parse_u32, str_to_chars, string_from_chars};
use crate::ip::{
    spec_ipv4_text, spec_ipv6_text, spec_parse_ipv4, spec_parse_ipv6, Ipv4Address, Ipv6Address,
};
use crate::name::{
    spec_from_str_relative, spec_name_text, spec_parse_name, FromStrErr, Name,
};
use crate::record_type::RecordType;

verus! {

/// The data carried by an address record.
#[derive(Debug)]
pub struct AData {
    address: Ipv4Address,
}

#[derive(Debug, Clone, Copy, PartialEq, Eq, Structural)]
pub enum ADataFromStrErr {
    AddrParseError,
}

impl View for AData {
    type V = Ipv4Address;

    closed spec fn view(&self) -> Ipv4Address {
        self.address
    }
}

impl AData {
    pub fn new(address: Ipv4Address) -> (r: AData)
        ensures
            r@ == address,
    {
        AData { address }
    }

    pub fn address(&self) -> (r: Ipv4Address)
        ensures
            r == self@,
    {
        self.address
    }

    /// Parses a dotted-quad address.
    pub fn parse_a(s: &str) -> (r: Result<AData, ADataFromStrErr>)
        ensures
            match spec_parse_ipv4(s@) {
                Some(a) => r matches Ok(d) && d@ == a,
                None => r == Err::<AData, ADataFromStrErr>(ADataFromStrErr::AddrParseError),
            },
    {
        let chars = str_to_chars(s);
        match Ipv4Address::parse_chars(&chars) {
            Some(a) => Ok(AData { address: a }),
            None => Err(ADataFromStrErr::AddrParseError),
        }
    }

    pub fn to_string(&self) -> (r: String)
        ensures
            r@ == spec_ipv4_text(self@),
    {
        self.address.to_string()
    }
}

impl Clone for AData {
    fn clone(&self) -> (r: AData)
        ensures
            r@ == self@,
    {
        AData { address: self.address }
    }
}

impl core::str::FromStr for AData {
    type Err = ADataFromStrErr;

    fn from_str(s: &str) -> Result<AData, ADataFromStrErr> {
        AData::parse_a(s)
    }
}

/// The data carried by an IPv6 address record.
#[derive(Debug)]
pub struct AaaaData {
    address: Ipv6Address,
}

#[derive(Debug, Clone, Copy, PartialEq, Eq, Structural)]
pub enum AaaaDataFromStrErr {
    AddrParseError,
}

impl View for AaaaData {
    type V = Ipv6Address;

    closed spec fn view(&self) -> Ipv6Address {
        self.address
    }
}

impl AaaaData {
    pub fn new(address: Ipv6Address) -> (r: AaaaData)
        ensures
            r@ == address,
    {
        AaaaData { address }
    }

    pub fn address(&self) -> (r: Ipv6Address)
        ensures
            r == self@,
    {
        self.address
    }

    /// Parses IPv6 address text.
    pub fn parse_aaaa(s: &str) -> (r: Result<AaaaData, AaaaDataFromStrErr>)
        ensures
            match spec_parse_ipv6(s@) {
                Some(a) => r matches Ok(d) && d@ == a,
                None => r == Err::<AaaaData, AaaaDataFromStrErr>(AaaaDataFromStrErr::AddrParseError),
            },
    {
        let chars = str_to_chars(s);
        match Ipv6Address::parse_chars(&chars) {
            Some(a) => Ok(AaaaData { address: a }),
            None => Err(AaaaDataFromStrErr::AddrParseError),
        }
    }

    pub fn to_string(&self) -> (r: String)
        ensures
            r@ == spec_ipv6_text(self@),
    {
        self.address.to_string()
    }
}

impl Clone for AaaaData {
    fn clone(&self) -> (r: AaaaData)
        ensures
            r@ == self@,
    {
        AaaaData { address: self.address }
    }
}

impl core::str::FromStr for AaaaData {
    type Err = AaaaDataFromStrErr;

    fn from_str(s: &str) -> Result<AaaaData, AaaaDataFromStrErr> {
        AaaaData::parse_aaaa(s)
    }
}

/// The data carried by a name server record.
#[derive(Debug)]
pub struct NsData {
    name_server: Name,
}

#[derive(Debug, Clone, Copy, PartialEq, Eq, Structural)]
pub enum NsDataFromStrErr {
    NameFromStrErr(FromStrErr),
}

impl View for NsData {
    type V = Seq<Seq<char>>;

    closed spec fn view(&self) -> Seq<Seq<char>> {
        self.name_server@
    }
}

impl NsData {
    pub fn new(name_server: Name) -> (r: NsData)
        ensures
            r@ == name_server@,
    {
        NsData { name_server }
    }

    pub fn name_server(&self) -> (r: &Name)
        ensures
            r@ == self@,
    {
        &self.name_server
    }

    pub fn parse_ns(s: &str) -> (r: Result<NsData, NsDataFromStrErr>)
        ensures
            match r {
                Ok(d) => spec_parse_name(s@) == Ok::<Seq<Seq<char>>, FromStrErr>(d@),
                Err(e) => e matches NsDataFromStrErr::NameFromStrErr(ne) && spec_parse_name(s@)
                    == Err::<Seq<Seq<char>>, FromStrErr>(ne),
            },
    {
        match Name::parse_name(s) {
            Ok(n) => Ok(NsData { name_server: n }),
            Err(e) => Err(NsDataFromStrErr::NameFromStrErr(e)),
        }
    }

    /// Parses text, resolving a name without the trailing dot against `origin`.
    pub fn from_str_relative(s: &str, origin: &Name) -> (r: Result<NsData, NsDataFromStrErr>)
        ensures
            match r {
                Ok(d) => spec_from_str_relative(s@, origin@) == Ok::<Seq<Seq<char>>, FromStrErr>(
                    d@,
                ),
                Err(e) => e matches NsDataFromStrErr::NameFromStrErr(ne) && spec_from_str_relative(
                    s@,
                    origin@,
                ) == Err::<Seq<Seq<char>>, FromStrErr>(ne),
            },
    {
        match Name::from_str_relative(s, origin) {
            Ok(n) => Ok(NsData { name_server: n }),
            Err(e) => Err(NsDataFromStrErr::NameFromStrErr(e)),
        }
    }

    pub fn to_string(&self) -> (r: String)
        ensures
            r@ == spec_name_text(self@),
    {
        self.name_server.to_string()
    }
}

impl Clone for NsData {
    fn clone(&self) -> (r: NsData)
        ensures
            r@ == self@,
    {
        NsData { name_server: self.name_server.clone() }
    }
}

impl core::str::FromStr for NsData {
    type Err = NsDataFromStrErr;

    fn from_str(s: &str) -> Result<NsData, NsDataFromStrErr> {
        NsData::parse_ns(s)
    }
}

/// The data carried by a canonical name record.
#[derive(Debug)]
pub struct CnameData {
    cname: Name,
}

#[derive(Debug, Clone, Copy, PartialEq, Eq, Structural)]
pub enum CnameDataFromStrErr {
    NameFromStrErr(FromStrErr),
}

impl View for CnameData {
    type V = Seq<Seq<char>>;

    closed spec fn view(&self) -> Seq<Seq<char>> {
        self.cname@
    }
}

impl CnameData {
    pub fn new(name: Name) -> (r: CnameData)
        ensures
            r@ == name@,
    {
        CnameData { cname: name }
    }

    pub fn cname(&self) -> (r: &Name)
        ensures
            r@ == self@,
    {
        &self.cname
    }

    pub fn parse_cname(s: &str) -> (r: Result<CnameData, CnameDataFromStrErr>)
        ensures
            match r {
                Ok(d) => spec_parse_name(s@) == Ok::<Seq<Seq<char>>, FromStrErr>(d@),
                Err(e) => e matches CnameDataFromStrErr::NameFromStrErr(ne) && spec_parse_name(s@)
                    == Err::<Seq<Seq<char>>, FromStrErr>(ne),
            },
    {
        match Name::parse_name(s) {
            Ok(n) => Ok(CnameData { cname: n }),
            Err(e) => Err(CnameDataFromStrErr::NameFromStrErr(e)),
        }
    }

    /// Parses text, resolving a name without the trailing dot against `origin`.
    pub fn from_str_relative(s: &str, origin: &Name) -> (r: Result<CnameData, CnameDataFromStrErr>)
        ensures
            match r {
                Ok(d) => spec_from_str_relative(s@, origin@) == Ok::<Seq<Seq<char>>, FromStrErr>(
                    d@,
                ),
                Err(e) => e matches CnameDataFromStrErr::NameFromStrErr(ne)
                    && spec_from_str_relative(s@, origin@) == Err::<Seq<Seq<char>>, FromStrErr>(ne),
            },
    {
        match Name::from_str_relative(s, origin) {
            Ok(n) => Ok(CnameData { cname: n }),
            Err(e) => Err(CnameDataFromStrErr::NameFromStrErr(e)),
        }
    }

    pub fn to_string(&self) -> (r: String)
        ensures
            r@ == spec_name_text(self@),
    {
        self.cname.to_string()
    }
}

impl Clone for CnameData {
    fn clone(&self) -> (r: CnameData)
        ensures
            r@ == self@,
    {
        CnameData { cname: self.cname.clone() }
    }
}

impl core::str::FromStr for CnameData {
    type Err = CnameDataFromStrErr;

    fn from_str(s: &str) -> Result<CnameData, CnameDataFromStrErr> {
        CnameData::parse_cname(s)
    }
}

/// The view of mail exchange data: the preference and the exchange name.
pub struct MxDataV {
    pub preference: u16,
    pub exchange: Seq<Seq<char>>,
}

/// The data carried by a mail exchange record.
#[derive(Debug)]
pub struct MxData {
    /// A 16 bit integer which specifies the preference given to this RR
    /// among others at the same owner. Lower values are preferred.
    preference: u16,
    /// A domain name which specifies a host willing to act as a mail
    /// exchange for the owner name.
    exchange: Name,
}

#[derive(Debug, Clone, Copy, PartialEq, Eq, Structural)]
pub enum MxDataFromStrErr {
    InvalidFormat,
    PreferenceFromStrErr,
    ExchangeFromStrErr(FromStrErr),
}

impl View for MxData {
    type V = MxDataV;

    closed spec fn view(&self) -> MxDataV {
        MxDataV { preference: self.preference, exchange: self.exchange@ }
    }
}

/// What parsing mail exchange text yields: a preference, one space, and an
/// exchange name resolved against the origin.
pub open spec fn spec_parse_mx(s: Seq<char>, origin: Seq<Seq<char>>) -> Result<
    MxDataV,
    MxDataFromStrErr,
> {
    match crate::ascii::find_char(s, ' ', 0) {
        None => Err(MxDataFromStrErr::InvalidFormat),
        Some(p) => {
            let pref_text = s.take(p);
            let exch_text = s.skip(p + 1);
            match spec_parse_u32(pref_text) {
                None => Err(MxDataFromStrErr::PreferenceFromStrErr),
                Some(v) => if v > 0xffff {
                    Err(MxDataFromStrErr::PreferenceFromStrErr)
                } else {
                    match spec_from_str_relative(exch_text, origin) {
                        Err(e) => Err(MxDataFromStrErr::ExchangeFromStrErr(e)),
                        Ok(x) => Ok(MxDataV { preference: v as u16, exchange: x }),
                    }
                },
            }
        },
    }
}

impl MxData {
    pub fn new(preference: u16, exchange: Name) -> (r: MxData)
        ensures
            r@.preference == preference,
            r@.exchange == exchange@,
    {
        MxData { preference, exchange }
    }

    pub fn preference(&self) -> (r: u16)
        ensures
            r == self@.preference,
    {
        self.preference
    }

    pub fn exchange(&self) -> (r: &Name)
        ensures
            r@ == self@.exchange,
    {
        &self.exchange
    }

    /// Parses "preference exchange", resolving the exchange against `origin`.
    pub fn from_str_relative(s: &str, origin: &Name) -> (r: Result<MxData, MxDataFromStrErr>)
        ensures
            match r {
                Ok(d) => spec_parse_mx(s@, origin@) == Ok::<MxDataV, MxDataFromStrErr>(d@),
                Err(e) => spec_parse_mx(s@, origin@) == Err::<MxDataV, MxDataFromStrErr>(e),
            },
    {
        let chars = str_to_chars(s);
        let p = match crate::ascii::find_char_exec(&chars, 0, ' ') {
            None => {
                return Err(MxDataFromStrErr::InvalidFormat);
            },
            Some(p) => p,
        };
        let mut pref_text: Vec<char> = Vec::new();
        let mut i: usize = 0;
        while i < p
            invariant
                i <= p < chars@.len(),
                chars@ == s@,
                pref_text@ =~= s@.take(p as int).take(i as int),
            decreases p - i,
        {
            pref_text.push(chars[i]);
            i = i + 1;
            proof {
                assert(pref_text@ =~= s@.take(p as int).take(i as int));
            }
        }
        proof {
            assert(pref_text@ =~= s@.take(p as int));
        }
        let n = chars.len();
        let mut exch_text: Vec<char> = Vec::new();
        let mut j: usize = p + 1;
        while j < n
            invariant
                p + 1 <= j <= n,
                n == chars@.len(),
                chars@ == s@,
                exch_text@ =~= s@.subrange(p + 1, j as int),
            decreases n - j,
        {
            exch_text.push(chars[j]);
            j = j + 1;
            proof {
                assert(exch_text@ =~= s@.subrange(p + 1, j as int));
            }
        }
        proof {
            assert(exch_text@ =~= s@.skip(p + 1));
        }
        let pref = match crate::ascii::parse_u32_chars(&pref_text) {
            None => {
                return Err(MxDataFromStrErr::PreferenceFromStrErr);
            },
            Some(v) => v,
        };
        if pref > 0xffff {
            return Err(MxDataFromStrErr::PreferenceFromStrErr);
        }
        let exch_str = string_from_chars(exch_text);
        match Name::from_str_relative(exch_str.as_str(), origin) {
            Err(e) => Err(MxDataFromStrErr::ExchangeFromStrErr(e)),
            Ok(x) => Ok(MxData { preference: pref as u16, exchange: x }),
        }
    }

    /// Parses "preference exchange" with an absolute exchange name.
    pub fn parse_mx(s: &str) -> (r: Result<MxData, MxDataFromStrErr>)
        ensures
            match r {
                Ok(d) => spec_parse_mx(s@, Seq::empty()) == Ok::<MxDataV, MxDataFromStrErr>(d@),
                Err(e) => spec_parse_mx(s@, Seq::empty()) == Err::<MxDataV, MxDataFromStrErr>(e),
            },
    {
        let root = Name::root();
        MxData::from_str_relative(s, &root)
    }

    pub fn to_string(&self) -> (r: String)
        ensures
            r@ == crate::ascii::dec_str(self@.preference as int) + seq![' '] + spec_name_text(
                self@.exchange,
            ),
    {
        let mut s = crate::ascii::u32_dec_string(self.preference as u32);
        s.append(" ");
        let e = self.exchange.to_string();
        s.append(e.as_str());
        proof {
            reveal_strlit(" ");
            assert(" "@ =~= seq![' ']);
            assert(s@ =~= crate::ascii::dec_str(self@.preference as int) + seq![' ']
                + spec_name_text(self@.exchange));
        }
        s
    }
}

impl Clone for MxData {
    fn clone(&self) -> (r: MxData)
        ensures
            r@.preference == self@.preference,
            r@.exchange == self@.exchange,
    {
        MxData { preference: self.preference, exchange: self.exchange.clone() }
    }
}

impl core::str::FromStr for MxData {
    type Err = MxDataFromStrErr;

    fn from_str(s: &str) -> Result<MxData, MxDataFromStrErr> {
        MxData::parse_mx(s)
    }
}

/// The data carried by a text record.
#[derive(Debug)]
pub struct TxtData {
    text: String,
}

#[derive(Debug, Clone, Copy, PartialEq, Eq, Structural)]
pub enum TxtDataFromStrErr {
    Invalid,
}

impl View for TxtData {
    type V = Seq<char>;

    closed spec fn view(&self) -> Seq<char> {
        self.text@
    }
}

/// Text accepted as TXT data: a double-quoted string; the quotes are
/// stripped.
pub open spec fn spec_parse_txt(s: Seq<char>) -> Result<Seq<char>, TxtDataFromStrErr> {
    if s.len() >= 2 && s[0] == '"' && s[s.len() - 1] == '"' {
        Ok(s.subrange(1, s.len() - 1))
    } else {
        Err(TxtDataFromStrErr::Invalid)
    }
}

impl TxtData {
    pub fn new(text: String) -> (r: TxtData)
        ensures
            r@ == text@,
    {
        TxtData { text }
    }

    pub fn text(&self) -> (r: &str)
        ensures
            r@ == self@,
    {
        self.text.as_str()
    }

    pub fn parse_txt(s: &str) -> (r: Result<TxtData, TxtDataFromStrErr>)
        ensures
            match r {
                Ok(d) => spec_parse_txt(s@) == Ok::<Seq<char>, TxtDataFromStrErr>(d@),
                Err(e) => spec_parse_txt(s@) == Err::<Seq<char>, TxtDataFromStrErr>(e),
            },
    {
        let chars = str_to_chars(s);
        let n = chars.len();
        if n < 2 || chars[0] != '"' || chars[n - 1] != '"' {
            return Err(TxtDataFromStrErr::Invalid);
        }
        let mut inner: Vec<char> = Vec::new();
        let mut i: usize = 1;
        while i < n - 1
            invariant
                1 <= i <= n - 1,
                n == chars@.len(),
                chars@ == s@,
                inner@ =~= s@.subrange(1, i as int),
            decreases n - i,
        {
            inner.push(chars[i]);
            i = i + 1;
            proof {
                assert(inner@ =~= s@.subrange(1, i as int));
            }
        }
        Ok(TxtData { text: string_from_chars(inner) })
    }

    pub fn to_string(&self) -> (r: String)
        ensures
            r@ == seq!['"'] + self@ + seq!['"'],
    {
        let mut s = String::new();
        s.append("\"");
        s.append(self.text.as_str());
        s.append("\"");
        proof {
            reveal_strlit("\"");
            assert("\""@ =~= seq!['"']);
            assert(s@ =~= seq!['"'] + self@ + seq!['"']);
        }
        s
    }
}

impl Clone for TxtData {
    fn clone(&self) -> (r: TxtData)
        ensures
            r@ == self@,
    {
        TxtData { text: self.text.clone() }
    }
}

impl core::str::FromStr for TxtData {
    type Err = TxtDataFromStrErr;

    fn from_str(s: &str) -> Result<TxtData, TxtDataFromStrErr> {
        TxtData::parse_txt(s)
    }
}

/// The resource data of a record, tagged by its type.
#[derive(Debug)]
pub enum Data {
    A(AData),
    Ns(NsData),
    Aaaa(AaaaData),
    Cname(CnameData),
    Mx(MxData),
    Txt(TxtData),
    Unknown(RecordType, Vec<u8>),
}

/// The mathematical model of resource data.
pub enum SpecData {
    A(Ipv4Address),
    Ns(Seq<Seq<char>>),
    Aaaa(Ipv6Address),
    Cname(Seq<Seq<char>>),
    Mx(MxDataV),
    Txt(Seq<char>),
    Unknown(RecordType, Seq<u8>),
}

impl View for Data {
    type V = SpecData;

    open spec fn view(&self) -> SpecData {
        match self {
            Data::A(d) => SpecData::A(d@),
            Data::Ns(d) => SpecData::Ns(d@),
            Data::Aaaa(d) => SpecData::Aaaa(d@),
            Data::Cname(d) => SpecData::Cname(d@),
            Data::Mx(d) => SpecData::Mx(d@),
            Data::Txt(d) => SpecData::Txt(d@),
            Data::Unknown(t, bytes) => SpecData::Unknown(*t, bytes@),
        }
    }
}

/// The record type that tags each kind of data.
pub open spec fn spec_data_record_type(d: SpecData) -> RecordType {
    match d {
        SpecData::A(_) => RecordType::A,
        SpecData::Ns(_) => RecordType::Ns,
        SpecData::Cname(_) => RecordType::Cname,
        SpecData::Aaaa(_) => RecordType::Aaaa,
        SpecData::Mx(_) => RecordType::Mx,
        SpecData::Txt(_) => RecordType::Txt,
        SpecData::Unknown(t, _) => t,
    }
}

impl Data {
    pub fn record_type(&self) -> (r: RecordType)
        ensures
            r == spec_data_record_type(self@),
    {
        match self {
            Data::A(_) => RecordType::A,
            Data::Ns(_) => RecordType::Ns,
            Data::Cname(_) => RecordType::Cname,
            Data::Aaaa(_) => RecordType::Aaaa,
            Data::Mx(_) => RecordType::Mx,
            Data::Txt(_) => RecordType::Txt,
            Data::Unknown(record_type, _) => *record_type,
        }
    }
}

impl Clone for Data {
    fn clone(&self) -> (r: Data)
        ensures
            r@ == self@,
    {
        match self {
            Data::A(d) => Data::A(d.clone()),
            Data::Ns(d) => Data::Ns(d.clone()),
            Data::Aaaa(d) => Data::Aaaa(d.clone()),
            Data::Cname(d) => Data::Cname(d.clone()),
            Data::Mx(d) => {
                let c = d.clone();
                proof {
                    assert(c@ == d@);
                }
                Data::Mx(c)
            },
            Data::Txt(d) => Data::Txt(d.clone()),
            Data::Unknown(t, bytes) => Data::Unknown(*t, bytes.clone()),
        }
    }
}

impl PartialEq for Data {
    fn eq(&self, other: &Data) -> (r: bool) {
        match (self, other) {
            (Data::A(a), Data::A(b)) => a.address() == b.address(),
            (Data::Ns(a), Data::Ns(b)) => a.name_server() == b.name_server(),
            (Data::Aaaa(a), Data::Aaaa(b)) => a.address() == b.address(),
            (Data::Cname(a), Data::Cname(b)) => a.cname() == b.cname(),
            (Data::Mx(a), Data::Mx(b)) => a.preference() == b.preference() && a.exchange()
                == b.exchange(),
            (Data::Txt(a), Data::Txt(b)) => {
                let r = crate::ascii::str_eq(a.text(), b.text());
                r
            },
            (Data::Unknown(ta, ba), Data::Unknown(tb, bb)) => {
                let tr = *ta == *tb;
                let br = eq_bytes(ba, bb);
                tr && br
            },
            _ => false,
        }
    }
}

impl Eq for Data {

}

impl vstd::std_specs::cmp::PartialEqSpecImpl for Data {
    open spec fn obeys_eq_spec() -> bool {
        true
    }

    open spec fn eq_spec(&self, other: &Data) -> bool {
        self@ == other@
    }
}

/// Compares two byte vectors.
pub(crate) fn eq_bytes(a: &Vec<u8>, b: &Vec<u8>) -> (r: bool)
    ensures
        r == (a@ == b@),
{
    let n = a.len();
    if n != b.len() {
        proof {
            assert(a@.len() != b@.len());
        }
        return false;
    }
    let mut i: usize = 0;
    while i < n
        invariant
            i <= n,
            n == a@.len() == b@.len(),
            forall|j: int| 0 <= j < i ==> a@[j] == b@[j],
        decreases n - i,
    {
        if a[i] != b[i] {
            proof {
                assert(a@[i as int] != b@[i as int]);
            }
            return false;
        }
        i = i + 1;
    }
    proof {
        assert(a@ =~= b@);
    }
    true
}

} // verus!
