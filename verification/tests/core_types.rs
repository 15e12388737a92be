use dns_nostr::class::Class;
use dns_nostr::data::{AData, AaaaData, CnameData, MxData, NsData, TxtData};
use dns_nostr::ip::{Ipv4Address, Ipv6Address};
use dns_nostr::label::{Label, LabelFromStrErr};
use dns_nostr::name::{FromStrErr, Name, NameErr};
use dns_nostr::query_class::QueryClass;
use dns_nostr::query_type::QueryType;
use dns_nostr::record_type::RecordType;
use std::str::FromStr;

#[test]
fn test_class_from_u16() {
    assert_eq!(Class::from(0), Class::Unknown(0));
    assert_eq!(Class::from(1), Class::In);
    assert_eq!(Class::from(2), Class::Unknown(2));
}

#[test]
fn test_class_into_u16() {
    assert_eq!(u16::from(Class::Unknown(0)), 0);
    assert_eq!(u16::from(Class::In), 1);
    assert_eq!(u16::from(Class::Unknown(2)), 2);
}

#[test]
fn test_class_from_str() {
    assert_eq!("IN".parse::<Class>(), Ok(Class::In));
    assert_eq!("INVALID".parse::<Class>(), Err(()));
}

#[test]
fn test_class_to_string() {
    assert_eq!(Class::In.to_string(), "IN");
    assert_eq!(Class::Unknown(0).to_string(), "0");
}

#[test]
fn test_type_from_u16() {
    assert_eq!(RecordType::from(0), RecordType::Unknown(0));
    assert_eq!(RecordType::from(1), RecordType::A);
    assert_eq!(RecordType::from(2), RecordType::Ns);
    assert_eq!(RecordType::from(5), RecordType::Cname);
    assert_eq!(RecordType::from(15), RecordType::Mx);
    assert_eq!(RecordType::from(16), RecordType::Txt);
    assert_eq!(RecordType::from(28), RecordType::Aaaa);
}

#[test]
fn test_type_into_u16() {
    assert_eq!(u16::from(RecordType::Unknown(0)), 0);
    assert_eq!(u16::from(RecordType::A), 1);
    assert_eq!(u16::from(RecordType::Ns), 2);
    assert_eq!(u16::from(RecordType::Cname), 5);
    assert_eq!(u16::from(RecordType::Mx), 15);
    assert_eq!(u16::from(RecordType::Txt), 16);
    assert_eq!(u16::from(RecordType::Aaaa), 28);
}

#[test]
fn test_type_from_str() {
    assert_eq!(RecordType::from_str("A").unwrap(), RecordType::A);
    assert_eq!(RecordType::from_str("NS").unwrap(), RecordType::Ns);
    assert_eq!(RecordType::from_str("CNAME").unwrap(), RecordType::Cname);
    assert_eq!(RecordType::from_str("MX").unwrap(), RecordType::Mx);
    assert_eq!(RecordType::from_str("TXT").unwrap(), RecordType::Txt);
    assert_eq!(RecordType::from_str("AAAA").unwrap(), RecordType::Aaaa);
    assert!(RecordType::from_str("INVALID").is_err());
}

#[test]
fn test_type_to_string() {
    assert_eq!(RecordType::A.to_string(), "A");
    assert_eq!(RecordType::Ns.to_string(), "NS");
    assert_eq!(RecordType::Cname.to_string(), "CNAME");
    assert_eq!(RecordType::Mx.to_string(), "MX");
    assert_eq!(RecordType::Txt.to_string(), "TXT");
    assert_eq!(RecordType::Aaaa.to_string(), "AAAA");
    assert_eq!(RecordType::Unknown(100).to_string(), "100");
}

#[test]
fn test_from_u16() {
    assert_eq!(QueryClass::from(1), QueryClass::Class(Class::In));
    assert_eq!(QueryClass::from(255), QueryClass::Any);
}

#[test]
fn test_into_u16() {
    assert_eq!(u16::from(QueryClass::Class(Class::In)), 1);
    assert_eq!(u16::from(QueryClass::Any), 255);
}

#[test]
fn query_class_test_matches() {
    assert!(QueryClass::Class(Class::In).matches(Class::In));
    assert!(!QueryClass::Class(Class::In).matches(Class::Unknown(0)));
    assert!(QueryClass::Any.matches(Class::In));
    assert!(QueryClass::Any.matches(Class::Unknown(0)));
}

#[test]
fn query_class_test_from_str() {
    // invalid
    assert!(QueryClass::from_str("INVALID").is_err());

    // valid
    assert_eq!(QueryClass::from_str("IN").unwrap(), QueryClass::Class(Class::In));
    assert_eq!(QueryClass::from_str("*").unwrap(), QueryClass::Any);
}

#[test]
fn query_class_test_to_string() {
    assert_eq!(QueryClass::Class(Class::In).to_string(), "IN");
    assert_eq!(QueryClass::Any.to_string(), "*");
}

#[test]
fn query_type_test_matches() {
    assert!(QueryType::Any.matches(RecordType::A));
    assert!(QueryType::Type(RecordType::A).matches(RecordType::A));
    assert!(!QueryType::Type(RecordType::A).matches(RecordType::Unknown(100)));
    assert!(!QueryType::Axfr.matches(RecordType::A));
    assert!(!QueryType::MailB.matches(RecordType::A));
    assert!(!QueryType::MailA.matches(RecordType::A));
}

#[test]
fn query_type_test_from_str() {
    assert_eq!(QueryType::from_str("AXFR").unwrap(), QueryType::Axfr);
    assert_eq!(QueryType::from_str("MAILB").unwrap(), QueryType::MailB);
    assert_eq!(QueryType::from_str("MAILA").unwrap(), QueryType::MailA);
    assert_eq!(QueryType::from_str("ANY").unwrap(), QueryType::Any);

    assert_eq!(QueryType::from_str("A").unwrap(), QueryType::Type(RecordType::A));
    assert_eq!(QueryType::from_str("AAAA").unwrap(), QueryType::Type(RecordType::Aaaa));
    assert_eq!(QueryType::from_str("CNAME").unwrap(), QueryType::Type(RecordType::Cname));
    assert_eq!(QueryType::from_str("MX").unwrap(), QueryType::Type(RecordType::Mx));
    assert_eq!(QueryType::from_str("NS").unwrap(), QueryType::Type(RecordType::Ns));
    assert_eq!(QueryType::from_str("TXT").unwrap(), QueryType::Type(RecordType::Txt));
}

#[test]
fn query_type_test_to_string() {
    assert_eq!(QueryType::Axfr.to_string(), "AXFR");
    assert_eq!(QueryType::MailB.to_string(), "MAILB");
    assert_eq!(QueryType::MailA.to_string(), "MAILA");
    assert_eq!(QueryType::Any.to_string(), "ANY");

    assert_eq!(QueryType::Type(RecordType::A).to_string(), "A");
    assert_eq!(QueryType::Type(RecordType::Aaaa).to_string(), "AAAA");
    assert_eq!(QueryType::Type(RecordType::Cname).to_string(), "CNAME");
    assert_eq!(QueryType::Type(RecordType::Mx).to_string(), "MX");
    assert_eq!(QueryType::Type(RecordType::Ns).to_string(), "NS");
    assert_eq!(QueryType::Type(RecordType::Txt).to_string(), "TXT");
}

#[test]
fn test_label_from_str() {
    // The null label is a valid label
    let label: Label = "".parse().unwrap();
    assert_eq!(label.to_string(), "");

    // whitespaces in label is invalid
    let label: Result<Label, LabelFromStrErr> = "example ".parse();
    assert!(label.is_err());

    // "example" is a valid label
    let label: Label = "example".parse().unwrap();
    assert_eq!(label.to_string(), "example");

    // a label with 64 characters is invalid
    let label: Result<Label, LabelFromStrErr> =
        "a-64-character-long-label----------------------------is-too-long".parse();
    assert!(label.is_err());
}

#[test]
fn test_is_null() {
    let label: Label = "".parse().unwrap();
    assert_eq!(label.is_null(), true);

    let label: Label = "example".parse().unwrap();
    assert_eq!(label.is_null(), false);

    let label: Label = Label::null();
    assert_eq!(label.is_null(), true);
}

#[test]
fn test_eq() {
    let label1: Label = "".parse().unwrap();
    let label2: Label = "".parse().unwrap();
    assert_eq!(label1, label2);

    let label1: Label = "example".parse().unwrap();
    let label2: Label = "example".parse().unwrap();
    assert_eq!(label1, label2);

    let label1: Label = "EXAMPLE".parse().unwrap();
    let label2: Label = "example".parse().unwrap();
    assert_eq!(label1, label2);

    let label1: Label = "".parse().unwrap();
    let label2: Label = "example".parse().unwrap();
    assert_ne!(label1, label2);
}

#[test]
fn test_create() {
    // empty domain name is the root domain name
    let name: Result<Name, NameErr> = Name::create(vec![]);
    assert!(name.is_ok());

    // domain name with a single null label is invalid
    let name = Name::create(vec![Label::null()]);
    assert_eq!(name.unwrap_err(), NameErr::EmptyLabel);

    // domain name with a single non-null label is valid
    let name = Name::create(vec!["example".parse().unwrap()]);
    assert!(name.is_ok());

    // domain name with a single non-null label followed by a null label is invalid
    let name = Name::create(vec!["example".parse().unwrap(), Label::null()]);
    assert_eq!(name.unwrap_err(), NameErr::EmptyLabel);

    // domain name with a null label in the middle is invalid
    let name: Result<Name, NameErr> = Name::create(vec![
        "example".parse().unwrap(),
        Label::null(),
        "com".parse().unwrap(),
    ]);
    assert_eq!(name.unwrap_err(), NameErr::EmptyLabel);

    // domain name with a null label at the start is invalid
    let name: Result<Name, NameErr> = Name::create(vec![
        Label::null(),
        "example".parse().unwrap(),
        "com".parse().unwrap(),
    ]);
    assert_eq!(name.unwrap_err(), NameErr::EmptyLabel);

    // domain with 256 characters long is invalid
    let a_50_character_long_name = "a-50-character-long--------------------------label"
        .parse::<Label>()
        .unwrap();
    assert_eq!(a_50_character_long_name.to_string().len(), 50);
    let len_256_name = Name::create(vec![
        a_50_character_long_name.clone(),
        a_50_character_long_name.clone(),
        a_50_character_long_name.clone(),
        a_50_character_long_name.clone(),
        a_50_character_long_name.clone(),
    ]);
    assert_eq!(len_256_name.unwrap_err(), NameErr::LenLimit);
}

#[test]
fn test_domain_from_str() {
    // "" is a valid domain name
    let domain: Name = "".parse().unwrap();
    assert_eq!(domain.to_string(), ".");

    // "." is a valid domain name
    let domain: Name = ".".parse().unwrap();
    assert_eq!(domain.to_string(), ".");

    // "example" is a valid domain name
    let domain: Name = "example".parse().unwrap();
    assert_eq!(domain.to_string(), "example.");

    // "example." is a valid domain name
    let domain: Name = "example.".parse().unwrap();
    assert_eq!(domain.to_string(), "example.");

    // "example.com" is a valid domain name
    let domain: Name = "example.com".parse().unwrap();
    assert_eq!(domain.to_string(), "example.com.");

    // "example.com." is a valid domain name
    let domain: Name = "example.com.".parse().unwrap();
    assert_eq!(domain.to_string(), "example.com.");

    // domains with more than 63 characters in a label are invalid
    let domain: Result<Name, FromStrErr> =
        "a-64-character-long-label----------------------------is-too-long".parse();
    assert_eq!(
        domain.unwrap_err(),
        FromStrErr::LabelFromStrErr(LabelFromStrErr::LenLimit)
    );
}

#[test]
fn test_is_root() {
    // "" should be a root domain name
    let name: Name = "".parse().unwrap();
    assert_eq!(name.to_string(), ".");
    assert!(name.is_root());

    // "." should be a root domain name
    let name: Name = ".".parse().unwrap();
    assert_eq!(name.to_string(), ".");
    assert!(name.is_root());

    // the root constructor gives the same name
    let name = Name::root();
    assert_eq!(name.to_string(), ".");
    assert!(name.is_root());
}

#[test]
fn test_is_subdomain() {
    // "." is not subdomain of itself
    let subdomain = ".".parse::<Name>().unwrap();
    let domain = ".".parse::<Name>().unwrap();
    assert!(!subdomain.is_subdomain(&domain));

    // "example." is subdomain of "."
    let subdomain = "example.".parse::<Name>().unwrap();
    let domain = ".".parse::<Name>().unwrap();
    assert!(subdomain.is_subdomain(&domain));

    // "." is not subdomain of "example."
    let subdomain = ".".parse::<Name>().unwrap();
    let domain = "example.".parse::<Name>().unwrap();
    assert!(!subdomain.is_subdomain(&domain));

    // "example.com." is subdomain of "com."
    let subdomain = "example.com.".parse::<Name>().unwrap();
    let domain = "com.".parse::<Name>().unwrap();
    assert!(subdomain.is_subdomain(&domain));

    // "com." is not subdomain of "example.com."
    let subdomain = "com.".parse::<Name>().unwrap();
    let domain = "example.com.".parse::<Name>().unwrap();
    assert!(!subdomain.is_subdomain(&domain));

    // "example." is not subdomain of "com."
    let subdomain = "example.".parse::<Name>().unwrap();
    let domain = "com.".parse::<Name>().unwrap();
    assert!(!subdomain.is_subdomain(&domain));
}

#[test]
fn a_data_test_from_str() {
    // invalid address
    let data: Result<AData, _> = "127.0.0.256".parse();
    assert!(data.is_err());

    // valid address
    let data: AData = "127.0.0.1".parse().unwrap();
    assert_eq!(data.address(), Ipv4Address::new(127, 0, 0, 1));
}

#[test]
fn a_data_test_to_string() {
    let data = AData::new(Ipv4Address::new(127, 0, 0, 1));
    assert_eq!(data.to_string(), "127.0.0.1");
}

#[test]
fn aaaa_data_test_from_str() {
    // invalid address
    let data: Result<AaaaData, _> = "127.0.0.256".parse();
    assert!(data.is_err());

    // valid address
    let data: AaaaData = "2001:0db8:85a3:0000:0000:8a2e:0370:7334".parse().unwrap();
    assert_eq!(
        data.address(),
        Ipv6Address::new(0x2001, 0x0db8, 0x85a3, 0x0000, 0x0000, 0x8a2e, 0x0370, 0x7334)
    );
}

#[test]
fn aaaa_data_test_to_string() {
    let data = AaaaData::new(Ipv6Address::new(
        0x2001, 0x0db8, 0x85a3, 0x0000, 0x0000, 0x8a2e, 0x0370, 0x7334,
    ));
    assert_eq!(data.to_string(), "2001:db8:85a3::8a2e:370:7334");
}

#[test]
fn cname_data_test_from_str() {
    // invalid address
    let data: Result<CnameData, _> = "example .com.".parse();
    assert!(data.is_err());

    // valid address
    let data: CnameData = "example.com.".parse().unwrap();
    assert_eq!(data.cname(), &"example.com.".parse::<Name>().unwrap());
}

#[test]
fn cname_data_test_to_string() {
    let data = CnameData::new("example.com.".parse().unwrap());
    assert_eq!(data.to_string(), "example.com.");
}

#[test]
fn mx_data_test_from_str() {
    // invalid exchange
    let data: Result<MxData, _> = "0 example .com.".parse();
    assert!(data.is_err());

    // invalid preference
    let data: Result<MxData, _> = "preference example.com.".parse();
    assert!(data.is_err());

    // valid mx data
    let data: MxData = "0 example.com.".parse().unwrap();
    assert_eq!(data.preference(), 0);
    assert_eq!(data.exchange(), &"example.com.".parse::<Name>().unwrap());
}

#[test]
fn mx_data_test_to_string() {
    let data = MxData::new(0, "example.com.".parse().unwrap());
    assert_eq!(data.to_string(), "0 example.com.");
}

#[test]
fn ns_data_test_from_str() {
    // invalid address
    let data: Result<NsData, _> = "example .com.".parse();
    assert!(data.is_err());

    // valid address
    let data: NsData = "example.com.".parse().unwrap();
    assert_eq!(data.name_server(), &"example.com.".parse::<Name>().unwrap());
}

#[test]
fn ns_data_test_to_string() {
    let data = NsData::new("example.com.".parse().unwrap());
    assert_eq!(data.to_string(), "example.com.");
}

#[test]
fn txt_data_test_from_str() {
    // valid address
    let data: TxtData = "\"abc 123\"".parse().unwrap();
    assert_eq!(data.text(), "abc 123");
}

#[test]
fn txt_data_test_to_string() {
    let data = TxtData::new("abc 123".to_string());
    assert_eq!(data.to_string(), "\"abc 123\"");
}
