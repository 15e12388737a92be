use dns_nostr::class::Class;
use dns_nostr::data::{Data, MxData, TxtData};
use dns_nostr::name::Name;
use dns_nostr::query_class::QueryClass;
use dns_nostr::query_type::QueryType;
use dns_nostr::question::Question;
use dns_nostr::record::Record;
use dns_nostr::record_type::RecordType;
use dns_nostr::zone_file::parse_str;
use dns_nostr::ip::Ipv4Address;
use dns_nostr::data::AData;
use std::str::FromStr;

#[test]
fn question_test_matches() {
    // matches all
    let question = Question::new(
        "example.com.".parse().unwrap(),
        QueryType::Type(RecordType::A),
        QueryClass::Class(Class::In),
    );
    let record = Record::new(
        "example.com.".parse().unwrap(),
        Class::In,
        0,
        Data::A(AData::new(Ipv4Address::new(127, 0, 0, 1))),
    );
    assert!(question.matches(&record));

    // matches with ANY type and ANY class
    let question = Question::new(
        "example.com.".parse().unwrap(),
        QueryType::Any,
        QueryClass::Any,
    );
    let record = Record::new(
        "example.com.".parse().unwrap(),
        Class::In,
        0,
        Data::A(AData::new(Ipv4Address::new(127, 0, 0, 1))),
    );
    assert!(question.matches(&record));

    // not match name
    let question = Question::new(
        "example.com.".parse().unwrap(),
        QueryType::Type(RecordType::A),
        QueryClass::Class(Class::In),
    );
    let record = Record::new(
        "com.".parse().unwrap(),
        Class::In,
        0,
        Data::A(AData::new(Ipv4Address::new(127, 0, 0, 1))),
    );
    assert!(!question.matches(&record));

    // not match type
    let question = Question::new(
        "example.com.".parse().unwrap(),
        QueryType::Type(RecordType::Cname),
        QueryClass::Class(Class::In),
    );
    let record = Record::new(
        "example.com.".parse().unwrap(),
        Class::In,
        0,
        Data::A(AData::new(Ipv4Address::new(127, 0, 0, 1))),
    );
    assert!(!question.matches(&record));
}

#[test]
fn question_test_from_str() {
    // valid "example.com IN A"
    let question = "example.com. IN A".parse::<Question>().unwrap();
    assert_eq!(
        question,
        Question::new(
            "example.com.".parse().unwrap(),
            QueryType::Type(RecordType::A),
            QueryClass::Class(Class::In)
        )
    );

    // valid "example.com IN ANY"
    let question = "example.com. IN *".parse::<Question>().unwrap();
    assert_eq!(
        question,
        Question::new(
            "example.com.".parse().unwrap(),
            QueryType::Any,
            QueryClass::Class(Class::In)
        )
    );

    // invalid "example.com IN"
    assert!("example.com IN".parse::<Question>().is_err());

    // invalid "example.com"
    assert!("example.com".parse::<Question>().is_err());

    // invalid "example .com IN A"
    assert!("example .com IN A".parse::<Question>().is_err());
}

#[test]
fn test_valid_record_from_str() {
    // "example.com. 3600 IN A 127.0.0.1"
    let record = Record::from_str("example.com. 3600 IN A 127.0.0.1").unwrap();
    let expected = Record::new(
        "example.com.".parse().unwrap(),
        Class::In,
        3600,
        Data::A("127.0.0.1".parse().unwrap()),
    );
    assert_eq!(record, expected);

    // "example.com. 3600 IN NS ns.example.com."
    let record = Record::from_str("example.com. 3600 IN NS ns.example.com.").unwrap();
    let expected = Record::new(
        "example.com.".parse().unwrap(),
        Class::In,
        3600,
        Data::Ns("ns.example.com.".parse().unwrap()),
    );
    assert_eq!(record, expected);

    // "example.com. 3600 IN CNAME cname.example.com."
    let record = Record::from_str("example.com. 3600 IN CNAME cname.example.com.").unwrap();
    let expected = Record::new(
        "example.com.".parse().unwrap(),
        Class::In,
        3600,
        Data::Cname("cname.example.com.".parse().unwrap()),
    );
    assert_eq!(record, expected);

    // "example.com. 3600 IN AAAA ::1"
    let record = Record::from_str("example.com. 3600 IN AAAA ::1").unwrap();
    let expected = Record::new(
        "example.com.".parse().unwrap(),
        Class::In,
        3600,
        Data::Aaaa("::1".parse().unwrap()),
    );
    assert_eq!(record, expected);

    // "example.com. 3600 IN MX 10 mail.example.com."
    let record = Record::from_str("example.com. 3600 IN MX 10 mail.example.com.").unwrap();
    let expected = Record::new(
        "example.com.".parse().unwrap(),
        Class::In,
        3600,
        Data::Mx(MxData::new(10, "mail.example.com.".parse().unwrap())),
    );
    assert_eq!(record, expected);

    // "example.com. 3600 IN TXT \"Hello, world!\""
    let record = Record::from_str("example.com. 3600 IN TXT \"Hello, world!\"").unwrap();
    let expected = Record::new(
        "example.com.".parse().unwrap(),
        Class::In,
        3600,
        Data::Txt(TxtData::new("Hello, world!".to_string())),
    );
    assert_eq!(record, expected);
}

#[test]
fn test_record_to_string() {
    let record = Record::new(
        "example.com.".parse().unwrap(),
        Class::In,
        3600,
        Data::A("127.0.0.1".parse().unwrap()),
    );
    let expected = "example.com. 3600 IN A 127.0.0.1".to_string();
    assert_eq!(record.to_string(), expected);

    let record = Record::new(
        "example.com.".parse().unwrap(),
        Class::In,
        3600,
        Data::Ns("ns.example.com.".parse().unwrap()),
    );
    let expected = "example.com. 3600 IN NS ns.example.com.".to_string();
    assert_eq!(record.to_string(), expected);

    let record = Record::new(
        "example.com.".parse().unwrap(),
        Class::In,
        3600,
        Data::Cname("cname.example.com.".parse().unwrap()),
    );
    let expected = "example.com. 3600 IN CNAME cname.example.com.".to_string();
    assert_eq!(record.to_string(), expected);
}

#[test]
fn test_record_from_str_relative() {
    let origin = "com.".parse::<Name>().unwrap();

    // "example.com. 3600 IN A 127.0.0.1"
    let record = Record::from_str_relative("example.com. 3600 IN A 127.0.0.1", &origin).unwrap();
    let expected = Record::new(
        "example.com.".parse().unwrap(),
        Class::In,
        3600,
        Data::A("127.0.0.1".parse().unwrap()),
    );
    assert_eq!(record, expected);

    // "example 3600 IN A 127.0.0.1"
    let record = Record::from_str_relative("example 3600 IN A 127.0.0.1", &origin).unwrap();
    let expected = Record::new(
        "example.com.".parse().unwrap(),
        Class::In,
        3600,
        Data::A("127.0.0.1".parse().unwrap()),
    );
    assert_eq!(record, expected);

    // "example.com. 3600 IN NS ns.example.com."
    let record =
        Record::from_str_relative("example.com. 3600 IN NS ns.example.com.", &origin).unwrap();
    let expected = Record::new(
        "example.com.".parse().unwrap(),
        Class::In,
        3600,
        Data::Ns("ns.example.com.".parse().unwrap()),
    );
    assert_eq!(record, expected);

    // "example 3600 IN NS ns.example"
    let record = Record::from_str_relative("example 3600 IN NS ns.example", &origin).unwrap();
    let expected = Record::new(
        "example.com.".parse().unwrap(),
        Class::In,
        3600,
        Data::Ns("ns.example.com.".parse().unwrap()),
    );
    assert_eq!(record, expected);

    // "example.com. 3600 IN CNAME cname.example.com."
    let record =
        Record::from_str_relative("example.com. 3600 IN CNAME cname.example.com.", &origin)
            .unwrap();
    let expected = Record::new(
        "example.com.".parse().unwrap(),
        Class::In,
        3600,
        Data::Cname("cname.example.com.".parse().unwrap()),
    );
    assert_eq!(record, expected);

    // "example 3600 IN CNAME cname.example"
    let record = Record::from_str_relative("example 3600 IN CNAME cname.example", &origin).unwrap();
    let expected = Record::new(
        "example.com.".parse().unwrap(),
        Class::In,
        3600,
        Data::Cname("cname.example.com.".parse().unwrap()),
    );
    assert_eq!(record, expected);

    // "example.com. 3600 IN AAAA ::1"
    let record = Record::from_str_relative("example.com. 3600 IN AAAA ::1", &origin).unwrap();
    let expected = Record::new(
        "example.com.".parse().unwrap(),
        Class::In,
        3600,
        Data::Aaaa("::1".parse().unwrap()),
    );
    assert_eq!(record, expected);

    // "example 3600 IN AAAA ::1"
    let record = Record::from_str_relative("example 3600 IN AAAA ::1", &origin).unwrap();
    let expected = Record::new(
        "example.com.".parse().unwrap(),
        Class::In,
        3600,
        Data::Aaaa("::1".parse().unwrap()),
    );
    assert_eq!(record, expected);

    // "example.com. 3600 IN MX 10 mail.example.com."
    let record =
        Record::from_str_relative("example.com. 3600 IN MX 10 mail.example.com.", &origin).unwrap();
    let expected = Record::new(
        "example.com.".parse().unwrap(),
        Class::In,
        3600,
        Data::Mx(MxData::new(10, "mail.example.com.".parse().unwrap())),
    );
    assert_eq!(record, expected);

    // "example 3600 IN MX 10 mail.example"
    let record = Record::from_str_relative("example 3600 IN MX 10 mail.example", &origin).unwrap();
    let expected = Record::new(
        "example.com.".parse().unwrap(),
        Class::In,
        3600,
        Data::Mx(MxData::new(10, "mail.example.com.".parse().unwrap())),
    );
    assert_eq!(record, expected);

    // "example.com. 3600 IN TXT \"Hello, world!\""
    let record = Record::from_str_relative("example.com. 3600 IN TXT \"Hello, world!\"", &origin)
        .unwrap();
    let expected = Record::new(
        "example.com.".parse().unwrap(),
        Class::In,
        3600,
        Data::Txt(TxtData::new("Hello, world!".to_string())),
    );
    assert_eq!(record, expected);

    // "example 3600 IN TXT \"Hello, world!\""
    let record =
        Record::from_str_relative("example 3600 IN TXT \"Hello, world!\"", &origin).unwrap();
    let expected = Record::new(
        "example.com.".parse().unwrap(),
        Class::In,
        3600,
        Data::Txt(TxtData::new("Hello, world!".to_string())),
    );
    assert_eq!(record, expected);
}

#[test]
fn a() {
    let output = parse_str("example.com. 0 IN TXT \"Hello World!\"");
    assert_eq!(output.len(), 1);
    assert_eq!(output[0].to_string(), "example.com. 0 IN TXT \"Hello World!\"");
}

#[test]
fn test_parse_str() {
    // single line
    let input = "example.com. 0 IN A 127.0.0.1";
    let expected: Vec<Record> = vec!["example.com. 0 IN A 127.0.0.1".parse().unwrap()];
    let output = parse_str(input);
    assert_eq!(expected, output);

    // multi line
    let input = "example.com. 0 IN A 127.0.0.1\nexample.com. 0 IN CNAME cname.com.";
    let expected: Vec<Record> = vec![
        "example.com. 0 IN A 127.0.0.1".parse().unwrap(),
        "example.com. 0 IN CNAME cname.com.".parse().unwrap(),
    ];
    let output = parse_str(input);
    assert_eq!(expected, output);

    // multi line with invalid line
    let input = "\nexample.com. 0 IN A 127.0.0.1\nINVALID\nexample.com. 0 IN CNAME cname.com.\n";
    let expected: Vec<Record> = vec![
        "example.com. 0 IN A 127.0.0.1".parse().unwrap(),
        "example.com. 0 IN CNAME cname.com.".parse().unwrap(),
    ];
    let output = parse_str(input);
    assert_eq!(expected, output);
}

#[test]
fn test_parse_extra_spaces() {
    let input = "example.com.  0 IN\tA 127.0.0.1 \r\nexample.com. 0 IN CNAME cname.com.";
    let expected: Vec<Record> = vec![
        "example.com. 0 IN A 127.0.0.1".parse().unwrap(),
        "example.com. 0 IN CNAME cname.com.".parse().unwrap(),
    ];
    let output = parse_str(input);
    assert_eq!(expected, output);
}

#[test]
fn test_parse_extra_spaces_in_string() {
    let input = "\nexample.com. 0 IN TXT \"Hello, World!\"\n";
    let expected: Vec<Record> = vec!["example.com. 0 IN TXT \"Hello, World!\"".parse().unwrap()];
    let output = parse_str(input);
    assert_eq!(expected, output);
}

#[test]
fn test_remove_parentesis() {
    let input = "\nexample.com.    (   0\n                    IN \n                    A \n                    127.0.0.1)\nexample.com. 0 (IN\n                CNAME\n                cname.com.\n            )\n\nexample.com. 0 (\n                IN\n                TXT\n                \"Hello, World!\")\n";
    let expected: Vec<Record> = vec![
        "example.com. 0 IN A 127.0.0.1".parse().unwrap(),
        "example.com. 0 IN CNAME cname.com.".parse().unwrap(),
        "example.com. 0 IN TXT \"Hello, World!\"".parse().unwrap(),
    ];
    let output = parse_str(input);
    assert_eq!(expected, output);
}

#[test]
fn test_remove_comments() {
    let input = "\nexample.com.    (   0; comment\n                    IN ; comment\n                    A ; comment\n                    127.0.0.1); comment\nexample.com. 0 (IN ; comment\n                CNAME ; comment\n                cname.com.; comment\n            )\n\n; comment\nexample.com. 0 (\n                IN ; comment\n                TXT ; comment\n                \"Hello; World!\") ; comment\n";
    let expected: Vec<Record> = vec![
        "example.com. 0 IN A 127.0.0.1".parse().unwrap(),
        "example.com. 0 IN CNAME cname.com.".parse().unwrap(),
        "example.com. 0 IN TXT \"Hello; World!\"".parse().unwrap(),
    ];
    let output = parse_str(input);
    assert_eq!(expected, output);
}

#[test]
fn test_omit_domain_name() {
    let input = "\nexample.com.    0 IN A 127.0.0.1\n                0 IN CNAME cname.com.\n                0 IN TXT \"Hello, World!\"\n";
    let expected: Vec<Record> = vec![
        "example.com. 0 IN A 127.0.0.1".parse().unwrap(),
        "example.com. 0 IN CNAME cname.com.".parse().unwrap(),
        "example.com. 0 IN TXT \"Hello, World!\"".parse().unwrap(),
    ];
    let output = parse_str(input);
    assert_eq!(expected, output);
}

#[test]
fn test_parse_record_with_rr_in_different_orders() {
    let input = "\n; [<domain-name>]   [<TTL>]     [<class>]   <type> <RDATA>\nexample.com.        0           IN          A 0.1.1.1\nexample.com.        0                       A 0.1.1.0\nexample.com.                    IN          A 0.1.0.1\nexample.com.                                A 0.1.0.0\n                    0           IN          A 0.0.1.1\n                    0                       A 0.0.1.0\n                                IN          A 0.0.0.1\n                                            A 0.0.0.0  \n\n; [<domain-name>]   [<class>]   [<TTL>]     <type> <RDATA>\nexample.com.        IN          0           A 0.1.1.1\nexample.com.        IN                      A 0.1.1.0\nexample.com.                    0           A 0.1.0.1\nexample.com.                                A 0.1.0.0\n                    IN          0           A 0.0.1.1\n                    IN                      A 0.0.1.0\n                                0           A 0.0.0.1\n                                            A 0.0.0.0 \n";
    let expected: Vec<Record> = vec![
        "example.com. 0 IN A 0.1.1.1",
        "example.com. 0 IN A 0.1.1.0",
        "example.com. 0 IN A 0.1.0.1",
        "example.com. 0 IN A 0.1.0.0",
        "example.com. 0 IN A 0.0.1.1",
        "example.com. 0 IN A 0.0.1.0",
        "example.com. 0 IN A 0.0.0.1",
        "example.com. 0 IN A 0.0.0.0",
        "example.com. 0 IN A 0.1.1.1",
        "example.com. 0 IN A 0.1.1.0",
        "example.com. 0 IN A 0.1.0.1",
        "example.com. 0 IN A 0.1.0.0",
        "example.com. 0 IN A 0.0.1.1",
        "example.com. 0 IN A 0.0.1.0",
        "example.com. 0 IN A 0.0.0.1",
        "example.com. 0 IN A 0.0.0.0",
    ]
    .iter()
    .map(|s| Record::from_str(s).unwrap())
    .collect();
    let output = parse_str(input);
    expected
        .iter()
        .zip(output.iter())
        .for_each(|(expected, output)| {
            assert_eq!(
                expected,
                output,
                "could't parse \"{}\"",
                expected.to_string(),
            );
        });
}
