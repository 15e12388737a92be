use dns_nostr::class::Class;
use dns_nostr::data::Data;
use dns_nostr::handler::QueryRequest;
use dns_nostr::message::{Message, OpCode, Request, ResponseCode};
use dns_nostr::name::Name;
use dns_nostr::query_class::QueryClass;
use dns_nostr::query_type::QueryType;
use dns_nostr::question::Question;
use dns_nostr::record::Record;
use dns_nostr::record_type::RecordType;
use dns_nostr::resolver::{InMemoryAuthority, Resolver};

fn query_message_from_question(question: Question) -> Message {
    Message::new(0)
        .set_opcode(OpCode::Query)
        .set_questions(vec![question])
}

#[test]
fn test_into_request() {
    let question_mock = Question::new(
        Name::root(),
        QueryType::Type(RecordType::A),
        QueryClass::Class(Class::In),
    );

    // query request message
    let message = Message::new(0)
        .set_is_response(false)
        .set_opcode(OpCode::Query)
        .set_questions(vec![question_mock.clone()]);
    let expected_query = QueryRequest::new(question_mock.clone());
    assert_eq!(
        message.into_request().unwrap(),
        Request::Query(expected_query)
    );

    // response message
    let message = Message::new(0)
        .set_is_response(true)
        .set_opcode(OpCode::Query)
        .set_questions(vec![question_mock.clone()]);
    let error_message = message.into_request().unwrap_err();
    assert_eq!(error_message.response_code(), ResponseCode::FormatError);
    assert_eq!(error_message.is_response(), true);
    assert_eq!(error_message.opcode(), OpCode::Query);
}

#[test]
fn test_resolve_aname() {
    let records = vec![
        "example.com 0 IN A 127.0.0.1".parse().unwrap(),
        "example.com 0 IN A 127.0.0.2".parse().unwrap(),
        "not-example.com 0 IN A 127.0.0.3".parse().unwrap(),
    ];
    let question = "example.com IN A".parse().unwrap();
    let request = query_message_from_question(question);
    let response = InMemoryAuthority::new(records).resolve(&request);
    assert_eq!(response.answers().len(), 2);
    response.answers().iter().for_each(|record| {
        assert_eq!(record.name(), &"example.com".parse().unwrap());
        assert_eq!(record.class(), Class::In);
        assert_eq!(record.ttl(), 0);
        assert!(matches!(record.data(), Data::A(_)));
    });
}

#[test]
fn test_resolve_aname_with_cname() {
    let cname_record: Record = "example.com. 0 IN CNAME a.example.com".parse().unwrap();
    let a_record: Record = "a.example.com. 0 IN A 127.0.0.1".parse().unwrap();
    let records = vec![cname_record.clone(), a_record.clone()];
    let question = "example.com. IN A".parse().unwrap();
    let request = query_message_from_question(question);
    let response = InMemoryAuthority::new(records).resolve(&request);
    assert_eq!(response.answers().len(), 2);
    assert!(response
        .answers()
        .iter()
        .any(|record| record == &cname_record));
    response.answers().iter().any(|record| record == &a_record);
}

/// The name server records of RFC 1034 section 6.1.
fn c_isi_edu_zone() -> InMemoryAuthority {
    let records = vec![
        "C.ISI.EDU. 604800 IN NS A.ISI.EDU.",
        "C.ISI.EDU. 604800 IN NS C.ISI.EDU.",
        "C.ISI.EDU. 604800 IN NS C.ISI.EDU.",
        "C.ISI.EDU. 604800 IN NS SRI-NIC.ARPA.",
        "MIL. 86400 IN NS SRI-NIC.ARPA.",
        "MIL. 86400 IN NS A.ISI.EDU.",
        "EDU. 86400 IN NS SRI-NIC.ARPA.",
        "EDU. 86400 IN NS C.ISI.EDU.",
        "SRI-NIC.ARPA. 86400 IN A 26.0.0.73",
        "SRI-NIC.ARPA. 86400 IN A 10.0.0.51",
        "SRI-NIC.ARPA. 86400 IN MX 0 SRI-NIC.ARPA.",
        "USC-ISIC.ARPA. 86400 IN CNAME C.ISI.EDU.",
        "A.ISI.EDU. 86400 IN A 26.3.0.103",
        "C.ISI.EDU. 86400 IN A 10.0.0.52",
    ]
    .into_iter()
    .map(|record| record.parse().unwrap())
    .collect();
    InMemoryAuthority::new(records)
}

#[test]
fn test_section_6_2_1() {
    let authority = c_isi_edu_zone();
    let request = query_message_from_question("SRI-NIC.ARPA. IN A".parse().unwrap());
    let response = authority.resolve(&request);
    assert_eq!(response.answers().len(), 2);
    let expected_answers: Vec<Record> = vec![
        "SRI-NIC.ARPA. 86400 IN A 26.0.0.73".parse().unwrap(),
        "SRI-NIC.ARPA. 86400 IN A 10.0.0.51".parse().unwrap(),
    ];
    response.answers().iter().for_each(|record| {
        assert!(expected_answers.contains(record));
    });
}

#[test]
fn test_section_6_2_2() {
    let authority = c_isi_edu_zone();
    let request = query_message_from_question("SRI-NIC.ARPA. IN *".parse().unwrap());
    let response = authority.resolve(&request);
    assert_eq!(response.answers().len(), 3);
    let expected_answers: Vec<Record> = vec![
        "SRI-NIC.ARPA. 86400 IN A 26.0.0.73".parse().unwrap(),
        "SRI-NIC.ARPA. 86400 IN A 10.0.0.51".parse().unwrap(),
        "SRI-NIC.ARPA. 86400 IN MX 0 SRI-NIC.ARPA.".parse().unwrap(),
    ];
    response.answers().iter().for_each(|record| {
        assert!(expected_answers.contains(record));
    });
}

#[test]
fn test_section_6_2_3() {
    let authority = c_isi_edu_zone();
    let request = query_message_from_question("SRI-NIC.ARPA. IN MX".parse().unwrap());
    let response = authority.resolve(&request);
    assert_eq!(response.answers().len(), 1);
    let expected_answers: Vec<Record> =
        vec!["SRI-NIC.ARPA. 86400 IN MX 0 sri-nic.arpa".parse().unwrap()];
    response.answers().iter().for_each(|record| {
        assert!(expected_answers.contains(record));
    });
}

#[test]
fn test_section_6_2_4() {
    let authority = c_isi_edu_zone();
    let request = query_message_from_question("SRI-NIC.ARPA. IN NS".parse().unwrap());
    let response = authority.resolve(&request);
    assert_eq!(response.answers().len(), 0);
    let expected_answers: Vec<Record> = vec![];
    response.answers().iter().for_each(|record| {
        assert!(expected_answers.contains(record));
    });
}

#[test]
fn test_section_6_2_6() {
    let authority = c_isi_edu_zone();
    let response = authority.resolve(&query_message_from_question(
        "BRL.MIL. IN A".parse().unwrap(),
    ));
    assert_eq!(response.answers().len(), 0);
    assert_eq!(response.authorities().len(), 2);
    let expected_authorities: Vec<Record> = vec![
        "MIL. 86400 IN NS SRI-NIC.ARPA.".parse().unwrap(),
        "MIL. 86400 IN NS A.ISI.EDU.".parse().unwrap(),
    ];
    response.answers().iter().for_each(|record| {
        assert!(expected_authorities.contains(record));
    });
    assert_eq!(response.additional().len(), 3);
    let expected_additional: Vec<Record> = vec![
        "A.ISI.EDU. 86400 IN A 26.3.0.103".parse().unwrap(),
        "SRI-NIC.ARPA. 86400 IN A 26.0.0.73".parse().unwrap(),
        "SRI-NIC.ARPA. 86400 IN A 10.0.0.51".parse().unwrap(),
    ];
    response.additional().iter().for_each(|record| {
        assert!(
            expected_additional.contains(record),
            "{:?} not in expected additional",
            record.to_string()
        );
    });
}

#[test]
fn test_section_6_2_7() {
    let authority = c_isi_edu_zone();
    let request = query_message_from_question("USC-ISIC.ARPA IN A".parse().unwrap());
    let response = authority.resolve(&request);
    assert_eq!(response.answers().len(), 2);
    let expected_answers: Vec<Record> = vec![
        "USC-ISIC.ARPA. 86400 IN CNAME C.ISI.EDU.".parse().unwrap(),
        "C.ISI.EDU. 86400 IN A 10.0.0.52".parse().unwrap(),
    ];
    response.answers().iter().for_each(|record| {
        assert!(expected_answers.contains(record));
    });
}

#[test]
fn test_section_6_2_8() {
    let authority = c_isi_edu_zone();
    let request = query_message_from_question("USC-ISIC.ARPA. IN CNAME".parse().unwrap());
    let response = authority.resolve(&request);
    assert_eq!(response.answers().len(), 1);
    let expected_answers: Vec<Record> =
        vec!["USC-ISIC.ARPA. 86400 IN CNAME C.ISI.EDU.".parse().unwrap()];
    response.answers().iter().for_each(|record| {
        assert!(expected_answers.contains(record));
    });
}

#[test]
fn resolve_is_repeatable() {
    // resolving the same query twice against the same record set returns
    // equal message contents
    let authority = c_isi_edu_zone();
    let request = query_message_from_question("SRI-NIC.ARPA. IN A".parse().unwrap());
    let first = authority.resolve(&request);
    let second = authority.resolve(&request);
    assert_eq!(first.answers(), second.answers());
    assert_eq!(first.authorities(), second.authorities());
    assert_eq!(first.additional(), second.additional());
    assert_eq!(first.response_code(), second.response_code());
}

#[test]
fn not_implemented_opcode() {
    let authority = c_isi_edu_zone();
    let request = query_message_from_question("SRI-NIC.ARPA. IN A".parse().unwrap())
        .set_opcode(OpCode::IQuery);
    let response = authority.resolve(&request);
    assert_eq!(response.response_code(), ResponseCode::NotImplemented);
}
