use dns_nostr::class::Class;
use dns_nostr::data::{Data, MxData, TxtData};
use dns_nostr::datagram::{DatagramReader, DatagramWriter, UDP_LENGTH_LIMIT};
use dns_nostr::message::{Message, OpCode, ResponseCode};
use dns_nostr::name::Name;
use dns_nostr::query_class::QueryClass;
use dns_nostr::query_type::QueryType;
use dns_nostr::question::Question;
use dns_nostr::record::Record;
use dns_nostr::record_type::RecordType;
use dns_nostr::label::Label;
use std::str::FromStr;

#[test]
fn datagram_reader_writer_test_read() {
    let buffer = [3, b'f', b'o', b'o'];
    let mut reader = DatagramReader::new(&buffer);
    let label = reader.read_label().unwrap();
    assert_eq!(label, "foo".parse().unwrap());
}

#[test]
fn datagram_reader_writer_test_write() {
    let label = Label::from_str("foo").unwrap();
    let mut writer = DatagramWriter::new();
    assert!(writer.write_label(&label));
    assert_eq!(writer.position(), 4);
    assert_eq!(&writer.buffer()[0..4], &[3, b'f', b'o', b'o']);
}

#[test]
fn test_read_root() {
    let datagram = [0];
    let mut reader = DatagramReader::new(&datagram);
    let name = reader.read_name().unwrap();
    assert_eq!(reader.position(), 1);
    assert_eq!(name, Name::root());
}

#[test]
fn test_read_simple() {
    let datagram = [
        3, b'f', b'o', b'o', // pos = 0; "foo"
        0,    // pos = 4; ""
    ];
    let mut reader = DatagramReader::new(&datagram);
    let name = reader.read_name().unwrap();
    assert_eq!(reader.position(), 5);
    assert_eq!(name, "foo.".parse().unwrap());
}

#[test]
fn test_read_double() {
    let buffer = [
        3, b'f', b'o', b'o', // pos = 0; "foo"
        3, b'b', b'a', b'r', // pos = 4; "bar"
        0,    // pos = 8; ""
    ];
    let mut reader = DatagramReader::new(&buffer);
    let name = reader.read_name().unwrap();
    assert_eq!(reader.position(), 9);
    assert_eq!(name, "foo.bar.".parse().unwrap());
}

#[test]
fn test_read_compression() {
    let buffer = [
        // pos = 0; "foo."
        3,
        b'f',
        b'o',
        b'o',
        0,
        // pos = 5; "bar->foo."
        3,
        b'b',
        b'a',
        b'r',
        0b1100_0000 | 0,
        0,
        // pos = 11; "zar->bar->foo."
        3,
        b'z',
        b'a',
        b'r',
        0b1100_0000 | 0,
        5,
    ];
    let mut reader = DatagramReader::new(&buffer);
    let foo_name = reader.read_name().unwrap();
    let bar_name = reader.read_name().unwrap();
    let zar_name = reader.read_name().unwrap();
    assert_eq!(reader.position(), 17);
    assert_eq!(foo_name, "foo.".parse().unwrap());
    assert_eq!(bar_name, "bar.foo.".parse().unwrap());
    assert_eq!(zar_name, "zar.bar.foo.".parse().unwrap());
}

#[test]
fn test_write_root() {
    let name = Name::root();
    let mut writer = DatagramWriter::new();
    assert!(writer.write_name(&name));
    assert_eq!(writer.position(), 1);
    assert_eq!(writer.buffer()[0], 0);
}

#[test]
fn test_write_simple() {
    let name = "foo.".parse::<Name>().unwrap();
    let mut writer = DatagramWriter::new();
    assert!(writer.write_name(&name));
    assert_eq!(writer.position(), 5);
    assert_eq!(&writer.buffer()[0..5], &[3, b'f', b'o', b'o', 0]);
}

#[test]
fn test_write_double() {
    let name = "foo.bar.".parse::<Name>().unwrap();
    let mut writer = DatagramWriter::new();
    assert!(writer.write_name(&name));
    assert_eq!(writer.position(), 9);
    assert_eq!(&writer.buffer()[0..9], &[3, b'f', b'o', b'o', 3, b'b', b'a', b'r', 0]);
}

#[test]
fn test_read_type() {
    // the two octets 0x00 0x01 after the root name read as type A
    let datagram = [
        0x00, // root name
        0x00, 0x01, // A
        0x00, 0x01, // IN
    ];
    let mut reader = DatagramReader::new(&datagram);
    let question = reader.read_question().unwrap();
    assert_eq!(question.query_type(), QueryType::Type(RecordType::A));
    assert_eq!(reader.position(), 5);
}

#[test]
fn test_write_type() {
    let question = Question::new(
        Name::root(),
        QueryType::Type(RecordType::A),
        QueryClass::Class(Class::In),
    );
    let mut writer = DatagramWriter::new();
    assert!(writer.write_question(&question));
    // name(1) + type(2) + class(2)
    assert_eq!(writer.position(), 5);
    assert_eq!(&writer.buffer()[1..3], &[0x00, 0x01]);
}

#[test]
fn test_read_class() {
    let datagram = [
        0x00, // root name
        0x00, 0x01, // A
        0x00, 0x01, // IN
    ];
    let mut reader = DatagramReader::new(&datagram);
    let question = reader.read_question().unwrap();
    assert_eq!(question.query_class(), QueryClass::Class(Class::In));
    assert_eq!(reader.position(), 5);
}

#[test]
fn test_write_class() {
    let question = Question::new(
        Name::root(),
        QueryType::Type(RecordType::A),
        QueryClass::Class(Class::In),
    );
    let mut writer = DatagramWriter::new();
    assert!(writer.write_question(&question));
    assert_eq!(writer.position(), 5);
    assert_eq!(&writer.buffer()[3..5], &[0x00, 0x01]);
}

#[test]
fn test_read_question() {
    let datagram = [
        0x03, 0x63, 0x6F, 0x6D, 0x00, // "com."
        0x00, 0x01, // A
        0x00, 0x01, // IN
    ];
    let mut reader = DatagramReader::new(&datagram);
    let question = reader.read_question().unwrap();
    assert_eq!(question.name(), &"com.".parse::<Name>().unwrap());
    assert_eq!(question.query_type(), QueryType::Type(RecordType::A));
    assert_eq!(question.query_class(), QueryClass::Class(Class::In));
    assert_eq!(reader.position(), 9);
}

#[test]
fn question_test_write() {
    let question = Question::new(
        "com.".parse().unwrap(),
        QueryType::Type(RecordType::A),
        QueryClass::Class(Class::In),
    );
    let mut writer = DatagramWriter::new();
    assert!(writer.write_question(&question));
    assert_eq!(writer.position(), 9);
    assert_eq!(
        &writer.buffer()[0..9],
        &[
            0x03, 0x63, 0x6F, 0x6D, 0x00, // "com."
            0x00, 0x01, // A
            0x00, 0x01 // IN
        ]
    );
}

#[test]
fn cname_data_test_read() {
    let datagram = [
        3, b'f', b'o', b'o', 0, // "foo."
        0, 0x05, // CNAME
        0, 0x01, // IN
        0, 0, 0, 0, // TTL
        0, 5, // data length
        3, b'b', b'a', b'r', 0, // "bar."
    ];
    let mut reader = DatagramReader::new(&datagram);
    let record = reader.read_record().unwrap();
    assert_eq!(record.record_type(), RecordType::Cname);
    match record.data() {
        Data::Cname(cname_data) => {
            assert_eq!(cname_data.cname(), &"bar.".parse::<Name>().unwrap());
        }
        _ => panic!("expected CNAME data"),
    }
    assert_eq!(reader.position(), 20);
}

#[test]
fn cname_data_test_write() {
    let record = Record::new(
        "foo.".parse().unwrap(),
        Class::In,
        0,
        Data::Cname("bar.".parse().unwrap()),
    );
    let mut writer = DatagramWriter::new();
    assert!(writer.write_record(&record));
    assert_eq!(writer.position(), 20);
    assert_eq!(
        &writer.buffer()[0..20],
        &[
            3, b'f', b'o', b'o', 0, // "foo."
            0, 0x05, // CNAME
            0, 0x01, // IN
            0, 0, 0, 0, // TTL
            0, 5, // data length
            3, b'b', b'a', b'r', 0, // "bar."
        ]
    );
}

#[test]
fn mx_data_test_read() {
    let datagram = [
        3, b'f', b'o', b'o', 0, // "foo."
        0, 0x0f, // MX
        0, 0x01, // IN
        0, 0, 0, 0, // TTL
        0, 7, // data length
        0x00, 0x0a, // preference = 10
        3, b'b', b'a', b'r', 0, // exchange = "bar."
    ];
    let mut reader = DatagramReader::new(&datagram);
    let record = reader.read_record().unwrap();
    match record.data() {
        Data::Mx(mx_data) => {
            assert_eq!(mx_data.preference(), 0x000a);
            assert_eq!(mx_data.exchange(), &"bar.".parse::<Name>().unwrap());
        }
        _ => panic!("expected MX data"),
    }
    assert_eq!(reader.position(), 22);
}

#[test]
fn mx_data_test_write() {
    let record = Record::new(
        "foo.".parse().unwrap(),
        Class::In,
        0,
        Data::Mx(MxData::new(10, "bar.".parse().unwrap())),
    );
    let mut writer = DatagramWriter::new();
    assert!(writer.write_record(&record));
    assert_eq!(writer.position(), 22);
    assert_eq!(
        &writer.buffer()[0..22],
        &[
            3, b'f', b'o', b'o', 0, // "foo."
            0, 0x0f, // MX
            0, 0x01, // IN
            0, 0, 0, 0, // TTL
            0, 7, // data length
            0x00, 0x0a, // preference = 10
            3, b'b', b'a', b'r', 0, // exchange = "bar."
        ]
    );
}

#[test]
fn test_read_txt() {
    let datagram = [
        3, b'f', b'o', b'o', 0, // "foo."
        0, 0x10, // TXT
        0, 0x01, // IN
        0, 0, 0, 0, // TTL
        0, 3, // data length
        b'b', b'a', b'r', // "bar"
    ];
    let mut reader = DatagramReader::new(&datagram);
    let record = reader.read_record().unwrap();
    assert_eq!(record.name(), &"foo.".parse::<Name>().unwrap());
    assert_eq!(record.record_type(), RecordType::Txt);
    assert_eq!(record.class(), Class::In);
    assert_eq!(record.ttl(), 0);
    assert_eq!(record.data(), &Data::Txt(TxtData::new("bar".to_string())));
}

#[test]
fn test_write_txt() {
    let record = Record::new(
        "foo.".parse().unwrap(),
        Class::In,
        0,
        Data::Txt(TxtData::new("bar".to_string())),
    );
    let mut writer = DatagramWriter::new();
    assert!(writer.write_record(&record));
    assert_eq!(writer.position(), 18);
    assert_eq!(
        &writer.buffer()[0..18],
        &[
            3, b'f', b'o', b'o', 0, // "foo."
            0, 0x10, // TXT
            0, 0x01, // IN
            0, 0, 0, 0, // TTL
            0, 3, // data length
            b'b', b'a', b'r', // "bar"
        ]
    );
}

#[test]
fn test_read_unknown() {
    let datagram = [
        3, b'f', b'o', b'o', 0, // "foo."
        0, 0x03, // MD
        0, 0x01, // IN
        0, 0, 0, 0, // TTL
        0, 5, // data length
        3, b'b', b'a', b'r', 0, // "bar."
    ];
    let mut reader = DatagramReader::new(&datagram);
    let record = reader.read_record().unwrap();
    assert_eq!(record.name(), &"foo.".parse::<Name>().unwrap());
    assert_eq!(record.record_type(), RecordType::Unknown(0x03));
    assert_eq!(record.class(), Class::In);
    assert_eq!(record.ttl(), 0);
    assert_eq!(
        record.data(),
        &Data::Unknown(RecordType::Unknown(0x03), vec![3, b'b', b'a', b'r', 0])
    );
}

#[test]
fn test_write_unknown() {
    let record = Record::new(
        "foo.".parse().unwrap(),
        Class::In,
        0,
        Data::Unknown(RecordType::Unknown(0x03), vec![3, b'b', b'a', b'r', 0]),
    );
    let mut writer = DatagramWriter::new();
    assert!(writer.write_record(&record));
    assert_eq!(writer.position(), 20);
    assert_eq!(
        &writer.buffer()[0..20],
        &[
            3, b'f', b'o', b'o', 0, // "foo."
            0, 0x03, // MD
            0, 0x01, // IN
            0, 0, 0, 0, // TTL
            0, 5, // data length
            3, b'b', b'a', b'r', 0, // "bar."
        ]
    );
}

#[test]
fn test_read_header() {
    let datagram = [
        0x6A as u8, 0x20, // id = 0x6A20
        0x81, // QR = 1, Opcode = 0, AA = 0, TC = 0, RD = 1
        0x80, // RA = 1, Z = 0, RCODE = 0
        0x00, 0x00, // QDCOUNT = 0
        0x00, 0x00, // ANCOUNT = 0
        0x00, 0x00, // NSCOUNT = 0
        0x00, 0x00, // ARCOUNT = 0
    ];
    let reader = DatagramReader::new(&datagram);
    let message = reader.read_message().unwrap();
    assert_eq!(message.id(), 0x6A20);
    assert_eq!(message.is_response(), true);
    assert_eq!(message.opcode(), OpCode::Query);
    assert_eq!(message.is_authoritative_answer(), false);
    assert_eq!(message.is_truncation(), false);
    assert_eq!(message.recursion_desired(), true);
    assert_eq!(message.recursion_available(), true);
    assert_eq!(message.response_code(), ResponseCode::NoError);
    assert_eq!(message.questions().len(), 0);
    assert_eq!(message.answers().len(), 0);
    assert_eq!(message.authorities().len(), 0);
    assert_eq!(message.additional().len(), 0);
}

#[test]
fn message_test_write() {
    let message = Message::new(0x6A20)
        .set_is_response(true)
        .set_opcode(OpCode::Query)
        .set_is_authoritative_answer(false)
        .set_is_truncation(false)
        .set_recursion_desired(true)
        .set_recursion_available(true)
        .set_response_code(ResponseCode::NoError);
    let mut writer = DatagramWriter::new();
    let len = writer.write_message(&message);
    assert_eq!(len, 12);
    assert_eq!(
        &writer.buffer()[0..12],
        &[
            0x6A as u8, 0x20, // id = 0x6A20
            0x81, // QR = 1, Opcode = 0, AA = 0, TC = 0, RD = 1
            0x80, // RA = 1, Z = 0, RCODE = 0
            0x00, 0x00, // QDCOUNT = 0
            0x00, 0x00, // ANCOUNT = 0
            0x00, 0x00, // NSCOUNT = 0
            0x00, 0x00, // ARCOUNT = 0
        ]
    );
}

#[test]
fn message_test_read() {
    let buffer: [u8; 105] = [
        106, 32, 129, 128, 0, 1, 0, 0, 0, 1, 0, 1, // id = 0x6A20
        3, 99, 111, 109, 0, 0, 1, 0, 1, 192, 12, 0, 6, 0, 1, 0, 0, 3, 132, 0, 61, 1, 97, 12, 103,
        116, 108, 100, 45, 115, 101, 114, 118, 101, 114, 115, 3, 110, 101, 116, 0, 5, 110, 115,
        116, 108, 100, 12, 118, 101, 114, 105, 115, 105, 103, 110, 45, 103, 114, 115, 192, 12, 103,
        98, 9, 231, 0, 0, 7, 8, 0, 0, 3, 132, 0, 9, 58, 128, 0, 0, 3, 132, 0, 0, 41, 4, 208, 0, 0,
        0, 0, 0, 0,
    ];
    let message = DatagramReader::new(&buffer).read_message().unwrap();
    assert_eq!(message.id(), 0x6A20);
}

#[test]
fn message_round_trip() {
    let question = Question::new(
        "alice.nostr.dns.name.".parse().unwrap(),
        QueryType::Type(RecordType::A),
        QueryClass::Class(Class::In),
    );
    let answers: Vec<Record> = vec![
        "alice.nostr.dns.name. 3600 IN A 10.0.0.1".parse().unwrap(),
        "alice.nostr.dns.name. 60 IN MX 5 mail.alice.nostr.dns.name.".parse().unwrap(),
        "alice.nostr.dns.name. 60 IN TXT \"hello there\"".parse().unwrap(),
        "alice.nostr.dns.name. 60 IN AAAA 2001:db8::1".parse().unwrap(),
    ];
    let message = Message::new(0x1234)
        .set_is_response(true)
        .set_recursion_desired(true)
        .set_questions(vec![question.clone()])
        .set_answers(answers.clone());
    let mut writer = DatagramWriter::new();
    let len = writer.write_message(&message);
    let bytes = &writer.buffer()[0..len];
    let decoded = DatagramReader::new(bytes).read_message().unwrap();
    assert_eq!(decoded.id(), 0x1234);
    assert_eq!(decoded.is_response(), true);
    assert_eq!(decoded.is_truncation(), false);
    assert_eq!(decoded.questions(), &vec![question]);
    assert_eq!(decoded.answers(), &answers);
    assert_eq!(decoded.authorities().len(), 0);
    assert_eq!(decoded.additional().len(), 0);
}

#[test]
fn message_truncation_sets_tc_and_counts() {
    // many records cannot fit 512 octets; the datagram must stay whole
    let mut answers: Vec<Record> = Vec::new();
    for _ in 0..40 {
        answers.push("a-rather-long-label-for-packing.example.com. 3600 IN TXT \"0123456789 0123456789 0123456789\"".parse().unwrap());
    }
    let total = answers.len();
    let message = Message::new(7).set_is_response(true).set_answers(answers);
    let mut writer = DatagramWriter::new();
    let len = writer.write_message(&message);
    assert!(len <= UDP_LENGTH_LIMIT);
    let decoded = DatagramReader::new(&writer.buffer()[0..len]).read_message().unwrap();
    assert_eq!(decoded.is_truncation(), true);
    assert!(decoded.answers().len() < total);
    // every decoded record is one the encoder was given, in order
    for rec in decoded.answers() {
        assert_eq!(rec.to_string(), "a-rather-long-label-for-packing.example.com. 3600 IN TXT \"0123456789 0123456789 0123456789\"");
    }
}

#[test]
fn forward_pointer_rejected() {
    // a pointer that leads forward must fail the whole name
    let datagram = [
        0b1100_0000, 5, // pointer to offset 5: not strictly backward
        0, 0, 0, 0,
    ];
    let mut reader = DatagramReader::new(&datagram);
    assert!(reader.read_name().is_none());

    // a self-referential pointer must fail too
    let datagram2 = [0b1100_0000u8, 0];
    let mut reader2 = DatagramReader::new(&datagram2);
    assert!(reader2.read_name().is_none());
}
