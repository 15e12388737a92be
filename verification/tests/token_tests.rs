use dns_nostr::dns_nostr_token::DnsNostrToken;
use dns_nostr::message::{Message, OpCode, ResponseCode};
use dns_nostr::name::Name;
use dns_nostr::name_token::{Inscription, InscriptionMetadata, InscriptionSection, NameToken, OutPoint};
use dns_nostr::name_token_registry::{BlockData, NameTokenRegistry, TransactionData};
use dns_nostr::resolver::{InMemoryAuthority, Resolver};
use dns_nostr::zone_file::parse_str;
use dns_nostr::nostr_authority::NostrAuthority;
use dns_nostr::question::Question;

fn meta(blockheight: u64, blockindex: u64, vout: u32) -> InscriptionMetadata {
    InscriptionMetadata {
        blockheight,
        blockindex,
        vout,
        txid: vec![0; 32],
    }
}

#[test]
fn test_inscription_ordering() {
    let older = meta(0, 0, 0);
    let by_vout = meta(0, 0, 1);
    let by_index = meta(0, 1, 0);
    let by_height = meta(1, 0, 0);
    assert!(older.lt(&by_vout));
    assert!(by_vout.lt(&by_index));
    assert!(by_index.lt(&by_height));
    assert!(!by_height.lt(&older));
    assert!(!older.lt(&older));
}

#[test]
fn test_from_txout() {
    let nostr_pubkey: [u8; 32] = [
        0xff, 0xf7, 0x9a, 0xc1, 0xea, 0x96, 0x51, 0x30, 0x4e, 0xd4, 0xb7, 0x1a, 0x05, 0x43, 0x72,
        0xad, 0x5a, 0x26, 0x2b, 0xe6, 0x12, 0xdd, 0xa0, 0x58, 0x8a, 0xeb, 0x84, 0x61, 0x77, 0xbd,
        0x29, 0xe2,
    ];
    let envelope = bitcoin::script::Builder::default()
        .push_opcode(bitcoin::opcodes::OP_FALSE)
        .push_opcode(bitcoin::opcodes::all::OP_IF)
        .push_slice(b"name")
        .push_slice(b"label")
        .push_opcode(bitcoin::opcodes::all::OP_NOP)
        .push_slice(b"protocol-0")
        .push_slice(b"arg1")
        .push_slice(b"arg2")
        .push_opcode(bitcoin::opcodes::all::OP_NOP)
        .push_slice(b"dns-nostr")
        .push_slice(nostr_pubkey)
        .push_opcode(bitcoin::opcodes::all::OP_ENDIF)
        .into_script();
    let p2pkh_script = bitcoin::ScriptBuf::new_p2pkh(&bitcoin::PubkeyHash::from_raw_hash(
        <bitcoin::hashes::hash160::Hash as bitcoin::hashes::Hash>::all_zeros(),
    ));
    let mut bytes = envelope.into_bytes();
    bytes.extend_from_slice(p2pkh_script.as_bytes());
    let script_pubkey = bitcoin::ScriptBuf::from_bytes(bytes);
    println!("Script: {}", script_pubkey.to_asm_string());
    let txout = bitcoin::TxOut {
        value: bitcoin::Amount::from_sat(0),
        script_pubkey,
    };
    let inscription = Inscription::from_txout(&txout).unwrap();
    assert_eq!(inscription.label, b"label");
    assert_eq!(inscription.sections.len(), 2);
    assert_eq!(inscription.sections[0].protocol, b"protocol-0");
    assert_eq!(inscription.sections[0].arguments.len(), 2);
    assert_eq!(inscription.sections[0].arguments[0], b"arg1");
    assert_eq!(inscription.sections[0].arguments[1], b"arg2");
    assert_eq!(inscription.sections[1].protocol, b"dns-nostr");
    assert_eq!(inscription.sections[1].arguments.len(), 1);
    assert_eq!(inscription.sections[1].arguments[0], nostr_pubkey);
}

#[test]
fn test_lifetime() {
    let label = b"label".to_vec();

    // Token creation
    let metadata = meta(1, 0, 0);
    let section_0 = InscriptionSection {
        protocol: b"section-0".to_vec(),
        arguments: vec![b"arg1".to_vec(), b"arg2".to_vec()],
    };
    let name_token = NameToken::create(
        Inscription {
            label: label.clone(),
            sections: vec![section_0],
        },
        metadata,
    );

    // Check initial state
    assert_eq!(name_token.label, b"label");
    assert_eq!(name_token.first_inscription_metadata.blockheight, 1);
    assert_eq!(name_token.last_inscription_metadata.blockheight, 1);
    assert!(!name_token.is_revoked());
    assert!(name_token.protocol_args(&b"section-0".to_vec()).is_some());
    assert!(name_token.protocol_args(&b"nonexistent".to_vec()).is_none());

    // Update with a new inscription
    let metadata = meta(2, 0, 0);
    let section_1 = InscriptionSection {
        protocol: b"section-1".to_vec(),
        arguments: vec![b"arg3".to_vec(), b"arg4".to_vec()],
    };
    let updated_token = name_token
        .update(
            Inscription {
                label: label.clone(),
                sections: vec![section_1],
            },
            metadata,
        )
        .unwrap();

    // Check updated state
    assert_eq!(updated_token.label, b"label");
    assert_eq!(updated_token.first_inscription_metadata.blockheight, 1);
    assert_eq!(updated_token.last_inscription_metadata.blockheight, 2);
    assert!(!updated_token.is_revoked());
    assert!(updated_token.protocol_args(&b"section-0".to_vec()).is_none());
    assert!(updated_token.protocol_args(&b"section-1".to_vec()).is_some());

    // Revoke the token
    let revoked_token = updated_token.revoke();
    assert_eq!(revoked_token.label, b"label");
    assert_eq!(revoked_token.first_inscription_metadata.blockheight, 1);
    assert_eq!(revoked_token.last_inscription_metadata.blockheight, 2);
    assert!(revoked_token.is_revoked());
    assert!(revoked_token.protocol_args(&b"section-0".to_vec()).is_none());
    assert!(revoked_token.protocol_args(&b"section-1".to_vec()).is_none());
}

#[test]
fn test_try_from_name_token() {
    let nostr_pubkey = vec![0u8; 32];
    let name_token = NameToken::create(
        Inscription {
            label: b"domain".to_vec(),
            sections: vec![InscriptionSection {
                protocol: b"dns-nostr".to_vec(),
                arguments: vec![nostr_pubkey.clone()],
            }],
        },
        meta(0, 0, 0),
    );
    let dns_nostr_token = DnsNostrToken::try_from_name_token(&name_token).unwrap();
    assert_eq!(dns_nostr_token.label.to_string(), "domain");
    assert_eq!(dns_nostr_token.nostr_pubkey, nostr_pubkey);
}

fn authority() -> NostrAuthority {
    NostrAuthority::new("nostr.dns.name.".parse().unwrap())
}

#[test]
fn test_is_valid_dns_nostr_name() {
    let authority = authority();

    let name = "token.nostr.dns.name.".parse().unwrap();
    assert!(authority.is_valid_dns_nostr_name(&name));

    let name = "subdomain.token.nostr.dns.name.".parse().unwrap();
    assert!(authority.is_valid_dns_nostr_name(&name));

    let name = "nostr.dns.name.".parse().unwrap();
    assert!(!authority.is_valid_dns_nostr_name(&name));

    let name = "token.notnostr.dns.name.".parse().unwrap();
    assert!(!authority.is_valid_dns_nostr_name(&name));
}

#[test]
fn test_is_dns_nostr_name() {
    let authority = authority();

    let name = "token.nostr.dns.name.".parse().unwrap();
    assert!(authority.is_valid_dns_nostr_name(&name));

    let name = "subdomain.token.nostr.dns.name.".parse().unwrap();
    assert!(authority.is_valid_dns_nostr_name(&name));

    let name = "nostr.dns.name.".parse().unwrap();
    assert!(!authority.is_valid_dns_nostr_name(&name));

    let name = "token.notnostr.dns.name.".parse().unwrap();
    assert!(!authority.is_valid_dns_nostr_name(&name));
}

#[test]
fn test_extract_token_label() {
    let authority = authority();

    let name = "token.nostr.dns.name.".parse().unwrap();
    let label = authority.extract_token_label(&name);
    assert_eq!(label, Some("token".parse().unwrap()));

    let name = "subdomain.token.nostr.dns.name.".parse().unwrap();
    let label = authority.extract_token_label(&name);
    assert_eq!(label, Some("token".parse().unwrap()));

    let name = "nostr.dns.name.".parse().unwrap();
    let label = authority.extract_token_label(&name);
    assert_eq!(label, None);

    let name = "token.notnostr.dns.name.".parse().unwrap();
    let label = authority.extract_token_label(&name);
    assert_eq!(label, None);
}

#[test]
fn test_extract_zone_name() {
    let authority = authority();

    let name = "token.nostr.dns.name.".parse().unwrap();
    let zone = authority.extract_zone_name(&name);
    assert_eq!(zone, Some("token.nostr.dns.name.".parse().unwrap()));

    let name = "subdomain.token.nostr.dns.name.".parse().unwrap();
    let zone = authority.extract_zone_name(&name);
    assert_eq!(zone, Some("token.nostr.dns.name.".parse().unwrap()));

    let name = "nostr.dns.name.".parse().unwrap();
    let zone = authority.extract_zone_name(&name);
    assert_eq!(zone, None);

    let name = "token.notnostr.dns.name.".parse().unwrap();
    let zone = authority.extract_zone_name(&name);
    assert_eq!(zone, None);
}

/// An output script inscribing `label` with a `dns-nostr` key.
fn inscription_script(label: &[u8], pubkey: &[u8; 32]) -> Vec<u8> {
    let mut push_label = vec![label.len() as u8];
    push_label.extend_from_slice(label);
    let mut script = vec![
        0x00, // empty push
        0x63, // OP_IF
        0x04, b'n', b'a', b'm', b'e',
    ];
    script.extend_from_slice(&push_label);
    script.push(0x61); // OP_NOP: a section follows
    script.push(0x09);
    script.extend_from_slice(b"dns-nostr");
    script.push(0x20);
    script.extend_from_slice(pubkey);
    script.push(0x68); // OP_ENDIF
    script
}

fn tx(txid_byte: u8, inputs: Vec<OutPoint>, output_scripts: Vec<Vec<u8>>) -> TransactionData {
    TransactionData {
        txid: vec![txid_byte; 32],
        inputs,
        output_scripts,
    }
}

#[test]
fn registry_inscription_lifecycle() {
    let pk1: [u8; 32] = [1; 32];
    let pk2: [u8; 32] = [2; 32];
    let mut registry = NameTokenRegistry::new(100);

    // block 100: tx1 output 0 mints "alice" with key pk1
    let block = BlockData {
        transactions: vec![tx(1, vec![], vec![inscription_script(b"alice", &pk1)])],
    };
    registry.sync_block(100, &block);
    assert_eq!(registry.get_next_block_height(), 101);
    let token = registry.get_name_token(&b"alice".to_vec()).unwrap();
    assert_eq!(token.first_inscription_metadata.blockheight, 100);
    assert_eq!(token.last_inscription_metadata.blockheight, 100);
    let dn = DnsNostrToken::try_from_name_token(&token).unwrap();
    assert_eq!(dn.nostr_pubkey, pk1.to_vec());

    // block 110: tx2 spends tx1:0 and re-inscribes "alice" with key pk2
    let spend = OutPoint {
        txid: vec![1; 32],
        vout: 0,
    };
    let block = BlockData {
        transactions: vec![tx(2, vec![spend], vec![inscription_script(b"alice", &pk2)])],
    };
    registry.sync_block(110, &block);
    let token = registry.get_name_token(&b"alice".to_vec()).unwrap();
    assert_eq!(token.first_inscription_metadata.blockheight, 100);
    assert_eq!(token.last_inscription_metadata.blockheight, 110);
    let dn = DnsNostrToken::try_from_name_token(&token).unwrap();
    assert_eq!(dn.nostr_pubkey, pk2.to_vec());

    // block 120: the owning outpoint is spent without a re-inscription
    let spend = OutPoint {
        txid: vec![2; 32],
        vout: 0,
    };
    let block = BlockData {
        transactions: vec![tx(3, vec![spend], vec![])],
    };
    registry.sync_block(120, &block);
    assert!(registry.get_name_token(&b"alice".to_vec()).is_none());
}

#[test]
fn registry_first_seen_wins() {
    // two inscriptions for the same label in one block: only the one at the
    // lower position yields a live token
    let pk1: [u8; 32] = [1; 32];
    let pk2: [u8; 32] = [2; 32];
    let mut registry = NameTokenRegistry::new(7);
    let block = BlockData {
        transactions: vec![
            tx(1, vec![], vec![inscription_script(b"alice", &pk1)]),
            tx(2, vec![], vec![inscription_script(b"alice", &pk2)]),
        ],
    };
    registry.sync_block(7, &block);
    let token = registry.get_name_token(&b"alice".to_vec()).unwrap();
    assert_eq!(token.first_inscription_metadata.blockindex, 0);
    let dn = DnsNostrToken::try_from_name_token(&token).unwrap();
    assert_eq!(dn.nostr_pubkey, pk1.to_vec());
    assert_eq!(registry.get_name_tokens_by_label(&b"alice".to_vec()).len(), 1);
}

#[test]
fn registry_last_meta_monotonic() {
    // get_token(L).last_meta never moves backward across block ingestions
    let pk1: [u8; 32] = [1; 32];
    let pk2: [u8; 32] = [2; 32];
    let mut registry = NameTokenRegistry::new(1);
    let block = BlockData {
        transactions: vec![tx(1, vec![], vec![inscription_script(b"bob", &pk1)])],
    };
    registry.sync_block(1, &block);
    let before = registry.get_name_token(&b"bob".to_vec()).unwrap();

    // a block not touching the token
    let block = BlockData {
        transactions: vec![tx(9, vec![], vec![inscription_script(b"carol", &pk2)])],
    };
    registry.sync_block(2, &block);
    let mid = registry.get_name_token(&b"bob".to_vec()).unwrap();
    assert!(!mid.last_inscription_metadata.lt(&before.last_inscription_metadata));

    // an update advances it
    let spend = OutPoint {
        txid: vec![1; 32],
        vout: 0,
    };
    let block = BlockData {
        transactions: vec![tx(3, vec![spend], vec![inscription_script(b"bob", &pk2)])],
    };
    registry.sync_block(3, &block);
    let after = registry.get_name_token(&b"bob".to_vec()).unwrap();
    assert!(!after.last_inscription_metadata.lt(&mid.last_inscription_metadata));
    assert!(mid.last_inscription_metadata.lt(&after.last_inscription_metadata));
}

#[test]
fn unknown_label_has_no_token() {
    // a query for a label nobody owns finds no token; the handler then
    // answers NXDOMAIN
    let registry = NameTokenRegistry::new(0);
    assert!(registry.get_name_token(&b"ghost".to_vec()).is_none());
    let request = Message::new(9)
        .set_opcode(OpCode::Query)
        .set_questions(vec!["ghost.nostr.dns.name. IN A".parse::<Question>().unwrap()]);
    let response = request.into_response(ResponseCode::NameError);
    assert_eq!(response.response_code(), ResponseCode::NameError);
    assert_eq!(response.id(), 9);
}

#[test]
fn simple_a_through_zone() {
    // Zone: alice.nostr.dns.name. 3600 IN A 10.0.0.1; query it for A
    let authority = authority();
    let request = Message::new(5)
        .set_opcode(OpCode::Query)
        .set_questions(vec!["alice.nostr.dns.name. IN A".parse::<Question>().unwrap()]);
    let response = authority.answer_with_zone(&request, "alice.nostr.dns.name. 3600 IN A 10.0.0.1");
    assert_eq!(response.response_code(), ResponseCode::NoError);
    assert_eq!(response.answers().len(), 1);
    assert_eq!(
        response.answers()[0].to_string(),
        "alice.nostr.dns.name. 3600 IN A 10.0.0.1"
    );
}

#[test]
fn cname_chase_through_zone() {
    let authority = authority();
    let zone = "www.alice.nostr.dns.name. 60 IN CNAME srv.alice.nostr.dns.name.\nsrv.alice.nostr.dns.name. 60 IN A 10.0.0.2";
    let request = Message::new(6)
        .set_opcode(OpCode::Query)
        .set_questions(vec!["www.alice.nostr.dns.name. IN A".parse::<Question>().unwrap()]);
    let response = authority.answer_with_zone(&request, zone);
    assert_eq!(response.response_code(), ResponseCode::NoError);
    assert_eq!(response.answers().len(), 2);
    assert_eq!(
        response.answers()[0].to_string(),
        "www.alice.nostr.dns.name. 60 IN CNAME srv.alice.nostr.dns.name."
    );
    assert_eq!(
        response.answers()[1].to_string(),
        "srv.alice.nostr.dns.name. 60 IN A 10.0.0.2"
    );
}

#[test]
fn invalid_name_yields_nxdomain() {
    let authority = authority();
    let request = Message::new(8)
        .set_opcode(OpCode::Query)
        .set_questions(vec!["ghost.elsewhere.example. IN A".parse::<Question>().unwrap()]);
    let response = authority.answer_with_zone(&request, "");
    assert_eq!(response.response_code(), ResponseCode::NameError);
}

#[test]
fn any_query_returns_both() {
    // records x. A and x. MX; query x. IN * returns both
    let records = vec![
        "x. 86400 IN A 1.2.3.4".parse().unwrap(),
        "x. 86400 IN MX 0 x.".parse().unwrap(),
    ];
    let request = Message::new(1)
        .set_opcode(OpCode::Query)
        .set_questions(vec!["x. IN *".parse::<Question>().unwrap()]);
    let response = InMemoryAuthority::new(records).resolve(&request);
    assert_eq!(response.answers().len(), 2);
    assert_eq!(response.answers()[0].to_string(), "x. 86400 IN A 1.2.3.4");
    assert_eq!(response.answers()[1].to_string(), "x. 86400 IN MX 0 x.");
}

#[test]
fn referral_with_glue_through_zone() {
    let records = vec![
        "mil. 86400 IN NS sri-nic.arpa.".parse().unwrap(),
        "sri-nic.arpa. 86400 IN A 26.0.0.73".parse().unwrap(),
    ];
    let request = Message::new(2)
        .set_opcode(OpCode::Query)
        .set_questions(vec!["brl.mil. IN A".parse::<Question>().unwrap()]);
    let response = InMemoryAuthority::new(records).resolve(&request);
    assert_eq!(response.answers().len(), 0);
    assert_eq!(response.authorities().len(), 1);
    assert_eq!(
        response.authorities()[0].to_string(),
        "mil. 86400 IN NS sri-nic.arpa."
    );
    assert_eq!(response.additional().len(), 1);
    assert_eq!(
        response.additional()[0].to_string(),
        "sri-nic.arpa. 86400 IN A 26.0.0.73"
    );
}

#[test]
fn blank_lines_and_comments_keep_the_record_set() {
    let plain = "alice.example. 60 IN A 10.0.0.1\nbob.example. 60 IN A 10.0.0.2";
    let noisy = "\n; a comment\nalice.example. 60 IN A 10.0.0.1\n\n   \nbob.example. 60 IN (\n    A\n    10.0.0.2 ) ; trailing comment\n";
    assert_eq!(parse_str(plain), parse_str(noisy));
}
