use vstd::prelude::*;

use crate::ascii::{all_ascii, chars_of_ascii};
use crate::label::{lower_chars, spec_label_ok, Label};
use crate::name_token::{spec_protocol_args, NameToken, SpecToken};

verus! {

/// The protocol tag binding a name token to a Nostr key: "dns-nostr".
pub open spec fn dns_nostr_tag() -> Seq<u8> {
    seq![0x64u8, 0x6eu8, 0x73u8, 0x2du8, 0x6eu8, 0x6fu8, 0x73u8, 0x74u8, 0x72u8]
}

/// A name token read for DNS use: a valid lowercase label and the owner's
/// 32-byte Nostr public key.
#[derive(Debug)]
pub struct DnsNostrToken {
    pub label: Label,
    pub nostr_pubkey: Vec<u8>,
}

#[derive(Debug, Clone, Copy, PartialEq, Eq, Structural)]
pub enum DnsNostrTokenFromNameTokenError {
    InvalidLabel,
    MissingProtocolArgs,
    InvalidPublicKey,
}

/// Label bytes fit for DNS: non-empty ASCII text in the accepted label
/// syntax that is already lowercase.
pub open spec fn spec_dns_label_ok(bytes: Seq<u8>) -> bool {
    &&& bytes.len() > 0
    &&& all_ascii(bytes)
    &&& spec_label_ok(chars_of_ascii(bytes))
    &&& lower_chars(chars_of_ascii(bytes)) == chars_of_ascii(bytes)
}

/// What reading a name token for DNS yields: the label must be fit for DNS,
/// the token must carry a "dns-nostr" section, and its first argument must
/// be a 32-byte key.
pub open spec fn spec_dns_nostr_of_token(t: SpecToken) -> Result<
    (Seq<char>, Seq<u8>),
    DnsNostrTokenFromNameTokenError,
> {
    if !spec_dns_label_ok(t.label) {
        Err(DnsNostrTokenFromNameTokenError::InvalidLabel)
    } else {
        let args = match t.inscription {
            None => None,
            Some(insc) => spec_protocol_args(insc.sections, dns_nostr_tag()),
        };
        match args {
            None => Err(DnsNostrTokenFromNameTokenError::MissingProtocolArgs),
            Some(list) => if list.len() == 0 || list[0].len() != 32 {
                Err(DnsNostrTokenFromNameTokenError::InvalidPublicKey)
            } else {
                Ok((chars_of_ascii(t.label), list[0]))
            },
        }
    }
}

impl DnsNostrToken {
    /// Reads a name token for DNS use.
    pub fn try_from_name_token(token: &NameToken) -> (r: Result<
        DnsNostrToken,
        DnsNostrTokenFromNameTokenError,
    >)
        ensures
            match r {
                Ok(d) => spec_dns_nostr_of_token(token@) == Ok::<
                    (Seq<char>, Seq<u8>),
                    DnsNostrTokenFromNameTokenError,
                >((d.label@, d.nostr_pubkey@)),
                Err(e) => spec_dns_nostr_of_token(token@) == Err::<
                    (Seq<char>, Seq<u8>),
                    DnsNostrTokenFromNameTokenError,
                >(e),
            },
    {
        let bytes = &token.label;
        let n = bytes.len();
        if n == 0 {
            return Err(DnsNostrTokenFromNameTokenError::InvalidLabel);
        }
        let mut chars: Vec<char> = Vec::new();
        let mut i: usize = 0;
        while i < n
            invariant
                i <= n,
                n == bytes@.len(),
                bytes@ == token@.label,
                chars@.len() == i,
                forall|j: int| 0 <= j < i ==> #[trigger] bytes@[j] < 128,
                forall|j: int| 0 <= j < i ==> !('A' <= (bytes@[j] as char) && (bytes@[j] as char)
                    <= 'Z'),
                forall|j: int| 0 <= j < i ==> #[trigger] chars@[j] == (bytes@[j] as char),
            decreases n - i,
        {
            let b = bytes[i];
            if b >= 128 {
                proof {
                    assert(!all_ascii(bytes@));
                }
                return Err(DnsNostrTokenFromNameTokenError::InvalidLabel);
            }
            let c = b as char;
            if 'A' <= c && c <= 'Z' {
                proof {
                    assert(chars_of_ascii(bytes@)[i as int] == c);
                    assert(lower_chars(chars_of_ascii(bytes@))[i as int] != c);
                }
                return Err(DnsNostrTokenFromNameTokenError::InvalidLabel);
            }
            chars.push(c);
            i = i + 1;
        }
        proof {
            assert(chars@ =~= chars_of_ascii(bytes@));
        }
        let label = match Label::parse_label_chars(&chars) {
            Err(_) => {
                return Err(DnsNostrTokenFromNameTokenError::InvalidLabel);
            },
            Ok(l) => l,
        };
        proof {
            assert forall|j: int|
                0 <= j < chars@.len() implies lower_chars(chars@)[j] == chars@[j] by {
                assert(!('A' <= chars@[j] && chars@[j] <= 'Z'));
            }
            assert(lower_chars(chars@) =~= chars@);
            assert(spec_dns_label_ok(token@.label));
            assert(label@ == chars_of_ascii(token@.label));
        }
        let mut tag: Vec<u8> = Vec::new();
        tag.push(0x64);
        tag.push(0x6e);
        tag.push(0x73);
        tag.push(0x2d);
        tag.push(0x6e);
        tag.push(0x6f);
        tag.push(0x73);
        tag.push(0x74);
        tag.push(0x72);
        proof {
            assert(tag@ =~= dns_nostr_tag());
        }
        let args = match token.protocol_args(&tag) {
            None => {
                return Err(DnsNostrTokenFromNameTokenError::MissingProtocolArgs);
            },
            Some(a) => a,
        };
        if args.len() == 0 {
            return Err(DnsNostrTokenFromNameTokenError::InvalidPublicKey);
        }
        proof {
            assert(args.deep_view()[0] == args@[0]@);
        }
        if args[0].len() != 32 {
            return Err(DnsNostrTokenFromNameTokenError::InvalidPublicKey);
        }
        let pk = crate::name_token::clone_bytes(&args[0]);
        Ok(DnsNostrToken { label, nostr_pubkey: pk })
    }
}

} // verus!
