use vstd::prelude::*;

use crate::label::Label;
use crate::message::{spec_empty_response, Message, ResponseCode, SpecMessage};
use crate::name::{is_strict_suffix, Name};
use crate::resolver::{spec_resolve, InMemoryAuthority, Resolver};
use crate::zone_file::spec_parse_zone;

verus! {

/// The authoritative side of the server: it owns a zone origin, reads the
/// token label out of a query name, and answers a query against the zone
/// file fetched for that label's owner.
pub struct NostrAuthority {
    origin: Name,
}

/// The zone assembled for a query: the label before the origin, with the
/// origin behind it.
pub open spec fn spec_zone_name(origin: Seq<Seq<char>>, qname: Seq<Seq<char>>) -> Seq<Seq<char>> {
    qname.skip(qname.len() - origin.len() - 1)
}

/// The token label of a query name: the label just before the origin.
pub open spec fn spec_token_label(origin: Seq<Seq<char>>, qname: Seq<Seq<char>>) -> Seq<char> {
    qname[qname.len() - origin.len() - 1]
}

impl NostrAuthority {
    pub fn new(origin: Name) -> (r: NostrAuthority)
        ensures
            r@ == origin@,
    {
        NostrAuthority { origin }
    }

    pub closed spec fn view(&self) -> Seq<Seq<char>> {
        self.origin@
    }

    pub fn origin(&self) -> (r: &Name)
        ensures
            r@ == self@,
    {
        &self.origin
    }

    /// Check if the domain name has the shape
    /// "[<subdomain>.]<label>.<origin>.": the origin must be a strict
    /// suffix.
    pub fn is_valid_dns_nostr_name(&self, name: &Name) -> (r: bool)
        ensures
            r == is_strict_suffix(name@, self@),
    {
        let nl = name.label_count();
        let ol = self.origin.label_count();
        let sub = name.is_subdomain(&self.origin);
        proof {
            if sub {
                assert(name@.len() > self@.len());
            }
        }
        nl > ol && sub
    }

    /// Extract the label of the queried name token.
    ///
    /// Suppose the origin is "nostr.dns.name." and the query is
    /// "token.nostr.dns.name."; then the label is "token".
    pub fn extract_token_label(&self, name: &Name) -> (r: Option<Label>)
        ensures
            is_strict_suffix(name@, self@) ==> (r matches Some(l) && l@ == spec_token_label(
                self@,
                name@,
            )),
            !is_strict_suffix(name@, self@) ==> r is None,
    {
        if !self.is_valid_dns_nostr_name(name) {
            return None;
        }
        let idx = name.label_count() - self.origin.label_count() - 1;
        Some(name.label_at(idx).clone())
    }

    /// Extract the zone name of the queried name token.
    ///
    /// Suppose the origin is "nostr.dns.name." and the query is
    /// "sub.token.nostr.dns.name."; then the zone is
    /// "token.nostr.dns.name.".
    pub fn extract_zone_name(&self, name: &Name) -> (r: Option<Name>)
        ensures
            is_strict_suffix(name@, self@) ==> (r matches Some(z) && z@ == spec_zone_name(
                self@,
                name@,
            )),
            !is_strict_suffix(name@, self@) ==> r is None,
    {
        if !self.is_valid_dns_nostr_name(name) {
            return None;
        }
        let idx = name.label_count() - self.origin.label_count() - 1;
        let suffixes = name.suffix_names();
        proof {
            assert(suffixes@[idx as int]@ == name@.skip(idx as int));
        }
        Some(suffixes[idx].clone())
    }

    /// Answers a query against the zone-file text fetched for its label's
    /// owner: the text is parsed relative to the assembled zone name, and
    /// the query is resolved against those records.
    pub fn answer_with_zone(&self, request: &Message, zone_text: &str) -> (r: Message)
        ensures
            request@.questions.len() == 0 ==> r@ == (SpecMessage {
                response_code: ResponseCode::FormatError,
                ..spec_empty_response(request@)
            }),
            request@.questions.len() > 0 && !is_strict_suffix(
                request@.questions[0].name,
                self@,
            ) ==> r@ == (SpecMessage {
                response_code: ResponseCode::NameError,
                ..spec_empty_response(request@)
            }),
            request@.questions.len() > 0 && is_strict_suffix(request@.questions[0].name, self@)
                ==> r@ == spec_resolve(
                spec_parse_zone(
                    zone_text@,
                    spec_zone_name(self@, request@.questions[0].name),
                ),
                request@,
            ),
    {
        if request.questions().len() == 0 {
            return request.into_response(ResponseCode::FormatError);
        }
        let qname = request.questions()[0].name();
        let zone = match self.extract_zone_name(qname) {
            None => {
                return request.into_response(ResponseCode::NameError);
            },
            Some(z) => z,
        };
        let records = crate::zone_file::parse_str_relative(zone_text, &zone);
        let authority = InMemoryAuthority::new(records);
        authority.resolve(request)
    }
}

} // verus!
