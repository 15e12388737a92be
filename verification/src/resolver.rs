use vstd::prelude::*;

use crate::class::Class;
use crate::data::{Data, SpecData};
use crate::message::{spec_empty_response, Message, OpCode, ResponseCode, SpecMessage};
use crate::name::Name;
use crate::query_class::QueryClass;
use crate::query_type::QueryType;
use crate::question::{spec_question_matches, Question, SpecQuestion};
use crate::record::{Record, SpecRecord};
use crate::record_type::RecordType;

verus! {

/// How deep a CNAME chain is followed before the chase stops.
pub const MAX_CNAME_DEPTH: usize = 16;

/// How many worklist steps the glue collection takes before it stops; this
/// breaks CNAME cycles among name server targets.
pub const MAX_GLUE_STEPS: usize = 64;

/// Answers DNS messages.
pub trait Resolver {
    fn resolve(&self, request: &Message) -> Message;
}

/// A resolver that answers every query with the empty response.
pub struct EmptyResolver {}

impl EmptyResolver {
    pub fn new() -> (r: EmptyResolver) {
        EmptyResolver {  }
    }
}

impl Resolver for EmptyResolver {
    fn resolve(&self, request: &Message) -> Message {
        request.into_response(ResponseCode::NoError)
    }
}

/// The records matching a question, in record-set order.
pub open spec fn spec_lookup(records: Seq<SpecRecord>, q: SpecQuestion) -> Seq<SpecRecord> {
    records.filter(|r: SpecRecord| spec_question_matches(q, r))
}

/// The question asking for records of one type at one name.
pub open spec fn spec_sub_question(q: SpecQuestion, name: Seq<Seq<char>>, t: RecordType) -> SpecQuestion {
    SpecQuestion { name, query_type: QueryType::Type(t), query_class: q.query_class }
}

/// The authority records of the closest ancestor (the query name included)
/// that has NS records, walking toward the root from suffix `k`.
pub open spec fn spec_find_authority(
    records: Seq<SpecRecord>,
    q: SpecQuestion,
    k: int,
) -> Seq<SpecRecord>
    decreases q.name.len() - k + 1,
{
    if !(0 <= k <= q.name.len()) {
        Seq::empty()
    } else {
        let ns = spec_lookup(records, spec_sub_question(q, q.name.skip(k), RecordType::Ns));
        if ns.len() > 0 {
            ns
        } else {
            spec_find_authority(records, q, k + 1)
        }
    }
}

/// The glue for a worklist of referral records: for each NS or CNAME
/// target, its A, AAAA and CNAME records, transitively, bounded by `fuel`.
pub open spec fn spec_glue(records: Seq<SpecRecord>, worklist: Seq<SpecRecord>, fuel: nat) -> Seq<
    SpecRecord,
>
    decreases fuel,
{
    if fuel == 0 || worklist.len() == 0 {
        Seq::empty()
    } else {
        let rec = worklist.last();
        let rest = worklist.drop_last();
        let target = match rec.data {
            SpecData::Ns(t) => Some(t),
            SpecData::Cname(t) => Some(t),
            _ => None,
        };
        match target {
            None => spec_glue(records, rest, (fuel - 1) as nat),
            Some(t) => {
                let found = spec_glue_found(records, rec.class, t);
                found + spec_glue(records, rest + found, (fuel - 1) as nat)
            },
        }
    }
}

/// The A, AAAA and CNAME records at one glue target.
pub open spec fn spec_glue_found(
    records: Seq<SpecRecord>,
    class: Class,
    target: Seq<Seq<char>>,
) -> Seq<SpecRecord> {
    let qc = SpecQuestion {
        name: target,
        query_type: QueryType::Type(RecordType::A),
        query_class: QueryClass::Class(class),
    };
    let a = spec_lookup(records, qc);
    let aaaa = spec_lookup(
        records,
        SpecQuestion { query_type: QueryType::Type(RecordType::Aaaa), ..qc },
    );
    let cn = spec_lookup(
        records,
        SpecQuestion { query_type: QueryType::Type(RecordType::Cname), ..qc },
    );
    a + aaaa + cn
}

/// The answer, authority and additional sections for a question, per RFC
/// 1034: direct answers, else a CNAME chase bounded by `depth`, else a
/// referral with glue.
pub open spec fn spec_resolve_question(
    records: Seq<SpecRecord>,
    q: SpecQuestion,
    depth: nat,
) -> (Seq<SpecRecord>, Seq<SpecRecord>, Seq<SpecRecord>)
    decreases depth,
{
    let answers = spec_lookup(records, q);
    if answers.len() > 0 || q.query_type == QueryType::Type(RecordType::Cname) {
        (answers, Seq::empty(), Seq::empty())
    } else {
        let cnames = spec_lookup(
            records,
            SpecQuestion { query_type: QueryType::Type(RecordType::Cname), ..q },
        );
        if cnames.len() > 0 {
            match cnames[0].data {
                SpecData::Cname(target) => {
                    if depth == 0 {
                        (seq![cnames[0]], Seq::empty(), Seq::empty())
                    } else {
                        let chased = spec_resolve_question(
                            records,
                            SpecQuestion { name: target, ..q },
                            (depth - 1) as nat,
                        );
                        (seq![cnames[0]] + chased.0, chased.1, chased.2)
                    }
                },
                _ => (Seq::empty(), Seq::empty(), Seq::empty()),
            }
        } else {
            let authorities = spec_find_authority(records, q, 0);
            if authorities.len() > 0 {
                (
                    Seq::empty(),
                    authorities,
                    spec_glue(records, authorities, MAX_GLUE_STEPS as nat),
                )
            } else {
                (Seq::empty(), Seq::empty(), Seq::empty())
            }
        }
    }
}

/// The response to a message: only QUERY is implemented, a query without a
/// question is malformed, and the first question is resolved against the
/// record set.
pub open spec fn spec_resolve(records: Seq<SpecRecord>, m: SpecMessage) -> SpecMessage {
    if m.opcode != OpCode::Query {
        SpecMessage { response_code: ResponseCode::NotImplemented, ..spec_empty_response(m) }
    } else if m.questions.len() == 0 {
        SpecMessage { response_code: ResponseCode::FormatError, ..spec_empty_response(m) }
    } else {
        let sections = spec_resolve_question(records, m.questions[0], MAX_CNAME_DEPTH as nat);
        SpecMessage {
            answers: sections.0,
            authorities: sections.1,
            additional: sections.2,
            ..spec_empty_response(m)
        }
    }
}

/// An authoritative record set held in memory.
pub struct InMemoryAuthority {
    records: Vec<Record>,
}

impl View for InMemoryAuthority {
    type V = Seq<SpecRecord>;

    closed spec fn view(&self) -> Seq<SpecRecord> {
        self.records.deep_view()
    }
}

impl InMemoryAuthority {
    pub fn new(records: Vec<Record>) -> (r: InMemoryAuthority)
        ensures
            r@ == records.deep_view(),
    {
        InMemoryAuthority { records }
    }

    /// The records matching the question, in record-set order.
    pub fn lookup(&self, question: &Question) -> (r: Vec<Record>)
        ensures
            r.deep_view() == spec_lookup(self@, question@),
    {
        let n = self.records.len();
        let mut out: Vec<Record> = Vec::new();
        let mut i: usize = 0;
        while i < n
            invariant
                i <= n,
                n == self.records@.len(),
                out.deep_view() =~~= spec_lookup(
                    self.records.deep_view().take(i as int),
                    question@,
                ),
            decreases n - i,
        {
            let ghost prefix = self.records.deep_view().take(i as int);
            proof {
                assert(self.records.deep_view().take(i + 1).drop_last() =~~= prefix);
                assert(self.records.deep_view().take(i + 1).last() == self.records@[i as int]@);
            }
            if question.matches(&self.records[i]) {
                out.push(self.records[i].clone());
            }
            i = i + 1;
            proof {
                reveal_with_fuel(Seq::filter, 2);
                assert(out.deep_view() =~~= spec_lookup(
                    self.records.deep_view().take(i as int),
                    question@,
                ));
            }
        }
        proof {
            assert(self.records.deep_view().take(n as int) =~~= self.records.deep_view());
        }
        out
    }

    /// Resolves one question per RFC 1034 section 4.3.2: direct answers, a
    /// bounded CNAME chase, or a referral with glue.
    pub fn resolve_question(&self, question: &Question) -> (r: (Vec<Record>, Vec<Record>, Vec<
        Record,
    >))
        ensures
            (r.0.deep_view(), r.1.deep_view(), r.2.deep_view()) == spec_resolve_question(
                self@,
                question@,
                MAX_CNAME_DEPTH as nat,
            ),
    {
        self.resolve_question_depth(question, MAX_CNAME_DEPTH)
    }

    fn resolve_question_depth(&self, question: &Question, depth: usize) -> (r: (
        Vec<Record>,
        Vec<Record>,
        Vec<Record>,
    ))
        ensures
            (r.0.deep_view(), r.1.deep_view(), r.2.deep_view()) == spec_resolve_question(
                self@,
                question@,
                depth as nat,
            ),
        decreases depth,
    {
        let answers = self.lookup(question);
        let is_cname_query = match question.query_type() {
            QueryType::Type(RecordType::Cname) => true,
            _ => false,
        };
        if answers.len() > 0 || is_cname_query {
            let r = (answers, Vec::<Record>::new(), Vec::<Record>::new());
            proof {
                assert(r.1.deep_view() =~~= Seq::<SpecRecord>::empty());
                assert(r.2.deep_view() =~~= Seq::<SpecRecord>::empty());
            }
            return r;
        }
        let cname_question = Question::new(
            question.name().clone(),
            QueryType::Type(RecordType::Cname),
            question.query_class(),
        );
        proof {
            assert(cname_question@ == (SpecQuestion {
                query_type: QueryType::Type(RecordType::Cname),
                ..question@
            }));
        }
        let cnames = self.lookup(&cname_question);
        if cnames.len() > 0 {
            proof {
                assert(cnames.deep_view()[0] == cnames@[0]@);
            }
            let target: Name = match cnames[0].data() {
                Data::Cname(cd) => cd.cname().clone(),
                _ => {
                    let r = (Vec::<Record>::new(), Vec::<Record>::new(), Vec::<Record>::new());
                    proof {
                        assert(r.0.deep_view() =~~= Seq::<SpecRecord>::empty());
                        assert(r.1.deep_view() =~~= Seq::<SpecRecord>::empty());
                        assert(r.2.deep_view() =~~= Seq::<SpecRecord>::empty());
                    }
                    return r;
                },
            };
            let first = cnames[0].clone();
            if depth == 0 {
                let mut only: Vec<Record> = Vec::new();
                only.push(first);
                let r = (only, Vec::<Record>::new(), Vec::<Record>::new());
                proof {
                    assert(r.0.deep_view() =~~= seq![cnames.deep_view()[0]]);
                    assert(r.1.deep_view() =~~= Seq::<SpecRecord>::empty());
                    assert(r.2.deep_view() =~~= Seq::<SpecRecord>::empty());
                }
                return r;
            }
            let chased_question = Question::new(target, question.query_type(), question.query_class());
            let (mut chased, authorities, additional) = self.resolve_question_depth(
                &chased_question,
                depth - 1,
            );
            chased.insert(0, first);
            let r = (chased, authorities, additional);
            proof {
                let spec_r = spec_resolve_question(self@, question@, depth as nat);
                assert(r.0.deep_view() =~~= spec_r.0);
            }
            return r;
        }
        let authorities = self.find_authority_records(question);
        if authorities.len() > 0 {
            let glue = self.find_authority_glue_records(&authorities);
            let r = (Vec::<Record>::new(), authorities, glue);
            proof {
                assert(r.0.deep_view() =~~= Seq::<SpecRecord>::empty());
            }
            return r;
        }
        let r = (Vec::<Record>::new(), Vec::<Record>::new(), Vec::<Record>::new());
        proof {
            assert(r.0.deep_view() =~~= Seq::<SpecRecord>::empty());
            assert(r.1.deep_view() =~~= Seq::<SpecRecord>::empty());
            assert(r.2.deep_view() =~~= Seq::<SpecRecord>::empty());
        }
        r
    }

    /// The NS records of the closest ancestor of the query name that has
    /// any, the query name itself included.
    fn find_authority_records(&self, question: &Question) -> (r: Vec<Record>)
        ensures
            r.deep_view() == spec_find_authority(self@, question@, 0),
    {
        let suffixes = question.name().suffix_names();
        let count = suffixes.len();
        let mut k: usize = 0;
        while k < count
            invariant
                k <= count,
                count == question@.name.len() + 1,
                suffixes@.len() == count,
                forall|m: int|
                    0 <= m < count ==> #[trigger] suffixes@[m]@ == question@.name.skip(m),
                spec_find_authority(self@, question@, 0) == spec_find_authority(
                    self@,
                    question@,
                    k as int,
                ),
            decreases count - k,
        {
            let q = Question::new(
                suffixes[k].clone(),
                QueryType::Type(RecordType::Ns),
                question.query_class(),
            );
            proof {
                assert(q@ == spec_sub_question(question@, question@.name.skip(k as int), RecordType::Ns));
            }
            let ns = self.lookup(&q);
            if ns.len() > 0 {
                return ns;
            }
            k = k + 1;
        }
        let r = Vec::<Record>::new();
        proof {
            assert(r.deep_view() =~~= Seq::<SpecRecord>::empty());
        }
        r
    }

    /// The A, AAAA and CNAME records reached from the referral records'
    /// targets, transitively, bounded to break cycles.
    fn find_authority_glue_records(&self, authority_records: &Vec<Record>) -> (r: Vec<Record>)
        ensures
            r.deep_view() == spec_glue(
                self@,
                authority_records.deep_view(),
                MAX_GLUE_STEPS as nat,
            ),
    {
        let mut worklist = crate::record::clone_records(authority_records);
        let mut glue: Vec<Record> = Vec::new();
        let mut fuel: usize = MAX_GLUE_STEPS;
        let ghost total = spec_glue(self@, authority_records.deep_view(), MAX_GLUE_STEPS as nat);
        proof {
            assert(glue.deep_view() =~~= Seq::<SpecRecord>::empty());
        }
        while fuel > 0 && worklist.len() > 0
            invariant
                glue.deep_view() + spec_glue(self@, worklist.deep_view(), fuel as nat) == total,
            decreases fuel,
        {
            let ghost pre_worklist = worklist.deep_view();
            let ghost pre_glue = glue.deep_view();
            let record_to_glue = worklist.pop().unwrap();
            proof {
                assert(worklist.deep_view() =~~= pre_worklist.drop_last());
                assert(record_to_glue@ == pre_worklist.last());
            }
            fuel = fuel - 1;
            let target: Option<Name> = match record_to_glue.data() {
                Data::Ns(d) => Some(d.name_server().clone()),
                Data::Cname(d) => Some(d.cname().clone()),
                _ => None,
            };
            match target {
                None => {
                    proof {
                        assert(spec_glue(self@, pre_worklist, (fuel + 1) as nat) == spec_glue(
                            self@,
                            pre_worklist.drop_last(),
                            fuel as nat,
                        ));
                        assert(glue.deep_view() + spec_glue(
                            self@,
                            worklist.deep_view(),
                            fuel as nat,
                        ) == total);
                    }
                },
                Some(name) => {
                    let ghost spec_found = spec_glue_found(
                        self@,
                        record_to_glue@.class,
                        name@,
                    );
                    let qa = Question::new(
                        name.clone(),
                        QueryType::Type(RecordType::A),
                        QueryClass::Class(record_to_glue.class()),
                    );
                    let a_records = self.lookup(&qa);
                    let qaaaa = Question::new(
                        name.clone(),
                        QueryType::Type(RecordType::Aaaa),
                        QueryClass::Class(record_to_glue.class()),
                    );
                    let aaaa_records = self.lookup(&qaaaa);
                    let qcn = Question::new(
                        name,
                        QueryType::Type(RecordType::Cname),
                        QueryClass::Class(record_to_glue.class()),
                    );
                    let cname_records = self.lookup(&qcn);
                    let mut found = a_records;
                    let mut aaaa2 = aaaa_records;
                    let mut cname2 = cname_records;
                    found.append(&mut aaaa2);
                    proof {
                        assert(found.deep_view() =~~= spec_lookup(self@, qa@) + spec_lookup(
                            self@,
                            qaaaa@,
                        ));
                    }
                    found.append(&mut cname2);
                    proof {
                        assert(found.deep_view() =~~= spec_found);
                    }
                    let mut found_for_worklist = crate::record::clone_records(&found);
                    let mut found2 = found;
                    glue.append(&mut found2);
                    worklist.append(&mut found_for_worklist);
                    proof {
                        assert(glue.deep_view() =~~= pre_glue + spec_found);
                        assert(worklist.deep_view() =~~= pre_worklist.drop_last() + spec_found);
                        assert(spec_glue(self@, pre_worklist, (fuel + 1) as nat) == spec_found
                            + spec_glue(
                            self@,
                            pre_worklist.drop_last() + spec_found,
                            fuel as nat,
                        ));
                        assert(pre_glue + (spec_found + spec_glue(
                            self@,
                            worklist.deep_view(),
                            fuel as nat,
                        )) =~~= (pre_glue + spec_found) + spec_glue(
                            self@,
                            worklist.deep_view(),
                            fuel as nat,
                        ));
                        assert(glue.deep_view() + spec_glue(
                            self@,
                            worklist.deep_view(),
                            fuel as nat,
                        ) == total);
                    }
                },
            }
        }
        proof {
            assert(spec_glue(self@, worklist.deep_view(), fuel as nat) =~~= Seq::<
                SpecRecord,
            >::empty());
            assert(glue.deep_view() =~~= glue.deep_view() + Seq::<SpecRecord>::empty());
            assert(glue.deep_view() =~~= total);
        }
        glue
    }

    /// Resolves a query message: the first question is answered; a message
    /// without a question is malformed.
    fn resolve_query(&self, request: &Message) -> (r: Message)
        ensures
            request@.opcode == OpCode::Query ==> r@ == spec_resolve(self@, request@),
    {
        if request.questions().len() == 0 {
            return request.into_response(ResponseCode::FormatError);
        }
        let question = request.questions()[0].clone();
        proof {
            assert(question@ == request@.questions[0]);
        }
        let (answers, authorities, additional) = self.resolve_question(&question);
        request.into_response(ResponseCode::NoError).set_answers(answers).set_authorities(
            authorities,
        ).set_additional(additional)
    }
}

impl Resolver for InMemoryAuthority {
    /// Resolves a message: only QUERY is implemented.
    fn resolve(&self, request: &Message) -> (r: Message)
        ensures
            r@ == spec_resolve(self@, request@),
    {
        match request.opcode() {
            OpCode::Query => self.resolve_query(request),
            _ => request.into_response(ResponseCode::NotImplemented),
        }
    }
}

/// Resolution is a function of the record set and the request alone:
/// resolving the same query against an unchanging record set returns equal
/// message contents.
pub proof fn lemma_resolver_idempotent(
    a1: InMemoryAuthority,
    a2: InMemoryAuthority,
    m1: Message,
    m2: Message,
)
    requires
        a1@ == a2@,
        m1@ == m2@,
    ensures
        spec_resolve(a1@, m1@) == spec_resolve(a2@, m2@),
{
}

} // verus!
