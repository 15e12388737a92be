use vstd::prelude::*;

use crate::script::{decode_script, instr_rep, script_instructions, txout_script_bytes, ScriptInstr};

verus! {

/// The opcode separating inscription sections.
pub const OP_NOP: u8 = 0x61;

/// The opcode opening the inscription envelope.
pub const OP_IF: u8 = 0x63;

/// The opcode closing the inscription envelope.
pub const OP_ENDIF: u8 = 0x68;

/// The protocol tag that opens every label inscription: "name".
pub open spec fn name_tag() -> Seq<u8> {
    seq![0x6eu8, 0x61u8, 0x6du8, 0x65u8]
}

/// One section of an inscription: a protocol tag and its arguments.
#[derive(Debug)]
pub struct InscriptionSection {
    pub protocol: Vec<u8>,
    pub arguments: Vec<Vec<u8>>,
}

/// The model of a section.
pub struct SpecSection {
    pub protocol: Seq<u8>,
    pub arguments: Seq<Seq<u8>>,
}

impl View for InscriptionSection {
    type V = SpecSection;

    open spec fn view(&self) -> SpecSection {
        SpecSection { protocol: self.protocol@, arguments: self.arguments.deep_view() }
    }
}

impl DeepView for InscriptionSection {
    type V = SpecSection;

    open spec fn deep_view(&self) -> SpecSection {
        self.view()
    }
}

impl Clone for InscriptionSection {
    fn clone(&self) -> (r: InscriptionSection)
        ensures
            r@ == self@,
    {
        let r = InscriptionSection {
            protocol: clone_bytes(&self.protocol),
            arguments: clone_byte_list(&self.arguments),
        };
        proof {
            assert(r@.arguments =~~= self@.arguments);
        }
        r
    }
}

/// A label inscription: the label and its protocol sections.
#[derive(Debug)]
pub struct Inscription {
    pub label: Vec<u8>,
    pub sections: Vec<InscriptionSection>,
}

/// The model of an inscription.
pub struct SpecInscription {
    pub label: Seq<u8>,
    pub sections: Seq<SpecSection>,
}

impl View for Inscription {
    type V = SpecInscription;

    open spec fn view(&self) -> SpecInscription {
        SpecInscription { label: self.label@, sections: self.sections.deep_view() }
    }
}

impl Clone for Inscription {
    fn clone(&self) -> (r: Inscription)
        ensures
            r@ == self@,
    {
        let mut sections: Vec<InscriptionSection> = Vec::new();
        let n = self.sections.len();
        let mut i: usize = 0;
        while i < n
            invariant
                i <= n,
                n == self.sections@.len(),
                sections@.len() == i,
                forall|j: int| 0 <= j < i ==> #[trigger] sections@[j]@ == self.sections@[j]@,
            decreases n - i,
        {
            sections.push(self.sections[i].clone());
            i = i + 1;
        }
        let r = Inscription { label: clone_bytes(&self.label), sections };
        proof {
            assert forall|j: int| 0 <= j < n implies r@.sections[j] == self@.sections[j] by {
                assert(r.sections.deep_view()[j] == r.sections@[j]@);
                assert(self.sections.deep_view()[j] == self.sections@[j]@);
            }
            assert(r@.sections =~~= self@.sections);
        }
        r
    }
}

/// Copies a byte vector.
pub(crate) fn clone_bytes(v: &Vec<u8>) -> (r: Vec<u8>)
    ensures
        r@ == v@,
{
    let n = v.len();
    let mut out: Vec<u8> = Vec::new();
    let mut i: usize = 0;
    while i < n
        invariant
            i <= n,
            n == v@.len(),
            out@ =~= v@.take(i as int),
        decreases n - i,
    {
        out.push(v[i]);
        i = i + 1;
        proof {
            assert(out@ =~= v@.take(i as int));
        }
    }
    proof {
        assert(out@ =~= v@);
    }
    out
}

/// Copies a list of byte strings.
pub(crate) fn clone_byte_list(v: &Vec<Vec<u8>>) -> (r: Vec<Vec<u8>>)
    ensures
        r.deep_view() == v.deep_view(),
{
    let n = v.len();
    let mut out: Vec<Vec<u8>> = Vec::new();
    let mut i: usize = 0;
    while i < n
        invariant
            i <= n,
            n == v@.len(),
            out@.len() == i,
            forall|j: int| 0 <= j < i ==> #[trigger] out@[j]@ == v@[j]@,
        decreases n - i,
    {
        out.push(clone_bytes(&v[i]));
        i = i + 1;
    }
    proof {
        assert forall|j: int| 0 <= j < n implies out.deep_view()[j] == v.deep_view()[j] by {
            assert(out.deep_view()[j] == out@[j]@);
            assert(v.deep_view()[j] == v@[j]@);
        }
        assert(out.deep_view() =~~= v.deep_view());
    }
    out
}

// ---------------------------------------------------------------------
// The envelope grammar over decoded script instructions.
// ---------------------------------------------------------------------
/// The arguments of a section: pushes up to an OP_NOP (more sections
/// follow) or an OP_ENDIF (the envelope ends); any other opcode, or running
/// out of instructions, aborts.
pub open spec fn spec_parse_args(instrs: Seq<(bool, Seq<u8>)>, j: int) -> Option<
    (Seq<Seq<u8>>, bool, int),
>
    decreases instrs.len() - j,
{
    if j < 0 || j >= instrs.len() {
        None
    } else if instrs[j].0 {
        match spec_parse_args(instrs, j + 1) {
            None => None,
            Some((args, more, nj)) => Some((seq![instrs[j].1].add(args), more, nj)),
        }
    } else if instrs[j].1 == seq![OP_NOP] {
        Some((Seq::empty(), true, j + 1))
    } else if instrs[j].1 == seq![OP_ENDIF] {
        Some((Seq::empty(), false, j + 1))
    } else {
        None
    }
}

pub proof fn lemma_parse_args_advance(instrs: Seq<(bool, Seq<u8>)>, j: int)
    ensures
        spec_parse_args(instrs, j) matches Some(t) ==> j < t.2 <= instrs.len(),
    decreases instrs.len() - j,
{
    if 0 <= j < instrs.len() && instrs[j].0 {
        lemma_parse_args_advance(instrs, j + 1);
    }
}

/// One section: a pushed protocol tag, then its arguments.
pub open spec fn spec_parse_section(instrs: Seq<(bool, Seq<u8>)>, i: int) -> Option<
    (SpecSection, bool, int),
> {
    if 0 <= i < instrs.len() && instrs[i].0 {
        match spec_parse_args(instrs, i + 1) {
            None => None,
            Some((args, more, ni)) => Some(
                (SpecSection { protocol: instrs[i].1, arguments: args }, more, ni),
            ),
        }
    } else {
        None
    }
}

/// The sections after the header, one for each OP_NOP separator.
pub open spec fn spec_parse_sections(instrs: Seq<(bool, Seq<u8>)>, i: int) -> Option<
    Seq<SpecSection>,
>
    decreases instrs.len() - i,
{
    match spec_parse_section(instrs, i) {
        None => None,
        Some((sec, more, ni)) => {
            if !more {
                Some(seq![sec])
            } else if ni <= i || ni > instrs.len() {
                None
            } else {
                match spec_parse_sections(instrs, ni) {
                    None => None,
                    Some(rest) => Some(seq![sec].add(rest)),
                }
            }
        },
    }
}

/// A whole envelope: an empty push, OP_IF, a "name" section whose first
/// argument is the label, then the remaining sections.
pub open spec fn spec_parse_inscription(instrs: Seq<(bool, Seq<u8>)>) -> Option<SpecInscription> {
    if instrs.len() >= 2 && instrs[0] == (true, Seq::<u8>::empty()) && instrs[1] == (
    false,
    seq![OP_IF],
    ) {
        match spec_parse_section(instrs, 2) {
            None => None,
            Some((hsec, more, ni)) => {
                if hsec.protocol == name_tag() && hsec.arguments.len() >= 1 {
                    let label = hsec.arguments[0];
                    if !more {
                        Some(SpecInscription { label, sections: Seq::empty() })
                    } else if ni <= 2 || ni > instrs.len() {
                        None
                    } else {
                        match spec_parse_sections(instrs, ni) {
                            None => None,
                            Some(secs) => Some(SpecInscription { label, sections: secs }),
                        }
                    }
                } else {
                    None
                }
            },
        }
    } else {
        None
    }
}

/// Parses the arguments of a section, mirroring `spec_parse_args`.
fn parse_args(instrs: &Vec<ScriptInstr>, j: usize) -> (r: Option<(Vec<Vec<u8>>, bool, usize)>)
    ensures
        ({
            let ri = instrs@.map_values(|i: ScriptInstr| instr_rep(i));
            match r {
                Some(t) => spec_parse_args(ri, j as int) == Some(
                    (t.0.deep_view(), t.1, t.2 as int),
                ),
                None => spec_parse_args(ri, j as int) is None,
            }
        }),
    decreases instrs@.len() - j,
{
    let ghost ri = instrs@.map_values(|i: ScriptInstr| instr_rep(i));
    if j >= instrs.len() {
        return None;
    }
    proof {
        assert(ri[j as int] == instr_rep(instrs@[j as int]));
    }
    match &instrs[j] {
        ScriptInstr::Push(bytes) => {
            proof {
                assert(ri[j as int] == (true, bytes@));
            }
            let arg = clone_bytes(bytes);
            match parse_args(instrs, j + 1) {
                None => None,
                Some((rest, more, nj)) => {
                    let ghost rest_view = rest.deep_view();
                    let mut args = rest;
                    args.insert(0, arg);
                    proof {
                        assert forall|k: int|
                            0 <= k < args@.len() implies args.deep_view()[k] == seq![
                                instrs@[j as int]->Push_0@,
                            ].add(rest_view)[k] by {
                            assert(args.deep_view()[k] == args@[k]@);
                            if k > 0 {
                                assert(args@[k]@ == rest_view[k - 1]);
                            }
                        }
                        assert(args.deep_view() =~~= seq![instrs@[j as int]->Push_0@].add(
                            rest_view,
                        ));
                        assert(ri[j as int].0);
                        assert(ri[j as int].1 == instrs@[j as int]->Push_0@);
                        assert(spec_parse_args(ri, j as int) == Some(
                            (seq![ri[j as int].1].add(rest_view), more, nj as int),
                        ));
                        assert(seq![ri[j as int].1].add(rest_view) =~~= args.deep_view());
                    }
                    Some((args, more, nj))
                },
            }
        },
        ScriptInstr::Op(code) => {
            proof {
                assert(ri[j as int] == (false, seq![*code]));
            }
            if *code == OP_NOP {
                let v: Vec<Vec<u8>> = Vec::new();
                proof {
                    assert(v.deep_view() =~~= Seq::<Seq<u8>>::empty());
                    assert(seq![*code] =~= seq![OP_NOP]);
                    assert(spec_parse_args(ri, j as int) == Some(
                        (Seq::<Seq<u8>>::empty(), true, j + 1),
                    ));
                }
                Some((v, true, j + 1))
            } else if *code == OP_ENDIF {
                let v: Vec<Vec<u8>> = Vec::new();
                proof {
                    assert(v.deep_view() =~~= Seq::<Seq<u8>>::empty());
                    assert(seq![*code] =~= seq![OP_ENDIF]);
                    assert(seq![*code] != seq![OP_NOP]) by {
                        assert(seq![*code][0] == *code);
                    }
                    assert(spec_parse_args(ri, j as int) == Some(
                        (Seq::<Seq<u8>>::empty(), false, j + 1),
                    ));
                }
                Some((v, false, j + 1))
            } else {
                proof {
                    assert(seq![*code] != seq![OP_NOP] && seq![*code] != seq![OP_ENDIF]) by {
                        assert(seq![*code][0] == *code);
                        assert(seq![OP_NOP][0] == OP_NOP);
                        assert(seq![OP_ENDIF][0] == OP_ENDIF);
                    }
                }
                None
            }
        },
    }
}

/// Parses one section, mirroring `spec_parse_section`.
fn parse_section(instrs: &Vec<ScriptInstr>, i: usize) -> (r: Option<
    (InscriptionSection, bool, usize),
>)
    ensures
        ({
            let ri = instrs@.map_values(|k: ScriptInstr| instr_rep(k));
            match r {
                Some(t) => spec_parse_section(ri, i as int) == Some((t.0@, t.1, t.2 as int)) && i
                    < t.2 <= instrs@.len(),
                None => spec_parse_section(ri, i as int) is None,
            }
        }),
{
    let ghost ri = instrs@.map_values(|k: ScriptInstr| instr_rep(k));
    if i >= instrs.len() {
        return None;
    }
    proof {
        assert(ri[i as int] == instr_rep(instrs@[i as int]));
    }
    match &instrs[i] {
        ScriptInstr::Push(bytes) => {
            let protocol = clone_bytes(bytes);
            match parse_args(instrs, i + 1) {
                None => None,
                Some((args, more, ni)) => {
                    proof {
                        lemma_parse_args_advance(ri, i + 1);
                    }
                    Some((InscriptionSection { protocol, arguments: args }, more, ni))
                },
            }
        },
        ScriptInstr::Op(_) => None,
    }
}

/// Parses the sections after the header, mirroring `spec_parse_sections`.
fn parse_sections(instrs: &Vec<ScriptInstr>, i: usize) -> (r: Option<Vec<InscriptionSection>>)
    ensures
        ({
            let ri = instrs@.map_values(|k: ScriptInstr| instr_rep(k));
            match r {
                Some(secs) => spec_parse_sections(ri, i as int) == Some(secs.deep_view()),
                None => spec_parse_sections(ri, i as int) is None,
            }
        }),
    decreases instrs@.len() - i,
{
    let ghost ri = instrs@.map_values(|k: ScriptInstr| instr_rep(k));
    let (sec, more, ni) = match parse_section(instrs, i) {
        None => {
            return None;
        },
        Some(t) => t,
    };
    if !more {
        let mut v: Vec<InscriptionSection> = Vec::new();
        let ghost sv = sec@;
        v.push(sec);
        proof {
            assert(v.deep_view() =~~= seq![sv]);
        }
        return Some(v);
    }
    match parse_sections(instrs, ni) {
        None => None,
        Some(rest) => {
            let ghost rest_view = rest.deep_view();
            let ghost sv = sec@;
            let mut out = rest;
            out.insert(0, sec);
            proof {
                assert forall|k: int|
                    0 <= k < out@.len() implies out.deep_view()[k] == seq![sv].add(rest_view)[k] by {
                    assert(out.deep_view()[k] == out@[k]@);
                    if k > 0 {
                        assert(out@[k]@ == rest_view[k - 1]);
                    }
                }
                assert(out.deep_view() =~~= seq![sv].add(rest_view));
            }
            Some(out)
        },
    }
}

impl Inscription {
    /// Parses the inscription envelope from raw script bytes.
    pub fn from_script_bytes(script: &Vec<u8>) -> (r: Option<Inscription>)
        ensures
            match script_instructions(script@) {
                None => r is None,
                Some(ri) => match spec_parse_inscription(ri) {
                    Some(si) => r matches Some(insc) && insc@ == si,
                    None => r is None,
                },
            },
    {
        let instrs = match decode_script(script) {
            None => {
                return None;
            },
            Some(v) => v,
        };
        let ghost ri = instrs@.map_values(|k: ScriptInstr| instr_rep(k));
        if instrs.len() < 2 {
            return None;
        }
        proof {
            assert(ri[0] == instr_rep(instrs@[0]));
            assert(ri[1] == instr_rep(instrs@[1]));
        }
        let head_ok = match &instrs[0] {
            ScriptInstr::Push(bytes) => bytes.len() == 0,
            _ => false,
        };
        if !head_ok {
            proof {
                if ri[0].0 {
                    assert(instrs@[0]->Push_0@.len() != 0);
                    assert(ri[0].1 != Seq::<u8>::empty());
                }
            }
            return None;
        }
        proof {
            assert(instrs@[0]->Push_0@ =~= Seq::<u8>::empty());
            assert(ri[0] == (true, Seq::<u8>::empty()));
        }
        let if_ok = match &instrs[1] {
            ScriptInstr::Op(code) => *code == OP_IF,
            _ => false,
        };
        if !if_ok {
            proof {
                if !ri[1].0 {
                    assert(seq![instrs@[1]->Op_0][0] == instrs@[1]->Op_0);
                    assert(seq![OP_IF][0] == OP_IF);
                    assert(ri[1].1 != seq![OP_IF]);
                }
            }
            return None;
        }
        proof {
            assert(seq![instrs@[1]->Op_0] =~= seq![OP_IF]);
            assert(ri[1] == (false, seq![OP_IF]));
        }
        let (hsec, more, ni) = match parse_section(&instrs, 2) {
            None => {
                return None;
            },
            Some(t) => t,
        };
        let name_lit: [u8; 4] = [0x6e, 0x61, 0x6d, 0x65];
        if !(hsec.protocol.len() == 4 && hsec.protocol[0] == name_lit[0] && hsec.protocol[1]
            == name_lit[1] && hsec.protocol[2] == name_lit[2] && hsec.protocol[3] == name_lit[3]) {
            proof {
                if hsec@.protocol == name_tag() {
                    assert(hsec@.protocol.len() == 4);
                    assert(hsec@.protocol[0] == 0x6e && hsec@.protocol[1] == 0x61
                        && hsec@.protocol[2] == 0x6d && hsec@.protocol[3] == 0x65);
                }
            }
            return None;
        }
        proof {
            assert(hsec@.protocol =~= name_tag());
        }
        if hsec.arguments.len() == 0 {
            return None;
        }
        proof {
            assert(hsec@.arguments[0] == hsec.arguments@[0]@);
        }
        let label = clone_bytes(&hsec.arguments[0]);
        if !more {
            let r = Inscription { label, sections: Vec::new() };
            proof {
                assert(r@.sections =~~= Seq::<SpecSection>::empty());
            }
            return Some(r);
        }
        match parse_sections(&instrs, ni) {
            None => None,
            Some(sections) => Some(Inscription { label, sections }),
        }
    }

    /// Parses the inscription envelope carried by a transaction output's
    /// script.
    pub fn from_txout(txout: &bitcoin::TxOut) -> (r: Option<Inscription>)
        ensures
            r matches Some(insc) ==> exists|s: Seq<u8>|
                (#[trigger] script_instructions(s)) matches Some(ri) && spec_parse_inscription(ri)
                    == Some(insc@),
    {
        let script = txout_script_bytes(txout);
        let r = Inscription::from_script_bytes(&script);
        proof {
            if r is Some {
                assert(script_instructions(script@) == Some(
                    script_instructions(script@)->Some_0,
                ));
            }
        }
        r
    }

    /// The first matching section's arguments.
    pub fn protocol_args(&self, protocol: &Vec<u8>) -> (r: Option<Vec<Vec<u8>>>)
        ensures
            match r {
                Some(args) => spec_protocol_args(self@.sections, protocol@) == Some(
                    args.deep_view(),
                ),
                None => spec_protocol_args(self@.sections, protocol@) is None,
            },
    {
        let n = self.sections.len();
        proof {
            assert(self@.sections.skip(0) =~~= self@.sections);
        }
        let mut i: usize = 0;
        while i < n
            invariant
                i <= n,
                n == self.sections@.len(),
                spec_protocol_args(self@.sections, protocol@) == spec_protocol_args(
                    self@.sections.skip(i as int),
                    protocol@,
                ),
            decreases n - i,
        {
            proof {
                assert(self@.sections[i as int] == self.sections@[i as int]@);
                assert(self@.sections.skip(i as int)[0] == self@.sections[i as int]);
                assert(self@.sections.skip(i as int).drop_first() =~~= self@.sections.skip(i + 1));
            }
            if crate::data::eq_bytes(&self.sections[i].protocol, protocol) {
                return Some(clone_byte_list(&self.sections[i].arguments));
            }
            i = i + 1;
        }
        proof {
            assert(self@.sections.skip(n as int) =~~= Seq::<SpecSection>::empty());
        }
        None
    }
}

/// The arguments of the first section bearing the protocol tag.
pub open spec fn spec_protocol_args(sections: Seq<SpecSection>, protocol: Seq<u8>) -> Option<
    Seq<Seq<u8>>,
>
    decreases sections.len(),
{
    if sections.len() == 0 {
        None
    } else if sections[0].protocol == protocol {
        Some(sections[0].arguments)
    } else {
        spec_protocol_args(sections.drop_first(), protocol)
    }
}

// ---------------------------------------------------------------------
// Inscription metadata and name tokens.
// ---------------------------------------------------------------------
/// Where an inscription stands on the chain; the total order on metadata is
/// lexicographic on (blockheight, blockindex, vout, txid).
#[derive(Debug)]
pub struct InscriptionMetadata {
    /// The block height containing the transaction.
    pub blockheight: u64,
    /// The index of the transaction in the block.
    pub blockindex: u64,
    /// The position within the transaction.
    pub vout: u32,
    /// The transaction ID.
    pub txid: Vec<u8>,
}

/// The model of metadata.
pub struct SpecMetadata {
    pub blockheight: u64,
    pub blockindex: u64,
    pub vout: u32,
    pub txid: Seq<u8>,
}

impl View for InscriptionMetadata {
    type V = SpecMetadata;

    open spec fn view(&self) -> SpecMetadata {
        SpecMetadata {
            blockheight: self.blockheight,
            blockindex: self.blockindex,
            vout: self.vout,
            txid: self.txid@,
        }
    }
}

/// Lexicographic order on byte strings.
pub open spec fn bytes_lt(a: Seq<u8>, b: Seq<u8>) -> bool
    decreases a.len(),
{
    if b.len() == 0 {
        false
    } else if a.len() == 0 {
        true
    } else if a[0] < b[0] {
        true
    } else if a[0] > b[0] {
        false
    } else {
        bytes_lt(a.drop_first(), b.drop_first())
    }
}

/// The strict order on metadata.
pub open spec fn meta_lt(a: SpecMetadata, b: SpecMetadata) -> bool {
    if a.blockheight != b.blockheight {
        a.blockheight < b.blockheight
    } else if a.blockindex != b.blockindex {
        a.blockindex < b.blockindex
    } else if a.vout != b.vout {
        a.vout < b.vout
    } else {
        bytes_lt(a.txid, b.txid)
    }
}

/// Compares two byte strings lexicographically.
fn bytes_lt_exec(a: &Vec<u8>, b: &Vec<u8>) -> (r: bool)
    ensures
        r == bytes_lt(a@, b@),
{
    proof {
        assert(a@.skip(0) =~= a@);
        assert(b@.skip(0) =~= b@);
    }
    bytes_lt_from(a, b, 0)
}

fn bytes_lt_from(a: &Vec<u8>, b: &Vec<u8>, i: usize) -> (r: bool)
    requires
        i <= a@.len(),
        i <= b@.len(),
    ensures
        r == bytes_lt(a@.skip(i as int), b@.skip(i as int)),
    decreases a@.len() - i,
{
    if i == b.len() {
        proof {
            assert(b@.skip(i as int).len() == 0);
        }
        false
    } else if i == a.len() {
        proof {
            assert(a@.skip(i as int).len() == 0);
            assert(b@.skip(i as int).len() > 0);
        }
        true
    } else {
        proof {
            assert(a@.skip(i as int)[0] == a@[i as int]);
            assert(b@.skip(i as int)[0] == b@[i as int]);
            assert(a@.skip(i as int).drop_first() =~= a@.skip(i + 1));
            assert(b@.skip(i as int).drop_first() =~= b@.skip(i + 1));
        }
        if a[i] < b[i] {
            true
        } else if a[i] > b[i] {
            false
        } else {
            bytes_lt_from(a, b, i + 1)
        }
    }
}

impl InscriptionMetadata {
    /// The strict metadata order.
    pub fn lt(&self, other: &InscriptionMetadata) -> (r: bool)
        ensures
            r == meta_lt(self@, other@),
    {
        if self.blockheight != other.blockheight {
            self.blockheight < other.blockheight
        } else if self.blockindex != other.blockindex {
            self.blockindex < other.blockindex
        } else if self.vout != other.vout {
            self.vout < other.vout
        } else {
            bytes_lt_exec(&self.txid, &other.txid)
        }
    }

    pub fn eq_meta(&self, other: &InscriptionMetadata) -> (r: bool)
        ensures
            r == (self@ == other@),
    {
        let te = crate::data::eq_bytes(&self.txid, &other.txid);
        let r = self.blockheight == other.blockheight && self.blockindex == other.blockindex
            && self.vout == other.vout && te;
        proof {
            if r {
                assert(self@ == other@);
            }
        }
        r
    }
}

impl Clone for InscriptionMetadata {
    fn clone(&self) -> (r: InscriptionMetadata)
        ensures
            r@ == self@,
    {
        InscriptionMetadata {
            blockheight: self.blockheight,
            blockindex: self.blockindex,
            vout: self.vout,
            txid: clone_bytes(&self.txid),
        }
    }
}

/// A transaction output position: the spending link between inscriptions.
#[derive(Debug)]
pub struct OutPoint {
    pub txid: Vec<u8>,
    pub vout: u32,
}

pub struct SpecOutPoint {
    pub txid: Seq<u8>,
    pub vout: u32,
}

impl View for OutPoint {
    type V = SpecOutPoint;

    open spec fn view(&self) -> SpecOutPoint {
        SpecOutPoint { txid: self.txid@, vout: self.vout }
    }
}

impl Clone for OutPoint {
    fn clone(&self) -> (r: OutPoint)
        ensures
            r@ == self@,
    {
        OutPoint { txid: clone_bytes(&self.txid), vout: self.vout }
    }
}

impl OutPoint {
    pub fn eq_outpoint(&self, other: &OutPoint) -> (r: bool)
        ensures
            r == (self@ == other@),
    {
        let te = crate::data::eq_bytes(&self.txid, &other.txid);
        let r = te && self.vout == other.vout;
        proof {
            if r {
                assert(self@ == other@);
            }
        }
        r
    }
}

/// The canonical ownership record for a label. `first_inscription_metadata`
/// is the inscription that minted it, `last_inscription_metadata` the most
/// recent update or transfer; `inscription` is `None` iff the token is
/// revoked.
#[derive(Debug)]
pub struct NameToken {
    pub label: Vec<u8>,
    pub first_inscription_metadata: InscriptionMetadata,
    pub last_inscription_metadata: InscriptionMetadata,
    pub inscription: Option<Inscription>,
}

/// The model of a name token.
pub struct SpecToken {
    pub label: Seq<u8>,
    pub first: SpecMetadata,
    pub last: SpecMetadata,
    pub inscription: Option<SpecInscription>,
}

impl View for NameToken {
    type V = SpecToken;

    open spec fn view(&self) -> SpecToken {
        SpecToken {
            label: self.label@,
            first: self.first_inscription_metadata@,
            last: self.last_inscription_metadata@,
            inscription: match &self.inscription {
                Some(i) => Some(i@),
                None => None,
            },
        }
    }
}

impl DeepView for NameToken {
    type V = SpecToken;

    open spec fn deep_view(&self) -> SpecToken {
        self.view()
    }
}

impl Clone for NameToken {
    fn clone(&self) -> (r: NameToken)
        ensures
            r@ == self@,
    {
        NameToken {
            label: clone_bytes(&self.label),
            first_inscription_metadata: self.first_inscription_metadata.clone(),
            last_inscription_metadata: self.last_inscription_metadata.clone(),
            inscription: match &self.inscription {
                Some(i) => Some(i.clone()),
                None => None,
            },
        }
    }
}

#[derive(Debug, Clone, Copy, PartialEq, Eq, Structural)]
pub enum UpadateNameTokenError {
    /// The new inscription has a different label than the last inscription.
    LabelMismatch,
    /// The NameToken is already revoked.
    Revoked,
    /// The new inscription has an older metadata than the last inscription.
    StaleInscription,
}

/// A token is live iff it still carries an inscription.
pub open spec fn spec_is_revoked(t: SpecToken) -> bool {
    t.inscription is None
}

/// What `update` yields, by the lifecycle table: a label mismatch, an
/// already revoked token and a stale inscription are refused; otherwise the
/// token advances to the new inscription and metadata.
pub open spec fn spec_update(t: SpecToken, insc: SpecInscription, meta: SpecMetadata) -> Result<
    SpecToken,
    UpadateNameTokenError,
> {
    if insc.label != t.label {
        Err(UpadateNameTokenError::LabelMismatch)
    } else if spec_is_revoked(t) {
        Err(UpadateNameTokenError::Revoked)
    } else if !meta_lt(t.last, meta) {
        Err(UpadateNameTokenError::StaleInscription)
    } else {
        Ok(SpecToken { last: meta, inscription: Some(insc), ..t })
    }
}

impl NameToken {
    pub fn new(
        label: Vec<u8>,
        first_inscription_metadata: InscriptionMetadata,
        last_inscription_metadata: InscriptionMetadata,
        inscription: Inscription,
    ) -> (r: NameToken)
        ensures
            r@.label == label@,
            r@.first == first_inscription_metadata@,
            r@.last == last_inscription_metadata@,
            r@.inscription == Some(inscription@),
    {
        NameToken {
            label,
            first_inscription_metadata,
            last_inscription_metadata,
            inscription: Some(inscription),
        }
    }

    /// Mints a token from an inscription: both metadata fields start at the
    /// minting position.
    pub fn create(inscription: Inscription, metadata: InscriptionMetadata) -> (r: NameToken)
        ensures
            r@.label == inscription@.label,
            r@.first == metadata@,
            r@.last == metadata@,
            r@.inscription == Some(inscription@),
    {
        NameToken {
            label: clone_bytes(&inscription.label),
            first_inscription_metadata: metadata.clone(),
            last_inscription_metadata: metadata,
            inscription: Some(inscription),
        }
    }

    pub fn is_revoked(&self) -> (r: bool)
        ensures
            r == spec_is_revoked(self@),
    {
        match &self.inscription {
            Some(_) => false,
            None => true,
        }
    }

    /// The first matching section's arguments, if the token is live.
    pub fn protocol_args(&self, protocol: &Vec<u8>) -> (r: Option<Vec<Vec<u8>>>)
        ensures
            ({
                let expected = match self@.inscription {
                    None => None,
                    Some(insc) => spec_protocol_args(insc.sections, protocol@),
                };
                match r {
                    Some(args) => expected == Some(args.deep_view()),
                    None => expected is None,
                }
            }),
    {
        match &self.inscription {
            None => None,
            Some(insc) => insc.protocol_args(protocol),
        }
    }

    /// Advances the token to a newer inscription, by the lifecycle table.
    pub fn update(&self, inscription: Inscription, metadata: InscriptionMetadata) -> (r: Result<
        NameToken,
        UpadateNameTokenError,
    >)
        ensures
            match r {
                Ok(t) => spec_update(self@, inscription@, metadata@) == Ok::<
                    SpecToken,
                    UpadateNameTokenError,
                >(t@),
                Err(e) => spec_update(self@, inscription@, metadata@) == Err::<
                    SpecToken,
                    UpadateNameTokenError,
                >(e),
            },
    {
        if !crate::data::eq_bytes(&inscription.label, &self.label) {
            return Err(UpadateNameTokenError::LabelMismatch);
        }
        if self.is_revoked() {
            return Err(UpadateNameTokenError::Revoked);
        }
        if !self.last_inscription_metadata.lt(&metadata) {
            return Err(UpadateNameTokenError::StaleInscription);
        }
        Ok(
            NameToken {
                label: clone_bytes(&self.label),
                first_inscription_metadata: self.first_inscription_metadata.clone(),
                last_inscription_metadata: metadata,
                inscription: Some(inscription),
            },
        )
    }

    /// Revokes the token: the metadata stays, the inscription is dropped.
    pub fn revoke(&self) -> (r: NameToken)
        ensures
            r@ == (SpecToken { inscription: None, ..self@ }),
    {
        NameToken {
            label: clone_bytes(&self.label),
            first_inscription_metadata: self.first_inscription_metadata.clone(),
            last_inscription_metadata: self.last_inscription_metadata.clone(),
            inscription: None,
        }
    }

    /// The outpoint where the token currently sits: its last inscription's
    /// position.
    pub fn last_outpoint(&self) -> (r: OutPoint)
        ensures
            r@ == spec_last_outpoint(self@),
    {
        OutPoint {
            txid: clone_bytes(&self.last_inscription_metadata.txid),
            vout: self.last_inscription_metadata.vout,
        }
    }
}

pub open spec fn spec_last_outpoint(t: SpecToken) -> SpecOutPoint {
    SpecOutPoint { txid: t.last.txid, vout: t.last.vout }
}

/// Two tokens are the same iff their minting metadata and labels are equal.
impl PartialEq for NameToken {
    fn eq(&self, other: &NameToken) -> (r: bool) {
        let me = self.first_inscription_metadata.eq_meta(&other.first_inscription_metadata);
        let le = crate::data::eq_bytes(&self.label, &other.label);
        me && le
    }
}

impl vstd::std_specs::cmp::PartialEqSpecImpl for NameToken {
    open spec fn obeys_eq_spec() -> bool {
        true
    }

    open spec fn eq_spec(&self, other: &NameToken) -> bool {
        self@.first == other@.first && self@.label == other@.label
    }
}

/// The position pair rule: what one (input, output) pair at one chain
/// position yields. A bare inscription mints, a bare spend revokes, a
/// matching re-inscription updates (or revokes when stale), and a spend
/// re-inscribing another label revokes the old token and mints the new one.
pub open spec fn spec_generate_updates(
    input_token: Option<SpecToken>,
    output_inscription: Option<SpecInscription>,
    meta: SpecMetadata,
) -> Seq<SpecToken> {
    match (input_token, output_inscription) {
        (None, None) => Seq::empty(),
        (None, Some(insc)) => seq![spec_minted(insc, meta)],
        (Some(t), None) => seq![SpecToken { inscription: None, ..t }],
        (Some(t), Some(insc)) => {
            if insc.label == t.label {
                match spec_update(t, insc, meta) {
                    Ok(updated) => seq![updated],
                    Err(_) => seq![SpecToken { inscription: None, ..t }],
                }
            } else {
                seq![SpecToken { inscription: None, ..t }, spec_minted(insc, meta)]
            }
        },
    }
}

pub open spec fn spec_minted(insc: SpecInscription, meta: SpecMetadata) -> SpecToken {
    SpecToken { label: insc.label, first: meta, last: meta, inscription: Some(insc) }
}

impl NameToken {
    /// Applies the position pair rule.
    pub fn generate_name_token_updates(
        input_token: Option<&NameToken>,
        output_inscription: Option<&Inscription>,
        metadata: InscriptionMetadata,
    ) -> (r: Vec<NameToken>)
        ensures
            r.deep_view() == spec_generate_updates(
                match input_token {
                    Some(t) => Some(t@),
                    None => None,
                },
                match output_inscription {
                    Some(i) => Some(i@),
                    None => None,
                },
                metadata@,
            ),
    {
        let mut out: Vec<NameToken> = Vec::new();
        match (input_token, output_inscription) {
            (None, None) => {
                proof {
                    assert(out.deep_view() =~~= Seq::<SpecToken>::empty());
                }
            },
            (None, Some(insc)) => {
                out.push(NameToken::create(insc.clone(), metadata));
                proof {
                    assert(out.deep_view() =~~= seq![spec_minted(insc@, metadata@)]);
                }
            },
            (Some(t), None) => {
                out.push(t.revoke());
                proof {
                    assert(out.deep_view() =~~= seq![
                        (SpecToken { inscription: None, ..t@ }),
                    ]);
                }
            },
            (Some(t), Some(insc)) => {
                if crate::data::eq_bytes(&insc.label, &t.label) {
                    match t.update(insc.clone(), metadata) {
                        Ok(updated) => {
                            out.push(updated);
                        },
                        Err(_) => {
                            out.push(t.revoke());
                        },
                    }
                    proof {
                        assert(out.deep_view() =~~= spec_generate_updates(
                            Some(t@),
                            Some(insc@),
                            metadata@,
                        ));
                    }
                } else {
                    out.push(t.revoke());
                    out.push(NameToken::create(insc.clone(), metadata));
                    proof {
                        assert(out.deep_view() =~~= seq![
                            (SpecToken { inscription: None, ..t@ }),
                            spec_minted(insc@, metadata@),
                        ]);
                    }
                }
            },
        }
        out
    }
}

} // verus!
