use vstd::prelude::*;

use crate::name_token::{
    spec_generate_updates, spec_is_revoked, spec_last_outpoint, spec_parse_inscription,
    Inscription, InscriptionMetadata, NameToken, OutPoint, SpecMetadata, SpecOutPoint, SpecToken,
    clone_bytes,
};
use crate::script::script_instructions;

verus! {

/// One transaction as the registry reads it: its id, the outpoints it
/// spends, and the scripts of its outputs.
#[derive(Debug)]
pub struct TransactionData {
    pub txid: Vec<u8>,
    pub inputs: Vec<OutPoint>,
    pub output_scripts: Vec<Vec<u8>>,
}

pub struct SpecTransaction {
    pub txid: Seq<u8>,
    pub inputs: Seq<SpecOutPoint>,
    pub output_scripts: Seq<Seq<u8>>,
}

impl View for TransactionData {
    type V = SpecTransaction;

    open spec fn view(&self) -> SpecTransaction {
        SpecTransaction {
            txid: self.txid@,
            inputs: self.inputs.deep_view(),
            output_scripts: self.output_scripts.deep_view(),
        }
    }
}

impl DeepView for TransactionData {
    type V = SpecTransaction;

    open spec fn deep_view(&self) -> SpecTransaction {
        self.view()
    }
}

impl DeepView for OutPoint {
    type V = SpecOutPoint;

    open spec fn deep_view(&self) -> SpecOutPoint {
        self.view()
    }
}

/// One block as the registry reads it.
#[derive(Debug)]
pub struct BlockData {
    pub transactions: Vec<TransactionData>,
}

impl View for BlockData {
    type V = Seq<SpecTransaction>;

    open spec fn view(&self) -> Seq<SpecTransaction> {
        self.transactions.deep_view()
    }
}

/// The provisional updates of one block, keyed by each token's current
/// outpoint.
pub type Pending = Seq<(SpecOutPoint, SpecToken)>;

/// The first pending entry at the outpoint.
pub open spec fn spec_pending_find(p: Pending, k: SpecOutPoint) -> Option<SpecToken>
    decreases p.len(),
{
    if p.len() == 0 {
        None
    } else if p[0].0 == k {
        Some(p[0].1)
    } else {
        spec_pending_find(p.drop_first(), k)
    }
}

/// Inserting into the pending buffer replaces the entry with the same
/// outpoint, else appends.
pub open spec fn spec_pending_insert(p: Pending, k: SpecOutPoint, t: SpecToken) -> Pending
    decreases p.len(),
{
    if p.len() == 0 {
        seq![(k, t)]
    } else if p[0].0 == k {
        seq![(k, t)].add(p.drop_first())
    } else {
        seq![p[0]].add(spec_pending_insert(p.drop_first(), k, t))
    }
}

/// The first committed token sitting at the outpoint.
pub open spec fn spec_find_by_outpoint(tokens: Seq<SpecToken>, k: SpecOutPoint) -> Option<
    SpecToken,
>
    decreases tokens.len(),
{
    if tokens.len() == 0 {
        None
    } else if spec_last_outpoint(tokens[0]) == k {
        Some(tokens[0])
    } else {
        spec_find_by_outpoint(tokens.drop_first(), k)
    }
}

/// Whether some live token for the label stands among the tokens.
pub open spec fn spec_any_live(tokens: Seq<SpecToken>, label: Seq<u8>) -> bool {
    exists|i: int|
        0 <= i < tokens.len() && tokens[i].label == label && !spec_is_revoked(#[trigger] tokens[i])
}

/// Whether some live pending entry carries the label.
pub open spec fn spec_any_live_pending(p: Pending, label: Seq<u8>) -> bool {
    exists|i: int|
        0 <= i < p.len() && (#[trigger] p[i]).1.label == label && !spec_is_revoked(p[i].1)
}

/// A freshly minted token at this position.
pub open spec fn spec_is_mint(t: SpecToken, meta: SpecMetadata) -> bool {
    t.first == meta && !spec_is_revoked(t)
}

/// The updates of one (input, output) position pair folded into the pending
/// buffer: the predecessor token is looked up in the pending buffer first
/// and the registry second, the output's inscription is parsed, the pair
/// rule is applied, and a mint is skipped when a live token for its label
/// already stands in the pending buffer or the registry (first-seen wins).
pub open spec fn spec_process_position(
    pending: Pending,
    committed: Seq<SpecToken>,
    txin: Option<SpecOutPoint>,
    script: Option<Seq<u8>>,
    meta: SpecMetadata,
) -> Pending {
    let input_token = match txin {
        None => None,
        Some(op) => match spec_pending_find(pending, op) {
            Some(t) => Some(t),
            None => spec_find_by_outpoint(committed, op),
        },
    };
    let output_inscription = match script {
        None => None,
        Some(s) => match script_instructions(s) {
            None => None,
            Some(ri) => spec_parse_inscription(ri),
        },
    };
    let updates = spec_generate_updates(input_token, output_inscription, meta);
    spec_fold_updates(pending, committed, updates, meta)
}

/// Inserts each update, skipping mints whose label is already owned live.
pub open spec fn spec_fold_updates(
    pending: Pending,
    committed: Seq<SpecToken>,
    updates: Seq<SpecToken>,
    meta: SpecMetadata,
) -> Pending
    decreases updates.len(),
{
    if updates.len() == 0 {
        pending
    } else {
        let u = updates[0];
        let skip = spec_is_mint(u, meta) && (spec_any_live_pending(pending, u.label)
            || spec_any_live(committed, u.label));
        let next = if skip {
            pending
        } else {
            spec_pending_insert(pending, spec_last_outpoint(u), u)
        };
        spec_fold_updates(next, committed, updates.drop_first(), meta)
    }
}

/// The positions of one transaction folded in order.
pub open spec fn spec_sync_positions(
    pending: Pending,
    committed: Seq<SpecToken>,
    tx: SpecTransaction,
    height: u64,
    index: u64,
    i: int,
    n: int,
) -> Pending
    decreases n - i,
{
    if i >= n {
        pending
    } else {
        let txin = if i < tx.inputs.len() {
            Some(tx.inputs[i])
        } else {
            None
        };
        let script = if i < tx.output_scripts.len() {
            Some(tx.output_scripts[i])
        } else {
            None
        };
        let meta = SpecMetadata { blockheight: height, blockindex: index, vout: i as u32, txid: tx.txid };
        spec_sync_positions(
            spec_process_position(pending, committed, txin, script, meta),
            committed,
            tx,
            height,
            index,
            i + 1,
            n,
        )
    }
}

/// The number of positions a transaction is walked over.
pub open spec fn spec_position_count(tx: SpecTransaction) -> int {
    if tx.inputs.len() >= tx.output_scripts.len() {
        tx.inputs.len() as int
    } else {
        tx.output_scripts.len() as int
    }
}

/// The transactions of one block folded in block order.
pub open spec fn spec_sync_txs(
    pending: Pending,
    committed: Seq<SpecToken>,
    txs: Seq<SpecTransaction>,
    height: u64,
    j: int,
) -> Pending
    decreases txs.len() - j,
{
    if j < 0 || j >= txs.len() {
        pending
    } else {
        spec_sync_txs(
            spec_sync_positions(
                pending,
                committed,
                txs[j],
                height,
                j as u64,
                0,
                spec_position_count(txs[j]),
            ),
            committed,
            txs,
            height,
            j + 1,
        )
    }
}

/// Committing one update: every token minted at the same position goes,
/// then the update is kept if it is live.
pub open spec fn spec_apply_update(tokens: Seq<SpecToken>, u: SpecToken) -> Seq<SpecToken> {
    let kept = tokens.filter(|t: SpecToken| t.first != u.first);
    if spec_is_revoked(u) {
        kept
    } else {
        kept.push(u)
    }
}

/// Committing a block's updates in order.
pub open spec fn spec_commit(tokens: Seq<SpecToken>, updates: Seq<SpecToken>) -> Seq<SpecToken>
    decreases updates.len(),
{
    if updates.len() == 0 {
        tokens
    } else {
        spec_commit(spec_apply_update(tokens, updates[0]), updates.drop_first())
    }
}

pub open spec fn pending_values(p: Pending) -> Seq<SpecToken> {
    p.map_values(|e: (SpecOutPoint, SpecToken)| e.1)
}

/// The confirmation-gated, fork-stable registry mapping labels to their
/// owning tokens; it ingests blocks in order and commits each one whole.
pub struct NameTokenRegistry {
    tokens: Vec<NameToken>,
    next_block_height: u64,
}

/// The model of the registry: the committed tokens in commit order, and the
/// next block to ingest.
pub struct SpecRegistry {
    pub tokens: Seq<SpecToken>,
    pub next_block_height: u64,
}

impl View for NameTokenRegistry {
    type V = SpecRegistry;

    closed spec fn view(&self) -> SpecRegistry {
        SpecRegistry {
            tokens: self.tokens.deep_view(),
            next_block_height: self.next_block_height,
        }
    }
}

/// The unique live token for the label with the oldest minting metadata.
pub open spec fn spec_get_token(tokens: Seq<SpecToken>, label: Seq<u8>) -> Option<SpecToken>
    decreases tokens.len(),
{
    if tokens.len() == 0 {
        None
    } else {
        let prev = spec_get_token(tokens.drop_last(), label);
        let t = tokens.last();
        if t.label == label && !spec_is_revoked(t) {
            match prev {
                None => Some(t),
                Some(b) => if crate::name_token::meta_lt(t.first, b.first) {
                    Some(t)
                } else {
                    Some(b)
                },
            }
        } else {
            prev
        }
    }
}

impl NameTokenRegistry {
    /// The empty registry, starting at the given block height.
    pub fn new(start_height: u64) -> (r: NameTokenRegistry)
        ensures
            r@.tokens == Seq::<SpecToken>::empty(),
            r@.next_block_height == start_height,
    {
        let r = NameTokenRegistry { tokens: Vec::new(), next_block_height: start_height };
        proof {
            assert(r@.tokens =~~= Seq::<SpecToken>::empty());
        }
        r
    }

    /// A registry rebuilt from stored tokens and the stored next height.
    pub fn from_parts(tokens: Vec<NameToken>, next_block_height: u64) -> (r: NameTokenRegistry)
        ensures
            r@.tokens == tokens.deep_view(),
            r@.next_block_height == next_block_height,
    {
        NameTokenRegistry { tokens, next_block_height }
    }

    /// The next block to ingest.
    pub fn get_next_block_height(&self) -> (r: u64)
        ensures
            r == self@.next_block_height,
    {
        self.next_block_height
    }

    /// A copy of every committed token, in commit order.
    pub fn all_tokens(&self) -> (r: Vec<NameToken>)
        ensures
            r.deep_view() == self@.tokens,
    {
        let n = self.tokens.len();
        let mut out: Vec<NameToken> = Vec::new();
        let mut i: usize = 0;
        while i < n
            invariant
                i <= n,
                n == self.tokens@.len(),
                out@.len() == i,
                forall|j: int| 0 <= j < i ==> #[trigger] out@[j]@ == self.tokens@[j]@,
            decreases n - i,
        {
            out.push(self.tokens[i].clone());
            i = i + 1;
        }
        proof {
            assert forall|j: int| 0 <= j < n implies out.deep_view()[j] == self@.tokens[j] by {
                assert(out.deep_view()[j] == out@[j]@);
                assert(self.tokens.deep_view()[j] == self.tokens@[j]@);
            }
            assert(out.deep_view() =~~= self@.tokens);
        }
        out
    }

    /// Every committed token carrying the label.
    pub fn get_name_tokens_by_label(&self, label: &Vec<u8>) -> (r: Vec<NameToken>)
        ensures
            r.deep_view() == self@.tokens.filter(|t: SpecToken| t.label == label@),
    {
        let n = self.tokens.len();
        let mut out: Vec<NameToken> = Vec::new();
        let mut i: usize = 0;
        while i < n
            invariant
                i <= n,
                n == self.tokens@.len(),
                out.deep_view() =~~= self@.tokens.take(i as int).filter(
                    |t: SpecToken| t.label == label@,
                ),
            decreases n - i,
        {
            proof {
                assert(self@.tokens.take(i + 1).drop_last() =~~= self@.tokens.take(i as int));
                assert(self@.tokens.take(i + 1).last() == self.tokens@[i as int]@);
            }
            if crate::data::eq_bytes(&self.tokens[i].label, label) {
                out.push(self.tokens[i].clone());
            }
            i = i + 1;
            proof {
                reveal_with_fuel(Seq::filter, 2);
                assert(out.deep_view() =~~= self@.tokens.take(i as int).filter(
                    |t: SpecToken| t.label == label@,
                ));
            }
        }
        proof {
            assert(self@.tokens.take(n as int) =~~= self@.tokens);
        }
        out
    }

    /// The valid token for the label: the unique live token whose minting
    /// metadata is the oldest; `None` when none exists or all are revoked.
    pub fn get_name_token(&self, label: &Vec<u8>) -> (r: Option<NameToken>)
        ensures
            match r {
                Some(t) => spec_get_token(self@.tokens, label@) == Some(t@),
                None => spec_get_token(self@.tokens, label@) is None,
            },
    {
        let n = self.tokens.len();
        let mut best: Option<NameToken> = None;
        let mut i: usize = 0;
        while i < n
            invariant
                i <= n,
                n == self.tokens@.len(),
                match best {
                    Some(b) => spec_get_token(self@.tokens.take(i as int), label@) == Some(b@),
                    None => spec_get_token(self@.tokens.take(i as int), label@) is None,
                },
            decreases n - i,
        {
            proof {
                assert(self@.tokens.take(i + 1).drop_last() =~~= self@.tokens.take(i as int));
                assert(self@.tokens.take(i + 1).last() == self.tokens@[i as int]@);
            }
            let t = &self.tokens[i];
            let is_candidate = crate::data::eq_bytes(&t.label, label) && !t.is_revoked();
            if is_candidate {
                let replace = match &best {
                    None => true,
                    Some(b) => t.first_inscription_metadata.lt(&b.first_inscription_metadata),
                };
                if replace {
                    best = Some(t.clone());
                }
            }
            i = i + 1;
        }
        proof {
            assert(self@.tokens.take(n as int) =~~= self@.tokens);
        }
        best
    }

    /// The committed token currently sitting at the outpoint.
    pub fn get_name_token_by_outpoint(&self, outpoint: &OutPoint) -> (r: Option<NameToken>)
        ensures
            match r {
                Some(t) => spec_find_by_outpoint(self@.tokens, outpoint@) == Some(t@),
                None => spec_find_by_outpoint(self@.tokens, outpoint@) is None,
            },
    {
        let n = self.tokens.len();
        proof {
            assert(self@.tokens.skip(0) =~~= self@.tokens);
        }
        let mut i: usize = 0;
        while i < n
            invariant
                i <= n,
                n == self.tokens@.len(),
                spec_find_by_outpoint(self@.tokens, outpoint@) == spec_find_by_outpoint(
                    self@.tokens.skip(i as int),
                    outpoint@,
                ),
            decreases n - i,
        {
            proof {
                assert(self@.tokens.skip(i as int)[0] == self.tokens@[i as int]@);
                assert(self@.tokens.skip(i as int).drop_first() =~~= self@.tokens.skip(i + 1));
            }
            let op = self.tokens[i].last_outpoint();
            if op.eq_outpoint(outpoint) {
                return Some(self.tokens[i].clone());
            }
            i = i + 1;
        }
        proof {
            assert(self@.tokens.skip(n as int) =~~= Seq::<(SpecToken)>::empty());
        }
        None
    }

    /// Commits one block's updates: for each update, every token minted at
    /// the same position is deleted, the update is inserted unless revoked,
    /// and the next block height advances past the block.
    pub fn save_block_updates(&mut self, blockheight: u64, updates: &Vec<NameToken>)
        requires
            blockheight < u64::MAX,
        ensures
            final(self)@.tokens == spec_commit(old(self)@.tokens, updates.deep_view()),
            final(self)@.next_block_height == blockheight + 1,
    {
        let n = updates.len();
        let ghost total = spec_commit(self@.tokens, updates.deep_view());
        proof {
            assert(updates.deep_view().skip(0) =~~= updates.deep_view());
        }
        let mut i: usize = 0;
        while i < n
            invariant
                i <= n,
                n == updates@.len(),
                spec_commit(self@.tokens, updates.deep_view().skip(i as int)) == total,
            decreases n - i,
        {
            proof {
                assert(updates.deep_view().skip(i as int)[0] == updates@[i as int]@);
                assert(updates.deep_view().skip(i as int).drop_first() =~~= updates.deep_view().skip(
                    i + 1,
                ));
            }
            let u = &updates[i];
            self.apply_update(u);
            i = i + 1;
        }
        proof {
            assert(updates.deep_view().skip(n as int) =~~= Seq::<SpecToken>::empty());
        }
        self.next_block_height = blockheight + 1;
    }

    /// Applies one update to the committed tokens.
    fn apply_update(&mut self, u: &NameToken)
        ensures
            final(self)@.tokens == spec_apply_update(old(self)@.tokens, u@),
            final(self)@.next_block_height == old(self)@.next_block_height,
    {
        let n = self.tokens.len();
        let mut kept: Vec<NameToken> = Vec::new();
        let mut i: usize = 0;
        while i < n
            invariant
                i <= n,
                n == self.tokens@.len(),
                kept.deep_view() =~~= self@.tokens.take(i as int).filter(
                    |t: SpecToken| t.first != u@.first,
                ),
            decreases n - i,
        {
            proof {
                assert(self@.tokens.take(i + 1).drop_last() =~~= self@.tokens.take(i as int));
                assert(self@.tokens.take(i + 1).last() == self.tokens@[i as int]@);
            }
            let same = self.tokens[i].first_inscription_metadata.eq_meta(
                &u.first_inscription_metadata,
            );
            if !same {
                kept.push(self.tokens[i].clone());
            }
            i = i + 1;
            proof {
                reveal_with_fuel(Seq::filter, 2);
                assert(kept.deep_view() =~~= self@.tokens.take(i as int).filter(
                    |t: SpecToken| t.first != u@.first,
                ));
            }
        }
        proof {
            assert(self@.tokens.take(n as int) =~~= self@.tokens);
        }
        if !u.is_revoked() {
            kept.push(u.clone());
        }
        self.tokens = kept;
    }
}

/// The model of an exec pending buffer.
pub open spec fn pv(p: Seq<(OutPoint, NameToken)>) -> Pending {
    p.map_values(|e: (OutPoint, NameToken)| (e.0@, e.1@))
}

/// Finds the pending entry at the outpoint.
fn pending_find(p: &Vec<(OutPoint, NameToken)>, k: &OutPoint) -> (r: Option<NameToken>)
    ensures
        match r {
            Some(t) => spec_pending_find(pv(p@), k@) == Some(t@),
            None => spec_pending_find(pv(p@), k@) is None,
        },
{
    let n = p.len();
    proof {
        assert(pv(p@).skip(0) =~~= pv(p@));
    }
    let mut i: usize = 0;
    while i < n
        invariant
            i <= n,
            n == p@.len(),
            spec_pending_find(pv(p@), k@) == spec_pending_find(pv(p@).skip(i as int), k@),
        decreases n - i,
    {
        proof {
            assert(pv(p@).skip(i as int)[0] == pv(p@)[i as int]);
            assert(pv(p@)[i as int] == (p@[i as int].0@, p@[i as int].1@));
            assert(pv(p@).skip(i as int).drop_first() =~~= pv(p@).skip(i + 1));
        }
        if p[i].0.eq_outpoint(k) {
            return Some(p[i].1.clone());
        }
        i = i + 1;
    }
    proof {
        assert(pv(p@).skip(n as int) =~~= Seq::<(SpecOutPoint, SpecToken)>::empty());
    }
    None
}

/// Replacing an entry in place realizes the pending insert.
proof fn lemma_pending_insert_update(p: Pending, i: int, k: SpecOutPoint, t: SpecToken)
    requires
        0 <= i < p.len(),
        forall|j: int| 0 <= j < i ==> (#[trigger] p[j]).0 != k,
        p[i].0 == k,
    ensures
        spec_pending_insert(p, k, t) == p.update(i, (k, t)),
    decreases p.len(),
{
    if i == 0 {
        assert(spec_pending_insert(p, k, t) =~~= p.update(0, (k, t)));
    } else {
        assert(p.drop_first()[i - 1].0 == k);
        assert(forall|j: int| 0 <= j < i - 1 ==> (#[trigger] p.drop_first()[j]).0 != k);
        lemma_pending_insert_update(p.drop_first(), i - 1, k, t);
        assert(spec_pending_insert(p, k, t) =~~= p.update(i, (k, t)));
    }
}

/// Appending realizes the pending insert when no entry has the key.
proof fn lemma_pending_insert_push(p: Pending, k: SpecOutPoint, t: SpecToken)
    requires
        forall|j: int| 0 <= j < p.len() ==> (#[trigger] p[j]).0 != k,
    ensures
        spec_pending_insert(p, k, t) == p.push((k, t)),
    decreases p.len(),
{
    if p.len() == 0 {
        assert(spec_pending_insert(p, k, t) =~~= p.push((k, t)));
    } else {
        assert(forall|j: int| 0 <= j < p.drop_first().len() ==> (#[trigger] p.drop_first()[j]).0
            != k);
        lemma_pending_insert_push(p.drop_first(), k, t);
        assert(spec_pending_insert(p, k, t) =~~= p.push((k, t)));
    }
}

/// Inserts into the pending buffer, replacing the entry with the same
/// outpoint.
fn pending_insert(p: &mut Vec<(OutPoint, NameToken)>, k: OutPoint, t: NameToken)
    ensures
        pv(final(p)@) == spec_pending_insert(pv(old(p)@), k@, t@),
{
    let ghost kv = k@;
    let ghost tv = t@;
    let n = p.len();
    let mut i: usize = 0;
    while i < n
        invariant
            i <= n,
            n == p@.len(),
            kv == k@,
            tv == t@,
            pv(p@) == pv(old(p)@),
            forall|j: int| 0 <= j < i ==> (#[trigger] pv(p@)[j]).0 != kv,
        decreases n - i,
    {
        proof {
            assert(pv(p@)[i as int] == (p@[i as int].0@, p@[i as int].1@));
        }
        let same = p[i].0.eq_outpoint(&k);
        if same {
            let ghost before = pv(p@);
            proof {
                assert(p@[i as int].0@ == kv);
                assert(before[i as int].0 == kv);
            }
            p[i] = (k, t);
            proof {
                assert forall|j: int|
                    0 <= j < before.len() implies pv(p@)[j] == before.update(
                    i as int,
                    (kv, tv),
                )[j] by {
                    assert(pv(p@)[j] == (p@[j].0@, p@[j].1@));
                }
                assert(pv(p@) =~~= before.update(i as int, (kv, tv)));
                lemma_pending_insert_update(before, i as int, kv, tv);
            }
            return ;
        }
        i = i + 1;
    }
    let ghost before = pv(p@);
    p.push((k, t));
    proof {
        assert(pv(p@) =~~= before.push((kv, tv)));
        lemma_pending_insert_push(before, kv, tv);
    }
}

/// The committed token at the outpoint, searching the whole list.
fn find_by_outpoint_in(tokens: &Vec<NameToken>, k: &OutPoint) -> (r: Option<NameToken>)
    ensures
        match r {
            Some(t) => spec_find_by_outpoint(tokens.deep_view(), k@) == Some(t@),
            None => spec_find_by_outpoint(tokens.deep_view(), k@) is None,
        },
{
    let n = tokens.len();
    proof {
        assert(tokens.deep_view().skip(0) =~~= tokens.deep_view());
    }
    let mut i: usize = 0;
    while i < n
        invariant
            i <= n,
            n == tokens@.len(),
            spec_find_by_outpoint(tokens.deep_view(), k@) == spec_find_by_outpoint(
                tokens.deep_view().skip(i as int),
                k@,
            ),
        decreases n - i,
    {
        proof {
            assert(tokens.deep_view().skip(i as int)[0] == tokens@[i as int]@);
            assert(tokens.deep_view().skip(i as int).drop_first() =~~= tokens.deep_view().skip(
                i + 1,
            ));
        }
        let op = tokens[i].last_outpoint();
        if op.eq_outpoint(k) {
            return Some(tokens[i].clone());
        }
        i = i + 1;
    }
    proof {
        assert(tokens.deep_view().skip(n as int) =~~= Seq::<SpecToken>::empty());
    }
    None
}

/// Whether a live token with the label stands among the committed tokens.
fn any_live_in(tokens: &Vec<NameToken>, label: &Vec<u8>) -> (r: bool)
    ensures
        r == spec_any_live(tokens.deep_view(), label@),
{
    let n = tokens.len();
    let mut i: usize = 0;
    while i < n
        invariant
            i <= n,
            n == tokens@.len(),
            forall|j: int|
                0 <= j < i ==> !((#[trigger] tokens.deep_view()[j]).label == label@
                    && !spec_is_revoked(tokens.deep_view()[j])),
        decreases n - i,
    {
        proof {
            assert(tokens.deep_view()[i as int] == tokens@[i as int]@);
        }
        let le = crate::data::eq_bytes(&tokens[i].label, label);
        if le && !tokens[i].is_revoked() {
            proof {
                assert(spec_any_live(tokens.deep_view(), label@));
            }
            return true;
        }
        i = i + 1;
    }
    false
}

/// Whether a live pending entry carries the label.
fn any_live_pending_in(p: &Vec<(OutPoint, NameToken)>, label: &Vec<u8>) -> (r: bool)
    ensures
        r == spec_any_live_pending(pv(p@), label@),
{
    let n = p.len();
    let mut i: usize = 0;
    while i < n
        invariant
            i <= n,
            n == p@.len(),
            forall|j: int|
                0 <= j < i ==> !((#[trigger] pv(p@)[j]).1.label == label@ && !spec_is_revoked(
                    pv(p@)[j].1,
                )),
        decreases n - i,
    {
        proof {
            assert(pv(p@)[i as int] == (p@[i as int].0@, p@[i as int].1@));
        }
        let le = crate::data::eq_bytes(&p[i].1.label, label);
        if le && !p[i].1.is_revoked() {
            proof {
                assert(spec_any_live_pending(pv(p@), label@));
            }
            return true;
        }
        i = i + 1;
    }
    false
}

/// Applies the position pair rule at one chain position, folding the
/// resulting updates into the pending buffer.
fn process_position(
    pending: &mut Vec<(OutPoint, NameToken)>,
    committed: &Vec<NameToken>,
    txin: Option<&OutPoint>,
    script: Option<&Vec<u8>>,
    meta: InscriptionMetadata,
)
    ensures
        pv(final(pending)@) == spec_process_position(
            pv(old(pending)@),
            committed.deep_view(),
            match txin {
                Some(op) => Some(op@),
                None => None,
            },
            match script {
                Some(s) => Some(s@),
                None => None,
            },
            meta@,
        ),
{
    let input_token: Option<NameToken> = match txin {
        None => None,
        Some(op) => match pending_find(pending, op) {
            Some(t) => Some(t),
            None => find_by_outpoint_in(committed, op),
        },
    };
    let output_inscription: Option<Inscription> = match script {
        None => None,
        Some(s) => Inscription::from_script_bytes(s),
    };
    let ghost mv = meta@;
    let updates = NameToken::generate_name_token_updates(
        input_token.as_ref(),
        output_inscription.as_ref(),
        meta.clone(),
    );
    let n = updates.len();
    let ghost committed_view = committed.deep_view();
    let ghost updates_view = updates.deep_view();
    let ghost total = spec_fold_updates(pv(pending@), committed_view, updates_view, mv);
    proof {
        assert(updates_view.skip(0) =~~= updates_view);
    }
    let mut i: usize = 0;
    while i < n
        invariant
            i <= n,
            n == updates@.len(),
            updates_view == updates.deep_view(),
            committed_view == committed.deep_view(),
            spec_fold_updates(pv(pending@), committed_view, updates_view.skip(i as int), mv)
                == total,
            mv == meta@,
        decreases n - i,
    {
        proof {
            assert(updates_view.skip(i as int)[0] == updates@[i as int]@);
            assert(updates_view.skip(i as int).drop_first() =~~= updates_view.skip(i + 1));
        }
        let u = &updates[i];
        let is_mint = u.first_inscription_metadata.eq_meta(&meta) && !u.is_revoked();
        let skip_mint = if is_mint {
            let lp = any_live_pending_in(pending, &u.label);
            let lc = any_live_in(committed, &u.label);
            lp || lc
        } else {
            false
        };
        if !skip_mint {
            let key = u.last_outpoint();
            pending_insert(pending, key, u.clone());
        }
        i = i + 1;
    }
    proof {
        assert(updates_view.skip(n as int) =~~= Seq::<SpecToken>::empty());
    }
}

/// Valid-token selection: the token the registry hands out for a label is
/// live, carries that label, and no other live token for the label was
/// minted earlier; none is handed out exactly when no live token for the
/// label exists.
pub proof fn lemma_get_token_selects_oldest_live(tokens: Seq<SpecToken>, label: Seq<u8>)
    ensures
        spec_get_token(tokens, label) matches Some(t) ==> t.label == label && !spec_is_revoked(t)
            && forall|i: int|
            0 <= i < tokens.len() && (#[trigger] tokens[i]).label == label && !spec_is_revoked(
                tokens[i],
            ) ==> !crate::name_token::meta_lt(tokens[i].first, t.first),
        spec_get_token(tokens, label) is None ==> !spec_any_live(tokens, label),
    decreases tokens.len(),
{
    if tokens.len() > 0 {
        let dl = tokens.drop_last();
        lemma_get_token_selects_oldest_live(dl, label);
        let t = tokens.last();
        let prev = spec_get_token(dl, label);
        assert(forall|i: int| 0 <= i < tokens.len() - 1 ==> #[trigger] dl[i] == tokens[i]);
        if spec_get_token(tokens, label) is None {
            assert(!spec_any_live(tokens, label)) by {
                if spec_any_live(tokens, label) {
                    let w = choose|i: int|
                        0 <= i < tokens.len() && tokens[i].label == label && !spec_is_revoked(
                            #[trigger] tokens[i],
                        );
                    if w < tokens.len() - 1 {
                        assert(dl[w] == tokens[w]);
                        assert(dl[w].label == label && !spec_is_revoked(dl[w]));
                        assert(spec_any_live(dl, label));
                    }
                }
            }
        } else {
            let sel = spec_get_token(tokens, label)->Some_0;
            assert forall|i: int|
                0 <= i < tokens.len() && (#[trigger] tokens[i]).label == label && !spec_is_revoked(
                    tokens[i],
                ) implies !crate::name_token::meta_lt(tokens[i].first, sel.first) by {
                let x = tokens[i].first;
                if i < tokens.len() - 1 {
                    assert(dl[i] == tokens[i]);
                    assert(dl[i].label == label && !spec_is_revoked(dl[i]));
                    assert(spec_any_live(dl, label));
                }
                if t.label == label && !spec_is_revoked(t) {
                    match prev {
                        None => {
                            lemma_meta_lt_irreflexive(t.first);
                        },
                        Some(b) => {
                            if crate::name_token::meta_lt(t.first, b.first) {
                                if i < tokens.len() - 1 && crate::name_token::meta_lt(
                                    x,
                                    t.first,
                                ) {
                                    lemma_meta_lt_transitive(x, t.first, b.first);
                                }
                                lemma_meta_lt_irreflexive(t.first);
                            } else {
                            }
                        },
                    }
                } else {
                }
            }
        }
    }
}

/// The metadata order is strictly transitive.
pub proof fn lemma_meta_lt_transitive(a: SpecMetadata, b: SpecMetadata, c: SpecMetadata)
    requires
        crate::name_token::meta_lt(a, b),
        crate::name_token::meta_lt(b, c),
    ensures
        crate::name_token::meta_lt(a, c),
{
    if a.blockheight == b.blockheight && a.blockindex == b.blockindex && a.vout == b.vout
        && b.blockheight == c.blockheight && b.blockindex == c.blockindex && b.vout == c.vout {
        lemma_bytes_lt_transitive(a.txid, b.txid, c.txid);
    }
}

/// Lexicographic byte order is strictly transitive.
pub proof fn lemma_bytes_lt_transitive(a: Seq<u8>, b: Seq<u8>, c: Seq<u8>)
    requires
        crate::name_token::bytes_lt(a, b),
        crate::name_token::bytes_lt(b, c),
    ensures
        crate::name_token::bytes_lt(a, c),
    decreases a.len(),
{
    if a.len() > 0 && b.len() > 0 && c.len() > 0 {
        if a[0] == b[0] && b[0] == c[0] {
            lemma_bytes_lt_transitive(a.drop_first(), b.drop_first(), c.drop_first());
        }
    }
}

/// First-seen wins: a position that would mint a label yields nothing while
/// a live token for that label already stands in the block's pending buffer
/// or in the registry; of two inscriptions for one label in one block, only
/// the one at the lower position produces a live token.
pub proof fn lemma_first_seen_wins(
    pending: Pending,
    committed: Seq<SpecToken>,
    script: Seq<u8>,
    meta: SpecMetadata,
)
    requires
        ({
            let insc = match script_instructions(script) {
                None => None,
                Some(ri) => spec_parse_inscription(ri),
            };
            insc matches Some(i) && (spec_any_live_pending(pending, i.label) || spec_any_live(
                committed,
                i.label,
            ))
        }),
    ensures
        spec_process_position(pending, committed, None, Some(script), meta) == pending,
{
    let insc = match script_instructions(script) {
        None => None,
        Some(ri) => spec_parse_inscription(ri),
    };
    let i = insc->Some_0;
    let updates = spec_generate_updates(None, Some(i), meta);
    assert(updates == seq![crate::name_token::spec_minted(i, meta)]);
    let u = updates[0];
    assert(u.label == i.label);
    assert(spec_is_mint(u, meta));
    assert(updates.drop_first() =~~= Seq::<SpecToken>::empty());
    assert(spec_fold_updates(pending, committed, updates, meta) == spec_fold_updates(
        pending,
        committed,
        updates.drop_first(),
        meta,
    ));
    assert(spec_fold_updates(pending, committed, updates.drop_first(), meta) == pending);
}

/// Token monotonicity at the update rule: a successful update strictly
/// advances the token's last metadata, and revocation keeps it; no step of
/// the position pair rule ever moves a surviving token's last metadata
/// backward.
pub proof fn lemma_update_advances_last_meta(
    t: SpecToken,
    insc: crate::name_token::SpecInscription,
    meta: SpecMetadata,
)
    ensures
        crate::name_token::spec_update(t, insc, meta) matches Ok(u)
            ==> crate::name_token::meta_lt(t.last, u.last),
        spec_generate_updates(Some(t), Some(insc), meta).len() > 0,
        !crate::name_token::meta_lt(
            spec_generate_updates(Some(t), Some(insc), meta)[0].last,
            t.last,
        ),
{
    lemma_meta_lt_irreflexive(t.last);
    let u = spec_generate_updates(Some(t), Some(insc), meta)[0];
    if insc.label == t.label && crate::name_token::spec_update(t, insc, meta) is Ok {
        lemma_meta_lt_asym(t.last, u.last);
    }
}

pub proof fn lemma_meta_lt_asym(a: SpecMetadata, b: SpecMetadata)
    requires
        crate::name_token::meta_lt(a, b),
    ensures
        !crate::name_token::meta_lt(b, a),
{
    if a.blockheight == b.blockheight && a.blockindex == b.blockindex && a.vout == b.vout {
        lemma_bytes_lt_asym(a.txid, b.txid);
    }
}

pub proof fn lemma_bytes_lt_asym(a: Seq<u8>, b: Seq<u8>)
    requires
        crate::name_token::bytes_lt(a, b),
    ensures
        !crate::name_token::bytes_lt(b, a),
    decreases a.len(),
{
    if a.len() > 0 && b.len() > 0 && a[0] == b[0] {
        lemma_bytes_lt_asym(a.drop_first(), b.drop_first());
    }
}

pub proof fn lemma_meta_lt_irreflexive(a: SpecMetadata)
    ensures
        !crate::name_token::meta_lt(a, a),
{
    lemma_bytes_lt_irreflexive(a.txid);
}

pub proof fn lemma_bytes_lt_irreflexive(a: Seq<u8>)
    ensures
        !crate::name_token::bytes_lt(a, a),
    decreases a.len(),
{
    if a.len() > 0 {
        lemma_bytes_lt_irreflexive(a.drop_first());
    }
}

/// What one whole block does to the committed tokens: the positions of each
/// transaction are folded in order into the pending buffer, and the buffer
/// is committed in one step.
pub open spec fn spec_sync_block(
    tokens: Seq<SpecToken>,
    txs: Seq<SpecTransaction>,
    height: u64,
) -> Seq<SpecToken> {
    spec_commit(tokens, pending_values(spec_sync_txs(Seq::empty(), tokens, txs, height, 0)))
}

impl NameTokenRegistry {
    /// Ingests one block atomically: transactions in block order, positions
    /// in order within each transaction, and a single commit at the end.
    pub fn sync_block(&mut self, blockheight: u64, block: &BlockData)
        requires
            blockheight < u64::MAX,
            forall|j: int|
                0 <= j < block@.len() ==> spec_position_count(#[trigger] block@[j]) <= u32::MAX,
        ensures
            final(self)@.tokens == spec_sync_block(old(self)@.tokens, block@, blockheight),
            final(self)@.next_block_height == blockheight + 1,
    {
        let ghost committed_view = self@.tokens;
        let ghost txs = block@;
        let mut pending: Vec<(OutPoint, NameToken)> = Vec::new();
        proof {
            assert(pv(pending@) =~~= Seq::<(SpecOutPoint, SpecToken)>::empty());
        }
        let tx_count = block.transactions.len();
        let ghost total = spec_sync_txs(Seq::empty(), committed_view, txs, blockheight, 0);
        let mut j: usize = 0;
        while j < tx_count
            invariant
                j <= tx_count,
                tx_count == block.transactions@.len(),
                txs == block@,
                committed_view == self@.tokens,
                forall|m: int|
                    0 <= m < txs.len() ==> spec_position_count(#[trigger] txs[m]) <= u32::MAX,
                spec_sync_txs(pv(pending@), committed_view, txs, blockheight, j as int) == total,
            decreases tx_count - j,
        {
            proof {
                assert(txs[j as int] == block.transactions@[j as int]@);
            }
            let tx = &block.transactions[j];
            let in_count = tx.inputs.len();
            let out_count = tx.output_scripts.len();
            let count = if in_count >= out_count {
                in_count
            } else {
                out_count
            };
            let ghost tx_view = txs[j as int];
            let ghost inner_total = spec_sync_positions(
                pv(pending@),
                committed_view,
                tx_view,
                blockheight,
                j as u64,
                0,
                spec_position_count(tx_view),
            );
            let mut i: usize = 0;
            while i < count
                invariant
                    i <= count,
                    count == spec_position_count(tx_view) <= u32::MAX,
                    tx_view == tx@,
                    in_count == tx.inputs@.len(),
                    out_count == tx.output_scripts@.len(),
                    committed_view == self@.tokens,
                    spec_sync_positions(
                        pv(pending@),
                        committed_view,
                        tx_view,
                        blockheight,
                        j as u64,
                        i as int,
                        spec_position_count(tx_view),
                    ) == inner_total,
                decreases count - i,
            {
                let txin: Option<&OutPoint> = if i < in_count {
                    proof {
                        assert(tx.inputs.deep_view()[i as int] == tx.inputs@[i as int]@);
                    }
                    Some(&tx.inputs[i])
                } else {
                    None
                };
                let script: Option<&Vec<u8>> = if i < out_count {
                    proof {
                        assert(tx.output_scripts.deep_view()[i as int] == tx.output_scripts@[
                            i as int
                        ]@);
                    }
                    Some(&tx.output_scripts[i])
                } else {
                    None
                };
                let meta = InscriptionMetadata {
                    blockheight,
                    blockindex: j as u64,
                    vout: i as u32,
                    txid: clone_bytes(&tx.txid),
                };
                process_position(&mut pending, &self.tokens, txin, script, meta);
                i = i + 1;
            }
            j = j + 1;
        }
        let n = pending.len();
        let mut updates: Vec<NameToken> = Vec::new();
        let mut k: usize = 0;
        while k < n
            invariant
                k <= n,
                n == pending@.len(),
                updates@.len() == k,
                forall|m: int| 0 <= m < k ==> #[trigger] updates@[m]@ == pv(pending@)[m].1,
            decreases n - k,
        {
            proof {
                assert(pv(pending@)[k as int] == (pending@[k as int].0@, pending@[k as int].1@));
            }
            updates.push(pending[k].1.clone());
            k = k + 1;
        }
        proof {
            assert forall|m: int|
                0 <= m < n implies updates.deep_view()[m] == pending_values(pv(pending@))[m] by {
                assert(updates.deep_view()[m] == updates@[m]@);
            }
            assert(updates.deep_view() =~~= pending_values(pv(pending@)));
        }
        self.save_block_updates(blockheight, &updates);
    }
}

} // verus!
