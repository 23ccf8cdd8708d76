//! Block DAG: blocks keyed by hash, each linked to a parent that was stored
//! before it, with tips and a canonical total order.

use vstd::prelude::*;
use crate::bytes::{lex_lt, bytes_eq, compare_bytes, Ordering, lemma_lex_asymmetric, lemma_lex_transitive};
use crate::types::{Address, Block, BlockHash, Transaction, block_hash_of, header_bytes, is_null_hash};
use crate::consensus::{ConsensusError, ConsensusResult};

verus! {

/// The hash of a block.
pub open spec fn hash_of(b: Block) -> Seq<u8> {
    block_hash_of(b.header)
}

/// The parent hash that a block names.
pub open spec fn parent_of(b: Block) -> Seq<u8> {
    b.header.parent_hash.0@
}

/// The bytes of each hash of a sequence.
pub open spec fn hash_seq(v: Seq<BlockHash>) -> Seq<Seq<u8>> {
    v.map_values(|h: BlockHash| h.0@)
}

/// Two optional addresses are equal.
pub open spec fn same_recipient(a: Option<Address>, b: Option<Address>) -> bool {
    match (a, b) {
        (None, None) => true,
        (Some(x), Some(y)) => x.0@ == y.0@,
        _ => false,
    }
}

/// Two transactions agree in every field.
pub open spec fn same_transaction(a: Transaction, b: Transaction) -> bool {
    &&& a.from.0@ == b.from.0@
    &&& same_recipient(a.to, b.to)
    &&& a.value == b.value
    &&& a.data@ == b.data@
    &&& a.gas_limit == b.gas_limit
    &&& a.gas_price == b.gas_price
    &&& a.nonce == b.nonce
    &&& a.signature.0@ == b.signature.0@
}

/// Two blocks have the same header and the same transactions.
pub open spec fn same_block(a: Block, b: Block) -> bool {
    &&& header_bytes(a.header) == header_bytes(b.header)
    &&& a.transactions@.len() == b.transactions@.len()
    &&& forall|k: int| 0 <= k < a.transactions@.len()
        ==> same_transaction(#[trigger] a.transactions@[k], b.transactions@[k])
}

fn recipients_equal(a: &Option<Address>, b: &Option<Address>) -> (r: bool)
    ensures
        r == same_recipient(*a, *b),
{
    match (a, b) {
        (None, None) => true,
        (Some(x), Some(y)) => bytes_eq(x.0.as_slice(), y.0.as_slice()),
        _ => false,
    }
}

fn transactions_equal(a: &Transaction, b: &Transaction) -> (r: bool)
    ensures
        r == same_transaction(*a, *b),
{
    bytes_eq(a.from.0.as_slice(), b.from.0.as_slice()) && recipients_equal(&a.to, &b.to)
        && a.value == b.value && bytes_eq(a.data.as_slice(), b.data.as_slice())
        && a.gas_limit == b.gas_limit && a.gas_price == b.gas_price && a.nonce == b.nonce
        && bytes_eq(a.signature.0.as_slice(), b.signature.0.as_slice())
}

fn blocks_equal(a: &Block, b: &Block) -> (r: bool)
    ensures
        r == same_block(*a, *b),
{
    let ha = a.header.encode_bytes();
    let hb = b.header.encode_bytes();
    if !bytes_eq(ha.as_slice(), hb.as_slice()) || a.transactions.len() != b.transactions.len() {
        return false;
    }
    let mut k: usize = 0;
    while k < a.transactions.len()
        invariant
            a.transactions@.len() == b.transactions@.len(),
            0 <= k <= a.transactions@.len(),
            header_bytes(a.header) == header_bytes(b.header),
            forall|j: int| 0 <= j < k ==> same_transaction(#[trigger] a.transactions@[j], b.transactions@[j]),
        decreases a.transactions@.len() - k,
    {
        if !transactions_equal(&a.transactions[k], &b.transactions[k]) {
            return false;
        }
        k = k + 1;
    }
    true
}

/// The number of `true` entries.
pub open spec fn count_true(s: Seq<bool>) -> nat
    decreases s.len(),
{
    if s.len() == 0 {
        0
    } else {
        count_true(s.drop_last()) + if s.last() { 1nat } else { 0nat }
    }
}

proof fn lemma_count_clear(s: Seq<bool>, i: int)
    requires
        0 <= i < s.len(),
        s[i],
    ensures
        count_true(s.update(i, false)) + 1 == count_true(s),
    decreases s.len(),
{
    if i < s.len() - 1 {
        assert(s.update(i, false).drop_last() =~= s.drop_last().update(i, false));
        lemma_count_clear(s.drop_last(), i);
    } else {
        assert(s.update(i, false).drop_last() =~= s.drop_last());
    }
}

/// Blocks linked to their parents, in the order they were stored.
pub struct DagStructure {
    blocks: Vec<Block>,
    hashes: Vec<BlockHash>,
    parent_index: Vec<Option<usize>>,
}

impl DagStructure {
    /// The stored blocks, in the order they were added.
    pub closed spec fn entries(&self) -> Seq<Block> {
        self.blocks@
    }

    /// The hash of the `i`-th stored block.
    pub open spec fn hash_at(&self, i: int) -> Seq<u8> {
        hash_of(self.entries()[i])
    }

    /// The parent hash of the `i`-th stored block.
    pub open spec fn parent_at(&self, i: int) -> Seq<u8> {
        parent_of(self.entries()[i])
    }

    /// Some stored block has hash `h`.
    pub open spec fn stores(&self, h: Seq<u8>) -> bool {
        exists|i: int| 0 <= i < self.entries().len() && #[trigger] self.hash_at(i) == h
    }

    /// Block `j` names block `i` as its parent.
    pub open spec fn is_child(&self, j: int, i: int) -> bool {
        !is_null_hash(self.parent_at(j)) && self.parent_at(j) == self.hash_at(i)
    }

    /// No stored block names block `i` as its parent.
    pub open spec fn is_tip(&self, i: int) -> bool {
        forall|j: int| 0 <= j < self.entries().len() ==> !#[trigger] self.is_child(j, i)
    }

    /// The cached hashes and parent positions agree with the blocks.
    pub closed spec fn caches_ok(&self) -> bool {
        &&& self.hashes@.len() == self.blocks@.len()
        &&& self.parent_index@.len() == self.blocks@.len()
        &&& forall|i: int| 0 <= i < self.blocks@.len() ==> (#[trigger] self.hashes@[i]).0@ == self.hash_at(i)
        &&& forall|i: int| 0 <= i < self.blocks@.len() ==> match #[trigger] self.parent_index@[i] {
            None => is_null_hash(self.parent_at(i)),
            Some(j) => j < i && !is_null_hash(self.parent_at(i)) && self.hash_at(j as int) == self.parent_at(i),
        }
    }

    /// Hashes are unique, and each block but a genesis block (one whose parent
    /// hash is all zeros) has its parent stored before it.
    pub open spec fn wf(&self) -> bool {
        &&& self.caches_ok()
        &&& forall|i: int, j: int| 0 <= i < self.entries().len() && 0 <= j < self.entries().len() && i != j
            ==> #[trigger] self.hash_at(i) != #[trigger] self.hash_at(j)
        &&& forall|i: int| 0 <= i < self.entries().len() && !is_null_hash(#[trigger] self.parent_at(i))
            ==> exists|j: int| 0 <= j < i && #[trigger] self.hash_at(j) == self.parent_at(i)
    }

    /// An empty DAG.
    pub fn new() -> (r: Self)
        ensures
            r.wf(),
            r.entries().len() == 0,
    {
        DagStructure { blocks: Vec::new(), hashes: Vec::new(), parent_index: Vec::new() }
    }

    /// The number of stored blocks.
    pub fn len(&self) -> (r: usize)
        requires
            self.wf(),
        ensures
            r == self.entries().len(),
    {
        self.blocks.len()
    }

    /// Finds the position of the block with hash `h`.
    fn find_hash(&self, h: &BlockHash) -> (r: Option<usize>)
        requires
            self.wf(),
        ensures
            match r {
                Some(i) => i < self.entries().len() && self.hash_at(i as int) == h.0@,
                None => !self.stores(h.0@),
            },
    {
        let mut i: usize = 0;
        while i < self.hashes.len()
            invariant
                self.wf(),
                0 <= i <= self.entries().len(),
                forall|j: int| 0 <= j < i ==> self.hash_at(j) != h.0@,
            decreases self.entries().len() - i,
        {
            if bytes_eq(self.hashes[i].0.as_slice(), h.0.as_slice()) {
                return Some(i);
            }
            i = i + 1;
        }
        None
    }

    /// Stores a block. A block whose hash is already stored is a no-op success
    /// if it is identical to the stored one, and fails with `DuplicateBlock`
    /// otherwise. A block that is not genesis fails with `UnknownParent` unless
    /// its parent is stored.
    pub fn add_block(&mut self, block: Block) -> (r: ConsensusResult<()>)
        requires
            old(self).wf(),
            old(self).entries().len() < usize::MAX,
        ensures
            final(self).wf(),
            r is Err ==> *final(self) == *old(self),
            old(self).stores(hash_of(block)) ==> final(self).entries() == old(self).entries() && (
                r is Ok <==> exists|i: int| 0 <= i < old(self).entries().len()
                    && #[trigger] old(self).hash_at(i) == hash_of(block) && same_block(old(self).entries()[i], block)),
            old(self).stores(hash_of(block)) && r is Err ==> r->Err_0 is DuplicateBlock,
            !old(self).stores(hash_of(block)) && !is_null_hash(parent_of(block)) && !old(self).stores(parent_of(block))
                ==> r is Err && r->Err_0 is UnknownParent && final(self).entries() == old(self).entries(),
            !old(self).stores(hash_of(block)) && (is_null_hash(parent_of(block)) || old(self).stores(parent_of(block)))
                ==> r is Ok && final(self).entries() == old(self).entries().push(block),
    {
        let hash = block.hash();
        match self.find_hash(&hash) {
            Some(i) => {
                if blocks_equal(&self.blocks[i], &block) {
                    return Ok(());
                } else {
                    proof {
                        assert forall|k: int| 0 <= k < self.entries().len() && #[trigger] self.hash_at(k) == hash_of(block)
                            implies !same_block(self.entries()[k], block) by {
                            assert(k == i);
                        }
                    }
                    return Err(ConsensusError::DuplicateBlock);
                }
            },
            None => {},
        }
        let parent = block.header.parent_hash;
        let pidx: Option<usize> = if is_genesis_parent(&parent) {
            None
        } else {
            match self.find_hash(&parent) {
                Some(j) => Some(j),
                None => {
                    return Err(ConsensusError::UnknownParent);
                },
            }
        };
        let ghost old_self = *self;
        self.blocks.push(block);
        self.hashes.push(hash);
        self.parent_index.push(pidx);
        proof {
            let n = old_self.entries().len();
            assert(self.entries() == old_self.entries().push(block));
            assert forall|i: int| 0 <= i < n implies #[trigger] self.hash_at(i) == old_self.hash_at(i)
                && self.parent_at(i) == old_self.parent_at(i) by {}
            assert(self.hash_at(n as int) == hash_of(block));
            assert forall|i: int| 0 <= i < self.blocks@.len() implies (#[trigger] self.hashes@[i]).0@ == self.hash_at(i) by {}
            assert forall|i: int| 0 <= i < self.blocks@.len() implies match #[trigger] self.parent_index@[i] {
                None => is_null_hash(self.parent_at(i)),
                Some(j) => j < i && !is_null_hash(self.parent_at(i)) && self.hash_at(j as int) == self.parent_at(i),
            } by {
                if i < n {
                    assert(self.parent_index@[i] == old_self.parent_index@[i]);
                }
            }
            assert forall|i: int| 0 <= i < self.entries().len() && !is_null_hash(#[trigger] self.parent_at(i))
                implies exists|j: int| 0 <= j < i && #[trigger] self.hash_at(j) == self.parent_at(i) by {
                if i < n {
                    let j = choose|j: int| 0 <= j < i && #[trigger] old_self.hash_at(j) == old_self.parent_at(i);
                    assert(self.hash_at(j) == self.parent_at(i));
                } else {
                    let j = pidx->Some_0 as int;
                    assert(self.hash_at(j) == self.parent_at(i));
                }
            }
        }
        Ok(())
    }

    /// The stored block with hash `hash`, if there is one.
    pub fn get_block(&self, hash: &BlockHash) -> (r: Option<&Block>)
        requires
            self.wf(),
        ensures
            match r {
                Some(b) => exists|i: int| 0 <= i < self.entries().len() && #[trigger] self.hash_at(i) == hash.0@
                    && *b == self.entries()[i],
                None => !self.stores(hash.0@),
            },
    {
        match self.find_hash(hash) {
            Some(i) => Some(&self.blocks[i]),
            None => None,
        }
    }
}

impl Default for DagStructure {
    fn default() -> (r: Self)
        ensures
            r.wf(),
            r.entries().len() == 0,
    {
        Self::new()
    }
}

/// Whether a parent hash is the all-zero hash of a genesis block.
pub fn is_genesis_parent(h: &BlockHash) -> (r: bool)
    ensures
        r == is_null_hash(h.0@),
{
    let mut i: usize = 0;
    while i < 32
        invariant
            0 <= i <= 32,
            h.0@.len() == 32,
            forall|j: int| 0 <= j < i ==> h.0@[j] == 0,
        decreases 32 - i,
    {
        if h.0[i] != 0 {
            return false;
        }
        i = i + 1;
    }
    true
}

impl DagStructure {
    /// Block `i` may come next after the hashes in `prefix`: it is not among
    /// them, and it is a genesis block or its parent is among them.
    pub open spec fn ready(&self, prefix: Seq<Seq<u8>>, i: int) -> bool {
        &&& !prefix.contains(self.hash_at(i))
        &&& (is_null_hash(self.parent_at(i)) || prefix.contains(self.parent_at(i)))
    }

    /// `h` is the hash of the block that comes next after `prefix`: of the blocks
    /// that are ready, the one whose hash is smallest in byte order.
    pub open spec fn next_in_order(&self, prefix: Seq<Seq<u8>>, h: Seq<u8>) -> bool {
        exists|i: int| 0 <= i < self.entries().len() && #[trigger] self.hash_at(i) == h && self.ready(prefix, i)
            && forall|j: int| 0 <= j < self.entries().len() && j != i && self.ready(prefix, j)
                ==> lex_lt(h, #[trigger] self.hash_at(j))
    }

    /// `order` is the canonical order of the DAG: as long as the DAG, and each
    /// hash the one that comes next after those before it.
    pub open spec fn is_canonical_order(&self, order: Seq<Seq<u8>>) -> bool {
        &&& order.len() == self.entries().len()
        &&& forall|k: int| 0 <= k < order.len() ==> #[trigger] self.next_in_order(order.subrange(0, k), order[k])
    }

    /// Of the positions flagged in `eligible`, the one whose hash is smallest.
    fn select_min(&self, eligible: &Vec<bool>) -> (r: Option<usize>)
        requires
            self.wf(),
            eligible@.len() == self.entries().len(),
        ensures
            match r {
                Some(m) => m < eligible@.len() && eligible@[m as int] && forall|j: int|
                    0 <= j < eligible@.len() && j != m && eligible@[j] ==> lex_lt(self.hash_at(m as int), #[trigger] self.hash_at(j)),
                None => forall|j: int| 0 <= j < eligible@.len() ==> !eligible@[j],
            },
    {
        let n = self.hashes.len();
        let mut best: Option<usize> = None;
        let mut i: usize = 0;
        while i < n
            invariant
                self.wf(),
                n == eligible@.len(),
                n == self.hashes@.len(),
                0 <= i <= n,
                match best {
                    Some(m) => m < i && eligible@[m as int] && forall|j: int|
                        0 <= j < i && j != m && eligible@[j] ==> lex_lt(self.hash_at(m as int), #[trigger] self.hash_at(j)),
                    None => forall|j: int| 0 <= j < i ==> !eligible@[j],
                },
            decreases n - i,
        {
            if eligible[i] {
                match best {
                    None => {
                        best = Some(i);
                    },
                    Some(m) => {
                        let hi = self.hashes[i];
                        let hm = self.hashes[m];
                        assert(hi.0@ == self.hash_at(i as int));
                        assert(hm.0@ == self.hash_at(m as int));
                        let c = compare_bytes(hi.0.as_slice(), hm.0.as_slice());
                        match c {
                            Ordering::Less => {
                                proof {
                                    assert forall|j: int| 0 <= j < i + 1 && j != i && eligible@[j]
                                        implies lex_lt(self.hash_at(i as int), #[trigger] self.hash_at(j)) by {
                                        if j != m {
                                            lemma_lex_transitive(self.hash_at(i as int), self.hash_at(m as int), self.hash_at(j));
                                        }
                                    }
                                }
                                best = Some(i);
                            },
                            Ordering::Greater => {},
                            Ordering::Equal => {
                                assert(false);
                            },
                        }
                    },
                }
            }
            i = i + 1;
        }
        best
    }

    /// For each block, whether some block names it as its parent.
    fn child_flags(&self) -> (r: Vec<bool>)
        requires
            self.wf(),
        ensures
            r@.len() == self.entries().len(),
            forall|i: int| 0 <= i < r@.len() ==> (r@[i] <==> !self.is_tip(i)),
    {
        let n = self.blocks.len();
        let mut flags: Vec<bool> = Vec::new();
        let mut i: usize = 0;
        while i < n
            invariant
                n == self.entries().len(),
                0 <= i <= n,
                flags@.len() == i,
                forall|k: int| 0 <= k < i ==> !flags@[k],
            decreases n - i,
        {
            flags.push(false);
            i = i + 1;
        }
        let mut j: usize = 0;
        while j < n
            invariant
                self.wf(),
                n == self.entries().len(),
                0 <= j <= n,
                flags@.len() == n,
                forall|k: int| 0 <= k < n ==> (flags@[k] <==> exists|c: int| 0 <= c < j && #[trigger] self.is_child(c, k)),
            decreases n - j,
        {
            match self.parent_index[j] {
                Some(p) => {
                    assert(self.parent_index@[j as int] == Some(p));
                    flags.set(p, true);
                    proof {
                        assert(self.is_child(j as int, p as int));
                        assert forall|k: int| 0 <= k < n implies (flags@[k] <==> exists|c: int| 0 <= c < j + 1 && #[trigger] self.is_child(c, k)) by {
                            if k != p && self.is_child(j as int, k) {
                                assert(self.hash_at(k) == self.hash_at(p as int));
                            }
                            if flags@[k] && k != p {
                                let c = choose|c: int| 0 <= c < j && #[trigger] self.is_child(c, k);
                                assert(0 <= c < j + 1 && self.is_child(c, k));
                            }
                        }
                    }
                },
                None => {
                    proof {
                        assert(self.parent_index@[j as int].is_none());
                        assert forall|k: int| 0 <= k < n implies (flags@[k] <==> exists|c: int| 0 <= c < j + 1 && #[trigger] self.is_child(c, k)) by {
                            assert(!self.is_child(j as int, k));
                            if flags@[k] {
                                let c = choose|c: int| 0 <= c < j && #[trigger] self.is_child(c, k);
                                assert(0 <= c < j + 1 && self.is_child(c, k));
                            }
                        }
                    }
                },
            }
            j = j + 1;
        }
        proof {
            assert forall|i: int| 0 <= i < n implies (flags@[i] <==> !self.is_tip(i)) by {
                if !self.is_tip(i) {
                    let c = choose|c: int| 0 <= c < n && !#[trigger] self.is_child(c, i);
                }
            }
        }
        flags
    }
}

proof fn lemma_count_all(s: Seq<bool>, b: bool)
    requires
        forall|i: int| 0 <= i < s.len() ==> s[i] == b,
    ensures
        count_true(s) == if b { s.len() } else { 0 },
    decreases s.len(),
{
    if s.len() > 0 {
        lemma_count_all(s.drop_last(), b);
    }
}

impl DagStructure {
    /// For each block, whether it is ready after `prefix`, given which blocks
    /// are still pending.
    fn ready_flags(&self, pending: &Vec<bool>, Ghost(prefix): Ghost<Seq<Seq<u8>>>) -> (r: Vec<bool>)
        requires
            self.wf(),
            pending@.len() == self.entries().len(),
            forall|i: int| 0 <= i < pending@.len() ==> (pending@[i] <==> !prefix.contains(#[trigger] self.hash_at(i))),
        ensures
            r@.len() == self.entries().len(),
            forall|i: int| 0 <= i < r@.len() ==> (r@[i] <==> self.ready(prefix, i)),
    {
        let n = self.blocks.len();
        let mut r: Vec<bool> = Vec::new();
        let mut i: usize = 0;
        while i < n
            invariant
                self.wf(),
                n == self.entries().len(),
                pending@.len() == n,
                forall|i: int| 0 <= i < n ==> (pending@[i] <==> !prefix.contains(#[trigger] self.hash_at(i))),
                0 <= i <= n,
                r@.len() == i,
                forall|k: int| 0 <= k < i ==> (r@[k] <==> self.ready(prefix, k)),
            decreases n - i,
        {
            let flag = pending[i] && match self.parent_index[i] {
                None => true,
                Some(j) => !pending[j],
            };
            proof {
                assert(self.parent_index@[i as int] == self.parent_index@[i as int]);
                match self.parent_index@[i as int] {
                    None => {},
                    Some(j) => {
                        assert(pending@[j as int] <==> !prefix.contains(self.hash_at(j as int)));
                    },
                }
            }
            r.push(flag);
            i = i + 1;
        }
        r
    }

    proof fn lemma_all_emitted(&self, prefix: Seq<Seq<u8>>, i: int)
        requires
            self.wf(),
            forall|j: int| 0 <= j < self.entries().len() ==> !#[trigger] self.ready(prefix, j),
            0 <= i < self.entries().len(),
        ensures
            prefix.contains(self.hash_at(i)),
        decreases i,
    {
        if !prefix.contains(self.hash_at(i)) {
            assert(!self.ready(prefix, i));
            let j = choose|j: int| 0 <= j < i && #[trigger] self.hash_at(j) == self.parent_at(i);
            self.lemma_all_emitted(prefix, j);
        }
    }

    /// `h` is the hash of a tip, and smaller than the hash of any other tip.
    pub open spec fn is_least_tip(&self, h: Seq<u8>) -> bool {
        &&& self.is_tip_hash(h)
        &&& forall|i: int| 0 <= i < self.entries().len() && self.is_tip(i) && self.hash_at(i) != h
            ==> lex_lt(h, #[trigger] self.hash_at(i))
    }

    /// The block stored last has no child: a child is always stored after its parent.
    pub proof fn lemma_last_is_tip(&self)
        requires
            self.wf(),
            self.entries().len() > 0,
        ensures
            self.is_tip(self.entries().len() - 1),
    {
        let n = self.entries().len() as int;
        assert forall|j: int| 0 <= j < n implies !#[trigger] self.is_child(j, n - 1) by {
            if self.is_child(j, n - 1) {
                let k = choose|k: int| 0 <= k < j && #[trigger] self.hash_at(k) == self.parent_at(j);
                assert(self.hash_at(k) == self.hash_at(n - 1));
            }
        }
    }

    /// Each hash of `r` is that of a tip.
    pub open spec fn only_tips(&self, r: Seq<BlockHash>) -> bool {
        forall|k: int| 0 <= k < r.len() ==> self.is_tip_hash(#[trigger] r[k].0@)
    }

    /// `h` is the hash of a tip.
    pub open spec fn is_tip_hash(&self, h: Seq<u8>) -> bool {
        exists|i: int| 0 <= i < self.entries().len() && self.is_tip(i) && #[trigger] self.hash_at(i) == h
    }

    /// Each hash of `out` is that of a block flagged false in `hc`.
    spec fn drawn_from(&self, hc: Seq<bool>, out: Seq<BlockHash>) -> bool {
        forall|k: int| #![trigger out[k]] 0 <= k < out.len() ==> exists|i: int|
            0 <= i < hc.len() && !hc[i] && #[trigger] self.hash_at(i) == out[k].0@
    }

    proof fn lemma_tips_step(
        &self,
        hc: Seq<bool>,
        old_avail: Seq<bool>,
        avail: Seq<bool>,
        old_out: Seq<BlockHash>,
        out: Seq<BlockHash>,
        m: int,
    )
        requires
            self.wf(),
            hc.len() == self.entries().len(),
            old_avail.len() == self.entries().len(),
            0 <= m < self.entries().len(),
            old_avail[m],
            forall|j: int| 0 <= j < old_avail.len() && j != m && old_avail[j]
                ==> lex_lt(self.hash_at(m), #[trigger] self.hash_at(j)),
            avail == old_avail.update(m, false),
            out == old_out.push(BlockHash(self.hashes@[m].0)),
            self.hashes@[m].0@ == self.hash_at(m),
            forall|i: int| 0 <= i < old_avail.len() && old_avail[i] ==> !hc[i],
            forall|i: int| 0 <= i < old_avail.len() && !hc[i] ==> old_avail[i] || exists|k: int|
                0 <= k < old_out.len() && #[trigger] old_out[k].0@ == self.hash_at(i),
            self.drawn_from(hc, old_out),
            forall|p: int, q: int| 0 <= p < q < old_out.len() ==> lex_lt(#[trigger] old_out[p].0@, #[trigger] old_out[q].0@),
            forall|k: int, i: int| 0 <= k < old_out.len() && 0 <= i < old_avail.len() && old_avail[i]
                ==> lex_lt(#[trigger] old_out[k].0@, #[trigger] self.hash_at(i)),
        ensures
            count_true(avail) + 1 == count_true(old_avail),
            forall|i: int| 0 <= i < avail.len() && avail[i] ==> !hc[i],
            forall|i: int| 0 <= i < avail.len() && !hc[i] ==> avail[i] || exists|k: int|
                0 <= k < out.len() && #[trigger] out[k].0@ == self.hash_at(i),
            self.drawn_from(hc, out),
            forall|p: int, q: int| 0 <= p < q < out.len() ==> lex_lt(#[trigger] out[p].0@, #[trigger] out[q].0@),
            forall|k: int, i: int| 0 <= k < out.len() && 0 <= i < avail.len() && avail[i]
                ==> lex_lt(#[trigger] out[k].0@, #[trigger] self.hash_at(i)),
    {
        lemma_count_clear(old_avail, m);
        let last = old_out.len() as int;
        assert(out[last].0@ == self.hash_at(m));
        assert forall|i: int| 0 <= i < avail.len() && !hc[i] implies avail[i] || exists|k: int|
            0 <= k < out.len() && #[trigger] out[k].0@ == self.hash_at(i) by {
            if i == m {
                assert(out[last].0@ == self.hash_at(i));
            } else if !old_avail[i] {
                let k = choose|k: int| 0 <= k < old_out.len() && #[trigger] old_out[k].0@ == self.hash_at(i);
                assert(out[k] == old_out[k]);
            }
        }
        assert forall|k: int| #![trigger out[k]] 0 <= k < out.len() implies exists|i: int|
            0 <= i < hc.len() && !hc[i] && #[trigger] self.hash_at(i) == out[k].0@ by {
            if k == last {
                assert(self.hash_at(m) == out[k].0@);
            } else {
                assert(out[k] == old_out[k]);
            }
        }
        assert forall|p: int, q: int| 0 <= p < q < out.len() implies lex_lt(#[trigger] out[p].0@, #[trigger] out[q].0@) by {
            assert(out[p] == old_out[p]);
            if q < last {
                assert(out[q] == old_out[q]);
            }
        }
        assert forall|k: int, i: int| 0 <= k < out.len() && 0 <= i < avail.len() && avail[i]
            implies lex_lt(#[trigger] out[k].0@, #[trigger] self.hash_at(i)) by {
            if k < last {
                assert(out[k] == old_out[k]);
            }
        }
    }

    /// The hashes of all blocks that no block names as its parent, in ascending
    /// byte order.
    pub fn get_tips(&self) -> (r: Vec<BlockHash>)
        requires
            self.wf(),
        ensures
            forall|p: int, q: int| 0 <= p < q < r@.len() ==> lex_lt(#[trigger] r@[p].0@, #[trigger] r@[q].0@),
            self.only_tips(r@),
            forall|i: int| 0 <= i < self.entries().len() && self.is_tip(i) ==> exists|k: int|
                0 <= k < r@.len() && #[trigger] r@[k].0@ == self.hash_at(i),
    {
        let n = self.blocks.len();
        let has_child = self.child_flags();
        let mut avail: Vec<bool> = Vec::new();
        let mut i: usize = 0;
        while i < n
            invariant
                n == self.entries().len(),
                has_child@.len() == n,
                forall|i: int| 0 <= i < n ==> (has_child@[i] <==> !self.is_tip(i)),
                0 <= i <= n,
                avail@.len() == i,
                forall|k: int| 0 <= k < i ==> avail@[k] == !has_child@[k],
            decreases n - i,
        {
            avail.push(!has_child[i]);
            i = i + 1;
        }
        let ghost hc = has_child@;
        assert forall|i: int| 0 <= i < n implies (hc[i] <==> !self.is_tip(i)) by {}
        let mut out: Vec<BlockHash> = Vec::new();
        let mut done = false;
        while !done
            invariant
                self.wf(),
                n == self.entries().len(),
                n == self.hashes@.len(),
                avail@.len() == n,
                hc.len() == n,
                forall|i: int| 0 <= i < avail@.len() && avail@[i] ==> !hc[i],
                forall|i: int| 0 <= i < avail@.len() && !hc[i] ==> avail@[i] || exists|k: int|
                    0 <= k < out@.len() && #[trigger] out@[k].0@ == self.hash_at(i),
                self.drawn_from(hc, out@),
                forall|p: int, q: int| 0 <= p < q < out@.len() ==> lex_lt(#[trigger] out@[p].0@, #[trigger] out@[q].0@),
                forall|k: int, i: int| 0 <= k < out@.len() && 0 <= i < avail@.len() && avail@[i]
                    ==> lex_lt(#[trigger] out@[k].0@, #[trigger] self.hash_at(i)),
                done ==> forall|i: int| 0 <= i < n ==> !avail@[i],
            decreases count_true(avail@) + if done { 0nat } else { 1nat },
        {
            match self.select_min(&avail) {
                None => {
                    done = true;
                },
                Some(m) => {
                    let h = self.hashes[m];
                    assert(h.0@ == self.hash_at(m as int));
                    let ghost old_out = out@;
                    let ghost old_avail = avail@;
                    out.push(h);
                    avail.set(m, false);
                    proof {
                        self.lemma_tips_step(hc, old_avail, avail@, old_out, out@, m as int);
                    }
                },
            }
        }
        proof {
            let o = out@;
            assert forall|k: int| 0 <= k < o.len() implies self.is_tip_hash(#[trigger] o[k].0@) by {
                let i = choose|i: int| 0 <= i < hc.len() && !hc[i] && #[trigger] self.hash_at(i) == o[k].0@;
                assert(self.is_tip(i));
            }
            assert(self.only_tips(o));
        }
        out
    }

    /// The canonical order of the DAG: a total order in which each block comes
    /// after its parent, and which, among the blocks that could come next, always
    /// takes the one with the smallest hash.
    pub fn topological_sort(&self) -> (r: Vec<BlockHash>)
        requires
            self.wf(),
        ensures
            self.is_canonical_order(hash_seq(r@)),
            forall|i: int| 0 <= i < self.entries().len() ==> hash_seq(r@).contains(#[trigger] self.hash_at(i)),
    {
        let n = self.blocks.len();
        let mut pending: Vec<bool> = Vec::new();
        let mut i: usize = 0;
        while i < n
            invariant
                0 <= i <= n,
                pending@.len() == i,
                forall|k: int| 0 <= k < i ==> pending@[k],
            decreases n - i,
        {
            pending.push(true);
            i = i + 1;
        }
        let mut out: Vec<BlockHash> = Vec::new();
        proof {
            lemma_count_all(pending@, true);
            assert forall|i: int| 0 <= i < n implies (pending@[i] <==> !hash_seq(out@).contains(#[trigger] self.hash_at(i))) by {}
        }
        let mut done = false;
        while !done
            invariant
                self.wf(),
                n == self.entries().len(),
                n == self.hashes@.len(),
                pending@.len() == n,
                out@.len() + count_true(pending@) == n,
                forall|i: int| 0 <= i < n ==> (pending@[i] <==> !hash_seq(out@).contains(#[trigger] self.hash_at(i))),
                forall|k: int| 0 <= k < out@.len() ==> #[trigger] self.next_in_order(hash_seq(out@).subrange(0, k), hash_seq(out@)[k]),
                done ==> forall|i: int| 0 <= i < n ==> !pending@[i],
            decreases count_true(pending@) + if done { 0nat } else { 1nat },
        {
            let ghost prefix = hash_seq(out@);
            let eligible = self.ready_flags(&pending, Ghost(prefix));
            match self.select_min(&eligible) {
                None => {
                    proof {
                        assert forall|i: int| 0 <= i < n implies !pending@[i] by {
                            self.lemma_all_emitted(prefix, i);
                        }
                    }
                    done = true;
                },
                Some(m) => {
                    let h = self.hashes[m];
                    assert(h.0@ == self.hash_at(m as int));
                    let ghost old_out = out@;
                    let ghost old_pending = pending@;
                    out.push(h);
                    pending.set(m, false);
                    proof {
                        let hs = hash_seq(out@);
                        assert(hs =~= prefix.push(self.hash_at(m as int)));
                        assert(self.ready(prefix, m as int));
                        assert(old_pending[m as int]);
                        lemma_count_clear(old_pending, m as int);
                        assert(self.next_in_order(prefix, self.hash_at(m as int)));
                        assert forall|k: int| 0 <= k < out@.len() implies #[trigger] self.next_in_order(hs.subrange(0, k), hs[k]) by {
                            if k < old_out.len() {
                                assert(hs.subrange(0, k) =~= prefix.subrange(0, k));
                                assert(hs[k] == prefix[k]);
                            } else {
                                assert(hs.subrange(0, k) =~= prefix);
                            }
                        }
                        assert forall|i: int| 0 <= i < n implies (pending@[i] <==> !hs.contains(#[trigger] self.hash_at(i))) by {
                            if i == m {
                                assert(hs[old_out.len() as int] == self.hash_at(i));
                            } else {
                                assert(self.hash_at(i) != self.hash_at(m as int));
                                if prefix.contains(self.hash_at(i)) {
                                    let k = choose|k: int| 0 <= k < prefix.len() && prefix[k] == self.hash_at(i);
                                    assert(hs[k] == self.hash_at(i));
                                }
                                if hs.contains(self.hash_at(i)) {
                                    let k = choose|k: int| 0 <= k < hs.len() && hs[k] == self.hash_at(i);
                                    assert(k < prefix.len());
                                    assert(prefix[k] == self.hash_at(i));
                                }
                            }
                        }
                    }
                },
            }
        }
        proof {
            lemma_count_all(pending@, false);
        }
        out
    }
}

/// Two canonical orders of the same DAG are equal: the order is a function of
/// the stored blocks alone, so every node that holds them computes it alike.
pub proof fn lemma_canonical_order_unique(dag: DagStructure, o1: Seq<Seq<u8>>, o2: Seq<Seq<u8>>)
    requires
        dag.wf(),
        dag.is_canonical_order(o1),
        dag.is_canonical_order(o2),
    ensures
        o1 == o2,
{
    lemma_canonical_prefix_eq(dag, o1, o2, o1.len() as int);
    assert(o1 =~= o1.subrange(0, o1.len() as int));
    assert(o2 =~= o2.subrange(0, o2.len() as int));
}

proof fn lemma_canonical_prefix_eq(dag: DagStructure, o1: Seq<Seq<u8>>, o2: Seq<Seq<u8>>, k: int)
    requires
        dag.wf(),
        dag.is_canonical_order(o1),
        dag.is_canonical_order(o2),
        0 <= k <= o1.len(),
    ensures
        o1.subrange(0, k) == o2.subrange(0, k),
    decreases k,
{
    if k > 0 {
        lemma_canonical_prefix_eq(dag, o1, o2, k - 1);
        let p = o1.subrange(0, k - 1);
        assert(dag.next_in_order(o1.subrange(0, k - 1), o1[k - 1]));
        assert(dag.next_in_order(o2.subrange(0, k - 1), o2[k - 1]));
        let i1 = choose|i: int| 0 <= i < dag.entries().len() && #[trigger] dag.hash_at(i) == o1[k - 1] && dag.ready(p, i)
            && forall|j: int| 0 <= j < dag.entries().len() && j != i && dag.ready(p, j) ==> lex_lt(o1[k - 1], #[trigger] dag.hash_at(j));
        let i2 = choose|i: int| 0 <= i < dag.entries().len() && #[trigger] dag.hash_at(i) == o2[k - 1] && dag.ready(p, i)
            && forall|j: int| 0 <= j < dag.entries().len() && j != i && dag.ready(p, j) ==> lex_lt(o2[k - 1], #[trigger] dag.hash_at(j));
        if i1 != i2 {
            lemma_lex_asymmetric(dag.hash_at(i1), dag.hash_at(i2));
        }
        assert(o1.subrange(0, k) =~= p.push(o1[k - 1]));
        assert(o2.subrange(0, k) =~= o2.subrange(0, k - 1).push(o2[k - 1]));
    }
}

/// In a canonical order each block comes after its parent, and no block comes twice.
pub proof fn lemma_canonical_order_respects_parents(dag: DagStructure, o: Seq<Seq<u8>>, k: int)
    requires
        dag.wf(),
        dag.is_canonical_order(o),
        0 <= k < o.len(),
    ensures
        !o.subrange(0, k).contains(o[k]),
        exists|i: int| 0 <= i < dag.entries().len() && #[trigger] dag.hash_at(i) == o[k]
            && (is_null_hash(dag.parent_at(i)) || o.subrange(0, k).contains(dag.parent_at(i))),
{
    assert(dag.next_in_order(o.subrange(0, k), o[k]));
}

} // verus!
