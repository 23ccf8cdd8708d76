//! Validator registry, epoch snapshots and stake-weighted leader election.

use vstd::prelude::*;
use crate::bytes::{lex_lt, compare_bytes, bytes_eq, Ordering, lemma_lex_asymmetric, lemma_lex_transitive};
use crate::config::ConsensusConfig;
use crate::types::Address;
use crate::consensus::{ConsensusError, ConsensusResult, Validator};
use vstd::arithmetic::div_mod::{lemma_fundamental_div_mod, lemma_hoist_over_denominator, lemma_div_is_ordered, lemma_div_by_multiple};

verus! {

/// The address bytes of a validator.
pub open spec fn addr(v: Validator) -> Seq<u8> {
    v.address.0@
}

/// Addresses ascend strictly, so each address occurs at most once.
pub open spec fn sorted_by_address(s: Seq<Validator>) -> bool {
    forall|i: int, j: int| 0 <= i < j < s.len() ==> lex_lt(#[trigger] addr(s[i]), #[trigger] addr(s[j]))
}

/// Every active validator holds at least `min`.
pub open spec fn active_meet_min(s: Seq<Validator>, min: u128) -> bool {
    forall|i: int| 0 <= i < s.len() && (#[trigger] s[i]).is_active ==> s[i].stake >= min
}

/// The stake that `v` contributes to a total over all validators, or over the
/// active ones only.
pub open spec fn weight(v: Validator, active_only: bool) -> nat {
    if !active_only || v.is_active {
        v.stake as nat
    } else {
        0
    }
}

/// The summed stake of all validators of `s`, or of its active ones only.
pub open spec fn stake_total(s: Seq<Validator>, active_only: bool) -> nat
    decreases s.len(),
{
    if s.len() == 0 {
        0
    } else {
        stake_total(s.drop_last(), active_only) + weight(s.last(), active_only)
    }
}

/// The active stake held by the validators before position `i`.
pub open spec fn prefix_active(s: Seq<Validator>, i: int) -> nat {
    stake_total(s.subrange(0, i), true)
}

/// Position `i` is elected for `target`: it is active, and `target` falls in the
/// interval of the cumulative active stake that it occupies.
pub open spec fn elected(s: Seq<Validator>, i: int, target: nat) -> bool {
    &&& 0 <= i < s.len()
    &&& s[i].is_active
    &&& prefix_active(s, i) <= target < prefix_active(s, i) + s[i].stake
}

/// `new` holds `v` and each member of `old` whose address differs from `v`'s,
/// and nothing else.
pub open spec fn put_member(old: Seq<Validator>, new: Seq<Validator>, v: Validator) -> bool {
    &&& new.contains(v)
    &&& forall|j: int| 0 <= j < old.len() && addr(old[j]) != addr(v) ==> new.contains(#[trigger] old[j])
    &&& forall|j: int| 0 <= j < new.len() ==> #[trigger] new[j] == v || (old.contains(new[j]) && addr(new[j]) != addr(v))
}

/// `new` holds each member of `old` whose address differs from `a`, and nothing else.
pub open spec fn drop_member(old: Seq<Validator>, new: Seq<Validator>, a: Seq<u8>) -> bool {
    &&& forall|j: int| 0 <= j < old.len() && addr(old[j]) != a ==> new.contains(#[trigger] old[j])
    &&& forall|j: int| 0 <= j < new.len() ==> old.contains(#[trigger] new[j]) && addr(new[j]) != a
}

/// The number of active validators of `s`.
pub open spec fn active_count(s: Seq<Validator>) -> nat
    decreases s.len(),
{
    if s.len() == 0 {
        0
    } else {
        active_count(s.drop_last()) + if s.last().is_active { 1nat } else { 0nat }
    }
}

/// Counts the active validators of `s`.
fn count_active(s: &Vec<Validator>) -> (r: usize)
    ensures
        r == active_count(s@),
{
    let mut n: usize = 0;
    let mut i: usize = 0;
    while i < s.len()
        invariant
            0 <= i <= s@.len(),
            n == active_count(s@.subrange(0, i as int)),
            n <= i,
        decreases s@.len() - i,
    {
        proof {
            assert(s@.subrange(0, i + 1).drop_last() =~= s@.subrange(0, i as int));
        }
        if s[i].is_active {
            n = n + 1;
        }
        i = i + 1;
    }
    assert(s@.subrange(0, s@.len() as int) =~= s@);
    n
}

/// Some member of `s` has address `a`.
pub open spec fn has_address(s: Seq<Validator>, a: Seq<u8>) -> bool {
    exists|i: int| 0 <= i < s.len() && addr(#[trigger] s[i]) == a
}

/// The stake left after taking `p` percent, rounded down, from `stake`; never below zero.
pub open spec fn slashed_stake(stake: u128, p: u8) -> u128 {
    let amount = (stake as int * p as int) / 100;
    if amount >= stake { 0 } else { (stake - amount) as u128 }
}

/// `v` after a slash of `p` percent: the stake as `slashed_stake` gives it, and
/// inactive once that stake is below `min`.
pub open spec fn slashed(v: Validator, p: u8, min: u128) -> Validator {
    let s = slashed_stake(v.stake, p);
    Validator { stake: s, is_active: v.is_active && s >= min, ..v }
}

pub proof fn lemma_stake_total_concat(a: Seq<Validator>, b: Seq<Validator>, f: bool)
    ensures
        stake_total(a + b, f) == stake_total(a, f) + stake_total(b, f),
    decreases b.len(),
{
    if b.len() == 0 {
        assert(a + b =~= a);
    } else {
        assert((a + b).drop_last() =~= a + b.drop_last());
        lemma_stake_total_concat(a, b.drop_last(), f);
    }
}

pub proof fn lemma_active_le_all(s: Seq<Validator>)
    ensures
        stake_total(s, true) <= stake_total(s, false),
    decreases s.len(),
{
    if s.len() > 0 {
        lemma_active_le_all(s.drop_last());
    }
}

pub proof fn lemma_prefix_step(s: Seq<Validator>, i: int)
    requires
        0 <= i < s.len(),
    ensures
        prefix_active(s, i + 1) == prefix_active(s, i) + weight(s[i], true),
        prefix_active(s, i + 1) <= stake_total(s, true),
{
    assert(s.subrange(0, i + 1).drop_last() =~= s.subrange(0, i));
    lemma_stake_total_concat(s.subrange(0, i + 1), s.subrange(i + 1, s.len() as int), true);
    assert(s.subrange(0, i + 1) + s.subrange(i + 1, s.len() as int) =~= s);
}

/// The stake total of `s` with position `i` replaced by `v`.
pub proof fn lemma_stake_total_update(s: Seq<Validator>, i: int, v: Validator, f: bool)
    requires
        0 <= i < s.len(),
    ensures
        stake_total(s.update(i, v), f) + weight(s[i], f) == stake_total(s, f) + weight(v, f),
{
    let pre = s.subrange(0, i);
    let post = s.subrange(i + 1, s.len() as int);
    assert(s =~= pre + seq![s[i]] + post);
    assert(s.update(i, v) =~= pre + seq![v] + post);
    lemma_stake_total_concat(pre + seq![s[i]], post, f);
    lemma_stake_total_concat(pre, seq![s[i]], f);
    lemma_stake_total_concat(pre + seq![v], post, f);
    lemma_stake_total_concat(pre, seq![v], f);
    assert(seq![v].drop_last() =~= Seq::<Validator>::empty());
    assert(seq![s[i]].drop_last() =~= Seq::<Validator>::empty());
}

/// The stake total of `s` with `v` inserted at position `i`.
pub proof fn lemma_stake_total_insert(s: Seq<Validator>, i: int, v: Validator, f: bool)
    requires
        0 <= i <= s.len(),
    ensures
        stake_total(s.insert(i, v), f) == stake_total(s, f) + weight(v, f),
{
    let pre = s.subrange(0, i);
    let post = s.subrange(i, s.len() as int);
    assert(s =~= pre + post);
    assert(s.insert(i, v) =~= pre + seq![v] + post);
    lemma_stake_total_concat(pre, post, f);
    lemma_stake_total_concat(pre + seq![v], post, f);
    lemma_stake_total_concat(pre, seq![v], f);
    assert(seq![v].drop_last() =~= Seq::<Validator>::empty());
    assert(stake_total(Seq::<Validator>::empty(), f) == 0);
    assert(seq![v].last() == v);
    assert(stake_total(seq![v], f) == weight(v, f));
    assert(s.insert(i, v) =~= (pre + seq![v]) + post);
}

/// The stake total of `s` without position `i`.
pub proof fn lemma_stake_total_remove(s: Seq<Validator>, i: int, f: bool)
    requires
        0 <= i < s.len(),
    ensures
        stake_total(s.remove(i), f) + weight(s[i], f) == stake_total(s, f),
{
    lemma_stake_total_insert(s.remove(i), i, s[i], f);
    assert(s.remove(i).insert(i, s[i]) =~= s);
}

/// Taking `p` percent of `stake` in two parts, the hundreds and the rest, gives
/// the same amount as the direct formula, and for `p` below a hundred no more
/// than the stake.
pub proof fn lemma_slash_amount(stake: nat, p: nat)
    requires
        p < 100,
    ensures
        (stake / 100) * p + ((stake % 100) * p) / 100 == (stake * p) / 100,
        (stake * p) / 100 <= stake,
{
    let q = stake / 100;
    let r = stake % 100;
    lemma_fundamental_div_mod(stake as int, 100);
    assert(stake * p == (r * p) + (q * p) * 100) by (nonlinear_arith)
        requires
            stake == 100 * q + r,
    ;
    lemma_hoist_over_denominator((r * p) as int, (q * p) as int, 100);
    assert(stake * p <= stake * 100) by (nonlinear_arith)
        requires
            p < 100,
    ;
    lemma_div_is_ordered((stake * p) as int, (stake * 100) as int, 100);
    lemma_div_by_multiple(stake as int, 100);
}

/// Two members of a sorted sequence with the same address are the same position.
pub proof fn lemma_sorted_unique(s: Seq<Validator>, i: int, j: int)
    requires
        sorted_by_address(s),
        0 <= i < s.len(),
        0 <= j < s.len(),
        addr(s[i]) == addr(s[j]),
    ensures
        i == j,
{
    lemma_lex_asymmetric(addr(s[i]), addr(s[j]));
    if i < j {
        assert(lex_lt(addr(s[i]), addr(s[j])));
    } else if j < i {
        assert(lex_lt(addr(s[j]), addr(s[i])));
    }
}

/// Compares two addresses by their bytes.
fn compare_addresses(x: &Address, y: &Address) -> (r: Ordering)
    ensures
        r == Ordering::Less <==> lex_lt(x.0@, y.0@),
        r == Ordering::Greater <==> lex_lt(y.0@, x.0@),
        r == Ordering::Equal <==> x.0@ == y.0@,
{
    compare_bytes(x.0.as_slice(), y.0.as_slice())
}

/// The active stake before a position never shrinks as the position grows.
pub proof fn lemma_prefix_monotone(s: Seq<Validator>, a: int, b: int)
    requires
        0 <= a <= b <= s.len(),
    ensures
        prefix_active(s, a) <= prefix_active(s, b),
{
    lemma_stake_total_concat(s.subrange(0, a), s.subrange(a, b), true);
    assert(s.subrange(0, a) + s.subrange(a, b) =~= s.subrange(0, b));
}

/// At most one position is elected for a target: the election is a function of
/// the snapshot and the seed, so every node computes the same proposer.
pub proof fn lemma_elected_unique(s: Seq<Validator>, i: int, j: int, target: nat)
    requires
        elected(s, i, target),
        elected(s, j, target),
    ensures
        i == j,
{
    if i < j {
        lemma_prefix_step(s, i);
        lemma_prefix_monotone(s, i + 1, j);
    } else if j < i {
        lemma_prefix_step(s, j);
        lemma_prefix_monotone(s, j + 1, i);
    }
}

/// Finds the position of the validator with address `a`.
fn find_validator(s: &Vec<Validator>, a: &Address) -> (r: Option<usize>)
    ensures
        match r {
            Some(i) => i < s@.len() && addr(s@[i as int]) == a.0@,
            None => !has_address(s@, a.0@),
        },
{
    let mut i: usize = 0;
    while i < s.len()
        invariant
            0 <= i <= s@.len(),
            forall|j: int| 0 <= j < i ==> addr(#[trigger] s@[j]) != a.0@,
        decreases s@.len() - i,
    {
        if bytes_eq(s[i].address.0.as_slice(), a.0.as_slice()) {
            return Some(i);
        }
        i = i + 1;
    }
    None
}

/// Copies a sequence of validators.
fn copy_validators(s: &Vec<Validator>) -> (r: Vec<Validator>)
    ensures
        r@ == s@,
{
    let mut r: Vec<Validator> = Vec::new();
    let mut i: usize = 0;
    while i < s.len()
        invariant
            0 <= i <= s@.len(),
            r@ == s@.subrange(0, i as int),
        decreases s@.len() - i,
    {
        r.push(s[i]);
        assert(r@ =~= s@.subrange(0, i + 1));
        i = i + 1;
    }
    assert(s@.subrange(0, s@.len() as int) =~= s@);
    r
}

/// The validator set and active stake frozen at the start of an epoch; elections
/// and quorum thresholds of the epoch use it, whatever the registry does later.
pub struct EpochSnapshot {
    epoch: u64,
    min_stake: u128,
    validators: Vec<Validator>,
    total_stake: u128,
}

impl EpochSnapshot {
    /// The epoch the snapshot was taken for.
    pub closed spec fn epoch_spec(&self) -> u64 {
        self.epoch
    }

    /// The minimum stake in force when the snapshot was taken.
    pub closed spec fn min_spec(&self) -> u128 {
        self.min_stake
    }

    /// The validators at the time of the snapshot, by ascending address.
    pub closed spec fn members(&self) -> Seq<Validator> {
        self.validators@
    }

    /// The active stake at the time of the snapshot.
    pub closed spec fn total(&self) -> u128 {
        self.total_stake
    }

    pub open spec fn wf(&self) -> bool {
        &&& sorted_by_address(self.members())
        &&& active_meet_min(self.members(), self.min_spec())
        &&& self.total() as nat == stake_total(self.members(), true)
    }

    /// A snapshot of an empty validator set.
    pub fn empty(epoch: u64, min_stake: u128) -> (r: Self)
        ensures
            r.wf(),
            r.epoch_spec() == epoch,
            r.min_spec() == min_stake,
            r.members().len() == 0,
            r.total() == 0,
    {
        EpochSnapshot { epoch, min_stake, validators: Vec::new(), total_stake: 0 }
    }

    pub fn epoch(&self) -> (r: u64)
        ensures
            r == self.epoch_spec(),
    {
        self.epoch
    }

    pub fn total_stake(&self) -> (r: u128)
        ensures
            r == self.total(),
    {
        self.total_stake
    }

    pub fn validators(&self) -> (r: &Vec<Validator>)
        ensures
            r@ == self.members(),
    {
        &self.validators
    }

    /// The stake of the active member with address `a`, if there is one.
    pub fn active_stake_of(&self, a: &Address) -> (r: Option<u128>)
        requires
            self.wf(),
        ensures
            match r {
                Some(st) => exists|i: int|
                    0 <= i < self.members().len() && addr(#[trigger] self.members()[i]) == a.0@
                        && self.members()[i].is_active && self.members()[i].stake == st,
                None => forall|i: int|
                    0 <= i < self.members().len() && addr(#[trigger] self.members()[i]) == a.0@
                        ==> !self.members()[i].is_active,
            },
    {
        match find_validator(&self.validators, a) {
            Some(i) => {
                if self.validators[i].is_active {
                    Some(self.validators[i].stake)
                } else {
                    proof {
                        assert forall|j: int|
                            0 <= j < self.members().len() && addr(#[trigger] self.members()[j]) == a.0@
                            implies !self.members()[j].is_active by {
                            if j != i {
                                lemma_lex_asymmetric(addr(self.members()[j]), addr(self.members()[j]));
                            }
                        }
                    }
                    None
                }
            },
            None => None,
        }
    }

    /// Elects the proposer of a round with seed `seed`: the active validator whose
    /// interval of cumulative active stake, taken by ascending address, holds
    /// `seed % total`. Each validator is elected with a chance proportional to its
    /// stake when the seed is uniform.
    pub fn select_proposer(&self, seed: u128) -> (r: ConsensusResult<Address>)
        requires
            self.wf(),
        ensures
            self.total() == 0 ==> r is Err && r->Err_0 is NoActiveStake,
            self.total() > 0 ==> exists|i: int|
                elected(self.members(), i, (seed % self.total()) as nat)
                    && r == Ok::<Address, ConsensusError>(#[trigger] self.members()[i].address),
    {
        if self.total_stake == 0 {
            return Err(ConsensusError::NoActiveStake);
        }
        let target: u128 = seed % self.total_stake;
        let ghost s = self.members();
        let mut cum: u128 = 0;
        let mut i: usize = 0;
        proof {
            assert(s.subrange(0, 0) =~= Seq::<Validator>::empty());
        }
        while i < self.validators.len()
            invariant
                s == self.validators@,
                self.wf(),
                0 <= i <= s.len(),
                target < self.total_stake,
                target == seed % self.total(),
                cum as nat == prefix_active(s, i as int),
                cum <= target,
            decreases s.len() - i,
        {
            let v = self.validators[i];
            proof {
                lemma_prefix_step(s, i as int);
            }
            if v.is_active {
                let next: u128 = cum + v.stake;
                if target < next {
                    assert(elected(s, i as int, target as nat));
                    assert(self.members()[i as int] == v);
                    assert(elected(self.members(), i as int, (seed % self.total()) as nat));
                    assert(Ok::<Address, ConsensusError>(v.address)
                        == Ok::<Address, ConsensusError>(self.members()[i as int].address));
                    return Ok(v.address);
                }
                cum = next;
            }
            i = i + 1;
        }
        assert(s.subrange(0, s.len() as int) =~= s);
        assert(false);
        Err(ConsensusError::NoActiveStake)
    }
}

/// Validator registry: the validator set, the epoch counter and the snapshot of
/// the current epoch.
pub struct ProofOfStake {
    min_stake: u128,
    max_validators: usize,
    slashing_percentage: u8,
    validators: Vec<Validator>,
    epoch: u64,
    snapshot: EpochSnapshot,
}

impl ProofOfStake {
    /// The validators, by ascending address.
    pub closed spec fn members(&self) -> Seq<Validator> {
        self.validators@
    }

    pub closed spec fn min_spec(&self) -> u128 {
        self.min_stake
    }

    pub closed spec fn max_spec(&self) -> usize {
        self.max_validators
    }

    pub closed spec fn slashing_spec(&self) -> u8 {
        self.slashing_percentage
    }

    pub closed spec fn epoch_spec(&self) -> u64 {
        self.epoch
    }

    pub closed spec fn snapshot_spec(&self) -> EpochSnapshot {
        self.snapshot
    }

    pub open spec fn wf(&self) -> bool {
        &&& sorted_by_address(self.members())
        &&& active_meet_min(self.members(), self.min_spec())
        &&& stake_total(self.members(), false) <= u128::MAX
        &&& self.snapshot_spec().wf()
        &&& self.snapshot_spec().epoch_spec() == self.epoch_spec()
        &&& self.snapshot_spec().min_spec() == self.min_spec()
    }

    /// An empty registry under the limits of `config`, at epoch zero.
    pub fn new(config: &ConsensusConfig) -> (r: Self)
        ensures
            r.wf(),
            r.members().len() == 0,
            r.min_spec() == config.min_validator_stake,
            r.max_spec() == config.max_validators,
            r.slashing_spec() == config.slashing_percentage,
            r.epoch_spec() == 0,
            r.snapshot_spec().members().len() == 0,
    {
        ProofOfStake {
            min_stake: config.min_validator_stake,
            max_validators: config.max_validators,
            slashing_percentage: config.slashing_percentage,
            validators: Vec::new(),
            epoch: 0,
            snapshot: EpochSnapshot::empty(0, config.min_validator_stake),
        }
    }

    pub fn current_epoch(&self) -> (r: u64)
        ensures
            r == self.epoch_spec(),
    {
        self.epoch
    }

    pub fn min_stake(&self) -> (r: u128)
        ensures
            r == self.min_spec(),
    {
        self.min_stake
    }

    /// The snapshot of the current epoch.
    pub fn snapshot(&self) -> (r: &EpochSnapshot)
        ensures
            *r == self.snapshot_spec(),
    {
        &self.snapshot
    }

    /// All validators, by ascending address.
    pub fn get_validators(&self) -> (r: Vec<Validator>)
        ensures
            r@ == self.members(),
    {
        copy_validators(&self.validators)
    }

    /// Elects the proposer of a round from the current epoch's snapshot.
    pub fn select_proposer(&self, seed: u128) -> (r: ConsensusResult<Address>)
        requires
            self.wf(),
        ensures
            self.snapshot_spec().total() == 0 ==> r is Err && r->Err_0 is NoActiveStake,
            self.snapshot_spec().total() > 0 ==> exists|i: int|
                elected(self.snapshot_spec().members(), i, (seed % self.snapshot_spec().total()) as nat)
                    && r == Ok::<Address, ConsensusError>(#[trigger] self.snapshot_spec().members()[i].address),
    {
        self.snapshot.select_proposer(seed)
    }

    /// The settings, epoch and snapshot of `self` and `other` agree.
    pub open spec fn same_settings(&self, other: &Self) -> bool {
        &&& self.min_spec() == other.min_spec()
        &&& self.max_spec() == other.max_spec()
        &&& self.slashing_spec() == other.slashing_spec()
        &&& self.epoch_spec() == other.epoch_spec()
        &&& self.snapshot_spec() == other.snapshot_spec()
    }

    /// Adds a validator, or replaces the one with the same address. Fails with
    /// `InsufficientStake` if its stake is below the minimum, and with
    /// `RegistryFull` if the active set already holds the maximum number of
    /// validators.
    pub fn add_validator(&mut self, validator: Validator) -> (r: ConsensusResult<()>)
        requires
            old(self).wf(),
            validator.stake >= old(self).min_spec() && active_count(old(self).members()) < old(self).max_spec()
                ==> stake_total(old(self).members(), false) + validator.stake <= u128::MAX,
        ensures
            final(self).wf(),
            final(self).same_settings(old(self)),
            validator.stake < old(self).min_spec() ==> r is Err && r->Err_0 is InsufficientStake,
            validator.stake >= old(self).min_spec() && active_count(old(self).members()) >= old(self).max_spec()
                ==> r is Err && r->Err_0 is RegistryFull,
            r is Err ==> final(self).members() == old(self).members(),
            validator.stake >= old(self).min_spec() && active_count(old(self).members()) < old(self).max_spec()
                ==> r is Ok && put_member(old(self).members(), final(self).members(), validator),
    {
        if validator.stake < self.min_stake {
            return Err(ConsensusError::InsufficientStake);
        }
        if count_active(&self.validators) >= self.max_validators {
            return Err(ConsensusError::RegistryFull);
        }
        let ghost s = self.validators@;
        let ghost a = addr(validator);
        let n = self.validators.len();
        let mut i: usize = 0;
        let mut done = false;
        while !done && i < n
            invariant
                s == self.validators@,
                a == addr(validator),
                n == s.len(),
                0 <= i <= n,
                done ==> i < n && !lex_lt(addr(s[i as int]), a),
                forall|j: int| 0 <= j < i ==> lex_lt(addr(#[trigger] s[j]), a),
            decreases n - i + (if done { 0int } else { 1int }),
        {
            let cur = self.validators[i];
            let c = compare_addresses(&cur.address, &validator.address);
            assert(cur == s[i as int]);
            match c {
                Ordering::Less => {
                    i = i + 1;
                },
                _ => {
                    done = true;
                },
            }
        }
        let found = i < n && compare_addresses(&self.validators[i].address, &validator.address) == Ordering::Equal;
        proof {
            if i < n {
                    assert(done);
                if !found {
                    lemma_lex_asymmetric(a, a);
                }
            }
        }
        if found {
            self.validators.set(i, validator);
            proof {
                let t = self.validators@;
                assert(t =~= s.update(i as int, validator));
                assert forall|k: int| 0 <= k < t.len() implies addr(#[trigger] t[k]) == addr(s[k]) by {}
                assert(sorted_by_address(t));
                lemma_stake_total_update(s, i as int, validator, false);
                assert(t.contains(validator)) by { assert(t[i as int] == validator); }
                assert forall|j: int| 0 <= j < s.len() && addr(s[j]) != a implies t.contains(#[trigger] s[j]) by {
                    assert(j != i);
                    assert(t[j] == s[j]);
                }
                assert forall|j: int| 0 <= j < t.len() implies #[trigger] t[j] == validator
                    || (s.contains(t[j]) && addr(t[j]) != a) by {
                    if j != i {
                        assert(t[j] == s[j]);
                        if addr(s[j]) == a {
                            lemma_sorted_unique(s, i as int, j);
                        }
                    }
                }
            }
        } else {
            proof {
                assert forall|k: int| i <= k < s.len() implies lex_lt(a, addr(#[trigger] s[k])) by {
                    if k > i {
                        lemma_lex_transitive(a, addr(s[i as int]), addr(s[k]));
                    }
                }
            }
            self.validators.insert(i, validator);
            proof {
                let t = self.validators@;
                assert(t =~= s.insert(i as int, validator));
                assert forall|p: int, q: int| 0 <= p < q < t.len() implies lex_lt(#[trigger] addr(t[p]), #[trigger] addr(t[q])) by {
                    if q < i {
                    } else if q == i {
                    } else if p < i {
                        lemma_lex_transitive(addr(t[p]), a, addr(t[q]));
                    } else if p == i {
                    } else {
                    }
                }
                assert(sorted_by_address(t));
                lemma_stake_total_insert(s, i as int, validator, false);
                assert(t.contains(validator)) by { assert(t[i as int] == validator); }
                assert forall|j: int| 0 <= j < s.len() && addr(s[j]) != a implies t.contains(#[trigger] s[j]) by {
                    if j < i {
                        assert(t[j] == s[j]);
                    } else {
                        assert(t[j + 1] == s[j]);
                    }
                }
                assert forall|j: int| 0 <= j < t.len() implies #[trigger] t[j] == validator
                    || (s.contains(t[j]) && addr(t[j]) != a) by {
                    if j < i {
                        assert(t[j] == s[j]);
                        lemma_lex_asymmetric(a, a);
                    } else if j > i {
                        assert(t[j] == s[j - 1]);
                        lemma_lex_asymmetric(a, a);
                    }
                }
            }
        }
        Ok(())
    }

    /// Removes the validator with address `address`; fails with
    /// `ValidatorNotFound` if there is none.
    pub fn remove_validator(&mut self, address: &Address) -> (r: ConsensusResult<()>)
        requires
            old(self).wf(),
        ensures
            final(self).wf(),
            final(self).same_settings(old(self)),
            r is Ok <==> has_address(old(self).members(), address.0@),
            r is Err ==> r->Err_0 is ValidatorNotFound && final(self).members() == old(self).members(),
            r is Ok ==> drop_member(old(self).members(), final(self).members(), address.0@),
    {
        let ghost s = self.validators@;
        match find_validator(&self.validators, address) {
            None => Err(ConsensusError::ValidatorNotFound),
            Some(i) => {
                self.validators.remove(i);
                proof {
                    let t = self.validators@;
                    assert(t =~= s.remove(i as int));
                    assert forall|p: int, q: int| 0 <= p < q < t.len() implies lex_lt(#[trigger] addr(t[p]), #[trigger] addr(t[q])) by {
                        let pp = if p < i { p } else { p + 1 };
                        let qq = if q < i { q } else { q + 1 };
                        assert(t[p] == s[pp] && t[q] == s[qq]);
                    }
                    lemma_stake_total_remove(s, i as int, false);
                    assert forall|j: int| 0 <= j < s.len() && addr(s[j]) != address.0@ implies t.contains(#[trigger] s[j]) by {
                        if j < i {
                            assert(t[j] == s[j]);
                        } else {
                            assert(j != i);
                            assert(t[j - 1] == s[j]);
                        }
                    }
                    assert forall|j: int| 0 <= j < t.len() implies s.contains(#[trigger] t[j]) && addr(t[j]) != address.0@ by {
                        let jj = if j < i { j } else { j + 1 };
                        assert(t[j] == s[jj]);
                        if addr(s[jj]) == address.0@ {
                            lemma_sorted_unique(s, i as int, jj);
                        }
                    }
                }
                Ok(())
            },
        }
    }

    /// Slashes the validator with address `address`: its stake loses the
    /// configured percentage, rounded down and never below zero, and it becomes
    /// inactive once the stake left is below the minimum. Fails with
    /// `ValidatorNotFound` if there is no such validator.
    pub fn slash_validator(&mut self, address: &Address) -> (r: ConsensusResult<()>)
        requires
            old(self).wf(),
        ensures
            final(self).wf(),
            final(self).same_settings(old(self)),
            r is Ok <==> has_address(old(self).members(), address.0@),
            r is Err ==> r->Err_0 is ValidatorNotFound && final(self).members() == old(self).members(),
            forall|i: int| 0 <= i < old(self).members().len() && addr(#[trigger] old(self).members()[i]) == address.0@
                ==> final(self).members() == old(self).members().update(i,
                    slashed(old(self).members()[i], old(self).slashing_spec(), old(self).min_spec())),
    {
        let ghost s = self.validators@;
        match find_validator(&self.validators, address) {
            None => Err(ConsensusError::ValidatorNotFound),
            Some(i) => {
                let v = self.validators[i];
                let p = self.slashing_percentage;
                let new_stake: u128 = if p >= 100 {
                    proof {
                        assert(v.stake as int * p as int >= v.stake as int * 100) by (nonlinear_arith)
                            requires p >= 100;
                        lemma_div_is_ordered(v.stake as int * 100, v.stake as int * p as int, 100);
                        lemma_div_by_multiple(v.stake as int, 100);
                    }
                    0
                } else {
                    proof {
                        lemma_slash_amount(v.stake as nat, p as nat);
                        assert((v.stake % 100) * (p as u128) < 10000) by (nonlinear_arith)
                            requires p < 100;
                    }
                    let hundreds: u128 = (v.stake / 100) * (p as u128);
                    let rest: u128 = (v.stake % 100) * (p as u128) / 100;
                    assert(hundreds + rest == (v.stake as int * p as int) / 100);
                    let amount: u128 = hundreds + rest;
                    v.stake - amount
                };
                let w = Validator { stake: new_stake, is_active: v.is_active && new_stake >= self.min_stake, ..v };
                self.validators.set(i, w);
                proof {
                    let t = self.validators@;
                    assert(w == slashed(v, p, self.min_stake));
                    assert(t =~= s.update(i as int, w));
                    assert forall|k: int| 0 <= k < t.len() implies addr(#[trigger] t[k]) == addr(s[k]) by {}
                    lemma_stake_total_update(s, i as int, w, false);
                    assert forall|j: int| 0 <= j < s.len() && addr(#[trigger] s[j]) == address.0@
                        implies t == s.update(j, slashed(s[j], p, self.min_stake)) by {
                        lemma_sorted_unique(s, i as int, j);
                    }
                }
                Ok(())
            },
        }
    }

    /// Starts the next epoch: increments the counter and freezes the current
    /// validator set and its active stake as the snapshot that the epoch's
    /// elections and quorum thresholds use.
    pub fn next_epoch(&mut self)
        requires
            old(self).wf(),
            old(self).epoch_spec() < u64::MAX,
        ensures
            final(self).wf(),
            final(self).members() == old(self).members(),
            final(self).min_spec() == old(self).min_spec(),
            final(self).max_spec() == old(self).max_spec(),
            final(self).slashing_spec() == old(self).slashing_spec(),
            final(self).epoch_spec() == old(self).epoch_spec() + 1,
            final(self).snapshot_spec().members() == old(self).members(),
            final(self).snapshot_spec().total() == stake_total(old(self).members(), true),
    {
        let ghost s = self.validators@;
        let mut total: u128 = 0;
        let mut i: usize = 0;
        proof {
            lemma_active_le_all(s);
            assert(s.subrange(0, 0) =~= Seq::<Validator>::empty());
        }
        while i < self.validators.len()
            invariant
                s == self.validators@,
                stake_total(s, true) <= u128::MAX,
                0 <= i <= s.len(),
                total as nat == prefix_active(s, i as int),
            decreases s.len() - i,
        {
            proof {
                lemma_prefix_step(s, i as int);
            }
            if self.validators[i].is_active {
                total = total + self.validators[i].stake;
            }
            i = i + 1;
        }
        assert(s.subrange(0, s.len() as int) =~= s);
        self.epoch = self.epoch + 1;
        self.snapshot = EpochSnapshot {
            epoch: self.epoch,
            min_stake: self.min_stake,
            validators: copy_validators(&self.validators),
            total_stake: total,
        };
    }

    /// Checks a block's proposer against the election for the round with seed
    /// `seed` in the current snapshot. Fails with `NoActiveStake` if there is no
    /// active stake, with `InsufficientStake` if the proposer is a member whose
    /// stake is below the minimum, and with `InvalidProposer` if another
    /// validator was elected.
    pub fn validate_proposer(&self, proposer: &Address, seed: u128) -> (r: ConsensusResult<()>)
        requires
            self.wf(),
        ensures
            self.snapshot_spec().total() == 0 ==> r is Err && r->Err_0 is NoActiveStake,
            self.snapshot_spec().total() > 0 ==> exists|i: int|
                elected(self.snapshot_spec().members(), i, (seed % self.snapshot_spec().total()) as nat) && {
                    let e = #[trigger] self.snapshot_spec().members()[i];
                    &&& (r is Ok <==> addr(e) == proposer.0@)
                    &&& r is Err ==> (
                        if exists|j: int| 0 <= j < self.snapshot_spec().members().len()
                            && addr(#[trigger] self.snapshot_spec().members()[j]) == proposer.0@
                            && self.snapshot_spec().members()[j].stake < self.min_spec()
                        { r->Err_0 is InsufficientStake } else { r->Err_0 is InvalidProposer })
                },
    {
        let elected_addr = self.snapshot.select_proposer(seed)?;
        let ghost snap = self.snapshot.members();
        if bytes_eq(elected_addr.0.as_slice(), proposer.0.as_slice()) {
            return Ok(());
        }
        match find_validator(&self.snapshot.validators, proposer) {
            Some(j) => {
                if self.snapshot.validators[j].stake < self.min_stake {
                    Err(ConsensusError::InsufficientStake)
                } else {
                    proof {
                        assert forall|k: int| 0 <= k < snap.len() && addr(#[trigger] snap[k]) == proposer.0@
                            implies !(snap[k].stake < self.min_stake) by {
                            lemma_sorted_unique(snap, j as int, k);
                        }
                    }
                    Err(ConsensusError::InvalidProposer)
                }
            },
            None => Err(ConsensusError::InvalidProposer),
        }
    }

    /// Whether `local` is elected for the round with seed `seed`; fails with
    /// `NoActiveStake` if there is no active stake.
    pub fn is_proposer(&self, local: &Address, seed: u128) -> (r: ConsensusResult<bool>)
        requires
            self.wf(),
        ensures
            self.snapshot_spec().total() == 0 ==> r is Err && r->Err_0 is NoActiveStake,
            self.snapshot_spec().total() > 0 ==> exists|i: int|
                elected(self.snapshot_spec().members(), i, (seed % self.snapshot_spec().total()) as nat)
                    && r == Ok::<bool, ConsensusError>(addr(#[trigger] self.snapshot_spec().members()[i]) == local.0@),
    {
        let elected_addr = self.snapshot.select_proposer(seed)?;
        Ok(bytes_eq(elected_addr.0.as_slice(), local.0.as_slice()))
    }
}

/// A proposer elected from a well-formed snapshot is an active validator whose
/// stake is at least the minimum.
pub proof fn lemma_elected_is_eligible(snap: EpochSnapshot, i: int, target: nat)
    requires
        snap.wf(),
        elected(snap.members(), i, target),
    ensures
        snap.members()[i].is_active,
        snap.members()[i].stake >= snap.min_spec(),
{
}

/// A slash of `p` percent takes exactly `floor(stake * p / 100)` when that is no
/// more than the stake, and never leaves less than zero; the validator ends up
/// inactive if and only if it was inactive or the stake left is below the
/// minimum.
pub proof fn lemma_slash_exact(v: Validator, p: u8, min: u128)
    ensures
        p <= 100 ==> slashed(v, p, min).stake == v.stake - (v.stake as int * p as int) / 100,
        p >= 100 ==> slashed(v, p, min).stake == 0,
        slashed(v, p, min).stake <= v.stake,
        slashed(v, p, min).is_active <==> v.is_active && slashed(v, p, min).stake >= min,
{
    if p < 100 {
        lemma_slash_amount(v.stake as nat, p as nat);
    } else {
        assert(v.stake as int * p as int >= v.stake as int * 100) by (nonlinear_arith)
            requires p >= 100;
        lemma_div_is_ordered(v.stake as int * 100, v.stake as int * p as int, 100);
        lemma_div_by_multiple(v.stake as int, 100);
    }
}

} // verus!
