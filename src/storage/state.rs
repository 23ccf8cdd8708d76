//! Account state, kept as a log of writes in which the latest write to an
//! address is its current state.

use vstd::prelude::*;
use crate::types::{Account, Address};

verus! {

/// The state of address `a` after the writes of `log`: the account of the
/// latest write to it, if any.
pub open spec fn latest(log: Seq<(Address, Account)>, a: Seq<u8>) -> Option<Account>
    decreases log.len(),
{
    if log.len() == 0 {
        None
    } else if log.last().0.0@ == a {
        Some(log.last().1)
    } else {
        latest(log.drop_last(), a)
    }
}

/// Account state manager.
pub struct StateManager {
    writes: Vec<(Address, Account)>,
}

impl StateManager {
    /// The writes so far, oldest first.
    pub closed spec fn log(&self) -> Seq<(Address, Account)> {
        self.writes@
    }

    /// A state in which no account exists.
    pub fn new() -> (r: Self)
        ensures
            r.log().len() == 0,
    {
        StateManager { writes: Vec::new() }
    }

    /// The current state of `address`, if it was ever written.
    pub fn get_account(&self, address: &Address) -> (r: Option<Account>)
        ensures
            r == latest(self.log(), address.0@),
    {
        let mut i: usize = self.writes.len();
        assert(self.log().subrange(0, i as int) =~= self.log());
        while i > 0
            invariant
                0 <= i <= self.log().len(),
                latest(self.log(), address.0@) == latest(self.log().subrange(0, i as int), address.0@),
            decreases i,
        {
            let ghost pre = self.log().subrange(0, i as int);
            assert(pre.drop_last() =~= self.log().subrange(0, i - 1));
            if crate::bytes::bytes_eq(self.writes[i - 1].0.0.as_slice(), address.0.as_slice()) {
                return Some(self.writes[i - 1].1);
            }
            i = i - 1;
        }
        None
    }

    /// Sets the state of `address` to `account`.
    pub fn set_account(&mut self, address: Address, account: Account)
        ensures
            final(self).log() == old(self).log().push((address, account)),
    {
        self.writes.push((address, account));
    }
}

impl Default for StateManager {
    fn default() -> (r: Self)
        ensures
            r.log().len() == 0,
    {
        Self::new()
    }
}

/// After a write, the written address holds the written account and every
/// other address keeps its state.
pub proof fn lemma_read_after_write(log: Seq<(Address, Account)>, address: Address, account: Account, other: Seq<u8>)
    ensures
        latest(log.push((address, account)), address.0@) == Some(account),
        other != address.0@ ==> latest(log.push((address, account)), other) == latest(log, other),
{
    assert(log.push((address, account)).drop_last() =~= log);
}

} // verus!
