//! The currency ledger: every open account's balance, keyed by owner.
//!
//! The ledger is the model of the currency transfer adapter the room state
//! machine escrows through. Its view is a map from account identity to
//! balance; `debit` and `credit` are atomic, all-or-nothing, and leave the
//! ledger untouched when they fail.

use vstd::prelude::*;

use crate::errors::GameError;
use crate::room::AccountId;

verus! {

/// One open account and its balance.
#[derive(Clone, Copy, Debug)]
pub struct LedgerAccount {
    pub owner: AccountId,
    pub balance: u64,
}

/// The currency ledger.
pub struct Ledger {
    accounts: Vec<LedgerAccount>,
}

/// The balance stored for `owner`, reading the entries front to back.
spec fn spec_balance(s: Seq<LedgerAccount>, owner: AccountId) -> Option<u64>
    decreases s.len(),
{
    if s.len() == 0 {
        None
    } else if s[0].owner == owner {
        Some(s[0].balance)
    } else {
        spec_balance(s.drop_first(), owner)
    }
}

proof fn lemma_balance_found(s: Seq<LedgerAccount>, i: int)
    requires
        0 <= i < s.len(),
        forall|j: int| 0 <= j < i ==> s[j].owner != s[i].owner,
    ensures
        spec_balance(s, s[i].owner) == Some(s[i].balance),
    decreases i,
{
    if i > 0 {
        assert(s.drop_first()[i - 1] == s[i]);
        lemma_balance_found(s.drop_first(), i - 1);
    }
}

proof fn lemma_balance_absent(s: Seq<LedgerAccount>, owner: AccountId)
    requires
        forall|j: int| 0 <= j < s.len() ==> s[j].owner != owner,
    ensures
        spec_balance(s, owner) is None,
    decreases s.len(),
{
    if s.len() > 0 {
        lemma_balance_absent(s.drop_first(), owner);
    }
}

proof fn lemma_balance_update(s: Seq<LedgerAccount>, i: int, a: LedgerAccount, k: AccountId)
    requires
        0 <= i < s.len(),
        a.owner == s[i].owner,
        forall|p: int, q: int| 0 <= p < q < s.len() ==> s[p].owner != s[q].owner,
    ensures
        spec_balance(s.update(i, a), k) == (if k == a.owner {
            Some(a.balance)
        } else {
            spec_balance(s, k)
        }),
    decreases i,
{
    let t = s.update(i, a);
    if i == 0 {
        assert(t.drop_first() =~= s.drop_first());
    } else {
        assert(t[0] == s[0]);
        assert(t.drop_first() =~= s.drop_first().update(i - 1, a));
        assert(s.drop_first()[i - 1] == s[i]);
        lemma_balance_update(s.drop_first(), i - 1, a, k);
        if k == a.owner {
            assert(s[0].owner != s[i].owner);
        }
    }
}

proof fn lemma_balance_push(s: Seq<LedgerAccount>, a: LedgerAccount, k: AccountId)
    ensures
        spec_balance(s.push(a), k) == (if spec_balance(s, k) is Some {
            spec_balance(s, k)
        } else if k == a.owner {
            Some(a.balance)
        } else {
            None
        }),
    decreases s.len(),
{
    let t = s.push(a);
    assert(t.len() == s.len() + 1);
    if s.len() == 0 {
        assert(t[0] == a);
        assert(t.drop_first() =~= Seq::<LedgerAccount>::empty());
        if k == a.owner {
            assert(spec_balance(t, k) == Some(a.balance));
        } else {
            assert(spec_balance(t, k) == spec_balance(t.drop_first(), k));
            assert(spec_balance(t, k) is None);
        }
        assert(spec_balance(s, k) is None);
    } else {
        assert(t[0] == s[0]);
        assert(t.drop_first() =~= s.drop_first().push(a));
        lemma_balance_push(s.drop_first(), a, k);
        if s[0].owner == k {
            assert(spec_balance(t, k) == Some(s[0].balance));
            assert(spec_balance(s, k) == Some(s[0].balance));
        } else {
            assert(spec_balance(t, k) == spec_balance(s.drop_first().push(a), k));
            assert(spec_balance(s, k) == spec_balance(s.drop_first(), k));
        }
    }
}

impl View for Ledger {
    type V = Map<AccountId, u64>;

    /// The model of the ledger: owner -> balance, over the open accounts.
    closed spec fn view(&self) -> Map<AccountId, u64> {
        Map::new(
            |k: AccountId| spec_balance(self.accounts@, k) is Some,
            |k: AccountId| spec_balance(self.accounts@, k).unwrap(),
        )
    }
}

impl Ledger {
    /// The owners of distinct entries are distinct.
    pub closed spec fn wf(&self) -> bool {
        forall|p: int, q: int|
            0 <= p < q < self.accounts@.len() ==> self.accounts@[p].owner
                != self.accounts@[q].owner
    }

    /// A ledger with no open accounts.
    pub fn new() -> (r: Ledger)
        ensures
            r.wf(),
            r@ == Map::<AccountId, u64>::empty(),
    {
        let r = Ledger { accounts: Vec::new() };
        proof {
            assert(r@ =~= Map::<AccountId, u64>::empty());
        }
        r
    }

    /// The position of `owner`'s entry, if one exists.
    fn find_index(&self, owner: AccountId) -> (r: Option<usize>)
        ensures
            match r {
                Some(i) => {
                    &&& i < self.accounts@.len()
                    &&& self.accounts@[i as int].owner == owner
                    &&& forall|j: int| 0 <= j < i ==> self.accounts@[j].owner != owner
                },
                None => forall|j: int|
                    0 <= j < self.accounts@.len() ==> self.accounts@[j].owner != owner,
            },
    {
        let mut i: usize = 0;
        while i < self.accounts.len()
            invariant
                i <= self.accounts@.len(),
                forall|j: int| 0 <= j < i ==> self.accounts@[j].owner != owner,
            decreases self.accounts@.len() - i,
        {
            if self.accounts[i].owner == owner {
                return Some(i);
            }
            i = i + 1;
        }
        None
    }

    /// The balance of `owner`'s account, if the account is open.
    pub fn balance_of(&self, owner: AccountId) -> (r: Option<u64>)
        ensures
            r == (if self@.contains_key(owner) {
                Some(self@[owner])
            } else {
                None::<u64>
            }),
    {
        match self.find_index(owner) {
            Some(i) => {
                proof {
                    lemma_balance_found(self.accounts@, i as int);
                }
                Some(self.accounts[i].balance)
            },
            None => {
                proof {
                    lemma_balance_absent(self.accounts@, owner);
                }
                None
            },
        }
    }

    /// Opens an account with the given starting balance; refused if `owner`
    /// already has one.
    pub fn open_account(&mut self, owner: AccountId, balance: u64) -> (r: Result<(), GameError>)
        requires
            old(self).wf(),
        ensures
            final(self).wf(),
            r is Ok <==> !old(self)@.contains_key(owner),
            r is Ok ==> final(self)@ == old(self)@.insert(owner, balance),
            r is Err ==> r == Err::<(), GameError>(GameError::AlreadyExists) && *final(self)
                == *old(self),
    {
        match self.find_index(owner) {
            Some(i) => {
                proof {
                    lemma_balance_found(self.accounts@, i as int);
                }
                Err(GameError::AlreadyExists)
            },
            None => {
                proof {
                    lemma_balance_absent(self.accounts@, owner);
                }
                let entry = LedgerAccount { owner, balance };
                let ghost s = self.accounts@;
                self.accounts.push(entry);
                proof {
                    assert forall|k: AccountId| #[trigger] spec_balance(s.push(entry), k) == (
                    if k == owner {
                        Some(balance)
                    } else {
                        spec_balance(s, k)
                    }) by {
                        lemma_balance_push(s, entry, k);
                        if k != owner && spec_balance(s, k) is None {
                            assert(spec_balance(s.push(entry), k) is None);
                        }
                    };
                    assert(self@ =~= old(self)@.insert(owner, balance));
                }
                Ok(())
            },
        }
    }

    /// Removes `amount` from `owner`'s balance; all-or-nothing.
    pub fn debit(&mut self, owner: AccountId, amount: u64) -> (r: Result<(), GameError>)
        requires
            old(self).wf(),
        ensures
            final(self).wf(),
            r is Ok <==> old(self)@.contains_key(owner) && old(self)@[owner] >= amount,
            r is Ok ==> final(self)@ == old(self)@.insert(
                owner,
                (old(self)@[owner] - amount) as u64,
            ),
            r is Err ==> r == Err::<(), GameError>(GameError::TransferFailed) && *final(self)
                == *old(self),
    {
        match self.find_index(owner) {
            Some(i) => {
                proof {
                    lemma_balance_found(self.accounts@, i as int);
                }
                let acct = self.accounts[i];
                if acct.balance >= amount {
                    let updated = LedgerAccount { owner, balance: acct.balance - amount };
                    let ghost s = self.accounts@;
                    self.accounts.set(i, updated);
                    proof {
                        assert forall|k: AccountId| #[trigger] spec_balance(
                            s.update(i as int, updated),
                            k,
                        ) == (if k == owner {
                            Some(updated.balance)
                        } else {
                            spec_balance(s, k)
                        }) by {
                            lemma_balance_update(s, i as int, updated, k);
                        };
                        assert(self@ =~= old(self)@.insert(owner, updated.balance));
                    }
                    Ok(())
                } else {
                    Err(GameError::TransferFailed)
                }
            },
            None => {
                proof {
                    lemma_balance_absent(self.accounts@, owner);
                }
                Err(GameError::TransferFailed)
            },
        }
    }

    /// Adds `amount` to `owner`'s balance; all-or-nothing, never wraps.
    pub fn credit(&mut self, owner: AccountId, amount: u64) -> (r: Result<(), GameError>)
        requires
            old(self).wf(),
        ensures
            final(self).wf(),
            r is Ok <==> old(self)@.contains_key(owner) && old(self)@[owner] + amount <= u64::MAX,
            r is Ok ==> final(self)@ == old(self)@.insert(
                owner,
                (old(self)@[owner] + amount) as u64,
            ),
            r is Err ==> r == Err::<(), GameError>(GameError::TransferFailed) && *final(self)
                == *old(self),
    {
        match self.find_index(owner) {
            Some(i) => {
                proof {
                    lemma_balance_found(self.accounts@, i as int);
                }
                let acct = self.accounts[i];
                if amount <= u64::MAX - acct.balance {
                    let updated = LedgerAccount { owner, balance: acct.balance + amount };
                    let ghost s = self.accounts@;
                    self.accounts.set(i, updated);
                    proof {
                        assert forall|k: AccountId| #[trigger] spec_balance(
                            s.update(i as int, updated),
                            k,
                        ) == (if k == owner {
                            Some(updated.balance)
                        } else {
                            spec_balance(s, k)
                        }) by {
                            lemma_balance_update(s, i as int, updated, k);
                        };
                        assert(self@ =~= old(self)@.insert(owner, updated.balance));
                    }
                    Ok(())
                } else {
                    Err(GameError::TransferFailed)
                }
            },
            None => {
                proof {
                    lemma_balance_absent(self.accounts@, owner);
                }
                Err(GameError::TransferFailed)
            },
        }
    }
}

} // verus!
