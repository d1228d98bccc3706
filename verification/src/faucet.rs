//! The rate-limited token faucet: a cooldown per receiver, a blacklist, and
//! a fixed per-request allowance. A granted request hands back the transfer
//! for the caller to issue against the named ledger contract; a rejected
//! request leaves the faucet untouched.

use vstd::prelude::*;
use crate::CoreError;
use crate::smap::{SMap, sm_has, sm_idx, sm_distinct, sm_insert, sm_remove};

verus! {

/// How long a receiver waits between two grants, in milliseconds.
pub const REQUEST_GAP_LIMITER: u64 = 3_600_000;

/// The transfer a granted request asks the caller to issue.
pub struct FaucetTransfer {
    pub ft_contract_id: String,
    pub receiver_id: String,
    pub amount: u128,
}

/// The faucet: recent contributions (kept for the record), the receivers
/// still in cooldown, the blacklist and the per-request allowance.
pub struct Contract {
    recent_contributions: Vec<(String, u128)>,
    recent_receivers: SMap<u64>,
    blacklist: SMap<bool>,
    ft_request_allowance: u128,
}

/// Abstraction of the faucet.
pub struct FaucetV {
    pub recent_contributions: Seq<(Seq<char>, u128)>,
    pub recent_receivers: Seq<(Seq<char>, u64)>,
    pub blacklist: Seq<(Seq<char>, bool)>,
    pub ft_request_allowance: u128,
}

impl View for Contract {
    type V = FaucetV;

    closed spec fn view(&self) -> FaucetV {
        FaucetV {
            recent_contributions: Seq::new(
                self.recent_contributions@.len(),
                |i: int|
                    (self.recent_contributions@[i].0@, self.recent_contributions@[i].1),
            ),
            recent_receivers: self.recent_receivers@,
            blacklist: self.blacklist@,
            ft_request_allowance: self.ft_request_allowance,
        }
    }
}

/// The receivers still within the cooldown window at time `now`; older
/// entries are purged.
pub open spec fn retained(m: Seq<(Seq<char>, u64)>, now: u64) -> Seq<(Seq<char>, u64)>
    decreases m.len(),
{
    if m.len() == 0 {
        m
    } else {
        let prev = retained(m.drop_last(), now);
        if m.last().1 + REQUEST_GAP_LIMITER > now {
            prev.push(m.last())
        } else {
            prev
        }
    }
}

/// Purging keeps the keys distinct, keeps only entries of the original, and
/// every kept entry is still within the cooldown window.
proof fn lemma_retained_wf(m: Seq<(Seq<char>, u64)>, now: u64)
    requires
        sm_distinct(m),
    ensures
        sm_distinct(retained(m, now)),
        forall|j: int|
            0 <= j < retained(m, now).len() ==> exists|i: int|
                0 <= i < m.len() && #[trigger] retained(m, now)[j] == m[i],
        forall|j: int|
            0 <= j < retained(m, now).len() ==> #[trigger] retained(m, now)[j].1
                + REQUEST_GAP_LIMITER > now,
    decreases m.len(),
{
    if m.len() > 0 {
        let d = m.drop_last();
        assert(sm_distinct(d)) by {
            assert(forall|i: int| 0 <= i < d.len() ==> d[i] == m[i]);
        }
        lemma_retained_wf(d, now);
        let p = retained(d, now);
        let r = retained(m, now);
        assert(forall|i: int| 0 <= i < d.len() ==> d[i] == m[i]);
        if m.last().1 + REQUEST_GAP_LIMITER > now {
            assert(r == p.push(m.last()));
            assert forall|j: int| 0 <= j < r.len() implies exists|i: int|
                0 <= i < m.len() && #[trigger] r[j] == m[i] by {
                if j < p.len() {
                    let i = choose|i: int| 0 <= i < d.len() && p[j] == d[i];
                    assert(r[j] == m[i]);
                } else {
                    assert(r[j] == m[m.len() - 1]);
                }
            }
            assert forall|j1: int, j2: int| 0 <= j1 < j2 < r.len() implies r[j1].0 != r[j2].0 by {
                if j2 < p.len() {
                    assert(p[j1].0 != p[j2].0);
                } else {
                    let i = choose|i: int| 0 <= i < d.len() && p[j1] == d[i];
                    assert(r[j1] == m[i]);
                    assert(m[i].0 != m[m.len() - 1].0);
                }
            }
        } else {
            assert(r == p);
            assert forall|j: int| 0 <= j < r.len() implies exists|i: int|
                0 <= i < m.len() && #[trigger] r[j] == m[i] by {
                let i = choose|i: int| 0 <= i < d.len() && p[j] == d[i];
                assert(r[j] == m[i]);
            }
        }
    }
}

/// Why a faucet request is rejected, in the order the checks run; `None`
/// means the transfer is granted. A receiver still in the purged cooldown
/// map is by construction within the window, so its request is rejected.
pub open spec fn faucet_err(
    c: FaucetV,
    caller: Seq<char>,
    receiver_id: Seq<char>,
    amount: u128,
    now: u64,
) -> Option<CoreError> {
    if sm_has(c.blacklist, caller) {
        Some(CoreError::Authorization)
    } else if amount > c.ft_request_allowance {
        Some(CoreError::Validation)
    } else if sm_has(retained(c.recent_receivers, now), receiver_id) {
        Some(CoreError::Validation)
    } else {
        None
    }
}

impl Default for Contract {
    /// A fresh faucet with the stock allowance and nothing recorded.
    fn default() -> (r: Self)
        ensures
            r@.recent_contributions == Seq::<(Seq<char>, u128)>::empty(),
            r@.recent_receivers == Seq::<(Seq<char>, u64)>::empty(),
            r@.blacklist == Seq::<(Seq<char>, bool)>::empty(),
            r@.ft_request_allowance == 10_000_000_000_000_000_000_000u128,
            r.wf(),
    {
        let r = Contract {
            recent_contributions: Vec::new(),
            recent_receivers: SMap::new(),
            blacklist: SMap::new(),
            ft_request_allowance: 10_000_000_000_000_000_000_000,
        };
        proof {
            assert(r@.recent_contributions =~= Seq::<(Seq<char>, u128)>::empty());
        }
        r
    }
}

impl Contract {
    /// The cooldown map and the blacklist have distinct keys.
    pub open spec fn wf(&self) -> bool {
        sm_distinct(self@.recent_receivers) && sm_distinct(self@.blacklist)
    }

    /// An operator-issued transfer: no checks, no registration phase, no
    /// state change.
    pub fn admin_faucet(&mut self, ft_contract_id: &String, receiver_id: String, amount: u128)
        -> (r: FaucetTransfer)
        ensures
            final(self)@ == old(self)@,
            r.ft_contract_id@ == ft_contract_id@,
            r.receiver_id@ == receiver_id@,
            r.amount == amount,
    {
        FaucetTransfer { ft_contract_id: ft_contract_id.clone(), receiver_id, amount }
    }

    /// Grant a rate-limited transfer: the caller must not be blacklisted,
    /// the amount must fit the allowance, and the receiver must not have
    /// been served within the cooldown window. On a grant the purged
    /// cooldown map records the receiver at `now`; a rejected request leaves
    /// the faucet untouched.
    pub fn ft_request_funds(
        &mut self,
        caller: &String,
        ft_contract_id: &String,
        receiver_id: &String,
        amount: u128,
        now: u64,
    ) -> (r: Result<FaucetTransfer, CoreError>)
        requires
            old(self).wf(),
        ensures
            final(self).wf(),
            match r {
                Err(e) => Some(e) == faucet_err(old(self)@, caller@, receiver_id@, amount, now)
                    && final(self)@ == old(self)@,
                Ok(t) => {
                    &&& faucet_err(old(self)@, caller@, receiver_id@, amount, now)
                        == None::<CoreError>
                    &&& t.ft_contract_id@ == ft_contract_id@
                    &&& t.receiver_id@ == receiver_id@
                    &&& t.amount == amount
                    &&& final(self)@ == (FaucetV {
                        recent_receivers: sm_insert(
                            retained(old(self)@.recent_receivers, now),
                            receiver_id@,
                            now,
                        ),
                        ..old(self)@
                    })
                },
            },
    {
        if self.blacklist.contains_key(caller) {
            return Err(CoreError::Authorization);
        }
        if amount > self.ft_request_allowance {
            return Err(CoreError::Validation);
        }
        let ghost m0 = self@.recent_receivers;
        proof {
            lemma_retained_wf(m0, now);
        }
        let n = self.recent_receivers.len();
        let mut kept: SMap<u64> = SMap::new();
        let mut i: usize = 0;
        while i < n
            invariant
                sm_distinct(m0),
                n == m0.len(),
                self@.recent_receivers == m0,
                0 <= i <= n,
                kept.wf(),
                kept@ == retained(m0.take(i as int), now),
            decreases n - i,
        {
            proof {
                assert(m0.take(i as int + 1).drop_last() =~= m0.take(i as int));
                assert(m0.take(i as int + 1).last() == m0[i as int]);
                assert(sm_distinct(m0.take(i as int + 1))) by {
                    assert(forall|j: int|
                        0 <= j < i + 1 ==> m0.take(i as int + 1)[j] == m0[j]);
                }
                lemma_retained_wf(m0.take(i as int + 1), now);
                lemma_retained_wf(m0.take(i as int), now);
            }
            let entry_ts: u64 = *self.recent_receivers.val_at(i);
            if entry_ts > now || now - entry_ts < REQUEST_GAP_LIMITER {
                proof {
                    assert(!sm_has(kept@, m0[i as int].0)) by {
                        if sm_has(kept@, m0[i as int].0) {
                            let j = sm_idx(kept@, m0[i as int].0);
                            assert(0 <= j < kept@.len() && kept@[j].0 == m0[i as int].0);
                            let i0 = choose|i0: int|
                                0 <= i0 < m0.take(i as int).len() && kept@[j] == m0.take(
                                    i as int,
                                )[i0];
                            assert(m0[i0].0 == m0[i as int].0);
                        }
                    }
                }
                let key = self.recent_receivers.key_at(i).clone();
                kept.insert(key, entry_ts);
                proof {
                    assert(kept@ =~= retained(m0.take(i as int), now).push(m0[i as int]));
                }
            }
            i = i + 1;
        }
        proof {
            assert(m0.take(n as int) =~= m0);
        }
        // After the purge every remaining entry is within the window, so a
        // receiver still on record is always still cooling down.
        if kept.contains_key(receiver_id) {
            return Err(CoreError::Validation);
        }
        kept.insert(receiver_id.clone(), now);
        self.recent_receivers = kept;
        Ok(FaucetTransfer {
            ft_contract_id: ft_contract_id.clone(),
            receiver_id: receiver_id.clone(),
            amount,
        })
    }

    /// Bar an account from the faucet.
    pub fn add_to_blacklist(&mut self, account_id: String)
        requires
            old(self).wf(),
        ensures
            final(self).wf(),
            final(self)@ == (FaucetV {
                blacklist: sm_insert(old(self)@.blacklist, account_id@, true),
                ..old(self)@
            }),
    {
        self.blacklist.insert(account_id, true);
    }

    /// Bar several accounts at once.
    pub fn batch_add_to_blacklist(&mut self, accounts: Vec<String>)
        requires
            old(self).wf(),
        ensures
            final(self).wf(),
            final(self)@ == (FaucetV {
                blacklist: blacklist_after(old(self)@.blacklist, accounts@),
                ..old(self)@
            }),
    {
        let n = accounts.len();
        let mut i: usize = 0;
        while i < n
            invariant
                n == accounts@.len(),
                0 <= i <= n,
                sm_distinct(self@.blacklist),
                self@.blacklist == blacklist_after(old(self)@.blacklist, accounts@.take(i as int)),
                self@.recent_contributions == old(self)@.recent_contributions,
                self@.recent_receivers == old(self)@.recent_receivers,
                self@.ft_request_allowance == old(self)@.ft_request_allowance,
                sm_distinct(self@.recent_receivers),
            decreases n - i,
        {
            proof {
                assert(accounts@.take(i as int + 1).drop_last() =~= accounts@.take(i as int));
                assert(accounts@.take(i as int + 1).last() == accounts@[i as int]);
            }
            self.blacklist.insert(accounts[i].clone(), true);
            i = i + 1;
        }
        proof {
            assert(accounts@.take(n as int) =~= accounts@);
        }
    }

    /// Readmit an account.
    pub fn remove_from_blacklist(&mut self, account_id: &String)
        requires
            old(self).wf(),
        ensures
            final(self).wf(),
            final(self)@ == (FaucetV {
                blacklist: sm_remove(old(self)@.blacklist, account_id@),
                ..old(self)@
            }),
    {
        self.blacklist.remove(account_id);
    }

    /// Forget every cooldown.
    pub fn clear_recent_receivers(&mut self)
        requires
            old(self).wf(),
        ensures
            final(self).wf(),
            final(self)@ == (FaucetV {
                recent_receivers: Seq::<(Seq<char>, u64)>::empty(),
                ..old(self)@
            }),
    {
        self.recent_receivers.clear();
    }

    /// Whether an account is barred.
    pub fn is_blacklisted(&self, account_id: &String) -> (r: bool)
        ensures
            r == sm_has(self@.blacklist, account_id@),
    {
        self.blacklist.contains_key(account_id)
    }
}

/// The blacklist after barring each account in turn.
pub open spec fn blacklist_after(bl: Seq<(Seq<char>, bool)>, accounts: Seq<String>) -> Seq<
    (Seq<char>, bool),
>
    decreases accounts.len(),
{
    if accounts.len() == 0 {
        bl
    } else {
        sm_insert(blacklist_after(bl, accounts.drop_last()), accounts.last()@, true)
    }
}

} // verus!
