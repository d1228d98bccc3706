//! The settlement coordinator: the two-phase register-then-transfer payout
//! against the external ledger, modelled as correlation-id-keyed pending
//! operations with dedicated result-handling entry points.
//!
//! `payout` commits a pending operation and hands back the registration to
//! issue; the outcome of each external step is delivered later through
//! `on_register_result` and `on_transfer_result`. A transfer is issued only
//! by a successful registration result, and a failed operation is terminal:
//! there is no retry and no compensating reversal.

use vstd::prelude::*;
use crate::CoreError;

verus! {

/// Where a pending payout stands in the register-then-transfer chain.
#[derive(Clone, Copy, Debug, PartialEq, Eq, Structural)]
pub enum PayoutPhase {
    /// The registration of the recipient has been issued; its outcome is not
    /// known yet. No transfer has been issued.
    Registering,
    /// Registration succeeded and the transfer has been issued.
    Transferring,
    /// The transfer was reported successful.
    Completed,
    /// Registration or transfer was reported failed; terminal.
    Failed,
}

/// One pending payout operation.
pub struct PendingPayout {
    pub recipient: String,
    pub amount: u128,
    pub phase: PayoutPhase,
}

/// Abstraction of a pending payout.
pub struct PendingPayoutV {
    pub recipient: Seq<char>,
    pub amount: u128,
    pub phase: PayoutPhase,
}

impl View for PendingPayout {
    type V = PendingPayoutV;

    open spec fn view(&self) -> PendingPayoutV {
        PendingPayoutV { recipient: self.recipient@, amount: self.amount, phase: self.phase }
    }
}

/// The registration to issue to the external ledger for a new payout.
pub struct RegisterAction {
    pub op_id: usize,
    pub recipient: String,
}

/// The transfer to issue after a successful registration.
pub struct TransferAction {
    pub op_id: usize,
    pub recipient: String,
    pub amount: u128,
}

/// The state after committing a new payout operation.
pub open spec fn issue_next(
    c: Seq<PendingPayoutV>,
    recipient: Seq<char>,
    amount: u128,
) -> Seq<PendingPayoutV> {
    c.push(PendingPayoutV { recipient, amount, phase: PayoutPhase::Registering })
}

/// A registration result for `id` can be accepted.
pub open spec fn register_result_ok(c: Seq<PendingPayoutV>, id: int) -> bool {
    0 <= id < c.len() && c[id].phase == PayoutPhase::Registering
}

/// The state after delivering the registration outcome for `id`.
pub open spec fn after_register_result(c: Seq<PendingPayoutV>, id: int, ok: bool) -> Seq<
    PendingPayoutV,
> {
    c.update(
        id,
        PendingPayoutV {
            phase: if ok {
                PayoutPhase::Transferring
            } else {
                PayoutPhase::Failed
            },
            ..c[id]
        },
    )
}

/// A transfer result for `id` can be accepted.
pub open spec fn transfer_result_ok(c: Seq<PendingPayoutV>, id: int) -> bool {
    0 <= id < c.len() && c[id].phase == PayoutPhase::Transferring
}

/// The state after delivering the transfer outcome for `id`.
pub open spec fn after_transfer_result(c: Seq<PendingPayoutV>, id: int, ok: bool) -> Seq<
    PendingPayoutV,
> {
    c.update(
        id,
        PendingPayoutV {
            phase: if ok {
                PayoutPhase::Completed
            } else {
                PayoutPhase::Failed
            },
            ..c[id]
        },
    )
}

/// Wraps the external payout chain as pending operations. Callers commit
/// their own state changes before the external steps are issued, so nothing
/// here can roll a caller back.
pub struct SettlementCoordinator {
    ops: Vec<PendingPayout>,
}

impl View for SettlementCoordinator {
    type V = Seq<PendingPayoutV>;

    closed spec fn view(&self) -> Seq<PendingPayoutV> {
        Seq::new(self.ops@.len(), |i: int| self.ops@[i]@)
    }
}

impl SettlementCoordinator {
    pub fn new() -> (r: Self)
        ensures
            r@ == Seq::<PendingPayoutV>::empty(),
    {
        let r = SettlementCoordinator { ops: Vec::new() };
        proof {
            assert(r@ =~= Seq::<PendingPayoutV>::empty());
        }
        r
    }

    pub fn op_count(&self) -> (n: usize)
        ensures
            n == self@.len(),
    {
        self.ops.len()
    }

    /// Read one pending operation, for inspection and follow-up decisions.
    pub fn op_at(&self, op_id: usize) -> (r: Option<&PendingPayout>)
        ensures
            match r {
                Some(p) => op_id < self@.len() && p@ == self@[op_id as int],
                None => op_id >= self@.len(),
            },
    {
        if op_id < self.ops.len() {
            Some(&self.ops[op_id])
        } else {
            None
        }
    }

    /// Commit a new payout and hand back the registration to issue. The
    /// operation starts in `Registering`: no transfer is issued yet.
    pub fn payout(&mut self, recipient: String, amount: u128) -> (r: RegisterAction)
        ensures
            final(self)@ == issue_next(old(self)@, recipient@, amount),
            r.op_id == old(self)@.len(),
            r.recipient@ == recipient@,
    {
        let op_id = self.ops.len();
        let r = RegisterAction { op_id, recipient: clone_string(&recipient) };
        self.ops.push(
            PendingPayout { recipient, amount, phase: PayoutPhase::Registering },
        );
        proof {
            assert(self@ =~= issue_next(old(self)@, r.recipient@, amount));
        }
        r
    }

    /// Deliver the outcome of the registration step. On success the chained
    /// transfer is handed back to be issued; on failure the operation is
    /// terminally `Failed` and no transfer is ever issued for it.
    pub fn on_register_result(&mut self, op_id: usize, ok: bool) -> (r: Result<
        Option<TransferAction>,
        CoreError,
    >)
        ensures
            register_result_ok(old(self)@, op_id as int) ==> {
                &&& final(self)@ == after_register_result(old(self)@, op_id as int, ok)
                &&& match r {
                    Ok(Some(t)) => ok && t.op_id == op_id
                        && t.recipient@ == old(self)@[op_id as int].recipient
                        && t.amount == old(self)@[op_id as int].amount,
                    Ok(None) => !ok,
                    Err(_) => false,
                }
            },
            !register_result_ok(old(self)@, op_id as int) ==> {
                &&& final(self)@ == old(self)@
                &&& r == if op_id >= old(self)@.len() {
                    Err::<Option<TransferAction>, CoreError>(CoreError::NotFound)
                } else {
                    Err::<Option<TransferAction>, CoreError>(CoreError::DuplicateAction)
                }
            },
    {
        if op_id >= self.ops.len() {
            return Err(CoreError::NotFound);
        }
        if !matches!(self.ops[op_id].phase, PayoutPhase::Registering) {
            return Err(CoreError::DuplicateAction);
        }
        if ok {
            let recipient = clone_string(&self.ops[op_id].recipient);
            let amount = self.ops[op_id].amount;
            self.ops[op_id].phase = PayoutPhase::Transferring;
            proof {
                assert(self@ =~= after_register_result(old(self)@, op_id as int, true));
            }
            Ok(Some(TransferAction { op_id, recipient, amount }))
        } else {
            self.ops[op_id].phase = PayoutPhase::Failed;
            proof {
                assert(self@ =~= after_register_result(old(self)@, op_id as int, false));
            }
            Ok(None)
        }
    }

    /// Deliver the outcome of the transfer step. Failure is terminal; there
    /// is no retry queue and no compensating reversal.
    pub fn on_transfer_result(&mut self, op_id: usize, ok: bool) -> (r: Result<(), CoreError>)
        ensures
            transfer_result_ok(old(self)@, op_id as int) ==> {
                &&& final(self)@ == after_transfer_result(old(self)@, op_id as int, ok)
                &&& r == Ok::<(), CoreError>(())
            },
            !transfer_result_ok(old(self)@, op_id as int) ==> {
                &&& final(self)@ == old(self)@
                &&& r == if op_id >= old(self)@.len() {
                    Err::<(), CoreError>(CoreError::NotFound)
                } else {
                    Err::<(), CoreError>(CoreError::DuplicateAction)
                }
            },
    {
        if op_id >= self.ops.len() {
            return Err(CoreError::NotFound);
        }
        if !matches!(self.ops[op_id].phase, PayoutPhase::Transferring) {
            return Err(CoreError::DuplicateAction);
        }
        if ok {
            self.ops[op_id].phase = PayoutPhase::Completed;
            proof {
                assert(self@ =~= after_transfer_result(old(self)@, op_id as int, true));
            }
        } else {
            self.ops[op_id].phase = PayoutPhase::Failed;
            proof {
                assert(self@ =~= after_transfer_result(old(self)@, op_id as int, false));
            }
        }
        Ok(())
    }
}

/// A fresh `String` with the same characters.
fn clone_string(s: &String) -> (r: String)
    ensures
        r@ == s@,
{
    s.clone()
}

/// A failed registration blocks the transfer for good: after the failure the
/// operation is `Failed`, no transfer result can be accepted for it, and no
/// second registration result can revive it.
pub proof fn lemma_register_failure_blocks_transfer(c: Seq<PendingPayoutV>, id: int)
    requires
        register_result_ok(c, id),
    ensures
        after_register_result(c, id, false)[id].phase == PayoutPhase::Failed,
        !transfer_result_ok(after_register_result(c, id, false), id),
        !register_result_ok(after_register_result(c, id, false), id),
{
}

/// A failed payout operation is terminal: neither result handler accepts a
/// further outcome for it, so its phase can never change again.
pub proof fn lemma_failed_payout_is_terminal(c: Seq<PendingPayoutV>, id: int)
    requires
        0 <= id < c.len(),
        c[id].phase == PayoutPhase::Failed,
    ensures
        !register_result_ok(c, id),
        !transfer_result_ok(c, id),
{
}

} // verus!
