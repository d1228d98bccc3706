//! The job escrow: job lifecycle with two-sided confirmation, payout split
//! on normal completion, dispute delegation into the poll registry, the
//! staked-token ledger that backs voter weights, and the reputation ledger.
//!
//! A job moves open -> claimed -> active -> (completed | disputed) -> ended;
//! `is_end` is terminal and set at most once. Ending a job splits the budget
//! 95% to the counter-party and 5% to the protocol owner through the
//! settlement coordinator, and credits both parties' reputation with the
//! full budget. Resolving a dispute pays the winner 90%, the poll operator
//! 10%, and credits the winner's reputation with half the budget — the
//! asymmetry with the normal split is deliberate. All state changes commit
//! before any external step runs; a failed payout leaves the job ended.

use vstd::prelude::*;
use crate::CoreError;
use crate::smap::{SMap, Dup, sm_has, sm_idx, sm_get, sm_val, sm_distinct, sm_insert,
    lemma_sm_insert, lemma_sm_insert_entries};
use crate::settle::{SettlementCoordinator, PendingPayout, PendingPayoutV, RegisterAction,
    TransferAction, issue_next, register_result_ok, after_register_result, transfer_result_ok,
    after_transfer_result};
use crate::polls::{sm_bump, tally_of, sum_tally, lemma_sm_bump_tallies, lemma_sm_insert_sum,
    lemma_sum_tally_bounds};

verus! {

/// Per-party confirmation flags: each pair is (accepted, completed).
#[derive(Clone, Copy, Debug)]
pub struct Confirm {
    pub creator: (bool, bool),
    pub freelancer: (bool, bool),
}

impl View for Confirm {
    type V = Confirm;

    open spec fn view(&self) -> Confirm {
        *self
    }
}

impl Dup for Confirm {
    fn dup(&self) -> (r: Self)
        ensures
            r@ == self@,
    {
        *self
    }
}

/// One escrow job: creator, locked notional budget, the confirmation map
/// keyed by interested counter-parties, the lifecycle flags and the linked
/// dispute poll id.
pub struct Jobs {
    pub creator_id: String,
    pub budget: u128,
    pub freelancers: SMap<Confirm>,
    pub is_start: bool,
    pub is_end: bool,
    pub voting_id: String,
}

/// Abstraction of a job.
pub struct JobsV {
    pub creator_id: Seq<char>,
    pub budget: u128,
    pub freelancers: Seq<(Seq<char>, Confirm)>,
    pub is_start: bool,
    pub is_end: bool,
    pub voting_id: Seq<char>,
}

impl View for Jobs {
    type V = JobsV;

    open spec fn view(&self) -> JobsV {
        JobsV {
            creator_id: self.creator_id@,
            budget: self.budget,
            freelancers: self.freelancers@,
            is_start: self.is_start,
            is_end: self.is_end,
            voting_id: self.voting_id@,
        }
    }
}

impl Dup for Jobs {
    fn dup(&self) -> (r: Self)
        ensures
            r@ == self@,
    {
        Jobs {
            creator_id: self.creator_id.clone(),
            budget: self.budget,
            freelancers: self.freelancers.duplicate(),
            is_start: self.is_start,
            is_end: self.is_end,
            voting_id: self.voting_id.clone(),
        }
    }
}

/// The poll the escrow asks the poll registry to open for a dispute.
pub struct PollRequest {
    pub question: String,
    pub variants: Vec<(String, String)>,
    pub start: u64,
    pub end: u64,
    pub budget: u128,
}

/// The winner query the escrow issues to resolve a dispute, with the
/// follow-up arguments the callback needs.
pub struct DisputeQuery {
    pub job_id: String,
    pub freelancer_id: String,
    pub poll_id: String,
}

/// The job escrow with its staked-token ledger, reputation points and
/// settlement coordinator.
pub struct Contract {
    owner_id: String,
    ft_contract_id: String,
    voting_contract_id: String,
    jobs: SMap<Jobs>,
    points: SMap<u128>,
    balances: SMap<u128>,
    total_staked: u128,
    settlements: SettlementCoordinator,
}

/// Abstraction of the escrow.
pub struct ContractV {
    pub owner_id: Seq<char>,
    pub ft_contract_id: Seq<char>,
    pub voting_contract_id: Seq<char>,
    pub jobs: Seq<(Seq<char>, JobsV)>,
    pub points: Seq<(Seq<char>, u128)>,
    pub balances: Seq<(Seq<char>, u128)>,
    pub total_staked: u128,
    pub settlements: Seq<PendingPayoutV>,
}

impl View for Contract {
    type V = ContractV;

    closed spec fn view(&self) -> ContractV {
        ContractV {
            owner_id: self.owner_id@,
            ft_contract_id: self.ft_contract_id@,
            voting_contract_id: self.voting_contract_id@,
            jobs: self.jobs@,
            points: self.points@,
            balances: self.balances@,
            total_staked: self.total_staked,
            settlements: self.settlements@,
        }
    }
}

/// Well-formedness: all key sets distinct, every job's confirmation map
/// distinct, and the total staked equal to the sum of all balances.
pub open spec fn contract_wf(c: ContractV) -> bool {
    &&& sm_distinct(c.jobs)
    &&& sm_distinct(c.points)
    &&& sm_distinct(c.balances)
    &&& forall|i: int| 0 <= i < c.jobs.len() ==> sm_distinct(#[trigger] c.jobs[i].1.freelancers)
    &&& sum_tally(c.balances) == c.total_staked
}

/// Storing a job whose confirmation map is well-formed keeps every stored
/// confirmation map well-formed.
proof fn lemma_jobs_wf_after_insert(m: Seq<(Seq<char>, JobsV)>, k: Seq<char>, v: JobsV)
    requires
        sm_distinct(m),
        forall|i: int| 0 <= i < m.len() ==> sm_distinct(#[trigger] m[i].1.freelancers),
        sm_distinct(v.freelancers),
    ensures
        forall|i: int|
            0 <= i < sm_insert(m, k, v).len() ==> sm_distinct(
                #[trigger] sm_insert(m, k, v)[i].1.freelancers,
            ),
{
    lemma_sm_insert_entries(m, k, v);
    assert forall|i: int| 0 <= i < sm_insert(m, k, v).len() implies sm_distinct(
        #[trigger] sm_insert(m, k, v)[i].1.freelancers,
    ) by {
        if sm_insert(m, k, v)[i] == (k, v) {
        } else {
            assert(0 <= i < m.len() && sm_insert(m, k, v)[i] == m[i]);
            assert(sm_distinct(m[i].1.freelancers));
        }
    }
}

/// The confirmation entry after a counter-party claims a job: its accepted
/// flag set and its completed flag cleared; a first claim starts from a
/// fresh entry.
pub open spec fn claim_confirm(fl: Seq<(Seq<char>, Confirm)>, caller: Seq<char>) -> Confirm {
    if sm_has(fl, caller) {
        Confirm { freelancer: (true, false), ..sm_val(fl, caller) }
    } else {
        Confirm { creator: (false, false), freelancer: (true, false) }
    }
}

impl Contract {
    /// All registries well-formed and the stake total balanced.
    pub open spec fn wf(&self) -> bool {
        contract_wf(self@)
    }

    pub fn new(owner_id: String, ft_contract_id: String, voting_contract_id: String) -> (r: Self)
        ensures
            r.wf(),
            r@.owner_id == owner_id@,
            r@.ft_contract_id == ft_contract_id@,
            r@.voting_contract_id == voting_contract_id@,
            r@.jobs == Seq::<(Seq<char>, JobsV)>::empty(),
            r@.points == Seq::<(Seq<char>, u128)>::empty(),
            r@.balances == Seq::<(Seq<char>, u128)>::empty(),
            r@.total_staked == 0,
            r@.settlements == Seq::<PendingPayoutV>::empty(),
    {
        Contract {
            owner_id,
            ft_contract_id,
            voting_contract_id,
            jobs: SMap::new(),
            points: SMap::new(),
            balances: SMap::new(),
            total_staked: 0,
            settlements: SettlementCoordinator::new(),
        }
    }

    /// Only the owner may hand ownership over.
    pub fn transfer_owner(&mut self, caller: &String, new_owner_id: String) -> (r: Result<
        (),
        CoreError,
    >)
        ensures
            caller@ == old(self)@.owner_id ==> r == Ok::<(), CoreError>(()) && final(self)@
                == (ContractV { owner_id: new_owner_id@, ..old(self)@ }),
            caller@ != old(self)@.owner_id ==> r == Err::<(), CoreError>(CoreError::Authorization)
                && final(self)@ == old(self)@,
    {
        if !(*caller == self.owner_id) {
            return Err(CoreError::Authorization);
        }
        self.owner_id = new_owner_id;
        Ok(())
    }

    /// Only the owner may point the escrow at another ledger contract.
    pub fn change_ft_contract_id(&mut self, caller: &String, new_ft_contract_id: String) -> (r:
        Result<(), CoreError>)
        ensures
            caller@ == old(self)@.owner_id ==> r == Ok::<(), CoreError>(()) && final(self)@
                == (ContractV { ft_contract_id: new_ft_contract_id@, ..old(self)@ }),
            caller@ != old(self)@.owner_id ==> r == Err::<(), CoreError>(CoreError::Authorization)
                && final(self)@ == old(self)@,
    {
        if !(*caller == self.owner_id) {
            return Err(CoreError::Authorization);
        }
        self.ft_contract_id = new_ft_contract_id;
        Ok(())
    }

    /// Only the owner may point the escrow at another poll registry.
    pub fn change_voting_contract_id(
        &mut self,
        caller: &String,
        new_voting_contract_id: String,
    ) -> (r: Result<(), CoreError>)
        ensures
            caller@ == old(self)@.owner_id ==> r == Ok::<(), CoreError>(()) && final(self)@
                == (ContractV { voting_contract_id: new_voting_contract_id@, ..old(self)@ }),
            caller@ != old(self)@.owner_id ==> r == Err::<(), CoreError>(CoreError::Authorization)
                && final(self)@ == old(self)@,
    {
        if !(*caller == self.owner_id) {
            return Err(CoreError::Authorization);
        }
        self.voting_contract_id = new_voting_contract_id;
        Ok(())
    }

    /// Stake: credit the caller's balance and the total. The amount must be
    /// positive.
    pub fn deposit(&mut self, caller: &String, amount_stake: u128) -> (r: Result<(), CoreError>)
        requires
            old(self).wf(),
            old(self)@.total_staked + amount_stake <= u128::MAX,
        ensures
            final(self).wf(),
            amount_stake == 0 ==> r == Err::<(), CoreError>(CoreError::Validation) && final(self)@
                == old(self)@,
            amount_stake > 0 ==> r == Ok::<(), CoreError>(()) && final(self)@ == (ContractV {
                balances: sm_bump(old(self)@.balances, caller@, amount_stake),
                total_staked: (old(self)@.total_staked + amount_stake) as u128,
                ..old(self)@
            }),
    {
        if amount_stake == 0 {
            return Err(CoreError::Validation);
        }
        let cur: u128 = match self.balances.get(caller) {
            Some(v) => *v,
            None => 0,
        };
        proof {
            lemma_sum_tally_bounds(self@.balances);
            if sm_has(self@.balances, caller@) {
                assert(self@.balances[sm_idx(self@.balances, caller@)].1 == cur);
            }
            lemma_sm_bump_tallies(self@.balances, caller@, amount_stake);
        }
        self.balances.insert(caller.clone(), cur + amount_stake);
        self.total_staked = self.total_staked + amount_stake;
        Ok(())
    }

    /// Unstake: debit the caller's balance and the total, then send the
    /// amount back through the two-phase payout. An absent account holds
    /// zero; an insufficient balance is rejected untouched.
    pub fn withdraw(&mut self, caller: &String, amount_stake: u128) -> (r: Result<
        RegisterAction,
        CoreError,
    >)
        requires
            old(self).wf(),
        ensures
            final(self).wf(),
            tally_of(old(self)@.balances, caller@) < amount_stake ==> r == Err::<
                RegisterAction,
                CoreError,
            >(CoreError::Validation) && final(self)@ == old(self)@,
            tally_of(old(self)@.balances, caller@) >= amount_stake ==> match r {
                Ok(reg) => {
                    &&& reg.op_id == old(self)@.settlements.len()
                    &&& reg.recipient@ == caller@
                    &&& final(self)@ == (ContractV {
                        balances: sm_insert(
                            old(self)@.balances,
                            caller@,
                            (tally_of(old(self)@.balances, caller@) - amount_stake) as u128,
                        ),
                        total_staked: (old(self)@.total_staked - amount_stake) as u128,
                        settlements: issue_next(old(self)@.settlements, caller@, amount_stake),
                        ..old(self)@
                    })
                },
                Err(_) => false,
            },
    {
        let cur: u128 = match self.balances.get(caller) {
            Some(v) => *v,
            None => 0,
        };
        if cur < amount_stake {
            return Err(CoreError::Validation);
        }
        proof {
            lemma_sum_tally_bounds(self@.balances);
            if sm_has(self@.balances, caller@) {
                assert(self@.balances[sm_idx(self@.balances, caller@)].1 == cur);
            }
            lemma_sm_insert_sum(self@.balances, caller@, ((cur - amount_stake) as u128));
            lemma_sm_insert(self@.balances, caller@, ((cur - amount_stake) as u128));
        }
        self.balances.insert(caller.clone(), cur - amount_stake);
        self.total_staked = self.total_staked - amount_stake;
        let reg = self.settlements.payout(caller.clone(), amount_stake);
        Ok(reg)
    }

    /// How many payout operations the escrow has committed.
    pub fn settlement_count(&self) -> (n: usize)
        ensures
            n == self@.settlements.len(),
    {
        self.settlements.op_count()
    }

    /// Read one pending payout operation.
    pub fn settlement_at(&self, op_id: usize) -> (r: Option<&PendingPayout>)
        ensures
            match r {
                Some(p) => op_id < self@.settlements.len() && p@ == self@.settlements[op_id as int],
                None => op_id >= self@.settlements.len(),
            },
    {
        self.settlements.op_at(op_id)
    }

    /// Deliver the outcome of a payout's registration step.
    pub fn on_register_result(&mut self, op_id: usize, ok: bool) -> (r: Result<
        Option<TransferAction>,
        CoreError,
    >)
        requires
            old(self).wf(),
        ensures
            final(self).wf(),
            final(self)@ == (ContractV { settlements: final(self)@.settlements, ..old(self)@ }),
            register_result_ok(old(self)@.settlements, op_id as int) ==> {
                &&& final(self)@.settlements == after_register_result(
                    old(self)@.settlements,
                    op_id as int,
                    ok,
                )
                &&& match r {
                    Ok(Some(t)) => ok && t.op_id == op_id
                        && t.recipient@ == old(self)@.settlements[op_id as int].recipient
                        && t.amount == old(self)@.settlements[op_id as int].amount,
                    Ok(None) => !ok,
                    Err(_) => false,
                }
            },
            !register_result_ok(old(self)@.settlements, op_id as int) ==> final(self)@
                == old(self)@ && r == if op_id >= old(self)@.settlements.len() {
                Err::<Option<TransferAction>, CoreError>(CoreError::NotFound)
            } else {
                Err::<Option<TransferAction>, CoreError>(CoreError::DuplicateAction)
            },
    {
        self.settlements.on_register_result(op_id, ok)
    }

    /// Deliver the outcome of a payout's transfer step.
    pub fn on_transfer_result(&mut self, op_id: usize, ok: bool) -> (r: Result<(), CoreError>)
        requires
            old(self).wf(),
        ensures
            final(self).wf(),
            final(self)@ == (ContractV { settlements: final(self)@.settlements, ..old(self)@ }),
            transfer_result_ok(old(self)@.settlements, op_id as int) ==> {
                &&& final(self)@.settlements == after_transfer_result(
                    old(self)@.settlements,
                    op_id as int,
                    ok,
                )
                &&& r == Ok::<(), CoreError>(())
            },
            !transfer_result_ok(old(self)@.settlements, op_id as int) ==> final(self)@
                == old(self)@ && r == if op_id >= old(self)@.settlements.len() {
                Err::<(), CoreError>(CoreError::NotFound)
            } else {
                Err::<(), CoreError>(CoreError::DuplicateAction)
            },
    {
        self.settlements.on_transfer_result(op_id, ok)
    }

    /// The total staked over all accounts.
    pub fn get_total_staked(&self) -> (r: u128)
        ensures
            r == self@.total_staked,
    {
        self.total_staked
    }

    /// A staked balance, zero for an unknown account.
    pub fn balance_of(&self, account: &String) -> (r: u128)
        requires
            self.wf(),
        ensures
            r == tally_of(self@.balances, account@),
    {
        match self.balances.get(account) {
            Some(v) => *v,
            None => 0,
        }
    }

    /// Accumulated reputation points, zero for an unknown account. The
    /// ledger is additive only: nothing in the escrow ever reads or
    /// decrements it.
    pub fn points_of(&self, account: &String) -> (r: u128)
        requires
            self.wf(),
        ensures
            r == tally_of(self@.points, account@),
    {
        match self.points.get(account) {
            Some(v) => *v,
            None => 0,
        }
    }

    /// Pure read: the job under an id, or nothing for an unknown id.
    pub fn show_jobs(&self, jobs_id: &String) -> (r: Option<Jobs>)
        requires
            self.wf(),
        ensures
            match r {
                Some(j) => sm_get(self@.jobs, jobs_id@) == Some(j@),
                None => !sm_has(self@.jobs, jobs_id@),
            },
    {
        match self.jobs.get(jobs_id) {
            Some(j) => Some(j.dup()),
            None => None,
        }
    }

    /// Pure read: every stored job.
    pub fn get_list_jobs(&self) -> (r: &SMap<Jobs>)
        ensures
            r@ == self@.jobs,
    {
        &self.jobs
    }

    /// Open a job with a positive locked budget under the caller-chosen id;
    /// an existing job under that id is overwritten.
    pub fn create_jobs(&mut self, caller: &String, amount_stake: u128, para: String) -> (r: Result<
        String,
        CoreError,
    >)
        requires
            old(self).wf(),
        ensures
            final(self).wf(),
            amount_stake == 0 ==> r == Err::<String, CoreError>(CoreError::Validation)
                && final(self)@ == old(self)@,
            amount_stake > 0 ==> match r {
                Ok(id) => id@ == para@ && final(self)@ == (ContractV {
                    jobs: sm_insert(
                        old(self)@.jobs,
                        para@,
                        JobsV {
                            creator_id: caller@,
                            budget: amount_stake,
                            freelancers: Seq::empty(),
                            is_start: false,
                            is_end: false,
                            voting_id: Seq::<char>::empty(),
                        },
                    ),
                    ..old(self)@
                }),
                Err(_) => false,
            },
    {
        if amount_stake == 0 {
            return Err(CoreError::Validation);
        }
        let job_id = para;
        let job = Jobs {
            creator_id: caller.clone(),
            budget: amount_stake,
            freelancers: SMap::new(),
            is_start: false,
            is_end: false,
            voting_id: String::new(),
        };
        proof {
            lemma_jobs_wf_after_insert(self@.jobs, job_id@, job@);
        }
        self.jobs.insert(job_id.clone(), job);
        Ok(job_id)
    }

    /// A counter-party claims a job: allowed only while the job has not
    /// started; records the party's accepted flag (a fresh entry if none).
    pub fn get_jobs(&mut self, caller: &String, job_id: &String) -> (r: Result<(), CoreError>)
        requires
            old(self).wf(),
        ensures
            final(self).wf(),
            !sm_has(old(self)@.jobs, job_id@) ==> r == Err::<(), CoreError>(CoreError::NotFound)
                && final(self)@ == old(self)@,
            sm_has(old(self)@.jobs, job_id@) && sm_val(old(self)@.jobs, job_id@).is_start ==> r
                == Err::<(), CoreError>(CoreError::Validation) && final(self)@ == old(self)@,
            sm_has(old(self)@.jobs, job_id@) && !sm_val(old(self)@.jobs, job_id@).is_start ==> r
                == Ok::<(), CoreError>(()) && final(self)@ == (ContractV {
                jobs: sm_insert(
                    old(self)@.jobs,
                    job_id@,
                    JobsV {
                        freelancers: sm_insert(
                            sm_val(old(self)@.jobs, job_id@).freelancers,
                            caller@,
                            claim_confirm(sm_val(old(self)@.jobs, job_id@).freelancers, caller@),
                        ),
                        ..sm_val(old(self)@.jobs, job_id@)
                    },
                ),
                ..old(self)@
            }),
    {
        let job = match self.jobs.get(job_id) {
            Some(j) => j,
            None => {
                return Err(CoreError::NotFound);
            },
        };
        if job.is_start {
            return Err(CoreError::Validation);
        }
        proof {
            assert(self@.jobs[sm_idx(self@.jobs, job_id@)].1 == job@);
        }
        let entry = match job.freelancers.get(caller) {
            Some(e) => Confirm { freelancer: (true, false), ..*e },
            None => Confirm { creator: (false, false), freelancer: (true, false) },
        };
        let mut job2 = job.dup();
        job2.freelancers.insert(caller.clone(), entry);
        proof {
            lemma_jobs_wf_after_insert(old(self)@.jobs, job_id@, job2@);
        }
        self.jobs.insert(job_id.clone(), job2);
        Ok(())
    }

    /// The creator starts a job with a counter-party that has claimed it:
    /// records the creator's accepted flag and sets the started flag.
    pub fn start_jobs(&mut self, caller: &String, job_id: &String, freelancer_id: &String) -> (r:
        Result<(), CoreError>)
        requires
            old(self).wf(),
        ensures
            final(self).wf(),
            match r {
                Err(e) => Some(e) == start_jobs_err(old(self)@, caller@, job_id@, freelancer_id@)
                    && final(self)@ == old(self)@,
                Ok(_) => start_jobs_err(old(self)@, caller@, job_id@, freelancer_id@)
                    == None::<CoreError> && final(self)@ == (ContractV {
                    jobs: sm_insert(
                        old(self)@.jobs,
                        job_id@,
                        JobsV {
                            freelancers: sm_insert(
                                sm_val(old(self)@.jobs, job_id@).freelancers,
                                freelancer_id@,
                                Confirm {
                                    creator: (true, false),
                                    ..sm_val(
                                        sm_val(old(self)@.jobs, job_id@).freelancers,
                                        freelancer_id@,
                                    )
                                },
                            ),
                            is_start: true,
                            ..sm_val(old(self)@.jobs, job_id@)
                        },
                    ),
                    ..old(self)@
                }),
            },
    {
        let job = match self.jobs.get(job_id) {
            Some(j) => j,
            None => {
                return Err(CoreError::NotFound);
            },
        };
        if !(*caller == job.creator_id) {
            return Err(CoreError::Authorization);
        }
        proof {
            assert(self@.jobs[sm_idx(self@.jobs, job_id@)].1 == job@);
        }
        let entry = match job.freelancers.get(freelancer_id) {
            Some(e) => *e,
            None => {
                return Err(CoreError::NotFound);
            },
        };
        if !entry.freelancer.0 {
            return Err(CoreError::Validation);
        }
        if job.is_start {
            return Err(CoreError::DuplicateAction);
        }
        let mut job2 = job.dup();
        job2.freelancers.insert(
            freelancer_id.clone(),
            Confirm { creator: (true, false), ..entry },
        );
        job2.is_start = true;
        proof {
            lemma_jobs_wf_after_insert(old(self)@.jobs, job_id@, job2@);
        }
        self.jobs.insert(job_id.clone(), job2);
        Ok(())
    }

    /// A party with the creator's acceptance on record marks the work
    /// complete or not; the flag may be rewritten while the job runs.
    pub fn complete_jobs(&mut self, caller: &String, job_id: &String, choice: bool) -> (r: Result<
        (),
        CoreError,
    >)
        requires
            old(self).wf(),
        ensures
            final(self).wf(),
            match r {
                Err(e) => Some(e) == complete_jobs_err(old(self)@, caller@, job_id@)
                    && final(self)@ == old(self)@,
                Ok(_) => complete_jobs_err(old(self)@, caller@, job_id@) == None::<CoreError>
                    && final(self)@ == (ContractV {
                    jobs: sm_insert(
                        old(self)@.jobs,
                        job_id@,
                        JobsV {
                            freelancers: sm_insert(
                                sm_val(old(self)@.jobs, job_id@).freelancers,
                                caller@,
                                Confirm {
                                    freelancer: (true, choice),
                                    ..sm_val(
                                        sm_val(old(self)@.jobs, job_id@).freelancers,
                                        caller@,
                                    )
                                },
                            ),
                            ..sm_val(old(self)@.jobs, job_id@)
                        },
                    ),
                    ..old(self)@
                }),
            },
    {
        let job = match self.jobs.get(job_id) {
            Some(j) => j,
            None => {
                return Err(CoreError::NotFound);
            },
        };
        proof {
            assert(self@.jobs[sm_idx(self@.jobs, job_id@)].1 == job@);
        }
        let entry = match job.freelancers.get(caller) {
            Some(e) => *e,
            None => {
                return Err(CoreError::NotFound);
            },
        };
        if !entry.creator.0 {
            return Err(CoreError::Authorization);
        }
        let mut job2 = job.dup();
        job2.freelancers.insert(caller.clone(), Confirm { freelancer: (true, choice), ..entry });
        proof {
            lemma_jobs_wf_after_insert(old(self)@.jobs, job_id@, job2@);
        }
        self.jobs.insert(job_id.clone(), job2);
        Ok(())
    }

    /// The creator ends a job whose counter-party has marked it complete:
    /// records the creator's completed flag, commits the 95%/5% payout split
    /// to the coordinator, credits both parties' reputation with the full
    /// budget, and sets the terminal ended flag — all before any external
    /// step runs, so a failed payout leaves the job permanently ended.
    pub fn end_jobs(&mut self, caller: &String, job_id: &String, freelancer_id: &String) -> (r:
        Result<(RegisterAction, RegisterAction), CoreError>)
        requires
            old(self).wf(),
            end_jobs_ok(old(self)@, caller@, job_id@, freelancer_id@) ==> {
                &&& sm_val(old(self)@.jobs, job_id@).budget * 95 <= u128::MAX
                &&& tally_of(old(self)@.points, freelancer_id@) + tally_of(
                    old(self)@.points,
                    sm_val(old(self)@.jobs, job_id@).creator_id,
                ) + 2 * sm_val(old(self)@.jobs, job_id@).budget <= u128::MAX
            },
        ensures
            final(self).wf(),
            match r {
                Err(e) => Some(e) == end_jobs_err(old(self)@, caller@, job_id@, freelancer_id@)
                    && final(self)@ == old(self)@,
                Ok((a, b)) => {
                    &&& end_jobs_ok(old(self)@, caller@, job_id@, freelancer_id@)
                    &&& final(self)@ == end_jobs_next(old(self)@, job_id@, freelancer_id@)
                    &&& a.op_id == old(self)@.settlements.len()
                    &&& a.recipient@ == freelancer_id@
                    &&& b.op_id == old(self)@.settlements.len() + 1
                    &&& b.recipient@ == old(self)@.owner_id
                },
            },
    {
        let job = match self.jobs.get(job_id) {
            Some(j) => j,
            None => {
                return Err(CoreError::NotFound);
            },
        };
        if job.is_end {
            return Err(CoreError::DuplicateAction);
        }
        if !(*caller == job.creator_id) {
            return Err(CoreError::Authorization);
        }
        proof {
            assert(self@.jobs[sm_idx(self@.jobs, job_id@)].1 == job@);
        }
        let entry = match job.freelancers.get(freelancer_id) {
            Some(e) => *e,
            None => {
                return Err(CoreError::NotFound);
            },
        };
        if !entry.freelancer.1 {
            return Err(CoreError::Validation);
        }
        let budget = job.budget;
        let creator = job.creator_id.clone();
        let mut job2 = job.dup();
        job2.freelancers.insert(
            freelancer_id.clone(),
            Confirm { creator: (entry.creator.0, true), ..entry },
        );
        job2.is_end = true;
        proof {
            lemma_jobs_wf_after_insert(old(self)@.jobs, job_id@, job2@);
        }
        self.jobs.insert(job_id.clone(), job2);
        let a = self.settlements.payout(freelancer_id.clone(), budget * 95 / 100);
        let cur_f: u128 = match self.points.get(freelancer_id) {
            Some(v) => *v,
            None => 0,
        };
        proof {
            if sm_has(self@.points, freelancer_id@) {
                assert(self@.points[sm_idx(self@.points, freelancer_id@)].1 == cur_f);
            }
            lemma_sm_bump_tallies(self@.points, freelancer_id@, budget);
        }
        self.points.insert(freelancer_id.clone(), cur_f + budget);
        let cur_c: u128 = match self.points.get(&creator) {
            Some(v) => *v,
            None => 0,
        };
        proof {
            if sm_has(self@.points, creator@) {
                assert(self@.points[sm_idx(self@.points, creator@)].1 == cur_c);
            }
            lemma_sm_bump_tallies(self@.points, creator@, budget);
        }
        self.points.insert(creator, cur_c + budget);
        let b = self.settlements.payout(self.owner_id.clone(), budget * 5 / 100);
        Ok((a, b))
    }

    /// The owner opens a dispute on a job both sides have accepted: hands
    /// back the poll request to delegate to the poll registry, with a tenth
    /// of the budget as the poll's budget. No state changes here; the poll
    /// id comes back later through `create_voting_helper`.
    pub fn create_voting(
        &mut self,
        caller: &String,
        job_id: &String,
        freelancer_id: &String,
        question: String,
        variants: Vec<(String, String)>,
        start: u64,
        end: u64,
    ) -> (r: Result<PollRequest, CoreError>)
        requires
            old(self).wf(),
        ensures
            final(self)@ == old(self)@,
            final(self).wf(),
            match r {
                Err(e) => Some(e) == create_voting_err(
                    old(self)@,
                    caller@,
                    job_id@,
                    freelancer_id@,
                ),
                Ok(req) => {
                    &&& create_voting_err(old(self)@, caller@, job_id@, freelancer_id@)
                        == None::<CoreError>
                    &&& req.question@ == question@
                    &&& req.variants@ == variants@
                    &&& req.start == start
                    &&& req.end == end
                    &&& req.budget == sm_val(old(self)@.jobs, job_id@).budget as int / 10
                },
            },
    {
        if !(*caller == self.owner_id) {
            return Err(CoreError::Authorization);
        }
        let job = match self.jobs.get(job_id) {
            Some(j) => j,
            None => {
                return Err(CoreError::NotFound);
            },
        };
        proof {
            assert(self@.jobs[sm_idx(self@.jobs, job_id@)].1 == job@);
        }
        let entry = match job.freelancers.get(freelancer_id) {
            Some(e) => *e,
            None => {
                return Err(CoreError::NotFound);
            },
        };
        if !entry.freelancer.0 {
            return Err(CoreError::Validation);
        }
        if !entry.creator.0 {
            return Err(CoreError::Validation);
        }
        Ok(PollRequest { question, variants, start, end, budget: job.budget / 10 })
    }

    /// Record the poll id the registry handed back for a dispute.
    pub fn create_voting_helper(&mut self, job_id: &String, poll_id: String) -> (r: Result<
        (),
        CoreError,
    >)
        requires
            old(self).wf(),
        ensures
            final(self).wf(),
            !sm_has(old(self)@.jobs, job_id@) ==> r == Err::<(), CoreError>(CoreError::NotFound)
                && final(self)@ == old(self)@,
            sm_has(old(self)@.jobs, job_id@) ==> r == Ok::<(), CoreError>(()) && final(self)@
                == (ContractV {
                jobs: sm_insert(
                    old(self)@.jobs,
                    job_id@,
                    JobsV { voting_id: poll_id@, ..sm_val(old(self)@.jobs, job_id@) },
                ),
                ..old(self)@
            }),
    {
        let job = match self.jobs.get(job_id) {
            Some(j) => j,
            None => {
                return Err(CoreError::NotFound);
            },
        };
        proof {
            assert(self@.jobs[sm_idx(self@.jobs, job_id@)].1 == job@);
        }
        let mut job2 = job.dup();
        job2.voting_id = poll_id;
        proof {
            lemma_jobs_wf_after_insert(old(self)@.jobs, job_id@, job2@);
        }
        self.jobs.insert(job_id.clone(), job2);
        Ok(())
    }

    /// The owner asks the poll registry for a dispute's winner: hands back
    /// the query with the follow-up arguments; the outcome is delivered to
    /// `end_voting_helper`.
    pub fn end_voting(
        &self,
        caller: &String,
        job_id: &String,
        freelancer_id: &String,
        poll_id: &String,
    ) -> (r: Result<DisputeQuery, CoreError>)
        ensures
            match r {
                Err(e) => e == CoreError::Authorization && caller@ != self@.owner_id,
                Ok(q) => caller@ == self@.owner_id && q.job_id@ == job_id@ && q.freelancer_id@
                    == freelancer_id@ && q.poll_id@ == poll_id@,
            },
    {
        if !(*caller == self.owner_id) {
            return Err(CoreError::Authorization);
        }
        Ok(DisputeQuery {
            job_id: job_id.clone(),
            freelancer_id: freelancer_id.clone(),
            poll_id: poll_id.clone(),
        })
    }

    /// Resolve a dispute with the winner the poll registry reported:
    /// `v1` pays the creator, `v2` the counter-party; the winner gets 90% of
    /// the budget, the poll operator 10%, the winner's reputation half the
    /// budget, and the job ends — only on this success path. A not-ready or
    /// failed query leaves the job unchanged, to be retried out of band.
    pub fn end_voting_helper(
        &mut self,
        job_id: &String,
        freelancer_id: &String,
        outcome: Option<String>,
    ) -> (r: Result<(RegisterAction, RegisterAction), CoreError>)
        requires
            old(self).wf(),
            (match outcome {
                Some(w) => resolve_ok(old(self)@, job_id@, w@),
                None => false,
            }) ==> {
                &&& sm_val(old(self)@.jobs, job_id@).budget * 9 <= u128::MAX
                &&& tally_of(
                    old(self)@.points,
                    sm_val(old(self)@.jobs, job_id@).creator_id,
                ) + sm_val(old(self)@.jobs, job_id@).budget <= u128::MAX
                &&& tally_of(old(self)@.points, freelancer_id@) + sm_val(
                    old(self)@.jobs,
                    job_id@,
                ).budget <= u128::MAX
            },
        ensures
            final(self).wf(),
            match r {
                Err(e) => Some(e) == resolve_err(old(self)@, job_id@, outcome_view(outcome))
                    && final(self)@ == old(self)@,
                Ok((a, b)) => {
                    &&& outcome matches Some(w) && resolve_ok(old(self)@, job_id@, w@)
                    &&& final(self)@ == resolve_next(
                        old(self)@,
                        job_id@,
                        freelancer_id@,
                        outcome_view(outcome)->Some_0,
                    )
                    &&& a.op_id == old(self)@.settlements.len()
                    &&& a.recipient@ == winner_account(
                        old(self)@,
                        job_id@,
                        freelancer_id@,
                        outcome_view(outcome)->Some_0,
                    )
                    &&& b.op_id == old(self)@.settlements.len() + 1
                    &&& b.recipient@ == old(self)@.voting_contract_id
                },
            },
    {
        let winner = match outcome {
            Some(w) => w,
            None => {
                return Err(CoreError::ExternalService);
            },
        };
        let job = match self.jobs.get(job_id) {
            Some(j) => j,
            None => {
                return Err(CoreError::NotFound);
            },
        };
        if job.is_end {
            return Err(CoreError::DuplicateAction);
        }
        proof {
            assert(self@.jobs[sm_idx(self@.jobs, job_id@)].1 == job@);
            assert(sm_distinct(self@.jobs[sm_idx(self@.jobs, job_id@)].1.freelancers));
        }
        let is_v1 = winner == "v1".to_owned();
        let is_v2 = winner == "v2".to_owned();
        if !is_v1 && !is_v2 {
            return Err(CoreError::Validation);
        }
        let winner_id = if is_v1 {
            job.creator_id.clone()
        } else {
            freelancer_id.clone()
        };
        let budget = job.budget;
        let mut job2 = job.dup();
        job2.is_end = true;
        proof {
            lemma_jobs_wf_after_insert(old(self)@.jobs, job_id@, job2@);
        }
        self.jobs.insert(job_id.clone(), job2);
        let a = self.settlements.payout(winner_id.clone(), budget * 9 / 10);
        let cur: u128 = match self.points.get(&winner_id) {
            Some(v) => *v,
            None => 0,
        };
        proof {
            if sm_has(self@.points, winner_id@) {
                assert(self@.points[sm_idx(self@.points, winner_id@)].1 == cur);
            }
            assert(budget / 2 <= budget) by (nonlinear_arith);
            lemma_sm_bump_tallies(self@.points, winner_id@, ((budget / 2) as u128));
        }
        self.points.insert(winner_id, cur + budget / 2);
        let b = self.settlements.payout(self.voting_contract_id.clone(), budget / 10);
        Ok((a, b))
    }
}

/// Why ending a job is rejected, in the order the checks run; `None` means
/// the job ends.
pub open spec fn end_jobs_err(
    c: ContractV,
    caller: Seq<char>,
    job_id: Seq<char>,
    freelancer_id: Seq<char>,
) -> Option<CoreError> {
    if !sm_has(c.jobs, job_id) {
        Some(CoreError::NotFound)
    } else if sm_val(c.jobs, job_id).is_end {
        Some(CoreError::DuplicateAction)
    } else if sm_val(c.jobs, job_id).creator_id != caller {
        Some(CoreError::Authorization)
    } else if !sm_has(sm_val(c.jobs, job_id).freelancers, freelancer_id) {
        Some(CoreError::NotFound)
    } else if !sm_val(sm_val(c.jobs, job_id).freelancers, freelancer_id).freelancer.1 {
        Some(CoreError::Validation)
    } else {
        None
    }
}

/// A normal settlement is accepted: the job exists and is not ended, the
/// caller is its creator, and the named counter-party has marked the work
/// complete.
pub open spec fn end_jobs_ok(
    c: ContractV,
    caller: Seq<char>,
    job_id: Seq<char>,
    freelancer_id: Seq<char>,
) -> bool {
    end_jobs_err(c, caller, job_id, freelancer_id) == None::<CoreError>
}

/// The escrow after a normal settlement: the counter-party's entry gains
/// the creator's completed flag, the job ends, the 95%/5% split is pending
/// in the coordinator, and both parties' reputation grows by the budget.
pub open spec fn end_jobs_next(c: ContractV, job_id: Seq<char>, freelancer_id: Seq<char>)
    -> ContractV {
    let job = sm_val(c.jobs, job_id);
    let entry = sm_val(job.freelancers, freelancer_id);
    let job2 = JobsV {
        freelancers: sm_insert(
            job.freelancers,
            freelancer_id,
            Confirm { creator: (entry.creator.0, true), ..entry },
        ),
        is_end: true,
        ..job
    };
    ContractV {
        jobs: sm_insert(c.jobs, job_id, job2),
        points: sm_bump(sm_bump(c.points, freelancer_id, job.budget), job.creator_id, job.budget),
        settlements: issue_next(
            issue_next(c.settlements, freelancer_id, ((job.budget * 95) as u128 / 100)),
            c.owner_id,
            ((job.budget * 5) as u128 / 100),
        ),
        ..c
    }
}

/// Why opening a dispute is rejected, in the order the checks run.
pub open spec fn create_voting_err(
    c: ContractV,
    caller: Seq<char>,
    job_id: Seq<char>,
    freelancer_id: Seq<char>,
) -> Option<CoreError> {
    if caller != c.owner_id {
        Some(CoreError::Authorization)
    } else if !sm_has(c.jobs, job_id) {
        Some(CoreError::NotFound)
    } else if !sm_has(sm_val(c.jobs, job_id).freelancers, freelancer_id) {
        Some(CoreError::NotFound)
    } else if !sm_val(sm_val(c.jobs, job_id).freelancers, freelancer_id).freelancer.0 {
        Some(CoreError::Validation)
    } else if !sm_val(sm_val(c.jobs, job_id).freelancers, freelancer_id).creator.0 {
        Some(CoreError::Validation)
    } else {
        None
    }
}

/// The winner string as a plain value; `None` stands for a not-ready or
/// failed query.
pub open spec fn outcome_view(o: Option<String>) -> Option<Seq<char>> {
    match o {
        Some(s) => Some(s@),
        None => None,
    }
}

/// Why resolving a dispute is rejected, in the order the checks run.
pub open spec fn resolve_err(c: ContractV, job_id: Seq<char>, outcome: Option<Seq<char>>)
    -> Option<CoreError> {
    match outcome {
        None => Some(CoreError::ExternalService),
        Some(winner) => {
            if !sm_has(c.jobs, job_id) {
                Some(CoreError::NotFound)
            } else if sm_val(c.jobs, job_id).is_end {
                Some(CoreError::DuplicateAction)
            } else if winner != "v1"@ && winner != "v2"@ {
                Some(CoreError::Validation)
            } else {
                None
            }
        },
    }
}

/// A dispute resolution is accepted: the winner names one of the two
/// designated outcomes and the job exists and is not ended.
pub open spec fn resolve_ok(c: ContractV, job_id: Seq<char>, winner: Seq<char>) -> bool {
    resolve_err(c, job_id, Some(winner)) == None::<CoreError>
}

/// The account a dispute's winner maps to: `v1` is the job's creator, `v2`
/// the counter-party.
pub open spec fn winner_account(
    c: ContractV,
    job_id: Seq<char>,
    freelancer_id: Seq<char>,
    winner: Seq<char>,
) -> Seq<char> {
    if winner == "v1"@ {
        sm_val(c.jobs, job_id).creator_id
    } else {
        freelancer_id
    }
}

/// The escrow after a resolved dispute: the job ends, the winner's 90% and
/// the poll operator's 10% are pending in the coordinator, and the winner's
/// reputation grows by half the budget.
pub open spec fn resolve_next(
    c: ContractV,
    job_id: Seq<char>,
    freelancer_id: Seq<char>,
    winner: Seq<char>,
) -> ContractV {
    let job = sm_val(c.jobs, job_id);
    let wid = winner_account(c, job_id, freelancer_id, winner);
    ContractV {
        jobs: sm_insert(c.jobs, job_id, JobsV { is_end: true, ..job }),
        points: sm_bump(c.points, wid, ((job.budget / 2) as u128)),
        settlements: issue_next(
            issue_next(c.settlements, wid, ((job.budget * 9) as u128 / 10)),
            c.voting_contract_id,
            ((job.budget / 10) as u128),
        ),
        ..c
    }
}

/// A job's ended flag moves false to true at most once: after a successful
/// normal settlement the job is ended, and neither a second settlement nor
/// a dispute resolution can succeed on it.
pub proof fn lemma_end_is_terminal(
    c: ContractV,
    caller: Seq<char>,
    job_id: Seq<char>,
    freelancer_id: Seq<char>,
)
    requires
        contract_wf(c),
        end_jobs_ok(c, caller, job_id, freelancer_id),
    ensures
        sm_val(end_jobs_next(c, job_id, freelancer_id).jobs, job_id).is_end,
        forall|c2: Seq<char>, f2: Seq<char>|
            !end_jobs_ok(end_jobs_next(c, job_id, freelancer_id), c2, job_id, f2),
        forall|w2: Seq<char>| !resolve_ok(end_jobs_next(c, job_id, freelancer_id), job_id, w2),
{
    let job = sm_val(c.jobs, job_id);
    let entry = sm_val(job.freelancers, freelancer_id);
    let job2 = JobsV {
        freelancers: sm_insert(
            job.freelancers,
            freelancer_id,
            Confirm { creator: (entry.creator.0, true), ..entry },
        ),
        is_end: true,
        ..job
    };
    lemma_sm_insert(c.jobs, job_id, job2);
    let n = end_jobs_next(c, job_id, freelancer_id);
    assert(sm_get(n.jobs, job_id) == Some(job2));
    assert(sm_val(n.jobs, job_id) == job2);
}

/// The mirror of `lemma_end_is_terminal` for the dispute path: after a
/// successful resolution the job is ended, and neither a second resolution
/// nor a normal settlement can succeed on it.
pub proof fn lemma_resolve_is_terminal(
    c: ContractV,
    job_id: Seq<char>,
    freelancer_id: Seq<char>,
    winner: Seq<char>,
)
    requires
        contract_wf(c),
        resolve_ok(c, job_id, winner),
    ensures
        sm_val(resolve_next(c, job_id, freelancer_id, winner).jobs, job_id).is_end,
        forall|c2: Seq<char>, f2: Seq<char>|
            !end_jobs_ok(resolve_next(c, job_id, freelancer_id, winner), c2, job_id, f2),
        forall|w2: Seq<char>|
            !resolve_ok(resolve_next(c, job_id, freelancer_id, winner), job_id, w2),
{
    let job = sm_val(c.jobs, job_id);
    let job2 = JobsV { is_end: true, ..job };
    lemma_sm_insert(c.jobs, job_id, job2);
    let n = resolve_next(c, job_id, freelancer_id, winner);
    assert(sm_get(n.jobs, job_id) == Some(job2));
    assert(sm_val(n.jobs, job_id) == job2);
}

/// Why starting a job is rejected, in the order the checks run.
pub open spec fn start_jobs_err(
    c: ContractV,
    caller: Seq<char>,
    job_id: Seq<char>,
    freelancer_id: Seq<char>,
) -> Option<CoreError> {
    if !sm_has(c.jobs, job_id) {
        Some(CoreError::NotFound)
    } else if sm_val(c.jobs, job_id).creator_id != caller {
        Some(CoreError::Authorization)
    } else if !sm_has(sm_val(c.jobs, job_id).freelancers, freelancer_id) {
        Some(CoreError::NotFound)
    } else if !sm_val(sm_val(c.jobs, job_id).freelancers, freelancer_id).freelancer.0 {
        Some(CoreError::Validation)
    } else if sm_val(c.jobs, job_id).is_start {
        Some(CoreError::DuplicateAction)
    } else {
        None
    }
}

/// Why marking completion is rejected, in the order the checks run.
pub open spec fn complete_jobs_err(c: ContractV, caller: Seq<char>, job_id: Seq<char>) -> Option<
    CoreError,
> {
    if !sm_has(c.jobs, job_id) {
        Some(CoreError::NotFound)
    } else if !sm_has(sm_val(c.jobs, job_id).freelancers, caller) {
        Some(CoreError::NotFound)
    } else if !sm_val(sm_val(c.jobs, job_id).freelancers, caller).creator.0 {
        Some(CoreError::Authorization)
    } else {
        None
    }
}

} // verus!
