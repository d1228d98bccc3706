//! The poll registry and vote tally: poll storage, stake-weighted vote
//! recording, winner resolution and reward claiming.
//!
//! A poll is a question with an ordered list of options, a window
//! `[start, end)` and a fixed budget; its results hold the tally (option to
//! accumulated weight), the voter registry (voter to `VotedDetail`) and the
//! total voted stake. Winner resolution compares the two designated option
//! identifiers `v1` and `v2`; an exact tie favours `v2`. A claimed reward is
//! `floor(budget * weight / winning tally)`; the record is marked claimed
//! before the asynchronous transfer is issued, so a failed transfer leaves
//! it permanently claimed.

use vstd::prelude::*;
use crate::CoreError;
use crate::smap::{SMap, Dup, sm_has, sm_idx, sm_get, sm_val, sm_distinct, sm_insert,
    lemma_sm_insert, lemma_sm_insert_entries};
use crate::settle::{SettlementCoordinator, PendingPayout, PendingPayoutV, RegisterAction,
    TransferAction, issue_next, register_result_ok, after_register_result, transfer_result_ok,
    after_transfer_result};

verus! {

/// One option a poll offers.
pub struct VotingOption {
    pub option_id: String,
    pub message: String,
}

/// Abstraction of `VotingOption`.
pub struct VotingOptionV {
    pub option_id: Seq<char>,
    pub message: Seq<char>,
}

impl View for VotingOption {
    type V = VotingOptionV;

    open spec fn view(&self) -> VotingOptionV {
        VotingOptionV { option_id: self.option_id@, message: self.message@ }
    }
}

impl Dup for VotingOption {
    fn dup(&self) -> (r: Self)
        ensures
            r@ == self@,
    {
        VotingOption { option_id: self.option_id.clone(), message: self.message.clone() }
    }
}

/// A voter's recorded option, weight and claim status.
pub struct VotedDetail {
    pub option_id: String,
    pub quantity: u128,
    pub is_claimed: bool,
}

/// Abstraction of `VotedDetail`.
pub struct VotedDetailV {
    pub option_id: Seq<char>,
    pub quantity: u128,
    pub is_claimed: bool,
}

impl View for VotedDetail {
    type V = VotedDetailV;

    open spec fn view(&self) -> VotedDetailV {
        VotedDetailV {
            option_id: self.option_id@,
            quantity: self.quantity,
            is_claimed: self.is_claimed,
        }
    }
}

impl Dup for VotedDetail {
    fn dup(&self) -> (r: Self)
        ensures
            r@ == self@,
    {
        VotedDetail {
            option_id: self.option_id.clone(),
            quantity: self.quantity,
            is_claimed: self.is_claimed,
        }
    }
}

/// A poll: creator, generated id, question, ordered options, voting window
/// `[start, end)` and fixed budget.
pub struct VotingOptions {
    pub creator: String,
    pub poll_id: String,
    pub question: String,
    pub variants: Vec<VotingOption>,
    pub start: u64,
    pub end: u64,
    pub budget: u128,
}

/// Abstraction of a poll.
pub struct VotingOptionsV {
    pub creator: Seq<char>,
    pub poll_id: Seq<char>,
    pub question: Seq<char>,
    pub variants: Seq<VotingOptionV>,
    pub start: u64,
    pub end: u64,
    pub budget: u128,
}

impl View for VotingOptions {
    type V = VotingOptionsV;

    open spec fn view(&self) -> VotingOptionsV {
        VotingOptionsV {
            creator: self.creator@,
            poll_id: self.poll_id@,
            question: self.question@,
            variants: Seq::new(self.variants@.len(), |i: int| self.variants@[i]@),
            start: self.start,
            end: self.end,
            budget: self.budget,
        }
    }
}

impl Dup for VotingOptions {
    fn dup(&self) -> (r: Self)
        ensures
            r@ == self@,
    {
        let n = self.variants.len();
        let mut variants: Vec<VotingOption> = Vec::new();
        proof {
            assert(Seq::new(variants@.len(), |i: int| variants@[i]@) =~= self@.variants.take(0));
        }
        let mut i: usize = 0;
        while i < n
            invariant
                n == self.variants@.len(),
                0 <= i <= n,
                variants@.len() == i,
                Seq::new(variants@.len(), |j: int| variants@[j]@) == self@.variants.take(i as int),
            decreases n - i,
        {
            variants.push(self.variants[i].dup());
            proof {
                assert(Seq::new(variants@.len(), |j: int| variants@[j]@) =~= self@.variants.take(
                    i as int + 1,
                ));
            }
            i = i + 1;
        }
        let r = VotingOptions {
            creator: self.creator.clone(),
            poll_id: self.poll_id.clone(),
            question: self.question.clone(),
            variants,
            start: self.start,
            end: self.end,
            budget: self.budget,
        };
        proof {
            assert(r@.variants =~= self@.variants);
        }
        r
    }
}

/// Live results of one poll: the tally, the voter registry and the total
/// voted stake.
pub struct VotingResults {
    pub poll_id: String,
    pub variants: SMap<u128>,
    pub voted: SMap<VotedDetail>,
    pub total_voted_stake: u128,
}

/// Abstraction of a poll's results.
pub struct VotingResultsV {
    pub poll_id: Seq<char>,
    pub variants: Seq<(Seq<char>, u128)>,
    pub voted: Seq<(Seq<char>, VotedDetailV)>,
    pub total_voted_stake: u128,
}

impl View for VotingResults {
    type V = VotingResultsV;

    open spec fn view(&self) -> VotingResultsV {
        VotingResultsV {
            poll_id: self.poll_id@,
            variants: self.variants@,
            voted: self.voted@,
            total_voted_stake: self.total_voted_stake,
        }
    }
}

/// A poll together with its results, as the read operations hand them out.
pub struct VotingStats {
    pub poll: VotingOptions,
    pub results: VotingResults,
}

/// The tally's keys and the voter registry's keys are each distinct.
pub open spec fn results_wf(r: VotingResultsV) -> bool {
    sm_distinct(r.variants) && sm_distinct(r.voted)
}

/// Empty results for a fresh poll.
pub open spec fn empty_results(poll_id: Seq<char>) -> VotingResultsV {
    VotingResultsV {
        poll_id,
        variants: Seq::empty(),
        voted: Seq::empty(),
        total_voted_stake: 0,
    }
}

/// The weight accumulated on an option; an absent option counts as zero.
pub open spec fn tally_of(variants: Seq<(Seq<char>, u128)>, k: Seq<char>) -> u128 {
    match sm_get(variants, k) {
        Some(v) => v,
        None => 0,
    }
}

/// The resolved winner of a poll: the designated option `v1` wins on a
/// strictly greater tally, otherwise `v2` wins — an exact tie favours `v2`.
/// A pure function of the stored tallies.
pub open spec fn winner_of(variants: Seq<(Seq<char>, u128)>) -> Seq<char> {
    if tally_of(variants, "v1"@) > tally_of(variants, "v2"@) {
        "v1"@
    } else {
        "v2"@
    }
}

/// The poll registry and vote tally, with the settlement coordinator its
/// reward claims drive.
pub struct Voting {
    owner_id: String,
    polls: SMap<VotingOptions>,
    results: SMap<VotingResults>,
    ft_contract_id: String,
    ve_ft_contract_id: String,
    settlements: SettlementCoordinator,
}

/// Abstraction of the whole registry.
pub struct VotingV {
    pub owner_id: Seq<char>,
    pub polls: Seq<(Seq<char>, VotingOptionsV)>,
    pub results: Seq<(Seq<char>, VotingResultsV)>,
    pub ft_contract_id: Seq<char>,
    pub ve_ft_contract_id: Seq<char>,
    pub settlements: Seq<PendingPayoutV>,
}

impl View for Voting {
    type V = VotingV;

    closed spec fn view(&self) -> VotingV {
        VotingV {
            owner_id: self.owner_id@,
            polls: self.polls@,
            results: self.results@,
            ft_contract_id: self.ft_contract_id@,
            ve_ft_contract_id: self.ve_ft_contract_id@,
            settlements: self.settlements@,
        }
    }
}

/// Well-formedness of the registry: all key sets distinct, every stored
/// result well-formed.
pub open spec fn voting_wf(v: VotingV) -> bool {
    &&& sm_distinct(v.polls)
    &&& sm_distinct(v.results)
    &&& forall|i: int| 0 <= i < v.results.len() ==> results_wf(#[trigger] v.results[i].1)
}

/// The base-58 text of a byte string, as the outside encoder produces it.
pub uninterp spec fn bs58_of(bytes: Seq<u8>) -> Seq<char>;

/// Relies on `bs58::encode(..).into_string()` with the default alphabet:
/// the base-58 text of the bytes, a deterministic function of the bytes
/// alone, never failing.
#[verifier::external_body]
fn bs58_encode(bytes: &Vec<u8>) -> (r: String)
    ensures
        r@ == bs58_of(bytes@),
{
    bs58::encode(bytes.as_slice()).into_string()
}

/// The view of an option list handed to `create_poll`.
pub open spec fn opts_view(vs: Seq<(String, String)>) -> Seq<VotingOptionV> {
    Seq::new(vs.len(), |i: int| VotingOptionV { option_id: vs[i].0@, message: vs[i].1@ })
}

impl Voting {
    /// All registries well-formed.
    pub open spec fn wf(&self) -> bool {
        voting_wf(self@)
    }

    pub fn new(owner_id: String, ft_contract_id: String, ve_ft_contract_id: String) -> (r: Self)
        ensures
            r.wf(),
            r@.owner_id == owner_id@,
            r@.ft_contract_id == ft_contract_id@,
            r@.ve_ft_contract_id == ve_ft_contract_id@,
            r@.polls == Seq::<(Seq<char>, VotingOptionsV)>::empty(),
            r@.results == Seq::<(Seq<char>, VotingResultsV)>::empty(),
            r@.settlements == Seq::<PendingPayoutV>::empty(),
    {
        Voting {
            owner_id,
            polls: SMap::new(),
            results: SMap::new(),
            ft_contract_id,
            ve_ft_contract_id,
            settlements: SettlementCoordinator::new(),
        }
    }

    /// Only the owner may hand ownership over.
    pub fn transfer_owner(&mut self, caller: &String, new_owner_id: String) -> (r: Result<
        (),
        CoreError,
    >)
        ensures
            caller@ == old(self)@.owner_id ==> r == Ok::<(), CoreError>(()) && final(self)@
                == (VotingV { owner_id: new_owner_id@, ..old(self)@ }),
            caller@ != old(self)@.owner_id ==> r == Err::<(), CoreError>(CoreError::Authorization)
                && final(self)@ == old(self)@,
    {
        if !(*caller == self.owner_id) {
            return Err(CoreError::Authorization);
        }
        self.owner_id = new_owner_id;
        Ok(())
    }

    /// Only the owner may point the registry at another ledger contract.
    pub fn change_ft_contract_id(&mut self, caller: &String, new_ft_contract_id: String) -> (r:
        Result<(), CoreError>)
        ensures
            caller@ == old(self)@.owner_id ==> r == Ok::<(), CoreError>(()) && final(self)@
                == (VotingV { ft_contract_id: new_ft_contract_id@, ..old(self)@ }),
            caller@ != old(self)@.owner_id ==> r == Err::<(), CoreError>(CoreError::Authorization)
                && final(self)@ == old(self)@,
    {
        if !(*caller == self.owner_id) {
            return Err(CoreError::Authorization);
        }
        self.ft_contract_id = new_ft_contract_id;
        Ok(())
    }

    /// Only the owner may point the registry at another staked-token
    /// contract (the source of voter weights).
    pub fn change_ve_ft_contract_id(&mut self, caller: &String, new_ve_ft_contract_id: String) -> (
        r: Result<(), CoreError>)
        ensures
            caller@ == old(self)@.owner_id ==> r == Ok::<(), CoreError>(()) && final(self)@
                == (VotingV { ve_ft_contract_id: new_ve_ft_contract_id@, ..old(self)@ }),
            caller@ != old(self)@.owner_id ==> r == Err::<(), CoreError>(CoreError::Authorization)
                && final(self)@ == old(self)@,
    {
        if !(*caller == self.owner_id) {
            return Err(CoreError::Authorization);
        }
        self.ve_ft_contract_id = new_ve_ft_contract_id;
        Ok(())
    }

    /// Create a poll with a window `[start, end)` and a fixed budget. The id
    /// is derived from the caller-supplied unpredictable randomness; empty
    /// results are stored alongside. No side effect on the ledger.
    pub fn create_poll(
        &mut self,
        caller: &String,
        question: String,
        variants: Vec<(String, String)>,
        start: u64,
        end: u64,
        budget: u128,
        entropy: &Vec<u8>,
    ) -> (r: Result<String, CoreError>)
        requires
            old(self).wf(),
        ensures
            final(self).wf(),
            start >= end ==> r == Err::<String, CoreError>(CoreError::Validation) && final(self)@
                == old(self)@,
            start < end ==> match r {
                Ok(id) => {
                    &&& id@ == bs58_of(entropy@)
                    &&& final(self)@ == (VotingV {
                        polls: sm_insert(
                            old(self)@.polls,
                            id@,
                            VotingOptionsV {
                                creator: caller@,
                                poll_id: id@,
                                question: question@,
                                variants: opts_view(variants@),
                                start,
                                end,
                                budget,
                            },
                        ),
                        results: sm_insert(old(self)@.results, id@, empty_results(id@)),
                        ..old(self)@
                    })
                },
                Err(_) => false,
            },
    {
        if start >= end {
            return Err(CoreError::Validation);
        }
        let poll_id = bs58_encode(entropy);
        let n = variants.len();
        let mut variants_vec: Vec<VotingOption> = Vec::new();
        proof {
            assert(Seq::new(variants_vec@.len(), |j: int| variants_vec@[j]@) =~= opts_view(
                variants@,
            ).take(0));
        }
        let mut i: usize = 0;
        while i < n
            invariant
                n == variants@.len(),
                0 <= i <= n,
                variants_vec@.len() == i,
                Seq::new(variants_vec@.len(), |j: int| variants_vec@[j]@) == opts_view(
                    variants@,
                ).take(i as int),
            decreases n - i,
        {
            variants_vec.push(
                VotingOption { option_id: variants[i].0.clone(), message: variants[i].1.clone() },
            );
            proof {
                assert(Seq::new(variants_vec@.len(), |j: int| variants_vec@[j]@) =~= opts_view(
                    variants@,
                ).take(i as int + 1));
            }
            i = i + 1;
        }
        let result = poll_id.clone();
        let poll = VotingOptions {
            creator: caller.clone(),
            poll_id: poll_id.clone(),
            question,
            variants: variants_vec,
            start,
            end,
            budget,
        };
        proof {
            assert(poll@.variants =~= opts_view(variants@));
            lemma_sm_insert_entries(self@.results, poll_id@, empty_results(poll_id@));
        }
        self.polls.insert(poll_id.clone(), poll);
        let fresh = VotingResults {
            poll_id,
            variants: SMap::new(),
            voted: SMap::new(),
            total_voted_stake: 0,
        };
        proof {
            assert(fresh@ =~~= empty_results(fresh.poll_id@));
        }
        self.results.insert(fresh_key(&result), fresh);
        Ok(result)
    }

    /// Pure read: the poll under an id, or nothing for an unknown id.
    pub fn show_poll(&self, poll_id: &String) -> (r: Option<VotingOptions>)
        requires
            self.wf(),
        ensures
            match r {
                Some(p) => sm_get(self@.polls, poll_id@) == Some(p@),
                None => !sm_has(self@.polls, poll_id@),
            },
    {
        match self.polls.get(poll_id) {
            Some(p) => Some(p.dup()),
            None => None,
        }
    }

    /// Pure read: a poll together with its results.
    pub fn show_results(&self, poll_id: &String) -> (r: Option<VotingStats>)
        requires
            self.wf(),
        ensures
            match r {
                Some(st) => sm_get(self@.polls, poll_id@) == Some(st.poll@) && sm_get(
                    self@.results,
                    poll_id@,
                ) == Some(st.results@),
                None => !sm_has(self@.polls, poll_id@) || !sm_has(self@.results, poll_id@),
            },
    {
        let poll = match self.polls.get(poll_id) {
            Some(p) => p,
            None => {
                return None;
            },
        };
        let results = match self.results.get(poll_id) {
            Some(rs) => rs,
            None => {
                return None;
            },
        };
        Some(VotingStats { poll: poll.dup(), results: duplicate_results(results) })
    }

    /// Pure read: every stored poll.
    pub fn show_list_voting(&self) -> (r: &SMap<VotingOptions>)
        ensures
            r@ == self@.polls,
    {
        &self.polls
    }

    /// The stored results once the window has passed: rejects while the poll
    /// is still open, is absent for an unknown id.
    pub fn end_poll(&self, poll_id: &String, now: u64) -> (r: Result<
        Option<VotingStats>,
        CoreError,
    >)
        requires
            self.wf(),
        ensures
            match r {
                Err(e) => e == CoreError::Validation && sm_has(self@.polls, poll_id@) && now
                    <= sm_val(self@.polls, poll_id@).end,
                Ok(None) => !sm_has(self@.polls, poll_id@) || (now > sm_val(
                    self@.polls,
                    poll_id@,
                ).end && !sm_has(self@.results, poll_id@)),
                Ok(Some(st)) => now > sm_val(self@.polls, poll_id@).end && sm_get(
                    self@.polls,
                    poll_id@,
                ) == Some(st.poll@) && sm_get(self@.results, poll_id@) == Some(st.results@),
            },
    {
        let poll = match self.polls.get(poll_id) {
            Some(p) => p,
            None => {
                return Ok(None);
            },
        };
        if !(now > poll.end) {
            return Err(CoreError::Validation);
        }
        let results = match self.results.get(poll_id) {
            Some(rs) => rs,
            None => {
                return Ok(None);
            },
        };
        Ok(Some(VotingStats { poll: poll.dup(), results: duplicate_results(results) }))
    }

    /// Resolve the winner once the window has passed: `v1` on a strictly
    /// greater tally, otherwise `v2`; `None` names an unknown poll. Rejects
    /// while the poll is still open. A pure function of the stored tallies.
    pub fn get_winner_voting(&self, poll_id: &String, now: u64) -> (r: Result<String, CoreError>)
        requires
            self.wf(),
        ensures
            match r {
                Err(e) => e == CoreError::Validation && sm_has(self@.polls, poll_id@) && now
                    <= sm_val(self@.polls, poll_id@).end,
                Ok(s) => {
                    &&& sm_has(self@.polls, poll_id@) ==> now > sm_val(self@.polls, poll_id@).end
                    &&& s@ == if !sm_has(self@.polls, poll_id@) || !sm_has(
                        self@.results,
                        poll_id@,
                    ) {
                        "None"@
                    } else {
                        winner_of(sm_val(self@.results, poll_id@).variants)
                    }
                },
            },
    {
        let poll = match self.polls.get(poll_id) {
            Some(p) => p,
            None => {
                return Ok("None".to_owned());
            },
        };
        if !(now > poll.end) {
            return Err(CoreError::Validation);
        }
        let results = match self.results.get(poll_id) {
            Some(rs) => rs,
            None => {
                return Ok("None".to_owned());
            },
        };
        let key1 = "v1".to_owned();
        let key2 = "v2".to_owned();
        let t1 = match results.variants.get(&key1) {
            Some(v) => *v,
            None => 0,
        };
        let t2 = match results.variants.get(&key2) {
            Some(v) => *v,
            None => 0,
        };
        if t1 > t2 {
            Ok(key1)
        } else {
            Ok(key2)
        }
    }

    /// How many payout operations the registry has committed.
    pub fn settlement_count(&self) -> (n: usize)
        ensures
            n == self@.settlements.len(),
    {
        self.settlements.op_count()
    }

    /// Read one pending payout operation.
    pub fn settlement_at(&self, op_id: usize) -> (r: Option<&PendingPayout>)
        ensures
            match r {
                Some(p) => op_id < self@.settlements.len() && p@ == self@.settlements[op_id as int],
                None => op_id >= self@.settlements.len(),
            },
    {
        self.settlements.op_at(op_id)
    }

    /// Deliver the outcome of a reward payout's registration step.
    pub fn on_register_result(&mut self, op_id: usize, ok: bool) -> (r: Result<
        Option<TransferAction>,
        CoreError,
    >)
        requires
            old(self).wf(),
        ensures
            final(self).wf(),
            final(self)@ == (VotingV { settlements: final(self)@.settlements, ..old(self)@ }),
            register_result_ok(old(self)@.settlements, op_id as int) ==> {
                &&& final(self)@.settlements == after_register_result(
                    old(self)@.settlements,
                    op_id as int,
                    ok,
                )
                &&& match r {
                    Ok(Some(t)) => ok && t.op_id == op_id
                        && t.recipient@ == old(self)@.settlements[op_id as int].recipient
                        && t.amount == old(self)@.settlements[op_id as int].amount,
                    Ok(None) => !ok,
                    Err(_) => false,
                }
            },
            !register_result_ok(old(self)@.settlements, op_id as int) ==> final(self)@
                == old(self)@ && r == if op_id >= old(self)@.settlements.len() {
                Err::<Option<TransferAction>, CoreError>(CoreError::NotFound)
            } else {
                Err::<Option<TransferAction>, CoreError>(CoreError::DuplicateAction)
            },
    {
        self.settlements.on_register_result(op_id, ok)
    }

    /// Deliver the outcome of a reward payout's transfer step.
    pub fn on_transfer_result(&mut self, op_id: usize, ok: bool) -> (r: Result<(), CoreError>)
        requires
            old(self).wf(),
        ensures
            final(self).wf(),
            final(self)@ == (VotingV { settlements: final(self)@.settlements, ..old(self)@ }),
            transfer_result_ok(old(self)@.settlements, op_id as int) ==> {
                &&& final(self)@.settlements == after_transfer_result(
                    old(self)@.settlements,
                    op_id as int,
                    ok,
                )
                &&& r == Ok::<(), CoreError>(())
            },
            !transfer_result_ok(old(self)@.settlements, op_id as int) ==> final(self)@
                == old(self)@ && r == if op_id >= old(self)@.settlements.len() {
                Err::<(), CoreError>(CoreError::NotFound)
            } else {
                Err::<(), CoreError>(CoreError::DuplicateAction)
            },
    {
        self.settlements.on_transfer_result(op_id, ok)
    }

    /// Liveness probe; answers and changes nothing.
    pub fn ping(&self) -> (r: String)
        ensures
            r@ == "PONG"@,
    {
        "PONG".to_owned()
    }

    /// Only the creator may move the window; moving it after voting has
    /// started or ended is deliberately allowed.
    pub fn update_time_voting(&mut self, caller: &String, poll_id: &String, start: u64, end: u64)
        -> (r: Result<bool, CoreError>)
        requires
            old(self).wf(),
        ensures
            final(self).wf(),
            start >= end ==> r == Err::<bool, CoreError>(CoreError::Validation) && final(self)@
                == old(self)@,
            start < end ==> if !sm_has(old(self)@.polls, poll_id@) {
                r == Ok::<bool, CoreError>(false) && final(self)@ == old(self)@
            } else if caller@ != sm_val(old(self)@.polls, poll_id@).creator {
                r == Err::<bool, CoreError>(CoreError::Authorization) && final(self)@ == old(self)@
            } else {
                r == Ok::<bool, CoreError>(true) && final(self)@ == (VotingV {
                    polls: sm_insert(
                        old(self)@.polls,
                        poll_id@,
                        VotingOptionsV { start, end, ..sm_val(old(self)@.polls, poll_id@) },
                    ),
                    ..old(self)@
                })
            },
    {
        if start >= end {
            return Err(CoreError::Validation);
        }
        let poll = match self.polls.get(poll_id) {
            Some(p) => p,
            None => {
                return Ok(false);
            },
        };
        if !(*caller == poll.creator) {
            return Err(CoreError::Authorization);
        }
        let updated = VotingOptions { start, end, ..poll.dup() };
        self.polls.insert(fresh_key(poll_id), updated);
        Ok(true)
    }

    /// Record one vote, with the voter's weight supplied by the prior
    /// asynchronous balance query. The weight must be positive, the time
    /// must lie in `[start, end)`, and a voter votes at most once. Every
    /// selected option gains the weight (a voter's weight may deliberately
    /// back several options at once); the total voted stake grows by the
    /// weight exactly once.
    pub fn vote_helper(
        &mut self,
        caller: &String,
        poll_id: &String,
        votes: &Vec<(String, bool)>,
        staked_token: u128,
        now: u64,
    ) -> (r: Result<(), CoreError>)
        requires
            old(self).wf(),
            sm_has(old(self)@.results, poll_id@) ==> cast_fits(
                sm_val(old(self)@.results, poll_id@),
                votes@.len() as int,
                staked_token,
            ),
        ensures
            final(self).wf(),
            match r {
                Err(e) => Some(e) == vote_err(old(self)@, caller@, poll_id@, staked_token, now)
                    && final(self)@ == old(self)@,
                Ok(_) => vote_err(old(self)@, caller@, poll_id@, staked_token, now)
                    == None::<CoreError> && final(self)@ == (VotingV {
                    results: sm_insert(
                        old(self)@.results,
                        poll_id@,
                        cast_next(
                            sm_val(old(self)@.results, poll_id@),
                            caller@,
                            sels_view(votes@),
                            staked_token,
                        ),
                    ),
                    ..old(self)@
                }),
            },
    {
        if staked_token == 0 {
            return Err(CoreError::Validation);
        }
        let poll = match self.polls.get(poll_id) {
            Some(p) => p,
            None => {
                return Err(CoreError::NotFound);
            },
        };
        if !(poll.start <= now && now < poll.end) {
            return Err(CoreError::Validation);
        }
        let stored = match self.results.get(poll_id) {
            Some(x) => x,
            None => {
                return Err(CoreError::NotFound);
            },
        };
        proof {
            assert(self@.results[sm_idx(self@.results, poll_id@)].1 == stored@);
            assert(results_wf(stored@));
        }
        if stored.voted.contains_key(caller) {
            return Err(CoreError::DuplicateAction);
        }
        let mut res = duplicate_results(stored);
        let ghost vars0 = res.variants@;
        let ghost voted0 = res.voted@;
        let ghost total0 = res.total_voted_stake;
        let ghost pid0 = res.poll_id@;
        let n = votes.len();
        let mut i: usize = 0;
        while i < n
            invariant
                n == votes@.len(),
                0 <= i <= n,
                sm_distinct(res.voted@),
                res.voted@ == record_after(voted0, sels_view(votes@).take(i as int), caller@,
                    staked_token),
                res.variants@ == vars0,
                res.total_voted_stake == total0,
                res.poll_id@ == pid0,
            decreases n - i,
        {
            proof {
                let s = sels_view(votes@);
                assert(s.take(i as int + 1).drop_last() =~= s.take(i as int));
                assert(s.take(i as int + 1).last() == s[i as int]);
            }
            if votes[i].1 {
                res.voted.insert(
                    caller.clone(),
                    VotedDetail {
                        option_id: votes[i].0.clone(),
                        quantity: staked_token,
                        is_claimed: false,
                    },
                );
            }
            i = i + 1;
        }
        proof {
            assert(sels_view(votes@).take(n as int) =~= sels_view(votes@));
        }
        let mut i2: usize = 0;
        while i2 < n
            invariant
                n == votes@.len(),
                0 <= i2 <= n,
                staked_token <= u128::MAX,
                (n - i2) * staked_token <= u128::MAX,
                sm_distinct(res.variants@),
                res.variants@ == apply_selections(vars0, sels_view(votes@).take(i2 as int),
                    staked_token),
                forall|j: int| 0 <= j < res.variants@.len() ==> #[trigger] res.variants@[j].1 + (n
                    - i2) * staked_token <= u128::MAX,
                res.voted@ == record_after(voted0, sels_view(votes@), caller@, staked_token),
                res.total_voted_stake == total0,
                res.poll_id@ == pid0,
            decreases n - i2,
        {
            let ghost w = staked_token;
            proof {
                let s = sels_view(votes@);
                assert(s.take(i2 as int + 1).drop_last() =~= s.take(i2 as int));
                assert(s.take(i2 as int + 1).last() == s[i2 as int]);
                assert(((n - i2) - 1) * w == (n - i2) * w - w) by (nonlinear_arith);
                assert((n - i2) * w >= w) by (nonlinear_arith)
                    requires
                        i2 < n,
                        w >= 0,
                ;
            }
            if votes[i2].1 {
                let key = votes[i2].0.clone();
                let cur: u128 = match res.variants.get(&key) {
                    Some(v) => *v,
                    None => 0,
                };
                proof {
                    assert(cur == tally_of(res.variants@, key@));
                    if sm_has(res.variants@, key@) {
                        assert(res.variants@[sm_idx(res.variants@, key@)].1 == cur);
                    }
                    lemma_sm_insert_entries(res.variants@, key@, ((cur + w) as u128));
                }
                let newval = cur + staked_token;
                res.variants.insert(key, newval);
            }
            i2 = i2 + 1;
        }
        proof {
            assert(sels_view(votes@).take(n as int) =~= sels_view(votes@));
        }
        res.total_voted_stake = res.total_voted_stake + staked_token;
        proof {
            assert(res@ == cast_next(
                sm_val(old(self)@.results, poll_id@),
                caller@,
                sels_view(votes@),
                staked_token,
            ));
            lemma_sm_insert(old(self)@.results, poll_id@, res@);
            lemma_sm_insert_entries(old(self)@.results, poll_id@, res@);
        }
        self.results.insert(fresh_key(poll_id), res);
        Ok(())
    }

    /// Claim the reward owed to a winning voter: `floor(budget * weight /
    /// winning tally)`. The record is marked claimed and the payout
    /// committed to the settlement coordinator before any external step
    /// runs, so a failed transfer leaves the record permanently claimed.
    pub fn claim_reward(&mut self, caller: &String, poll_id: &String, now: u64) -> (r: Result<
        (u128, RegisterAction),
        CoreError,
    >)
        requires
            old(self).wf(),
            claim_err(old(self)@, caller@, poll_id@, now) == None::<CoreError> ==> sm_val(
                old(self)@.polls,
                poll_id@,
            ).budget * sm_val(sm_val(old(self)@.results, poll_id@).voted, caller@).quantity
                <= u128::MAX,
        ensures
            final(self).wf(),
            match r {
                Err(e) => Some(e) == claim_err(old(self)@, caller@, poll_id@, now) && final(self)@
                    == old(self)@,
                Ok((amount, reg)) => {
                    &&& claim_err(old(self)@, caller@, poll_id@, now) == None::<CoreError>
                    &&& amount == claim_amount_of(old(self)@, caller@, poll_id@)
                    &&& reg.op_id == old(self)@.settlements.len()
                    &&& reg.recipient@ == caller@
                    &&& final(self)@ == (VotingV {
                        results: sm_insert(
                            old(self)@.results,
                            poll_id@,
                            claim_next_results(sm_val(old(self)@.results, poll_id@), caller@),
                        ),
                        settlements: issue_next(old(self)@.settlements, caller@, amount),
                        ..old(self)@
                    })
                },
            },
    {
        let poll = match self.polls.get(poll_id) {
            Some(p) => p,
            None => {
                return Err(CoreError::NotFound);
            },
        };
        if !(now > poll.end) {
            return Err(CoreError::Validation);
        }
        let budget = poll.budget;
        let stored = match self.results.get(poll_id) {
            Some(x) => x,
            None => {
                return Err(CoreError::NotFound);
            },
        };
        proof {
            assert(self@.results[sm_idx(self@.results, poll_id@)].1 == stored@);
            assert(results_wf(stored@));
        }
        let record = match stored.voted.get(caller) {
            Some(x) => x,
            None => {
                return Err(CoreError::NotFound);
            },
        };
        let key1 = "v1".to_owned();
        let key2 = "v2".to_owned();
        let t1 = match stored.variants.get(&key1) {
            Some(v) => *v,
            None => 0,
        };
        let t2 = match stored.variants.get(&key2) {
            Some(v) => *v,
            None => 0,
        };
        let winner = if t1 > t2 {
            key1
        } else {
            key2
        };
        proof {
            assert(winner@ == winner_of(stored@.variants));
        }
        if !(record.option_id == winner) {
            return Err(CoreError::Authorization);
        }
        if record.is_claimed {
            return Err(CoreError::DuplicateAction);
        }
        let total_voted = match stored.variants.get(&winner) {
            Some(v) => *v,
            None => 0,
        };
        if total_voted == 0 {
            return Err(CoreError::Validation);
        }
        let quantity = record.quantity;
        let claim_amount = (budget * quantity) / total_voted;
        let mut res = duplicate_results(stored);
        proof {
            assert(res.voted@[sm_idx(res.voted@, caller@)].1 == record@);
            lemma_sm_insert(old(self)@.results, poll_id@, claim_next_results(stored@, caller@));
            lemma_sm_insert_entries(
                old(self)@.results,
                poll_id@,
                claim_next_results(stored@, caller@),
            );
            lemma_sm_insert(
                res.voted@,
                caller@,
                VotedDetailV { is_claimed: true, ..sm_val(res.voted@, caller@) },
            );
        }
        res.voted.insert(
            caller.clone(),
            VotedDetail { option_id: winner, quantity, is_claimed: true },
        );
        self.results.insert(fresh_key(poll_id), res);
        let reg = self.settlements.payout(caller.clone(), claim_amount);
        Ok((claim_amount, reg))
    }
}

/// Tally bump: add `w` to an option's accumulated weight (an absent option
/// starts from zero).
pub open spec fn sm_bump(m: Seq<(Seq<char>, u128)>, k: Seq<char>, w: u128) -> Seq<
    (Seq<char>, u128),
> {
    sm_insert(m, k, ((tally_of(m, k) + w) as u128))
}

/// The selections handed to a vote, as plain values.
pub open spec fn sels_view(votes: Seq<(String, bool)>) -> Seq<(Seq<char>, bool)> {
    Seq::new(votes.len(), |i: int| (votes[i].0@, votes[i].1))
}

/// How many selection flags are set.
pub open spec fn count_true(sels: Seq<(Seq<char>, bool)>) -> int
    decreases sels.len(),
{
    if sels.len() == 0 {
        0
    } else {
        count_true(sels.drop_last()) + if sels.last().1 {
            1int
        } else {
            0int
        }
    }
}

/// The tally after one vote: every selected option gains the voter's weight,
/// in selection order.
pub open spec fn apply_selections(
    t: Seq<(Seq<char>, u128)>,
    sels: Seq<(Seq<char>, bool)>,
    w: u128,
) -> Seq<(Seq<char>, u128)>
    decreases sels.len(),
{
    if sels.len() == 0 {
        t
    } else {
        let prev = apply_selections(t, sels.drop_last(), w);
        if sels.last().1 {
            sm_bump(prev, sels.last().0, w)
        } else {
            prev
        }
    }
}

/// The voter registry after one vote: each selected option in turn writes
/// the voter's record, so the surviving record names the last selected
/// option; with no selection no record is written.
pub open spec fn record_after(
    voted: Seq<(Seq<char>, VotedDetailV)>,
    sels: Seq<(Seq<char>, bool)>,
    voter: Seq<char>,
    w: u128,
) -> Seq<(Seq<char>, VotedDetailV)>
    decreases sels.len(),
{
    if sels.len() == 0 {
        voted
    } else {
        let prev = record_after(voted, sels.drop_last(), voter, w);
        if sels.last().1 {
            sm_insert(
                prev,
                voter,
                VotedDetailV { option_id: sels.last().0, quantity: w, is_claimed: false },
            )
        } else {
            prev
        }
    }
}

/// A poll's results after one accepted vote: the tally and the registry as
/// above, and the total voted stake up by the weight exactly once, however
/// many options were selected.
pub open spec fn cast_next(
    r: VotingResultsV,
    voter: Seq<char>,
    sels: Seq<(Seq<char>, bool)>,
    w: u128,
) -> VotingResultsV {
    VotingResultsV {
        poll_id: r.poll_id,
        variants: apply_selections(r.variants, sels, w),
        voted: record_after(r.voted, sels, voter, w),
        total_voted_stake: (r.total_voted_stake + w) as u128,
    }
}

/// Why a vote is rejected, in the order the checks run; `None` means it is
/// accepted.
pub open spec fn vote_err(
    v: VotingV,
    voter: Seq<char>,
    pid: Seq<char>,
    w: u128,
    now: u64,
) -> Option<CoreError> {
    if w == 0 {
        Some(CoreError::Validation)
    } else if !sm_has(v.polls, pid) {
        Some(CoreError::NotFound)
    } else if !(sm_val(v.polls, pid).start <= now && now < sm_val(v.polls, pid).end) {
        Some(CoreError::Validation)
    } else if !sm_has(v.results, pid) {
        Some(CoreError::NotFound)
    } else if sm_has(sm_val(v.results, pid).voted, voter) {
        Some(CoreError::DuplicateAction)
    } else {
        None
    }
}

/// Room in the counters for one more vote of weight `w` over `n` selections:
/// a machine limit, not a rule of the design.
pub open spec fn cast_fits(r: VotingResultsV, n: int, w: u128) -> bool {
    &&& r.total_voted_stake + w <= u128::MAX
    &&& n * w <= u128::MAX
    &&& forall|i: int| 0 <= i < r.variants.len() ==> #[trigger] r.variants[i].1 + n * w
        <= u128::MAX
}

/// Why a claim is rejected, in the order the checks run; `None` means the
/// reward is owed.
pub open spec fn claim_err(v: VotingV, caller: Seq<char>, pid: Seq<char>, now: u64) -> Option<
    CoreError,
> {
    if !sm_has(v.polls, pid) {
        Some(CoreError::NotFound)
    } else if now <= sm_val(v.polls, pid).end {
        Some(CoreError::Validation)
    } else if !sm_has(v.results, pid) {
        Some(CoreError::NotFound)
    } else if !sm_has(sm_val(v.results, pid).voted, caller) {
        Some(CoreError::NotFound)
    } else if sm_val(sm_val(v.results, pid).voted, caller).option_id != winner_of(
        sm_val(v.results, pid).variants,
    ) {
        Some(CoreError::Authorization)
    } else if sm_val(sm_val(v.results, pid).voted, caller).is_claimed {
        Some(CoreError::DuplicateAction)
    } else if tally_of(sm_val(v.results, pid).variants, winner_of(sm_val(v.results, pid).variants))
        == 0 {
        Some(CoreError::Validation)
    } else {
        None
    }
}

/// The reward owed to a winning voter: `floor(budget * weight / winning
/// tally)` with integer truncation — the rounding dust stays unspent.
pub open spec fn claim_amount_of(v: VotingV, caller: Seq<char>, pid: Seq<char>) -> int {
    (sm_val(v.polls, pid).budget * sm_val(sm_val(v.results, pid).voted, caller).quantity) as int
        / tally_of(sm_val(v.results, pid).variants, winner_of(sm_val(v.results, pid).variants))
        as int
}

/// A poll's results after one accepted claim: the caller's record is marked
/// claimed; tally and total are untouched.
pub open spec fn claim_next_results(r: VotingResultsV, caller: Seq<char>) -> VotingResultsV {
    VotingResultsV {
        voted: sm_insert(
            r.voted,
            caller,
            VotedDetailV { is_claimed: true, ..sm_val(r.voted, caller) },
        ),
        ..r
    }
}

/// A fresh key string equal to an existing one.
fn fresh_key(k: &String) -> (r: String)
    ensures
        r@ == k@,
{
    k.clone()
}

/// A deep copy of stored results.
fn duplicate_results(r: &VotingResults) -> (out: VotingResults)
    ensures
        out@ == r@,
{
    VotingResults {
        poll_id: r.poll_id.clone(),
        variants: r.variants.duplicate(),
        voted: r.voted.duplicate(),
        total_voted_stake: r.total_voted_stake,
    }
}

/// The total weight accumulated over all tally entries.
pub open spec fn sum_tally(m: Seq<(Seq<char>, u128)>) -> int
    decreases m.len(),
{
    if m.len() == 0 {
        0
    } else {
        sum_tally(m.drop_last()) + m.last().1
    }
}

/// The total weight over all voter records.
pub open spec fn sum_weights(v: Seq<(Seq<char>, VotedDetailV)>) -> int
    decreases v.len(),
{
    if v.len() == 0 {
        0
    } else {
        sum_weights(v.drop_last()) + v.last().1.quantity
    }
}

/// The total weight of the voter records naming one option.
pub open spec fn sum_weights_for(v: Seq<(Seq<char>, VotedDetailV)>, opt: Seq<char>) -> int
    decreases v.len(),
{
    if v.len() == 0 {
        0
    } else {
        sum_weights_for(v.drop_last(), opt) + if v.last().1.option_id == opt {
            v.last().1.quantity as int
        } else {
            0int
        }
    }
}

/// The stake balance of a poll's results: the tally total, the recorded
/// weights and the stored total voted stake all agree.
pub open spec fn stake_balanced(r: VotingResultsV) -> bool {
    sum_tally(r.variants) == r.total_voted_stake && sum_weights(r.voted) == r.total_voted_stake
}

/// Per-option balance: each option's tally is exactly the weight of the
/// records naming it.
pub open spec fn option_balanced(r: VotingResultsV) -> bool {
    forall|opt: Seq<char>| tally_of(r.variants, opt) == sum_weights_for(r.voted, opt)
}

/// Every entry of a weight map is at most the total, and the total is never
/// negative.
pub proof fn lemma_sum_tally_bounds(m: Seq<(Seq<char>, u128)>)
    ensures
        sum_tally(m) >= 0,
        forall|i: int| 0 <= i < m.len() ==> m[i].1 <= sum_tally(m),
    decreases m.len(),
{
    if m.len() > 0 {
        lemma_sum_tally_bounds(m.drop_last());
        assert forall|i: int| 0 <= i < m.len() implies m[i].1 <= sum_tally(m) by {
            if i < m.len() - 1 {
                assert(m.drop_last()[i] == m[i]);
            }
        }
    }
}

/// Updating one tally entry moves the total by the difference.
proof fn lemma_sum_tally_update(m: Seq<(Seq<char>, u128)>, i: int, p: (Seq<char>, u128))
    requires
        0 <= i < m.len(),
    ensures
        sum_tally(m.update(i, p)) == sum_tally(m) - m[i].1 + p.1,
    decreases m.len(),
{
    let u = m.update(i, p);
    if i == m.len() - 1 {
        assert(u.drop_last() =~= m.drop_last());
        assert(u.last() == p);
    } else {
        assert(u.drop_last() =~= m.drop_last().update(i, p));
        assert(u.last() == m.last());
        lemma_sum_tally_update(m.drop_last(), i, p);
    }
}

/// Binding a key to a new value moves the total by the difference with what
/// the key held before (an absent key held zero).
pub proof fn lemma_sm_insert_sum(m: Seq<(Seq<char>, u128)>, k: Seq<char>, v: u128)
    requires
        sm_distinct(m),
    ensures
        sum_tally(sm_insert(m, k, v)) == sum_tally(m) - tally_of(m, k) + v,
{
    if sm_has(m, k) {
        let i = sm_idx(m, k);
        assert(m[i].1 == tally_of(m, k));
        lemma_sum_tally_update(m, i, (k, v));
    } else {
        let b = sm_insert(m, k, v);
        assert(b == m.push((k, v)));
        assert(b.drop_last() =~= m);
        assert(tally_of(m, k) == 0);
    }
}

/// What a tally bump does to the totals and to each option's tally.
pub proof fn lemma_sm_bump_tallies(m: Seq<(Seq<char>, u128)>, k: Seq<char>, w: u128)
    requires
        sm_distinct(m),
        tally_of(m, k) + w <= u128::MAX,
    ensures
        sm_distinct(sm_bump(m, k, w)),
        sum_tally(sm_bump(m, k, w)) == sum_tally(m) + w,
        tally_of(sm_bump(m, k, w), k) == tally_of(m, k) + w,
        forall|k2: Seq<char>| k2 != k ==> tally_of(sm_bump(m, k, w), k2) == tally_of(m, k2),
{
    let nv = ((tally_of(m, k) + w) as u128);
    lemma_sm_insert(m, k, nv);
    if sm_has(m, k) {
        let i = sm_idx(m, k);
        assert(m[i].1 == tally_of(m, k));
        lemma_sum_tally_update(m, i, (k, nv));
    } else {
        let b = sm_bump(m, k, w);
        assert(b == m.push((k, nv)));
        assert(b.drop_last() =~= m);
        assert(b.last() == (k, nv));
        assert(tally_of(m, k) == 0);
    }
}

/// The single selected index of a single-choice ballot, and what the cast
/// does with it: the tally gains the weight on that option alone, and the
/// voter's fresh record names that option.
proof fn lemma_cast_single(
    t: Seq<(Seq<char>, u128)>,
    voted: Seq<(Seq<char>, VotedDetailV)>,
    sels: Seq<(Seq<char>, bool)>,
    voter: Seq<char>,
    w: u128,
)
    requires
        count_true(sels) == 1,
        sm_distinct(voted),
        !sm_has(voted, voter),
    ensures
        exists|si: int|
            #![auto]
            0 <= si < sels.len() && sels[si].1 && apply_selections(t, sels, w) == sm_bump(
                t,
                sels[si].0,
                w,
            ) && record_after(voted, sels, voter, w) == voted.push(
                (voter, VotedDetailV { option_id: sels[si].0, quantity: w, is_claimed: false }),
            ),
    decreases sels.len(),
{
    if sels.last().1 {
        assert(count_true(sels.drop_last()) == 0);
        lemma_apply_none(t, sels.drop_last(), w);
        lemma_record_none(voted, sels.drop_last(), voter, w);
        let d = VotedDetailV { option_id: sels.last().0, quantity: w, is_claimed: false };
        assert(record_after(voted, sels, voter, w) == sm_insert(voted, voter, d));
        assert(sm_insert(voted, voter, d) == voted.push((voter, d)));
        let si = sels.len() - 1;
        assert(0 <= si < sels.len() && sels[si].1 && apply_selections(t, sels, w) == sm_bump(
            t,
            sels[si].0,
            w,
        ) && record_after(voted, sels, voter, w) == voted.push(
            (voter, VotedDetailV { option_id: sels[si].0, quantity: w, is_claimed: false }),
        ));
    } else {
        assert(count_true(sels.drop_last()) == 1);
        lemma_cast_single(t, voted, sels.drop_last(), voter, w);
        let si = choose|si: int|
            #![auto]
            0 <= si < sels.drop_last().len() && sels.drop_last()[si].1 && apply_selections(
                t,
                sels.drop_last(),
                w,
            ) == sm_bump(t, sels.drop_last()[si].0, w) && record_after(
                voted,
                sels.drop_last(),
                voter,
                w,
            ) == voted.push(
                (
                    voter,
                    VotedDetailV {
                        option_id: sels.drop_last()[si].0,
                        quantity: w,
                        is_claimed: false,
                    },
                ),
            );
        assert(sels[si] == sels.drop_last()[si]);
        assert(0 <= si < sels.len() && sels[si].1 && apply_selections(t, sels, w) == sm_bump(
            t,
            sels[si].0,
            w,
        ) && record_after(voted, sels, voter, w) == voted.push(
            (voter, VotedDetailV { option_id: sels[si].0, quantity: w, is_claimed: false }),
        ));
    }
}

/// A count of flags is never negative.
proof fn lemma_count_true_nonneg(sels: Seq<(Seq<char>, bool)>)
    ensures
        count_true(sels) >= 0,
    decreases sels.len(),
{
    if sels.len() > 0 {
        lemma_count_true_nonneg(sels.drop_last());
    }
}

/// With no selected option the tally is untouched.
proof fn lemma_apply_none(t: Seq<(Seq<char>, u128)>, sels: Seq<(Seq<char>, bool)>, w: u128)
    requires
        count_true(sels) == 0,
    ensures
        apply_selections(t, sels, w) == t,
    decreases sels.len(),
{
    if sels.len() > 0 {
        lemma_count_true_nonneg(sels.drop_last());
        assert(count_true(sels.drop_last()) == 0);
        lemma_apply_none(t, sels.drop_last(), w);
    }
}

/// With no selected option no record is written.
proof fn lemma_record_none(
    voted: Seq<(Seq<char>, VotedDetailV)>,
    sels: Seq<(Seq<char>, bool)>,
    voter: Seq<char>,
    w: u128,
)
    requires
        count_true(sels) == 0,
    ensures
        record_after(voted, sels, voter, w) == voted,
    decreases sels.len(),
{
    if sels.len() > 0 {
        lemma_count_true_nonneg(sels.drop_last());
        assert(count_true(sels.drop_last()) == 0);
        lemma_record_none(voted, sels.drop_last(), voter, w);
    }
}

/// For any poll, the tally total equals the total of the recorded voter
/// weights, and both equal the stored total voted stake: one accepted
/// single-choice cast preserves the balance.
pub proof fn lemma_cast_preserves_stake_balance(
    r: VotingResultsV,
    voter: Seq<char>,
    sels: Seq<(Seq<char>, bool)>,
    w: u128,
)
    requires
        results_wf(r),
        stake_balanced(r),
        !sm_has(r.voted, voter),
        count_true(sels) == 1,
        cast_fits(r, sels.len() as int, w),
    ensures
        stake_balanced(cast_next(r, voter, sels, w)),
{
    lemma_cast_single(r.variants, r.voted, sels, voter, w);
    let si = choose|si: int|
        #![auto]
        0 <= si < sels.len() && sels[si].1 && apply_selections(r.variants, sels, w) == sm_bump(
            r.variants,
            sels[si].0,
            w,
        ) && record_after(r.voted, sels, voter, w) == r.voted.push(
            (voter, VotedDetailV { option_id: sels[si].0, quantity: w, is_claimed: false }),
        );
    let k = sels[si].0;
    assert(tally_of(r.variants, k) + w <= u128::MAX) by {
        assert(sels.len() >= 1);
        assert(sels.len() * w >= w) by (nonlinear_arith)
            requires
                sels.len() >= 1,
                w >= 0,
        ;
        if sm_has(r.variants, k) {
            assert(r.variants[sm_idx(r.variants, k)].1 + sels.len() * w <= u128::MAX);
        }
    }
    lemma_sm_bump_tallies(r.variants, k, w);
    let nv = record_after(r.voted, sels, voter, w);
    assert(nv.drop_last() =~= r.voted);
    assert(sum_weights(nv) == sum_weights(r.voted) + w);
}

/// Each option's tally is exactly the weight of the records naming it: one
/// accepted single-choice cast preserves the per-option balance, so the
/// winning tally is always the total weight of the winning voters' records.
pub proof fn lemma_cast_preserves_option_balance(
    r: VotingResultsV,
    voter: Seq<char>,
    sels: Seq<(Seq<char>, bool)>,
    w: u128,
)
    requires
        results_wf(r),
        option_balanced(r),
        !sm_has(r.voted, voter),
        count_true(sels) == 1,
        cast_fits(r, sels.len() as int, w),
    ensures
        option_balanced(cast_next(r, voter, sels, w)),
{
    lemma_cast_single(r.variants, r.voted, sels, voter, w);
    let si = choose|si: int|
        #![auto]
        0 <= si < sels.len() && sels[si].1 && apply_selections(r.variants, sels, w) == sm_bump(
            r.variants,
            sels[si].0,
            w,
        ) && record_after(r.voted, sels, voter, w) == r.voted.push(
            (voter, VotedDetailV { option_id: sels[si].0, quantity: w, is_claimed: false }),
        );
    let k = sels[si].0;
    assert(tally_of(r.variants, k) + w <= u128::MAX) by {
        assert(sels.len() * w >= w) by (nonlinear_arith)
            requires
                sels.len() >= 1,
                w >= 0,
        ;
        if sm_has(r.variants, k) {
            assert(r.variants[sm_idx(r.variants, k)].1 + sels.len() * w <= u128::MAX);
        }
    }
    lemma_sm_bump_tallies(r.variants, k, w);
    let nr = cast_next(r, voter, sels, w);
    assert forall|opt: Seq<char>| tally_of(nr.variants, opt) == sum_weights_for(
        nr.voted,
        opt,
    ) by {
        assert(nr.voted.drop_last() =~= r.voted);
        assert(sum_weights_for(nr.voted, opt) == sum_weights_for(r.voted, opt) + if opt == k {
            w as int
        } else {
            0int
        });
        if opt == k {
            assert(tally_of(nr.variants, opt) == tally_of(r.variants, opt) + w);
        } else {
            assert(tally_of(nr.variants, opt) == tally_of(r.variants, opt));
        }
    }
}

/// No voter has two records for the same poll: in a well-formed registry the
/// voter registry's keys are pairwise distinct.
pub proof fn lemma_no_duplicate_vote_records(v: VotingV, pid: Seq<char>)
    requires
        voting_wf(v),
        sm_has(v.results, pid),
    ensures
        forall|i: int, j: int|
            0 <= i < j < sm_val(v.results, pid).voted.len() ==> sm_val(v.results, pid).voted[i].0
                != sm_val(v.results, pid).voted[j].0,
{
    assert(results_wf(v.results[sm_idx(v.results, pid)].1));
}

/// Winner resolution is a pure, deterministic function of the two designated
/// tallies: two tally stores that agree on `v1` and `v2` resolve alike.
pub proof fn lemma_winner_deterministic(a: Seq<(Seq<char>, u128)>, b: Seq<(Seq<char>, u128)>)
    requires
        tally_of(a, "v1"@) == tally_of(b, "v1"@),
        tally_of(a, "v2"@) == tally_of(b, "v2"@),
    ensures
        winner_of(a) == winner_of(b),
{
}

/// An exact tie between the designated options favours the second one.
pub proof fn lemma_winner_tie(t: Seq<(Seq<char>, u128)>)
    requires
        tally_of(t, "v1"@) == tally_of(t, "v2"@),
    ensures
        winner_of(t) == "v2"@,
{
}

/// The total of a sequence of claim weights.
pub open spec fn sum_seq(ws: Seq<int>) -> int
    decreases ws.len(),
{
    if ws.len() == 0 {
        0
    } else {
        sum_seq(ws.drop_last()) + ws.last()
    }
}

/// The total paid out: each weight claims `floor(budget * weight / t)`.
pub open spec fn payout_sum(budget: int, t: int, ws: Seq<int>) -> int
    decreases ws.len(),
{
    if ws.len() == 0 {
        0
    } else {
        payout_sum(budget, t, ws.drop_last()) + (budget * ws.last()) / t
    }
}

/// Division by a positive divisor is subadditive over nonnegative numerators.
proof fn lemma_div_subadditive(a: int, b: int, t: int)
    requires
        a >= 0,
        b >= 0,
        t > 0,
    ensures
        a / t + b / t <= (a + b) / t,
{
    vstd::arithmetic::div_mod::lemma_fundamental_div_mod(a, t);
    vstd::arithmetic::div_mod::lemma_fundamental_div_mod(b, t);
    vstd::arithmetic::div_mod::lemma_remainder_lower(a, t);
    vstd::arithmetic::div_mod::lemma_remainder_lower(b, t);
    let q = a / t + b / t;
    assert(q * t <= a + b) by (nonlinear_arith)
        requires
            a == t * (a / t) + a % t,
            b == t * (b / t) + b % t,
            a % t >= 0,
            b % t >= 0,
            q == a / t + b / t,
    ;
    vstd::arithmetic::div_mod::lemma_div_is_ordered(q * t, a + b, t);
    vstd::arithmetic::div_mod::lemma_div_multiples_vanish(q, t);
}

/// The payouts never total more than `budget * sum(ws) / t`.
proof fn lemma_payout_sum_le(budget: int, t: int, ws: Seq<int>)
    requires
        budget >= 0,
        t > 0,
        forall|i: int| 0 <= i < ws.len() ==> ws[i] >= 0,
    ensures
        sum_seq(ws) >= 0,
        payout_sum(budget, t, ws) <= (budget * sum_seq(ws)) / t,
    decreases ws.len(),
{
    if ws.len() == 0 {
        assert((budget * 0) / t == 0) by {
            vstd::arithmetic::div_mod::lemma_div_multiples_vanish(0, t);
        }
    } else {
        let pre = ws.drop_last();
        let w = ws.last();
        lemma_payout_sum_le(budget, t, pre);
        assert(budget * sum_seq(pre) >= 0) by (nonlinear_arith)
            requires
                budget >= 0,
                sum_seq(pre) >= 0,
        ;
        assert(budget * w >= 0) by (nonlinear_arith)
            requires
                budget >= 0,
                w >= 0,
        ;
        lemma_div_subadditive(budget * sum_seq(pre), budget * w, t);
        assert(budget * sum_seq(pre) + budget * w == budget * sum_seq(ws)) by (nonlinear_arith)
            requires
                sum_seq(ws) == sum_seq(pre) + w,
        ;
    }
}

/// Each claim pays `floor(budget * weight / t)`; over any set of claimed
/// weights totalling at most the winning tally `t`, the payouts never exceed
/// the budget — the rounding dust stays unspent by design.
pub proof fn lemma_claim_payouts_bounded(budget: int, t: int, ws: Seq<int>)
    requires
        budget >= 0,
        t > 0,
        forall|i: int| 0 <= i < ws.len() ==> ws[i] >= 0,
        sum_seq(ws) <= t,
    ensures
        payout_sum(budget, t, ws) <= budget,
{
    lemma_payout_sum_le(budget, t, ws);
    assert(budget * sum_seq(ws) <= budget * t) by (nonlinear_arith)
        requires
            budget >= 0,
            sum_seq(ws) <= t,
    ;
    vstd::arithmetic::div_mod::lemma_div_is_ordered(budget * sum_seq(ws), budget * t, t);
    vstd::arithmetic::div_mod::lemma_div_multiples_vanish(budget, t);
    assert(budget * t == t * budget) by (nonlinear_arith);
}

} // verus!
