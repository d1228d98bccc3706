use escrow_voting::jobs::Contract;
use escrow_voting::settle::PayoutPhase;
use escrow_voting::CoreError;

fn s(x: &str) -> String {
    x.to_string()
}

fn fresh() -> Contract {
    Contract::new(s("owner"), s("ft"), s("voting"))
}

/// A job with budget 100 created by `carol`, claimed by `frank` and started.
fn running_job(c: &mut Contract) -> String {
    let id = c.create_jobs(&s("carol"), 100, s("job-1")).unwrap();
    c.get_jobs(&s("frank"), &id).unwrap();
    c.start_jobs(&s("carol"), &id, &s("frank")).unwrap();
    id
}

#[test]
fn create_requires_positive_budget() {
    let mut c = fresh();
    assert_eq!(c.create_jobs(&s("carol"), 0, s("job-1")), Err(CoreError::Validation));
    assert_eq!(c.create_jobs(&s("carol"), 100, s("job-1")), Ok(s("job-1")));
    let j = c.show_jobs(&s("job-1")).unwrap();
    assert_eq!(j.creator_id, "carol");
    assert_eq!(j.budget, 100);
    assert!(!j.is_start && !j.is_end);
    assert_eq!(j.voting_id, "");
    assert!(c.show_jobs(&s("nope")).is_none());
    assert_eq!(c.get_list_jobs().len(), 1);
}

#[test]
fn claim_and_start_lifecycle() {
    let mut c = fresh();
    let id = c.create_jobs(&s("carol"), 100, s("job-1")).unwrap();
    assert_eq!(c.get_jobs(&s("frank"), &s("nope")), Err(CoreError::NotFound));
    assert_eq!(c.get_jobs(&s("frank"), &id), Ok(()));
    // Starting demands the creator, a claimed counter-party, a fresh job.
    assert_eq!(c.start_jobs(&s("frank"), &id, &s("frank")), Err(CoreError::Authorization));
    assert_eq!(c.start_jobs(&s("carol"), &id, &s("nobody")), Err(CoreError::NotFound));
    assert_eq!(c.start_jobs(&s("carol"), &id, &s("frank")), Ok(()));
    assert!(c.show_jobs(&id).unwrap().is_start);
    // A claim after the start is rejected; so is a second start.
    assert_eq!(c.get_jobs(&s("grace"), &id), Err(CoreError::Validation));
    assert_eq!(c.start_jobs(&s("carol"), &id, &s("frank")), Err(CoreError::DuplicateAction));
}

#[test]
fn complete_requires_creator_acceptance() {
    let mut c = fresh();
    let id = c.create_jobs(&s("carol"), 100, s("job-1")).unwrap();
    c.get_jobs(&s("frank"), &id).unwrap();
    // Before the creator accepts, the counter-party may not mark completion.
    assert_eq!(c.complete_jobs(&s("frank"), &id, true), Err(CoreError::Authorization));
    c.start_jobs(&s("carol"), &id, &s("frank")).unwrap();
    assert_eq!(c.complete_jobs(&s("frank"), &id, true), Ok(()));
    assert_eq!(c.complete_jobs(&s("nobody"), &id, true), Err(CoreError::NotFound));
}

#[test]
fn scenario_normal_settlement_splits_and_credits() {
    // Budget 100: the counter-party claims, the creator starts, the
    // counter-party marks complete, the creator ends. The payouts are 95 and
    // 5, and both parties' reputation grows by the full budget.
    let mut c = fresh();
    let id = running_job(&mut c);
    assert_eq!(c.complete_jobs(&s("frank"), &id, true), Ok(()));
    let (a, b) = c.end_jobs(&s("carol"), &id, &s("frank")).unwrap();
    assert_eq!(a.recipient, "frank");
    assert_eq!(b.recipient, "owner");
    assert_eq!(c.settlement_count(), 2);
    let op_a = c.settlement_at(a.op_id).unwrap();
    assert_eq!(op_a.amount, 95);
    assert_eq!(op_a.phase, PayoutPhase::Registering);
    let op_b = c.settlement_at(b.op_id).unwrap();
    assert_eq!(op_b.amount, 5);
    assert_eq!(c.points_of(&s("frank")), 100);
    assert_eq!(c.points_of(&s("carol")), 100);
    assert!(c.show_jobs(&id).unwrap().is_end);
}

#[test]
fn end_jobs_errors_in_order() {
    let mut c = fresh();
    let id = running_job(&mut c);
    assert_eq!(c.end_jobs(&s("carol"), &s("nope"), &s("frank")).err(), Some(CoreError::NotFound));
    assert_eq!(c.end_jobs(&s("mallory"), &id, &s("frank")).err(), Some(CoreError::Authorization));
    assert_eq!(c.end_jobs(&s("carol"), &id, &s("nobody")).err(), Some(CoreError::NotFound));
    // The counter-party has not marked the work complete yet.
    assert_eq!(c.end_jobs(&s("carol"), &id, &s("frank")).err(), Some(CoreError::Validation));
    c.complete_jobs(&s("frank"), &id, true).unwrap();
    assert!(c.end_jobs(&s("carol"), &id, &s("frank")).is_ok());
    // The ended flag is terminal: a second settlement is rejected.
    assert_eq!(c.end_jobs(&s("carol"), &id, &s("frank")).err(), Some(CoreError::DuplicateAction));
}

#[test]
fn ended_flag_set_once_across_both_paths() {
    // end and dispute resolution cannot both succeed on one job.
    let mut c = fresh();
    let id = running_job(&mut c);
    c.complete_jobs(&s("frank"), &id, true).unwrap();
    c.end_jobs(&s("carol"), &id, &s("frank")).unwrap();
    assert_eq!(
        c.end_voting_helper(&id, &s("frank"), Some(s("v2"))).err(),
        Some(CoreError::DuplicateAction)
    );
    // And the other way round on a second job.
    let id2 = c.create_jobs(&s("carol"), 100, s("job-2")).unwrap();
    c.get_jobs(&s("frank"), &id2).unwrap();
    c.start_jobs(&s("carol"), &id2, &s("frank")).unwrap();
    c.complete_jobs(&s("frank"), &id2, true).unwrap();
    c.end_voting_helper(&id2, &s("frank"), Some(s("v1"))).unwrap();
    assert_eq!(c.end_jobs(&s("carol"), &id2, &s("frank")).err(), Some(CoreError::DuplicateAction));
}

#[test]
fn dispute_flow() {
    let mut c = fresh();
    let id = running_job(&mut c);
    // Only the owner opens a dispute; both sides must have accepted.
    assert_eq!(
        c.create_voting(&s("carol"), &id, &s("frank"), s("q"), vec![], 1, 2)
            .err(),
        Some(CoreError::Authorization)
    );
    let req = c
        .create_voting(&s("owner"), &id, &s("frank"), s("who is right?"), vec![], 1, 2)
        .unwrap();
    assert_eq!(req.question, "who is right?");
    assert_eq!(req.budget, 10);
    // The poll id comes back asynchronously and is recorded on the job.
    assert_eq!(c.create_voting_helper(&id, s("poll-77")), Ok(()));
    assert_eq!(c.show_jobs(&id).unwrap().voting_id, "poll-77");
    // The owner asks for the winner.
    let q = c.end_voting(&s("owner"), &id, &s("frank"), &s("poll-77")).unwrap();
    assert_eq!(q.poll_id, "poll-77");
    assert_eq!(
        c.end_voting(&s("mallory"), &id, &s("frank"), &s("poll-77")).err(),
        Some(CoreError::Authorization)
    );
    // A not-ready query changes nothing; the job can be resolved later.
    assert_eq!(c.end_voting_helper(&id, &s("frank"), None).err(), Some(CoreError::ExternalService));
    assert!(!c.show_jobs(&id).unwrap().is_end);
    // An unknown outcome changes nothing either.
    assert_eq!(
        c.end_voting_helper(&id, &s("frank"), Some(s("v3"))).err(),
        Some(CoreError::Validation)
    );
    // The counter-party wins: 90 to the winner, 10 to the poll operator,
    // half the budget as reputation.
    let (a, b) = c.end_voting_helper(&id, &s("frank"), Some(s("v2"))).unwrap();
    assert_eq!(a.recipient, "frank");
    assert_eq!(c.settlement_at(a.op_id).unwrap().amount, 90);
    assert_eq!(b.recipient, "voting");
    assert_eq!(c.settlement_at(b.op_id).unwrap().amount, 10);
    assert_eq!(c.points_of(&s("frank")), 50);
    assert_eq!(c.points_of(&s("carol")), 0);
    assert!(c.show_jobs(&id).unwrap().is_end);
}

#[test]
fn dispute_winner_v1_pays_creator() {
    let mut c = fresh();
    let id = running_job(&mut c);
    let (a, _) = c.end_voting_helper(&id, &s("frank"), Some(s("v1"))).unwrap();
    assert_eq!(a.recipient, "carol");
    assert_eq!(c.points_of(&s("carol")), 50);
}

#[test]
fn stake_deposit_and_withdraw() {
    let mut c = fresh();
    assert_eq!(c.deposit(&s("dave"), 0), Err(CoreError::Validation));
    assert_eq!(c.deposit(&s("dave"), 100), Ok(()));
    assert_eq!(c.deposit(&s("erin"), 40), Ok(()));
    assert_eq!(c.get_total_staked(), 140);
    assert_eq!(c.balance_of(&s("dave")), 100);
    // More than the balance is rejected untouched.
    assert_eq!(c.withdraw(&s("dave"), 101).err(), Some(CoreError::Validation));
    assert_eq!(c.get_total_staked(), 140);
    let reg = c.withdraw(&s("dave"), 30).unwrap();
    assert_eq!(reg.recipient, "dave");
    assert_eq!(c.balance_of(&s("dave")), 70);
    assert_eq!(c.get_total_staked(), 110);
    let op = c.settlement_at(reg.op_id).unwrap();
    assert_eq!(op.amount, 30);
    assert_eq!(op.phase, PayoutPhase::Registering);
    // An unknown account holds zero.
    assert_eq!(c.withdraw(&s("nobody"), 1).err(), Some(CoreError::Validation));
}

#[test]
fn scenario_failed_registration_leaves_job_ended() {
    // The job ends before the payout chain runs; a failed registration
    // means no transfer is ever issued, yet the job stays ended.
    let mut c = fresh();
    let id = running_job(&mut c);
    c.complete_jobs(&s("frank"), &id, true).unwrap();
    let (a, _) = c.end_jobs(&s("carol"), &id, &s("frank")).unwrap();
    let follow_up = c.on_register_result(a.op_id, false).unwrap();
    assert!(follow_up.is_none());
    assert_eq!(c.settlement_at(a.op_id).unwrap().phase, PayoutPhase::Failed);
    assert!(c.show_jobs(&id).unwrap().is_end);
    assert_eq!(c.end_jobs(&s("carol"), &id, &s("frank")).err(), Some(CoreError::DuplicateAction));
}

#[test]
fn escrow_owner_administration() {
    let mut c = fresh();
    assert_eq!(c.transfer_owner(&s("mallory"), s("mallory")), Err(CoreError::Authorization));
    assert_eq!(c.transfer_owner(&s("owner"), s("owner2")), Ok(()));
    assert_eq!(c.change_ft_contract_id(&s("owner2"), s("ft2")), Ok(()));
    assert_eq!(c.change_voting_contract_id(&s("owner2"), s("voting2")), Ok(()));
}
