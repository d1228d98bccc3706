use escrow_voting::polls::{Voting, VotedDetail};
use escrow_voting::settle::PayoutPhase;
use escrow_voting::CoreError;

fn s(x: &str) -> String {
    x.to_string()
}

/// A poll with budget 1000 and window [100, 200), created by `alice`.
fn standard_poll(v: &mut Voting) -> String {
    let variants = vec![
        (s("v1"), s("yes")),
        (s("v2"), s("no")),
    ];
    v.create_poll(&s("alice"), s("go?"), variants, 100, 200, 1000, &vec![7u8, 3u8, 9u8])
        .unwrap()
}

fn fresh() -> Voting {
    Voting::new(s("owner"), s("ft"), s("veft"))
}

#[test]
fn poll_id_is_base58_of_entropy() {
    let mut v = fresh();
    // The id must be the base-58 text of the entropy, not the entropy itself.
    let id = v
        .create_poll(&s("alice"), s("q"), vec![], 1, 2, 0, &vec![0u8, 0u8])
        .unwrap();
    assert_eq!(id, "11");
    let input = vec![0x04u8, 0x30, 0x5e, 0x2b, 0x24, 0x73, 0xf0, 0x58];
    let id2 = v
        .create_poll(&s("alice"), s("q"), vec![], 1, 2, 0, &input)
        .unwrap();
    assert_eq!(id2, "he11owor1d");
    assert_eq!(id2, bs58::encode(&input).into_string());
}

#[test]
fn create_poll_rejects_bad_window() {
    let mut v = fresh();
    let r = v.create_poll(&s("alice"), s("q"), vec![], 200, 200, 10, &vec![1u8]);
    assert_eq!(r, Err(CoreError::Validation));
    let r2 = v.create_poll(&s("alice"), s("q"), vec![], 201, 200, 10, &vec![1u8]);
    assert_eq!(r2, Err(CoreError::Validation));
}

#[test]
fn show_poll_round_trip() {
    let mut v = fresh();
    let id = standard_poll(&mut v);
    let p = v.show_poll(&id).expect("stored poll");
    assert_eq!(p.creator, "alice");
    assert_eq!(p.poll_id, id);
    assert_eq!(p.question, "go?");
    assert_eq!(p.start, 100);
    assert_eq!(p.end, 200);
    assert_eq!(p.budget, 1000);
    assert_eq!(p.variants.len(), 2);
    assert_eq!(p.variants[0].option_id, "v1");
    assert_eq!(p.variants[1].message, "no");
    assert!(v.show_poll(&s("unknown")).is_none());
    assert_eq!(v.show_list_voting().len(), 1);
}

#[test]
fn scenario_weighted_vote_and_claims() {
    // Poll budget 1000, window [100, 200). X (weight 30) votes v1 at 150,
    // Y (weight 70) votes v2 at 160. At 201 the winner is v2; Y claims
    // floor(1000 * 70 / 70) = 1000; X's claim fails as the wrong side.
    let mut v = fresh();
    let id = standard_poll(&mut v);
    let vote_v1 = vec![(s("v1"), true), (s("v2"), false)];
    let vote_v2 = vec![(s("v1"), false), (s("v2"), true)];
    assert_eq!(v.vote_helper(&s("x"), &id, &vote_v1, 30, 150), Ok(()));
    assert_eq!(v.vote_helper(&s("y"), &id, &vote_v2, 70, 160), Ok(()));
    assert_eq!(v.get_winner_voting(&id, 201), Ok(s("v2")));
    let (amount, reg) = v.claim_reward(&s("y"), &id, 201).unwrap();
    assert_eq!(amount, 1000);
    assert_eq!(reg.op_id, 0);
    assert_eq!(reg.recipient, "y");
    assert_eq!(v.claim_reward(&s("x"), &id, 201).err(), Some(CoreError::Authorization));
}

#[test]
fn scenario_tie_favours_second_option() {
    // Tallies v1 = 50, v2 = 50: the winner is v2.
    let mut v = fresh();
    let id = standard_poll(&mut v);
    assert_eq!(v.vote_helper(&s("x"), &id, &vec![(s("v1"), true)], 50, 150), Ok(()));
    assert_eq!(v.vote_helper(&s("y"), &id, &vec![(s("v2"), true)], 50, 150), Ok(()));
    assert_eq!(v.get_winner_voting(&id, 201), Ok(s("v2")));
}

#[test]
fn winner_is_deterministic_and_pure() {
    let mut v = fresh();
    let id = standard_poll(&mut v);
    assert_eq!(v.vote_helper(&s("x"), &id, &vec![(s("v1"), true)], 60, 150), Ok(()));
    assert_eq!(v.vote_helper(&s("y"), &id, &vec![(s("v2"), true)], 40, 150), Ok(()));
    let first = v.get_winner_voting(&id, 201);
    let second = v.get_winner_voting(&id, 201);
    assert_eq!(first, Ok(s("v1")));
    assert_eq!(first, second);
    // Resolving is a read: the tallies are untouched.
    let st = v.show_results(&id).unwrap();
    assert_eq!(st.results.total_voted_stake, 100);
}

#[test]
fn winner_while_open_is_rejected_and_unknown_is_none() {
    let mut v = fresh();
    let id = standard_poll(&mut v);
    assert_eq!(v.get_winner_voting(&id, 200), Err(CoreError::Validation));
    assert_eq!(v.get_winner_voting(&s("unknown"), 201), Ok(s("None")));
    assert_eq!(v.end_poll(&id, 150).err(), Some(CoreError::Validation));
    assert!(matches!(v.end_poll(&s("unknown"), 201), Ok(None)));
    assert!(matches!(v.end_poll(&id, 201), Ok(Some(_))));
}

#[test]
fn scenario_duplicate_vote_rejected_tally_unchanged() {
    // The same voter casting twice fails with a duplicate-action error and
    // the tally stays as it was.
    let mut v = fresh();
    let id = standard_poll(&mut v);
    let ballot = vec![(s("v1"), true)];
    assert_eq!(v.vote_helper(&s("x"), &id, &ballot, 30, 150), Ok(()));
    assert_eq!(
        v.vote_helper(&s("x"), &id, &ballot, 30, 151),
        Err(CoreError::DuplicateAction)
    );
    let st = v.show_results(&id).unwrap();
    assert_eq!(st.results.total_voted_stake, 30);
    assert_eq!(st.results.variants.get(&s("v1")).copied(), Some(30));
    assert_eq!(st.results.voted.len(), 1);
}

#[test]
fn vote_window_and_weight_checks() {
    let mut v = fresh();
    let id = standard_poll(&mut v);
    let ballot = vec![(s("v1"), true)];
    // Zero weight: the voter has no stake.
    assert_eq!(v.vote_helper(&s("x"), &id, &ballot, 0, 150), Err(CoreError::Validation));
    // Before the window and at its exclusive end.
    assert_eq!(v.vote_helper(&s("x"), &id, &ballot, 30, 99), Err(CoreError::Validation));
    assert_eq!(v.vote_helper(&s("x"), &id, &ballot, 30, 200), Err(CoreError::Validation));
    // Boundary: the start is inclusive.
    assert_eq!(v.vote_helper(&s("x"), &id, &ballot, 30, 100), Ok(()));
    // Unknown poll.
    assert_eq!(
        v.vote_helper(&s("y"), &s("unknown"), &ballot, 30, 150),
        Err(CoreError::NotFound)
    );
}

#[test]
fn multi_select_vote_backs_every_selected_option() {
    // One voter's weight may back several options at once; the total voted
    // stake still grows by the weight exactly once, and the surviving record
    // names the last selected option.
    let mut v = fresh();
    let id = standard_poll(&mut v);
    let ballot = vec![(s("v1"), true), (s("v2"), true)];
    assert_eq!(v.vote_helper(&s("x"), &id, &ballot, 30, 150), Ok(()));
    let st = v.show_results(&id).unwrap();
    assert_eq!(st.results.variants.get(&s("v1")).copied(), Some(30));
    assert_eq!(st.results.variants.get(&s("v2")).copied(), Some(30));
    assert_eq!(st.results.total_voted_stake, 30);
    let rec: &VotedDetail = st.results.voted.get(&s("x")).unwrap();
    assert_eq!(rec.option_id, "v2");
    assert_eq!(rec.quantity, 30);
    assert!(!rec.is_claimed);
}

#[test]
fn stake_balance_holds_for_single_choice_votes() {
    // sum(tally values) == sum(record weights) == total voted stake.
    let mut v = fresh();
    let id = standard_poll(&mut v);
    assert_eq!(v.vote_helper(&s("x"), &id, &vec![(s("v1"), true)], 30, 150), Ok(()));
    assert_eq!(v.vote_helper(&s("y"), &id, &vec![(s("v2"), true)], 70, 160), Ok(()));
    assert_eq!(v.vote_helper(&s("z"), &id, &vec![(s("v1"), true)], 11, 170), Ok(()));
    let st = v.show_results(&id).unwrap();
    let mut tally_sum: u128 = 0;
    for i in 0..st.results.variants.len() {
        tally_sum += *st.results.variants.val_at(i);
    }
    let mut weight_sum: u128 = 0;
    for i in 0..st.results.voted.len() {
        weight_sum += st.results.voted.val_at(i).quantity;
    }
    assert_eq!(tally_sum, 111);
    assert_eq!(weight_sum, 111);
    assert_eq!(st.results.total_voted_stake, 111);
}

#[test]
fn one_record_per_voter() {
    let mut v = fresh();
    let id = standard_poll(&mut v);
    assert_eq!(v.vote_helper(&s("x"), &id, &vec![(s("v1"), true)], 30, 150), Ok(()));
    assert_eq!(v.vote_helper(&s("y"), &id, &vec![(s("v2"), true)], 70, 160), Ok(()));
    let _ = v.vote_helper(&s("x"), &id, &vec![(s("v2"), true)], 30, 170);
    let st = v.show_results(&id).unwrap();
    assert_eq!(st.results.voted.len(), 2);
    let mut seen_x = 0;
    for i in 0..st.results.voted.len() {
        if st.results.voted.key_at(i) == "x" {
            seen_x += 1;
        }
    }
    assert_eq!(seen_x, 1);
}

#[test]
fn claim_payouts_sum_to_at_most_budget() {
    // Budget 1000, winning tally 100 from weights 30 and 70 on v1:
    // floor(1000*30/100) + floor(1000*70/100) = 300 + 700 <= 1000.
    let mut v = fresh();
    let id = standard_poll(&mut v);
    assert_eq!(v.vote_helper(&s("x"), &id, &vec![(s("v1"), true)], 30, 150), Ok(()));
    assert_eq!(v.vote_helper(&s("y"), &id, &vec![(s("v1"), true)], 70, 160), Ok(()));
    let (ax, _) = v.claim_reward(&s("x"), &id, 201).unwrap();
    let (ay, _) = v.claim_reward(&s("y"), &id, 201).unwrap();
    assert_eq!(ax, 300);
    assert_eq!(ay, 700);
    assert!(ax + ay <= 1000);
}

#[test]
fn claim_rounding_dust_stays_unspent() {
    // Budget 10, weights 1 and 2 on the winning option (tally 3):
    // floor(10/3) + floor(20/3) = 3 + 6 = 9 < 10.
    let mut v = fresh();
    let variants = vec![(s("v1"), s("a")), (s("v2"), s("b"))];
    let id = v
        .create_poll(&s("alice"), s("q"), variants, 100, 200, 10, &vec![5u8])
        .unwrap();
    assert_eq!(v.vote_helper(&s("x"), &id, &vec![(s("v1"), true)], 1, 150), Ok(()));
    assert_eq!(v.vote_helper(&s("y"), &id, &vec![(s("v1"), true)], 2, 150), Ok(()));
    let (ax, _) = v.claim_reward(&s("x"), &id, 201).unwrap();
    let (ay, _) = v.claim_reward(&s("y"), &id, 201).unwrap();
    assert_eq!(ax, 3);
    assert_eq!(ay, 6);
}

#[test]
fn claim_errors_in_order() {
    let mut v = fresh();
    let id = standard_poll(&mut v);
    assert_eq!(v.vote_helper(&s("x"), &id, &vec![(s("v2"), true)], 30, 150), Ok(()));
    // Unknown poll, poll still open, caller without a record.
    assert_eq!(v.claim_reward(&s("x"), &s("unknown"), 201).err(), Some(CoreError::NotFound));
    assert_eq!(v.claim_reward(&s("x"), &id, 200).err(), Some(CoreError::Validation));
    assert_eq!(v.claim_reward(&s("nobody"), &id, 201).err(), Some(CoreError::NotFound));
    // A double claim.
    let (amount, _) = v.claim_reward(&s("x"), &id, 201).unwrap();
    assert_eq!(amount, 1000);
    assert_eq!(v.claim_reward(&s("x"), &id, 201).err(), Some(CoreError::DuplicateAction));
}

#[test]
fn scenario_failed_registration_leaves_record_claimed() {
    // The record is marked claimed before the transfer chain runs; a failed
    // registration means the transfer is never issued, yet the claim stays
    // permanently recorded: the documented stuck-funds property.
    let mut v = fresh();
    let id = standard_poll(&mut v);
    assert_eq!(v.vote_helper(&s("y"), &id, &vec![(s("v2"), true)], 70, 160), Ok(()));
    let (amount, reg) = v.claim_reward(&s("y"), &id, 201).unwrap();
    assert_eq!(amount, 1000);
    assert_eq!(v.settlement_count(), 1);
    assert_eq!(v.settlement_at(reg.op_id).unwrap().phase, PayoutPhase::Registering);
    // The external registration fails: no transfer action comes back.
    let follow_up = v.on_register_result(reg.op_id, false).unwrap();
    assert!(follow_up.is_none());
    assert_eq!(v.settlement_at(reg.op_id).unwrap().phase, PayoutPhase::Failed);
    // No result delivery can revive the failed operation.
    assert_eq!(v.on_transfer_result(reg.op_id, true), Err(CoreError::DuplicateAction));
    assert_eq!(
        v.on_register_result(reg.op_id, true).err(),
        Some(CoreError::DuplicateAction)
    );
    // The voter's record stays claimed, so the reward is gone for good.
    let st = v.show_results(&id).unwrap();
    assert!(st.results.voted.get(&s("y")).unwrap().is_claimed);
    assert_eq!(v.claim_reward(&s("y"), &id, 201).err(), Some(CoreError::DuplicateAction));
}

#[test]
fn successful_settlement_chain() {
    let mut v = fresh();
    let id = standard_poll(&mut v);
    assert_eq!(v.vote_helper(&s("y"), &id, &vec![(s("v2"), true)], 70, 160), Ok(()));
    let (_, reg) = v.claim_reward(&s("y"), &id, 201).unwrap();
    let transfer = v.on_register_result(reg.op_id, true).unwrap().unwrap();
    assert_eq!(transfer.recipient, "y");
    assert_eq!(transfer.amount, 1000);
    assert_eq!(v.settlement_at(reg.op_id).unwrap().phase, PayoutPhase::Transferring);
    assert_eq!(v.on_transfer_result(transfer.op_id, true), Ok(()));
    assert_eq!(v.settlement_at(reg.op_id).unwrap().phase, PayoutPhase::Completed);
}

#[test]
fn update_window_rules() {
    let mut v = fresh();
    let id = standard_poll(&mut v);
    // Only the creator; a bad window is rejected; an unknown poll reports
    // plain failure.
    assert_eq!(v.update_time_voting(&s("mallory"), &id, 300, 400), Err(CoreError::Authorization));
    assert_eq!(v.update_time_voting(&s("alice"), &id, 400, 300), Err(CoreError::Validation));
    assert_eq!(v.update_time_voting(&s("alice"), &s("unknown"), 300, 400), Ok(false));
    // Moving the window after voting has started is deliberately allowed.
    assert_eq!(v.vote_helper(&s("x"), &id, &vec![(s("v1"), true)], 30, 150), Ok(()));
    assert_eq!(v.update_time_voting(&s("alice"), &id, 300, 400), Ok(true));
    let p = v.show_poll(&id).unwrap();
    assert_eq!((p.start, p.end), (300, 400));
}

#[test]
fn owner_administration() {
    let mut v = fresh();
    assert_eq!(v.transfer_owner(&s("mallory"), s("mallory")), Err(CoreError::Authorization));
    assert_eq!(v.transfer_owner(&s("owner"), s("owner2")), Ok(()));
    assert_eq!(v.change_ft_contract_id(&s("owner"), s("ft2")), Err(CoreError::Authorization));
    assert_eq!(v.change_ft_contract_id(&s("owner2"), s("ft2")), Ok(()));
    assert_eq!(v.change_ve_ft_contract_id(&s("owner2"), s("veft2")), Ok(()));
    assert_eq!(v.ping(), "PONG");
}
