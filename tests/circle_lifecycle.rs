use savings_circle::circle::{
    all_deposited, find_member, same_member, Circle, DepositReceipt, MemberId, Payout,
    DEFAULT_CYCLE_PERIOD,
};
use savings_circle::contract::{next_circle_id, SavingsCircleContract};
use savings_circle::error::CircleError;

fn member(name: &str) -> MemberId {
    name.as_bytes().to_vec()
}

fn abc() -> Vec<MemberId> {
    vec![member("GALICE"), member("GBOB"), member("GCAROL")]
}

fn store_with_abc() -> (SavingsCircleContract, u64) {
    let mut store = SavingsCircleContract::new();
    let id = store.create_circle(abc(), 100, 3).unwrap();
    (store, id)
}

#[test]
fn create_three_members_starts_at_cycle_one() {
    let (store, id) = store_with_abc();
    assert_eq!(id, 1);
    let c = store.get_state(id).unwrap();
    assert_eq!(c.id, 1);
    assert_eq!(c.members, abc());
    assert_eq!(c.contribution_amount, 100);
    assert_eq!(c.cycle_period, DEFAULT_CYCLE_PERIOD);
    assert_eq!(c.cycle_period, 604800);
    assert_eq!(c.current_cycle, 1);
    assert_eq!(c.total_cycles, 3);
    assert_eq!(c.deposits, vec![false, false, false]);
    assert!(!c.completed);
}

#[test]
fn identifiers_increase_from_one() {
    let mut store = SavingsCircleContract::new();
    assert_eq!(store.circle_count(), 0);
    assert_eq!(store.create_circle(abc(), 100, 3), Ok(1));
    assert_eq!(store.create_circle(vec![member("GDAVE")], 5, 1), Ok(2));
    assert_eq!(store.circle_count(), 2);
    assert_eq!(store.get_state(2).unwrap().members, vec![member("GDAVE")]);
}

#[test]
fn invalid_terms_are_refused() {
    let mut store = SavingsCircleContract::new();
    assert_eq!(store.create_circle(vec![], 100, 3), Err(CircleError::InvalidParameters));
    assert_eq!(store.create_circle(abc(), 0, 3), Err(CircleError::InvalidParameters));
    assert_eq!(store.create_circle(abc(), -5, 3), Err(CircleError::InvalidParameters));
    assert_eq!(store.create_circle(abc(), 100, 0), Err(CircleError::InvalidParameters));
    assert_eq!(
        store.create_circle(vec![member("GA"), member("GB")], i128::MAX, 2),
        Err(CircleError::InvalidParameters)
    );
    assert_eq!(store.circle_count(), 0);
    assert_eq!(store.get_state(1), Err(CircleError::NotFound));
    assert_eq!(store.create_circle(vec![member("GA")], i128::MAX, 1), Ok(1));
}

#[test]
fn non_member_deposit_is_refused_without_change() {
    let (mut store, id) = store_with_abc();
    store.join_circle(id, &member("GBOB")).unwrap();
    let before = store.get_state(id).unwrap();
    assert_eq!(store.join_circle(id, &member("GMALLORY")), Err(CircleError::NotAMember));
    assert_eq!(store.get_state(id).unwrap(), before);
}

#[test]
fn second_deposit_in_a_cycle_is_refused_without_change() {
    let (mut store, id) = store_with_abc();
    let first = store.join_circle(id, &member("GALICE")).unwrap();
    assert_eq!(first, DepositReceipt { amount: 100, payout: None });
    let before = store.get_state(id).unwrap();
    assert_eq!(before.deposits, vec![true, false, false]);
    assert_eq!(store.join_circle(id, &member("GALICE")), Err(CircleError::AlreadyDeposited));
    assert_eq!(store.get_state(id).unwrap(), before);
}

#[test]
fn full_cycle_settles_automatically() {
    let (mut store, id) = store_with_abc();
    assert_eq!(store.join_circle(id, &member("GCAROL")).unwrap().payout, None);
    assert_eq!(store.join_circle(id, &member("GALICE")).unwrap().payout, None);
    let last = store.join_circle(id, &member("GBOB")).unwrap();
    assert_eq!(last.amount, 100);
    assert_eq!(last.payout, Some(Payout { recipient: member("GALICE"), amount: 300 }));
    let c = store.get_state(id).unwrap();
    assert_eq!(c.current_cycle, 2);
    assert_eq!(c.deposits, vec![false, false, false]);
    assert!(!c.completed);
}

#[test]
fn rotation_pays_each_member_in_turn_then_completes() {
    let (mut store, id) = store_with_abc();
    let mut paid = Vec::new();
    for _ in 0..3 {
        let mut payout = None;
        for m in abc() {
            payout = store.join_circle(id, &m).unwrap().payout;
        }
        paid.push(payout.unwrap().recipient);
    }
    assert_eq!(paid, abc());
    let done = store.get_state(id).unwrap();
    assert!(done.completed);
    assert_eq!(done.current_cycle, 3);
    assert_eq!(store.distribute_cycle(id), Err(CircleError::CircleCompleted));
    assert_eq!(store.distribute_cycle(id), Err(CircleError::CircleCompleted));
    assert_eq!(store.join_circle(id, &member("GALICE")), Err(CircleError::CircleCompleted));
    assert_eq!(store.get_state(id).unwrap(), done);
}

#[test]
fn forced_final_settlement_is_terminal() {
    let mut store = SavingsCircleContract::new();
    let id = store.create_circle(vec![member("GA"), member("GB")], 7, 2).unwrap();
    assert_eq!(store.distribute_cycle(id), Ok(Payout { recipient: member("GA"), amount: 14 }));
    assert_eq!(store.get_state(id).unwrap().current_cycle, 2);
    assert_eq!(store.distribute_cycle(id), Ok(Payout { recipient: member("GB"), amount: 14 }));
    let done = store.get_state(id).unwrap();
    assert!(done.completed);
    assert_eq!(done.current_cycle, 2);
    assert_eq!(store.distribute_cycle(id), Err(CircleError::CircleCompleted));
    assert_eq!(store.get_state(id).unwrap(), done);
}

#[test]
fn deposit_order_does_not_change_the_outcome() {
    let (mut first, id1) = store_with_abc();
    let (mut second, id2) = store_with_abc();
    let mut p1 = None;
    for m in [member("GBOB"), member("GCAROL"), member("GALICE")] {
        p1 = first.join_circle(id1, &m).unwrap().payout;
    }
    let mut p2 = None;
    for m in abc() {
        p2 = second.join_circle(id2, &m).unwrap().payout;
    }
    assert_eq!(p1, p2);
    assert_eq!(first.get_state(id1).unwrap(), second.get_state(id2).unwrap());
}

#[test]
fn unknown_identifier_is_not_found() {
    let (mut store, _) = store_with_abc();
    assert_eq!(store.get_state(0), Err(CircleError::NotFound));
    assert_eq!(store.get_state(2), Err(CircleError::NotFound));
    assert_eq!(store.join_circle(9, &member("GALICE")), Err(CircleError::NotFound));
    assert_eq!(store.distribute_cycle(9), Err(CircleError::NotFound));
    assert_eq!(SavingsCircleContract::new().get_state(1), Err(CircleError::NotFound));
}

#[test]
fn more_cycles_than_members_runs_out_of_recipients() {
    let mut store = SavingsCircleContract::new();
    let id = store.create_circle(vec![member("GSOLO")], 50, 2).unwrap();
    let first = store.join_circle(id, &member("GSOLO")).unwrap();
    assert_eq!(first.payout, Some(Payout { recipient: member("GSOLO"), amount: 50 }));
    let before = store.get_state(id).unwrap();
    assert_eq!(before.current_cycle, 2);
    assert_eq!(
        store.join_circle(id, &member("GSOLO")),
        Err(CircleError::RecipientIndexOutOfRange)
    );
    assert_eq!(store.get_state(id).unwrap(), before);
    assert_eq!(store.distribute_cycle(id), Err(CircleError::RecipientIndexOutOfRange));
}

#[test]
fn duplicate_member_deposits_at_first_position() {
    let mut store = SavingsCircleContract::new();
    let id = store.create_circle(vec![member("GA"), member("GB"), member("GA")], 1, 3).unwrap();
    store.join_circle(id, &member("GA")).unwrap();
    assert_eq!(store.get_state(id).unwrap().deposits, vec![true, false, false]);
    assert_eq!(store.join_circle(id, &member("GA")), Err(CircleError::AlreadyDeposited));
}

#[test]
fn circle_level_operations() {
    let mut c = Circle::open(4, abc(), 10, 3).unwrap();
    assert_eq!(c.id, 4);
    assert_eq!(c.snapshot(), c);
    assert_eq!(c.settle_cycle(), Ok(Payout { recipient: member("GALICE"), amount: 30 }));
    assert_eq!(c.current_cycle, 2);
    assert_eq!(c.record_deposit(&member("GBOB")), Ok(DepositReceipt { amount: 10, payout: None }));
    assert_eq!(c.record_deposit(&member("GZED")), Err(CircleError::NotAMember));
    assert_eq!(Circle::open(4, vec![], 10, 3), Err(CircleError::InvalidParameters));
}

#[test]
fn helpers_compare_and_search() {
    assert!(same_member(&member("GA"), &member("GA")));
    assert!(!same_member(&member("GA"), &member("GB")));
    assert!(!same_member(&member("GA"), &member("GAB")));
    assert_eq!(find_member(&abc(), &member("GCAROL")), Some(2));
    assert_eq!(find_member(&abc(), &member("GNONE")), None);
    assert!(all_deposited(&vec![true, true]));
    assert!(!all_deposited(&vec![true, false]));
    assert!(all_deposited(&vec![]));
    assert_eq!(next_circle_id(None), 1);
    assert_eq!(next_circle_id(Some(41)), 42);
}

#[test]
fn well_formedness_of_records() {
    let c = Circle::open(1, abc(), 100, 3).unwrap();
    assert!(c.is_well_formed());
    let mut short = c.clone();
    short.deposits.pop();
    assert!(!short.is_well_formed());
    let mut past_end = c.clone();
    past_end.current_cycle = 4;
    assert!(!past_end.is_well_formed());
    let mut zero_cycle = c.clone();
    zero_cycle.current_cycle = 0;
    assert!(!zero_cycle.is_well_formed());
    let mut early_end = c.clone();
    early_end.completed = true;
    assert!(!early_end.is_well_formed());
    let mut huge = c.clone();
    huge.contribution_amount = i128::MAX;
    assert!(!huge.is_well_formed());
}
