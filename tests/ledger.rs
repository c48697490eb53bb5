use budget::date::Date;
use budget::flow::{Flow, FlowState, SignedFlow};
use budget::keyed::StrMap;
use budget::ledger::{Consumers, Purchase, Transaction, Transactions};
use budget::money::{CentsAmount, SignedCentsAmount};
use budget::snapshot::{FlowStates, FlowStatesSnapshot};
use budget::tags::{TagData, Tags};

const DAY0: i32 = 738886; // 01-01-2024

fn day(offset: i32) -> Date {
    Date::from_days(DAY0 + offset).unwrap()
}

fn consumers(list: &[(&str, usize)]) -> Consumers {
    let mut map = StrMap::new();
    for (name, weight) in list {
        map.insert(name.to_string(), *weight);
    }
    Consumers(map)
}

fn purchase(offset: i32, amount: u64, tag: &str, buyer: &str, cons: &[(&str, usize)]) -> Purchase {
    Purchase {
        date: day(offset),
        amount: CentsAmount::new(amount),
        desc: format!("{} on day {}", tag, offset),
        tag: tag.to_string(),
        buyer: buyer.to_string(),
        consumers: consumers(cons),
    }
}

fn food_tags() -> Tags {
    let mut tags = Tags::new();
    tags.0.insert("food".to_string(), TagData::new(5));
    tags.0.insert("rent".to_string(), TagData::new(30));
    tags
}

fn pool_of(states: &FlowStates, tag: &str) -> FlowState {
    let i = states.0.find(&tag.to_string()).unwrap();
    *states.0.value_at(i)
}

#[test]
fn flow_state_absorbs_everything_in_its_days() {
    let mut state = FlowState::new();
    state.add(CentsAmount::new(1000), 10);
    let mut total = 0;
    for _ in 0..10 {
        total += state.step().0.cents();
    }
    assert_eq!(total, 1000);
    assert!(state.inactive());
    assert_eq!(state.flow().0.cents(), 0);
}

#[test]
fn flow_state_rounding_settles_in_last_steps() {
    let mut state = FlowState::new();
    state.add(CentsAmount::new(10), 3);
    assert_eq!(state.flow().0.cents(), 3);
    assert_eq!(state.next().flow().0.cents(), 3);
    let released: Vec<u64> = (0..3).map(|_| state.step().0.cents()).collect();
    assert_eq!(released, vec![3, 3, 4]);
    assert!(state.inactive());
}

#[test]
fn flow_state_add_resets_days_and_accumulates() {
    let mut state = FlowState::new();
    state.add(CentsAmount::new(1000), 10);
    state.step();
    state.add(CentsAmount::new(100), 2);
    // 900 left + 100, now over 2 days
    assert_eq!(state.flow().0.cents(), 500);
    state.add(CentsAmount::new(0), 0);
    assert_eq!(state.flow().0.cents(), 500);
}

#[test]
fn flow_approximations() {
    let without = FlowState::new();
    let mut with = FlowState::new();
    with.add(CentsAmount::new(500), 5);
    assert_eq!(Flow::approx(CentsAmount::new(250), &without, &with).0.cents(), 50);
    assert_eq!(Flow::approx(CentsAmount::new(0), &without, &without).0.cents(), 0);
    assert_eq!(SignedFlow::approx(SignedCentsAmount::new(-250), &without, &with).0.cents(), -50);
    assert_eq!(SignedFlow::approx(SignedCentsAmount::new(-1), &without, &with).0.cents(), 0);
    assert_eq!(SignedFlow::approx(SignedCentsAmount::new(0), &without, &without).0.cents(), 0);
}

#[test]
fn split_purchase_deltas() {
    let p = purchase(0, 1000, "food", "A", &[("A", 1), ("B", 1)]);
    let a = "A".to_string();
    let b = "B".to_string();
    assert_eq!(p.internal_delta(&a).cents(), -500);
    assert_eq!(p.internal_delta(&b).cents(), -500);
    assert_eq!(p.external_delta(&a).cents(), 500);
    assert_eq!(p.external_delta(&b).cents(), -500);
    assert_eq!(p.internal_delta(&"C".to_string()).cents(), 0);
    assert_eq!(p.external_delta(&"C".to_string()).cents(), 0);
}

#[test]
fn consumer_amounts_follow_account_order() {
    let cons = consumers(&[("zoe", 1), ("adam", 1), ("max", 1)]);
    let amounts = cons.amounts(CentsAmount::new(100));
    let names: Vec<String> = (0..amounts.len()).map(|i| amounts.key_at(i).clone()).collect();
    assert_eq!(names, vec!["adam", "max", "zoe"]);
    let cents: Vec<u64> = (0..amounts.len()).map(|i| amounts.value_at(i).cents()).collect();
    assert_eq!(cents, vec![34, 33, 33]);
}

#[test]
fn transaction_accessors() {
    let t = Transaction::Purchase(purchase(3, 1200, "food", "B", &[("A", 2), ("B", 1), ("C", 1)]));
    assert_eq!(t.date().days(), DAY0 + 3);
    assert_eq!(t.abs_amount().cents(), 1200);
    assert_eq!(t.accounts(), vec!["B", "A", "C"]);
    assert_eq!(t.desc(), "food on day 3");
    assert_eq!(t.kind_str(), "food");
    assert_eq!(t.internal_delta(&"A".to_string()).cents(), -600);
    assert_eq!(t.external_delta(&"B".to_string()).cents(), 900);
}

fn days_of(txs: &Transactions) -> Vec<i32> {
    txs.vec().iter().map(|t| t.date().days() - DAY0).collect()
}

fn descs_of(txs: &Transactions) -> Vec<String> {
    txs.vec().iter().map(|t| t.desc().clone()).collect()
}

#[test]
fn add_keeps_ledger_sorted() {
    let mut txs = Transactions::new();
    let mut order = Vec::new();
    for (k, offset) in [5, 1, 3, 1, 9, 0, 3].iter().enumerate() {
        let mut p = purchase(*offset, 100, "food", "A", &[("A", 1)]);
        p.desc = format!("#{}", k);
        order.push(txs.add(Transaction::Purchase(p)));
    }
    assert_eq!(order, vec![0, 0, 1, 1, 4, 0, 4]);
    assert_eq!(days_of(&txs), vec![0, 1, 1, 3, 3, 5, 9]);
    assert_eq!(descs_of(&txs), vec!["#5", "#1", "#3", "#2", "#6", "#0", "#4"]);
    txs.remove(0);
    assert_eq!(days_of(&txs), vec![1, 1, 3, 3, 5, 9]);
    assert_eq!(txs.len(), 6);
}

#[test]
fn fix_sorts_stably() {
    let mut list = Vec::new();
    for (k, offset) in [4, 2, 4, 0, 2].iter().enumerate() {
        let mut p = purchase(*offset, 100, "food", "A", &[("A", 1)]);
        p.desc = format!("#{}", k);
        list.push(Transaction::Purchase(p));
    }
    let mut txs = Transactions::from_vec(list);
    txs.fix();
    assert_eq!(days_of(&txs), vec![0, 2, 2, 4, 4]);
    assert_eq!(descs_of(&txs), vec!["#3", "#1", "#4", "#0", "#2"]);
}

#[test]
fn tags_fix_defines_missing_parents() {
    let mut tags = Tags::new();
    tags.0.insert("b-snacks".to_string(), TagData::with_parent(3, "food".to_string()));
    tags.0.insert("a-fruit".to_string(), TagData::with_parent(7, "food".to_string()));
    tags.0.insert("rent".to_string(), TagData::with_parent(30, "home".to_string()));
    tags.0.insert("home".to_string(), TagData::new(60));
    tags.fix();
    assert_eq!(tags.0.len(), 5);
    let food = tags.0.get(&"food".to_string()).unwrap();
    assert_eq!(food.dur(), 7);
    assert!(food.parent().is_none());
    assert_eq!(tags.0.get(&"home".to_string()).unwrap().dur(), 60);
}

#[test]
fn first_purchase_snapshot_and_flow() {
    let tags = food_tags();
    let mut txs = Transactions::new();
    let p = purchase(0, 1000, "food", "A", &[("A", 1), ("B", 1)]);
    txs.add(Transaction::Purchase(purchase(0, 1000, "food", "A", &[("A", 1), ("B", 1)])));
    let a = "A".to_string();
    let before = txs.snapshot_before(&p.date, &a, &tags);
    assert_eq!(before.date().days(), DAY0);
    for i in 0..before.state().0.len() {
        assert!(before.state().0.value_at(i).inactive());
    }
    let after = txs.snapshot_after(&p.date, &a, &tags);
    assert_eq!(pool_of(after.state(), "food").flow().0.cents(), 100);
    assert_eq!(p.internal_flow(&a, &tags, &txs).0.cents(), -100);
    assert_eq!(txs.vec()[0].internal_flow(&"B".to_string(), &tags, &txs).0.cents(), -100);
    assert_eq!(p.internal_flow(&"C".to_string(), &tags, &txs).0.cents(), 0);
}

#[test]
fn snapshots_replay_earlier_days() {
    let tags = food_tags();
    let mut txs = Transactions::new();
    txs.add(Transaction::Purchase(purchase(0, 1000, "food", "A", &[("A", 1)])));
    txs.add(Transaction::Purchase(purchase(2, 600, "food", "A", &[("A", 1)])));
    let p = purchase(2, 400, "food", "B", &[("A", 1), ("B", 1)]);
    txs.add(Transaction::Purchase(purchase(2, 400, "food", "B", &[("A", 1), ("B", 1)])));
    let a = "A".to_string();
    // day 0: 1000 over 5 days; day 1: 800 left over 4 days; day 2: 600 over 3.
    let before = txs.snapshot_before(&day(2), &a, &tags);
    assert_eq!(before.date().days(), DAY0 + 2);
    assert_eq!(pool_of(before.state(), "food").flow().0.cents(), 200);
    // day 2 adds 600 + 200 for A: 1400 over 5 days.
    let after = txs.snapshot_after(&day(2), &a, &tags);
    assert_eq!(pool_of(after.state(), "food").flow().0.cents(), 280);
    // share 200 of a growth of 800: a quarter of 280.
    assert_eq!(p.internal_flow(&a, &tags, &txs).0.cents(), -70);
    let later = txs.snapshot_after(&day(4), &a, &tags);
    assert_eq!(later.date().days(), DAY0 + 4);
    assert_eq!(pool_of(later.state(), "food").next().flow().0.cents(), 280);
}

#[test]
fn snapshot_forward_and_add() {
    let tags = food_tags();
    let mut snap = FlowStatesSnapshot::new(day(0), &tags);
    let a = "A".to_string();
    snap.add(&purchase(1, 500, "food", "A", &[("A", 1)]), &a, &tags);
    assert_eq!(snap.date().days(), DAY0 + 1);
    snap.forward(&day(3));
    assert_eq!(snap.date().days(), DAY0 + 3);
    // 500 over 5 days, two days gone
    assert_eq!(pool_of(snap.state(), "food").flow().0.cents(), 100);
    snap.step();
    assert_eq!(snap.date().days(), DAY0 + 4);
    let mut states = FlowStates::new(&tags);
    states.add(&purchase(0, 300, "rent", "A", &[("A", 1), ("B", 2)]), &a, &tags);
    assert_eq!(pool_of(&states, "rent").flow().0.cents(), 3);
    states.step();
    assert_eq!(pool_of(&states, "food").flow().0.cents(), 0);
}

#[test]
fn dates_move_by_days() {
    let d = day(0);
    assert_eq!(d.to_string(), "01-01-2024");
    assert_eq!(d.succ().to_string(), "02-01-2024");
    assert_eq!(d.pred().to_string(), "31-12-2023");
    let mut e = d;
    e.incr();
    e.incr();
    e.decr();
    assert_eq!(e.days(), DAY0 + 1);
    assert_eq!(Date::STRING_WIDTH, 10);
    assert!(Date::from_days(budget::date::MAX_DAY + 1).is_none());
    assert!(Date::from_days(budget::date::MIN_DAY).is_some());
    let today = Date::today();
    assert!(today.days() > DAY0);
}
