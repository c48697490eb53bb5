use budget::accounts::{AccountData, RGBColor};
use budget::completion::Completor;
use budget::date::Date;
use budget::interface::{
    visible_range, AmountInput, CompletorInput, DateInput, InteractiveTransactions, PurchaseInput, PurchaseInputFocus,
    UsersInput,
};
use budget::keyed::{str_less, StrMap};
use budget::ledger::{Consumers, Purchase, Transaction, Transactions};
use budget::money::CentsAmount;
use budget::term::{subdiv_const_flex, subdiv_flex, truncate_align_left, InputEvent, TermBox, TermPos};

fn words(list: &[&str]) -> Vec<String> {
    list.iter().map(|w| w.to_string()).collect()
}

fn type_text(input: &mut CompletorInput, text: &str) {
    for c in text.chars() {
        input.input(InputEvent::Char(c));
    }
}

#[test]
fn focus_cycles_through_fields() {
    let mut f = PurchaseInputFocus::new();
    assert_eq!(f, PurchaseInputFocus::Date);
    for _ in 0..5 {
        f.next();
    }
    assert_eq!(f, PurchaseInputFocus::Consumers);
    assert!(f.last());
    f.next();
    assert_eq!(f, PurchaseInputFocus::Date);
    f.prev();
    assert_eq!(f, PurchaseInputFocus::Consumers);
    assert_eq!(PurchaseInputFocus::count(), 6);
    assert_eq!(PurchaseInputFocus::all()[2], PurchaseInputFocus::Desc);
}

#[test]
fn amount_typing() {
    let mut a = AmountInput::new();
    assert!(!a.valid());
    assert_eq!(a.text(), "0 €");
    assert_eq!(a.len(), 5);
    assert_eq!(a.input(InputEvent::Char('1')), None);
    assert_eq!(a.input(InputEvent::Char('2')), None);
    assert_eq!(a.text(), "12 €");
    assert_eq!(a.input(InputEvent::Char('x')), None);
    assert_eq!(a.input(InputEvent::Char(',')), None);
    assert_eq!(a.text(), "12. €");
    assert_eq!(a.input(InputEvent::Char('5')), None);
    assert_eq!(a.input(InputEvent::Char('7')), Some(InputEvent::Tab));
    assert_eq!(a.text(), "12.57 €");
    assert_eq!(a.amount().cents(), 1257);
    assert_eq!(a.input(InputEvent::Char('9')), Some(InputEvent::Tab));
    assert_eq!(a.input(InputEvent::Char('.')), Some(InputEvent::Tab));
    assert_eq!(a.input(InputEvent::Backspace), None);
    assert_eq!(a.text(), "12.5 €");
    assert_eq!(a.input(InputEvent::Backspace), None);
    assert_eq!(a.input(InputEvent::Backspace), None);
    assert_eq!(a.text(), "12 €");
    assert_eq!(a.input(InputEvent::Backspace), None);
    assert_eq!(a.text(), "1 €");
    assert!(a.valid());
    assert_eq!(a.input(InputEvent::Esc), Some(InputEvent::Esc));
}

#[test]
fn amount_typing_stops_growing() {
    let mut a = AmountInput::new();
    for _ in 0..15 {
        a.input(InputEvent::Char('9'));
    }
    assert_eq!(a.amount().cents(), 99_999_999_900);
}

#[test]
fn completor_orders_by_match_position() {
    let mut c = Completor::new(words(&["Banana", "apple", "grape", "Pineapple"]));
    assert_eq!(c.matches().len(), 4);
    c.update(&"AP".to_string());
    assert_eq!(c.matches(), &words(&["apple", "grape", "Pineapple"]));
    c.update(&"an".to_string());
    assert_eq!(c.matches(), &words(&["Banana"]));
    c.update(&"zz".to_string());
    assert!(c.matches().is_empty());
    assert!(c.contains(&"grape".to_string()));
    assert!(!c.contains(&"Grape".to_string()));
}

#[test]
fn strict_completor_input() {
    let mut input = CompletorInput::new('<', '>', true, Completor::new(words(&["food", "fuel", "rent"])));
    assert!(input.is_empty());
    assert!(!input.valid());
    type_text(&mut input, "fx");
    assert_eq!(input.get(), "f");
    assert_eq!(input.suggestions(), &words(&["food", "fuel"]));
    assert_eq!(input.input(InputEvent::Down), None);
    assert_eq!(input.input(InputEvent::Down), None);
    assert_eq!(input.input(InputEvent::Down), None);
    assert_eq!(input.selection(), Some(1));
    assert_eq!(input.input(InputEvent::Up), None);
    assert_eq!(input.selection(), Some(0));
    assert_eq!(input.input(InputEvent::Tab), Some(InputEvent::Tab));
    assert_eq!(input.get(), "food");
    assert!(input.valid());
    assert_eq!(input.display_len(), 6);
    input.clear();
    assert!(input.is_empty());
    assert_eq!(input.decorations(), ('<', '>'));
}

#[test]
fn free_completor_input() {
    let mut input = CompletorInput::new('"', '"', false, Completor::new(Vec::new()));
    type_text(&mut input, "milk");
    assert_eq!(input.input(InputEvent::Backspace), None);
    assert_eq!(input.get(), "mil");
    assert_eq!(input.input(InputEvent::Enter), Some(InputEvent::Enter));
    assert_eq!(input.get(), "mil");
    assert!(input.valid());
}

#[test]
fn users_input_picks_accounts() {
    let mut users = UsersInput::new(Completor::new(words(&["alice", "bob"])));
    assert!(!users.valid());
    users.add_user("bob".to_string());
    users.add_user("bob".to_string());
    users.add_user("alice".to_string());
    assert_eq!(users.users(), &words(&["bob", "alice"]));
    assert_eq!(users.input(InputEvent::Right), None);
    assert_eq!(users.selection(), Some(0));
    assert_eq!(users.input(InputEvent::Right), None);
    assert_eq!(users.input(InputEvent::Right), None);
    assert_eq!(users.selection(), Some(1));
    assert_eq!(users.input(InputEvent::Delete), None);
    assert_eq!(users.users(), &words(&["bob"]));
    assert_eq!(users.selection(), Some(0));
    users.del_user();
    assert!(users.users().is_empty());
    assert_eq!(users.selection(), None);
    assert_eq!(users.input(InputEvent::Char('a')), None);
    assert_eq!(users.input(InputEvent::Tab), None);
    assert_eq!(users.users(), &words(&["alice"]));
    let consumers = users.consumers();
    assert_eq!(consumers.0.len(), 1);
    assert_eq!(*consumers.0.value_at(0), 1);
    let b = users.new_user_box(TermBox { left: 3, right: 40, top: 2, bottom: 3 });
    assert_eq!((b.left, b.right, b.top, b.bottom), (3, 5, 2, 3));
}

#[test]
fn date_input_moves_by_days() {
    let mut d = DateInput::new(Date::from_days(738886).unwrap());
    assert_eq!(d.input(InputEvent::Down), None);
    assert_eq!(d.input(InputEvent::Right), None);
    assert_eq!(d.input(InputEvent::Up), None);
    assert_eq!(d.date.days(), 738887);
    assert_eq!(d.input(InputEvent::Tab), Some(InputEvent::Tab));
}

#[test]
fn purchase_input_walks_fields() {
    let accounts = Completor::new(words(&["alice", "bob"]));
    let tags = Completor::new(words(&["food"]));
    let mut p = PurchaseInput::new(Date::from_days(738886).unwrap(), Completor::new(Vec::new()), tags, accounts);
    assert!(!p.valid());
    assert_eq!(p.input(InputEvent::Tab), None);
    assert_eq!(p.focus(), PurchaseInputFocus::Amount);
    for c in "12".chars() {
        p.input(InputEvent::Char(c));
    }
    p.input(InputEvent::Tab);
    for c in "lunch".chars() {
        p.input(InputEvent::Char(c));
    }
    p.input(InputEvent::Tab);
    p.input(InputEvent::Char('f'));
    p.input(InputEvent::Tab);
    assert_eq!(p.tag_input().get(), "food");
    p.input(InputEvent::Char('b'));
    p.input(InputEvent::Tab);
    assert_eq!(p.focus(), PurchaseInputFocus::Consumers);
    p.input(InputEvent::Char('a'));
    assert_eq!(p.input(InputEvent::Tab), None);
    assert!(p.valid());
    assert_eq!(p.input(InputEvent::BackTab), None);
    assert_eq!(p.focus(), PurchaseInputFocus::Buyer);
    p.input(InputEvent::Tab);
    assert_eq!(p.input(InputEvent::Enter), Some(InputEvent::Enter));
    let purchase = p.into_purchase();
    assert_eq!(purchase.amount.cents(), 1200);
    assert_eq!(purchase.desc, "lunch");
    assert_eq!(purchase.buyer, "bob");
    assert_eq!(purchase.internal_delta(&"alice".to_string()).cents(), -1200);
}

fn small_purchase(day: i32, desc: &str) -> Transaction {
    let mut cons = StrMap::new();
    cons.insert("a".to_string(), 1);
    Transaction::Purchase(Purchase {
        date: Date::from_days(738886 + day).unwrap(),
        amount: CentsAmount::new(100),
        desc: desc.to_string(),
        tag: "food".to_string(),
        buyer: "a".to_string(),
        consumers: Consumers(cons),
    })
}

#[test]
fn browsing_transactions() {
    let mut t = InteractiveTransactions::new(Transactions::new());
    t.remove();
    assert_eq!(t.add(small_purchase(2, "x")), 0);
    assert_eq!(t.add(small_purchase(1, "y")), 0);
    assert_eq!(t.add(small_purchase(3, "z")), 2);
    assert_eq!(t.selection(), 2);
    t.next();
    assert_eq!(t.selection(), 2);
    t.remove();
    assert_eq!(t.transactions().len(), 2);
    assert_eq!(t.selection(), 1);
    t.prev();
    t.prev();
    assert_eq!(t.selection(), 0);
    t.remove();
    assert_eq!(t.transactions().vec()[0].desc(), "x");
}

#[test]
fn column_widths() {
    assert_eq!(subdiv_flex(10, [1, 1, 1]), [4, 3, 3]);
    assert_eq!(subdiv_flex(0, [2, 1]), [0, 0]);
    let widths = subdiv_const_flex(30, [(10, 0), (1, 0), (5, 2), (4, 1)]);
    assert_eq!(widths, [11, 1, 11, 7]);
    assert_eq!(widths.iter().sum::<usize>(), 30);
}

#[test]
fn boxes_and_text_cells() {
    let b = TermBox { left: 2, right: 10, top: 1, bottom: 4 };
    assert_eq!(b.width(), 8);
    assert_eq!(b.height(), 3);
    let p = b.begin();
    assert_eq!((p.col, p.row), (2, 1));
    let q = TermPos::new(5, 6);
    assert_eq!((q.col, q.row), (5, 6));
    assert_eq!(truncate_align_left("groceries".to_string(), 4), "groc");
    assert_eq!(truncate_align_left("tea".to_string(), 5), "tea  ");
}

#[test]
fn colors_in_hex() {
    let c = RGBColor::from_hex(&"ff08A0".to_string()).unwrap();
    assert_eq!((c.r, c.g, c.b), (255, 8, 160));
    assert_eq!(c.to_hex(), "ff08a0");
    let d = RGBColor::from_hex(&"+f+0+1".to_string()).unwrap();
    assert_eq!((d.r, d.g, d.b), (15, 0, 1));
    assert!(RGBColor::from_hex(&"ff08a".to_string()).is_none());
    assert!(RGBColor::from_hex(&"gg0000".to_string()).is_none());
    assert!(RGBColor::from_hex(&"ff00a0b".to_string()).is_none());
    assert_eq!(AccountData::new(RGBColor::new(1, 2, 3)).color(), RGBColor::new(1, 2, 3));
}

#[test]
fn keys_stay_sorted() {
    let mut m = StrMap::new();
    m.insert("pear".to_string(), 1);
    m.insert("apple".to_string(), 2);
    m.insert("fig".to_string(), 3);
    m.insert("apple".to_string(), 4);
    let keys: Vec<String> = (0..m.len()).map(|i| m.key_at(i).clone()).collect();
    assert_eq!(keys, words(&["apple", "fig", "pear"]));
    assert_eq!(m.get(&"apple".to_string()), Some(&4));
    assert!(m.contains_key(&"fig".to_string()));
    assert!(m.check_wf());
    assert!(str_less(&"Zed".to_string(), &"apple".to_string()));
    assert!(str_less(&"app".to_string(), &"apple".to_string()));
    assert!(!str_less(&"b".to_string(), &"b".to_string()));
}

#[test]
fn visible_rows_around_selection() {
    assert_eq!(visible_range(0, 0, 5), (0, 0));
    assert_eq!(visible_range(2, 3, 10), (0, 3));
    assert_eq!(visible_range(50, 100, 4), (48, 52));
    assert_eq!(visible_range(0, 100, 4), (0, 4));
    assert_eq!(visible_range(99, 100, 4), (96, 100));
}

#[test]
fn purchase_fields_one_row_each() {
    let b = PurchaseInput::child_box(PurchaseInputFocus::Tag, TermBox { left: 1, right: 30, top: 4, bottom: 20 });
    assert_eq!((b.left, b.right, b.top, b.bottom), (1, 30, 7, 8));
}
