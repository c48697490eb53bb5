//! What the interactive interface decides: which field has the focus, how
//! keys edit an amount, which transaction is selected.
use vstd::prelude::*;
use crate::accounts::AccountRef;
use crate::completion::{Completor, suggestions_for, texts};
use crate::date::{Date, MAX_DAY, MIN_DAY};
use crate::keyed::{StrMap, keys_of};
use crate::ledger::{Consumers, Purchase, Transaction, Transactions, sorted_by_day};
use crate::money::{CentsAmount, digit_char};
use crate::term::{InputEvent, TermBox};

verus! {

/// The settings of the local user: the account the ledger is shown for.
#[derive(Debug, Clone)]
pub struct LocalCfg {
    pub account: AccountRef,
}

/// The fields of a purchase being entered, in the order they are visited.
#[derive(Debug, Copy, Clone, PartialEq, Eq, Structural)]
pub enum PurchaseInputFocus {
    Date,
    Amount,
    Desc,
    Tag,
    Buyer,
    Consumers,
}

/// Position of a field in the order of visit.
pub open spec fn focus_index(f: PurchaseInputFocus) -> int {
    match f {
        PurchaseInputFocus::Date => 0,
        PurchaseInputFocus::Amount => 1,
        PurchaseInputFocus::Desc => 2,
        PurchaseInputFocus::Tag => 3,
        PurchaseInputFocus::Buyer => 4,
        PurchaseInputFocus::Consumers => 5,
    }
}

impl PurchaseInputFocus {
    /// The first field.
    pub fn new() -> (r: Self)
        ensures
            r == PurchaseInputFocus::Date,
    {
        PurchaseInputFocus::Date
    }

    /// Moves to the next field, from the last back to the first.
    pub fn next(&mut self)
        ensures
            focus_index(*final(self)) == (focus_index(*old(self)) + 1) % 6,
    {
        *self = match *self {
            PurchaseInputFocus::Date => PurchaseInputFocus::Amount,
            PurchaseInputFocus::Amount => PurchaseInputFocus::Desc,
            PurchaseInputFocus::Desc => PurchaseInputFocus::Tag,
            PurchaseInputFocus::Tag => PurchaseInputFocus::Buyer,
            PurchaseInputFocus::Buyer => PurchaseInputFocus::Consumers,
            PurchaseInputFocus::Consumers => PurchaseInputFocus::Date,
        }
    }

    /// Moves to the previous field, from the first back to the last.
    pub fn prev(&mut self)
        ensures
            focus_index(*final(self)) == (focus_index(*old(self)) + 5) % 6,
    {
        *self = match *self {
            PurchaseInputFocus::Date => PurchaseInputFocus::Consumers,
            PurchaseInputFocus::Amount => PurchaseInputFocus::Date,
            PurchaseInputFocus::Desc => PurchaseInputFocus::Amount,
            PurchaseInputFocus::Tag => PurchaseInputFocus::Desc,
            PurchaseInputFocus::Buyer => PurchaseInputFocus::Tag,
            PurchaseInputFocus::Consumers => PurchaseInputFocus::Buyer,
        }
    }

    /// Whether this is the last field.
    pub fn last(&self) -> (r: bool)
        ensures
            r == (*self == PurchaseInputFocus::Consumers),
    {
        *self == PurchaseInputFocus::Consumers
    }

    /// Every field, in the order of visit.
    pub fn all() -> (r: [Self; 6])
        ensures
            forall|i: int| 0 <= i < 6 ==> focus_index(#[trigger] r@[i]) == i,
    {
        [
            PurchaseInputFocus::Date,
            PurchaseInputFocus::Amount,
            PurchaseInputFocus::Desc,
            PurchaseInputFocus::Tag,
            PurchaseInputFocus::Buyer,
            PurchaseInputFocus::Consumers,
        ]
    }

    /// The number of fields.
    pub fn count() -> (r: usize)
        ensures
            r == 6,
    {
        let all = Self::all();
        all.len()
    }
}

/// The decimal digits of `n`, most significant first.
pub open spec fn decimal_text(n: nat) -> Seq<char>
    decreases n,
{
    if n < 10 {
        seq![digit_char(n)]
    } else {
        decimal_text(n / 10).push(digit_char(n % 10))
    }
}

proof fn lemma_decimal_len(n: nat)
    ensures
        decimal_text(n).len() <= n + 1,
    decreases n,
{
    if n >= 10 {
        lemma_decimal_len(n / 10);
    }
}

fn decimal_chars(n: u64) -> (r: Vec<char>)
    ensures
        r@ == decimal_text(n as nat),
    decreases n,
{
    let d = digit_of((n % 10) as usize);
    if n < 10 {
        let mut v: Vec<char> = Vec::new();
        v.push(d);
        v
    } else {
        let mut v = decimal_chars(n / 10);
        v.push(d);
        v
    }
}

fn digit_of(d: usize) -> (c: char)
    ensures
        c == digit_char(d as nat),
{
    if d == 0 {
        '0'
    } else if d == 1 {
        '1'
    } else if d == 2 {
        '2'
    } else if d == 3 {
        '3'
    } else if d == 4 {
        '4'
    } else if d == 5 {
        '5'
    } else if d == 6 {
        '6'
    } else if d == 7 {
        '7'
    } else if d == 8 {
        '8'
    } else {
        '9'
    }
}

/// The value of a decimal digit character.
pub open spec fn digit_value(c: char) -> Option<nat> {
    if '0' <= c && c <= '9' {
        Some((c as u32 - '0' as u32) as nat)
    } else {
        None
    }
}

fn to_digit(c: char) -> (r: Option<u64>)
    ensures
        match r {
            Some(v) => digit_value(c) == Some(v as nat) && v < 10,
            None => digit_value(c).is_none(),
        },
{
    if '0' <= c && c <= '9' {
        Some((c as u32 - '0' as u32) as u64)
    } else {
        None
    }
}

/// Amounts of whole units below this take one more digit.
pub const AMOUNT_INPUT_LIMIT: u64 = 10000000000;

/// What an amount being typed holds: its cents, and how many digits have
/// been typed after the decimal separator, if one has been typed.
pub type AmountInputView = (nat, Option<nat>);

/// How a key changes an amount being typed, and the key handed back to the
/// enclosing form, if any (`Tab` once the cents are complete).
pub open spec fn amount_input_step(s: AmountInputView, e: InputEvent) -> (AmountInputView, Option<InputEvent>) {
    let (cents, dist) = s;
    match e {
        InputEvent::Backspace => match dist {
            None => ((cents / 1000 * 100, None), None),
            Some(d) => if d == 0 {
                ((cents, None), None)
            } else if d == 1 {
                ((cents / 100 * 100, Some(0nat)), None)
            } else {
                ((cents / 10 * 10, Some(1nat)), None)
            },
        },
        InputEvent::Char(c) => match digit_value(c) {
            Some(v) => match dist {
                None => if cents < AMOUNT_INPUT_LIMIT {
                    ((cents * 10 + v * 100, None), None)
                } else {
                    (s, None)
                },
                Some(d) => if d == 0 {
                    ((cents + v * 10, Some(1nat)), None)
                } else if d == 1 {
                    ((cents + v, Some(2nat)), Some(InputEvent::Tab))
                } else {
                    (s, Some(InputEvent::Tab))
                },
            },
            None => if c == '.' || c == ',' {
                if dist.is_none() {
                    ((cents, Some(0nat)), None)
                } else {
                    (s, Some(InputEvent::Tab))
                }
            } else {
                (s, None)
            },
        },
        _ => (s, Some(e)),
    }
}

/// The text of an amount being typed: whole units, then the separator and
/// the cents typed so far, then the currency sign.
pub open spec fn amount_input_text(s: AmountInputView) -> Seq<char> {
    let (cents, dist) = s;
    decimal_text(cents / 100) + match dist {
        None => Seq::empty(),
        Some(d) => if d == 0 {
            seq!['.']
        } else if d == 1 {
            seq!['.', digit_char((cents / 10) % 10)]
        } else {
            seq!['.', digit_char((cents / 10) % 10), digit_char(cents % 10)]
        },
    } + seq![' ', '\u{20ac}']
}

/// An amount being typed, digit by digit.
#[derive(Clone, Debug)]
pub struct AmountInput {
    cents: u64,
    separator_dist: Option<usize>,
}

impl View for AmountInput {
    type V = AmountInputView;

    closed spec fn view(&self) -> AmountInputView {
        (
            self.cents as nat,
            match self.separator_dist {
                Some(d) => Some(d as nat),
                None => None,
            },
        )
    }
}

impl AmountInput {
    /// At most two digits follow the separator, and the amount stays small
    /// enough to take more digits.
    pub open spec fn wf(&self) -> bool {
        &&& match self@.1 {
            Some(d) => d <= 2 && self@.0 <= AMOUNT_INPUT_LIMIT * 10 + (if d == 0 {
                900nat
            } else if d == 1 {
                990nat
            } else {
                999nat
            }),
            None => self@.0 <= AMOUNT_INPUT_LIMIT * 10 + 900,
        }
    }

    /// Nothing typed.
    pub fn new() -> (r: Self)
        ensures
            r@ == (0nat, None::<nat>),
            r.wf(),
    {
        AmountInput { cents: 0, separator_dist: None }
    }

    /// Whether a non-zero amount has been typed.
    pub fn valid(&self) -> (r: bool)
        ensures
            r == (self@.0 != 0),
    {
        self.cents != 0
    }

    /// The amount typed.
    pub fn amount(&self) -> (r: CentsAmount)
        ensures
            r@ == self@.0,
    {
        CentsAmount::new(self.cents)
    }

    fn text_chars(&self) -> (r: Vec<char>)
        requires
            self.wf(),
        ensures
            r@ == amount_input_text(self@),
    {
        let mut ret = decimal_chars(self.cents / 100);
        match self.separator_dist {
            None => {},
            Some(d) => {
                ret.push('.');
                if d >= 1 {
                    ret.push(digit_of(((self.cents / 10) % 10) as usize));
                }
                if d >= 2 {
                    ret.push(digit_of((self.cents % 10) as usize));
                }
            },
        }
        ret.push(' ');
        ret.push('\u{20ac}');
        assert(ret@ =~= amount_input_text(self@));
        ret
    }

    /// The text shown for the amount.
    pub fn text(&self) -> (r: String)
        requires
            self.wf(),
        ensures
            r@ == amount_input_text(self@),
    {
        crate::money::string_of(self.text_chars())
    }

    /// The length in bytes of the text shown (the currency sign takes three).
    pub fn len(&self) -> (r: usize)
        requires
            self.wf(),
        ensures
            r == amount_input_text(self@).len() + 2,
    {
        let text = self.text_chars();
        proof {
            lemma_decimal_len(self@.0 / 100);
        }
        text.len() + 2
    }

    /// Applies a key; returns the key handed back to the enclosing form.
    pub fn input(&mut self, event: InputEvent) -> (r: Option<InputEvent>)
        requires
            old(self).wf(),
        ensures
            final(self).wf(),
            (final(self)@, r) == amount_input_step(old(self)@, event),
    {
        proof {
            let c = self@.0;
            assert((c / 1000) * 100 <= c) by (nonlinear_arith);
            assert((c / 100) * 100 <= c) by (nonlinear_arith);
            assert((c / 10) * 10 <= c) by (nonlinear_arith);
            let b = AMOUNT_INPUT_LIMIT * 10;
            assert(c <= b + 999 ==> (c / 10) * 10 <= b + 990) by (nonlinear_arith)
                requires b == 100000000000int;
            assert(c <= b + 990 ==> (c / 100) * 100 <= b + 900) by (nonlinear_arith)
                requires b == 100000000000int;
        }
        match event {
            InputEvent::Backspace => {
                match self.separator_dist {
                    None => {
                        self.cents = self.cents / 1000 * 100;
                    },
                    Some(d) => {
                        if d == 0 {
                            self.separator_dist = None;
                        } else if d == 1 {
                            self.cents = self.cents / 100 * 100;
                            self.separator_dist = Some(0);
                        } else {
                            self.cents = self.cents / 10 * 10;
                            self.separator_dist = Some(1);
                        }
                    },
                }
                None
            },
            InputEvent::Char(c) => {
                match to_digit(c) {
                    Some(val) => {
                        match self.separator_dist {
                            None => {
                                if self.cents < AMOUNT_INPUT_LIMIT {
                                    self.cents = self.cents * 10 + val * 100;
                                }
                                None
                            },
                            Some(d) => {
                                if d == 0 {
                                    self.cents = self.cents + val * 10;
                                    self.separator_dist = Some(1);
                                    None
                                } else if d == 1 {
                                    self.cents = self.cents + val;
                                    self.separator_dist = Some(2);
                                    Some(InputEvent::Tab)
                                } else {
                                    Some(InputEvent::Tab)
                                }
                            },
                        }
                    },
                    None => {
                        if c == '.' || c == ',' {
                            if self.separator_dist.is_none() {
                                self.separator_dist = Some(0);
                                None
                            } else {
                                Some(InputEvent::Tab)
                            }
                        } else {
                            None
                        }
                    },
                }
            },
            _ => Some(event),
        }
    }
}

/// The ledger being browsed, with the position of the selected transaction.
pub struct InteractiveTransactions {
    transactions: Transactions,
    selection: usize,
}

impl InteractiveTransactions {
    /// The ledger.
    pub closed spec fn ledger(&self) -> Seq<Transaction> {
        self.transactions@
    }

    /// The position of the selected transaction.
    pub closed spec fn selected(&self) -> nat {
        self.selection as nat
    }

    /// Browses `transactions` from the first.
    pub fn new(transactions: Transactions) -> (r: Self)
        ensures
            r.ledger() == transactions@,
            r.selected() == 0,
    {
        InteractiveTransactions { transactions, selection: 0 }
    }

    pub fn transactions(&self) -> (r: &Transactions)
        ensures
            r@ == self.ledger(),
    {
        &self.transactions
    }

    /// The position of the selected transaction.
    pub fn selection(&self) -> (r: usize)
        ensures
            r == self.selected(),
    {
        self.selection
    }

    /// Adds `transaction` to the ledger and selects it.
    pub fn add(&mut self, transaction: Transaction) -> (r: usize)
        requires
            sorted_by_day(old(self).ledger()),
        ensures
            sorted_by_day(final(self).ledger()),
            final(self).ledger() == old(self).ledger().insert(r as int, transaction),
            final(self).selected() == r,
    {
        let index = self.transactions.add(transaction);
        self.selection = index;
        index
    }

    /// Removes the selected transaction, if there is one; the selection
    /// moves back when it was the last.
    pub fn remove(&mut self)
        ensures
            old(self).selected() < old(self).ledger().len() ==> final(self).ledger() == old(
                self,
            ).ledger().remove(old(self).selected() as int) && final(self).selected() == (if old(
                self,
            ).selected() == old(self).ledger().len() - 1 && old(self).selected() > 0 {
                (old(self).selected() - 1) as nat
            } else {
                old(self).selected()
            }),
            old(self).selected() >= old(self).ledger().len() ==> final(self).ledger() == old(
                self,
            ).ledger() && final(self).selected() == old(self).selected(),
            sorted_by_day(old(self).ledger()) ==> sorted_by_day(final(self).ledger()),
    {
        if self.selection < self.transactions.len() {
            self.transactions.remove(self.selection);
            if self.selection == self.transactions.len() {
                self.prev();
            }
        }
    }

    /// Selects the previous transaction, if any.
    pub fn prev(&mut self)
        ensures
            final(self).ledger() == old(self).ledger(),
            final(self).selected() == (if old(self).selected() > 0 {
                (old(self).selected() - 1) as nat
            } else {
                0
            }),
    {
        if self.selection > 0 {
            self.selection = self.selection - 1;
        }
    }

    /// Selects the next transaction, if any.
    pub fn next(&mut self)
        ensures
            final(self).ledger() == old(self).ledger(),
            final(self).selected() == (if old(self).selected() + 1 < old(self).ledger().len() {
                old(self).selected() + 1
            } else {
                old(self).selected()
            }),
    {
        if self.transactions.len() > 0 && self.selection < self.transactions.len() - 1 {
            self.selection = self.selection + 1;
        }
    }
}

/// Whether the key types a character.
pub open spec fn is_char(e: InputEvent) -> bool {
    e matches InputEvent::Char(_)
}

/// The character a key types.
pub open spec fn char_of(e: InputEvent) -> char {
    match e {
        InputEvent::Char(c) => c,
        _ => ' ',
    }
}

/// Relies on std's `String::push`: the character is appended.
#[verifier::external_body]
fn push_char(s: &mut String, c: char)
    ensures
        final(s)@ == old(s)@.push(c),
{
    s.push(c)
}

/// Relies on std's `String::pop`: the last character is removed and returned,
/// if there is one.
#[verifier::external_body]
fn pop_char(s: &mut String) -> (r: Option<char>)
    ensures
        old(s)@.len() == 0 ==> r.is_none() && final(s)@ == old(s)@,
        old(s)@.len() > 0 ==> r == Some(old(s)@.last()) && final(s)@ == old(s)@.drop_last(),
{
    s.pop()
}

/// A date being chosen with the arrow keys.
#[derive(Clone, Debug)]
pub struct DateInput {
    pub date: Date,
}

impl DateInput {
    pub fn new(date: Date) -> (r: Self)
        ensures
            r.date@ == date@,
    {
        DateInput { date }
    }

    /// Down and Right move a day forward, Up and Left a day back; other keys
    /// are handed back.
    pub fn input(&mut self, event: InputEvent) -> (r: Option<InputEvent>)
        requires
            (event == InputEvent::Down || event == InputEvent::Right) ==> old(self).date@ < MAX_DAY,
            (event == InputEvent::Up || event == InputEvent::Left) ==> old(self).date@ > MIN_DAY,
        ensures
            (event == InputEvent::Down || event == InputEvent::Right) ==> final(self).date@ == old(self).date@ + 1
                && r.is_none(),
            (event == InputEvent::Up || event == InputEvent::Left) ==> final(self).date@ == old(self).date@ - 1
                && r.is_none(),
            !(event == InputEvent::Down || event == InputEvent::Right || event == InputEvent::Up || event
                == InputEvent::Left) ==> final(self).date@ == old(self).date@ && r == Some(event),
    {
        match event {
            InputEvent::Down | InputEvent::Right => {
                self.date = self.date.succ();
                None
            },
            InputEvent::Up | InputEvent::Left => {
                self.date = self.date.pred();
                None
            },
            _ => Some(event),
        }
    }
}

/// A word being typed with suggestions; a strict one only takes words of
/// the list.
#[derive(Clone, Debug)]
pub struct CompletorInput {
    text: String,
    decor_prefix: char,
    decor_suffix: char,
    strict: bool,
    compl: Completor,
    selection: Option<usize>,
}

impl CompletorInput {
    /// The text typed.
    pub closed spec fn typed(&self) -> Seq<char> {
        self.text@
    }

    /// The length in bytes of the text typed.
    pub closed spec fn text_bytes(&self) -> nat {
        vstd::utf8::encode_utf8(self.text@).len()
    }

    /// Whether only words of the list are taken.
    pub closed spec fn is_strict(&self) -> bool {
        self.strict
    }

    /// The list of words and the suggestions.
    pub closed spec fn completor(&self) -> (Seq<Seq<char>>, Seq<Seq<char>>) {
        self.compl@
    }

    /// The position of the suggestion selected, if any.
    pub closed spec fn selected(&self) -> Option<nat> {
        match self.selection {
            Some(n) => Some(n as nat),
            None => None,
        }
    }

    /// Leaving the field can take a suggestion: the one selected, or the
    /// first for a strict field with text, is there.
    pub open spec fn can_exit(&self) -> bool {
        &&& (self.is_strict() && self.typed().len() > 0) ==> match self.selected() {
            Some(n) => n < self.completor().1.len(),
            None => self.completor().1.len() > 0,
        }
        &&& (!(self.is_strict() && self.typed().len() > 0)) ==> match self.selected() {
            Some(n) => n < self.completor().1.len(),
            None => true,
        }
    }

    pub fn new(decor_prefix: char, decor_suffix: char, strict: bool, compl: Completor) -> (r: Self)
        ensures
            r.typed().len() == 0,
            r.is_strict() == strict,
            r.completor() == compl@,
            r.selected().is_none(),
    {
        CompletorInput { text: String::new(), decor_prefix, decor_suffix, strict, compl, selection: None }
    }

    pub fn is_empty(&self) -> (r: bool)
        ensures
            r == (self.typed().len() == 0),
    {
        self.text.as_str().is_empty()
    }

    /// Some text is typed, and a strict field holds a word of the list.
    pub fn valid(&self) -> (r: bool)
        ensures
            r == (self.typed().len() > 0 && (!self.is_strict() || self.completor().0.contains(self.typed()))),
    {
        !self.is_empty() && (!self.strict || self.compl.contains(&self.text))
    }

    /// The width of the field: the text in bytes and its two decorations.
    pub fn display_len(&self) -> (r: usize)
        requires
            self.text_bytes() + 2 <= usize::MAX,
        ensures
            r == self.text_bytes() + 2,
    {
        2 + self.text.as_str().len()
    }

    /// The decorations shown before and after the text.
    pub closed spec fn decor(&self) -> (char, char) {
        (self.decor_prefix, self.decor_suffix)
    }

    /// The decorations shown before and after the text.
    pub fn decorations(&self) -> (r: (char, char))
        ensures
            r == self.decor(),
    {
        (self.decor_prefix, self.decor_suffix)
    }

    /// The suggestions.
    pub fn suggestions(&self) -> (r: &Vec<String>)
        ensures
            texts(r@) == self.completor().1,
    {
        self.compl.matches()
    }

    /// The position of the suggestion selected, if any.
    pub fn selection(&self) -> (r: Option<usize>)
        ensures
            match r {
                Some(n) => self.selected() == Some(n as nat),
                None => self.selected().is_none(),
            },
    {
        self.selection
    }

    /// Empties the text.
    pub fn clear(&mut self)
        ensures
            final(self).typed().len() == 0,
            final(self).is_strict() == old(self).is_strict(),
            final(self).completor().0 == old(self).completor().0,
            final(self).completor().1 == suggestions_for(old(self).completor().0, Seq::empty()),
            final(self).selected().is_none(),
    {
        self.text = String::new();
        self.compl.update(&self.text);
        self.selection = None;
    }

    /// The text typed.
    pub fn get(&self) -> (r: String)
        ensures
            r@ == self.typed(),
    {
        self.text.clone()
    }

    /// Leaves the field: a strict field with text takes the suggestion
    /// selected (the first if none is), another takes the one selected, if
    /// any.
    pub fn exit(&mut self)
        requires
            old(self).can_exit(),
        ensures
            final(self).is_strict() == old(self).is_strict(),
            final(self).completor().0 == old(self).completor().0,
            final(self).selected().is_none(),
            (old(self).is_strict() && old(self).typed().len() > 0) || old(self).selected().is_some() ==> {
                let n = match old(self).selected() {
                    Some(n) => n,
                    None => 0,
                };
                &&& final(self).typed() == old(self).completor().1[n as int]
                &&& final(self).completor().1 == suggestions_for(old(self).completor().0, final(self).typed())
            },
            !((old(self).is_strict() && old(self).typed().len() > 0) || old(self).selected().is_some())
                ==> final(self).typed() == old(self).typed() && final(self).completor() == old(self).completor(),
    {
        let take = (self.strict && !self.is_empty()) || self.selection.is_some();
        if take {
            let n = match self.selection {
                Some(n) => n,
                None => 0,
            };
            let word = self.compl.matches()[n].clone();
            proof {
                assert(word@ == self.completor().1[n as int]);
            }
            self.text = word;
            self.compl.update(&self.text);
            self.selection = None;
        }
    }

    /// Whether leaving the field can take its suggestion (see `exit`).
    pub fn exit_ready(&self) -> (r: bool)
        ensures
            r == self.can_exit(),
    {
        let n = self.compl.matches().len();
        let strict_text = self.strict && !self.is_empty();
        match self.selection {
            Some(k) => k < n,
            None => !strict_text || n > 0,
        }
    }

    /// Applies a key: Backspace and characters edit the text (a strict field
    /// refuses a character after which no word matches), Down and Up move
    /// the selection among the suggestions, and Tab, Enter and BackTab leave
    /// the field (see `exit`) and are handed back, as are other keys.
    pub fn input(&mut self, event: InputEvent) -> (r: Option<InputEvent>)
        requires
            (event == InputEvent::Tab || event == InputEvent::Enter || event == InputEvent::BackTab)
                ==> old(self).can_exit(),
        ensures
            final(self).is_strict() == old(self).is_strict(),
            final(self).completor().0 == old(self).completor().0,
            event == InputEvent::Backspace ==> r.is_none() && final(self).selected().is_none() && (if old(
                self,
            ).typed().len() > 0 {
                final(self).typed() == old(self).typed().drop_last()
            } else {
                final(self).typed() == old(self).typed()
            }) && final(self).completor().1 == suggestions_for(old(self).completor().0, final(self).typed()),
            is_char(event) ==> r.is_none() && final(self).selected().is_none(),
            is_char(event) && !old(self).is_strict() ==> final(self).typed() == old(
                self,
            ).typed().push(char_of(event)) && final(self).completor().1 == suggestions_for(old(self).completor().0, final(self).typed()),
            is_char(event) && old(self).is_strict() ==> {
                let t = old(self).typed().push(char_of(event));
                if suggestions_for(old(self).completor().0, t).len() > 0 {
                    final(self).typed() == t
                } else {
                    final(self).typed() == old(self).typed()
                }
            } && final(self).completor().1 == suggestions_for(old(self).completor().0, final(self).typed()),
            event == InputEvent::Down ==> r.is_none() && final(self).typed() == old(self).typed() && final(self).completor()
                == old(self).completor() && (if old(self).completor().1.len() == 0 {
                final(self).selected() == old(self).selected()
            } else {
                final(self).selected() == Some(
                    match old(self).selected() {
                        None => 0nat,
                        Some(x) => if x + 1 < old(self).completor().1.len() {
                            (x + 1) as nat
                        } else {
                            (old(self).completor().1.len() - 1) as nat
                        },
                    },
                )
            }),
            event == InputEvent::Up ==> r.is_none() && final(self).typed() == old(self).typed() && final(self).completor()
                == old(self).completor() && final(self).selected() == match old(self).selected() {
                None => None,
                Some(x) => if x == 0 {
                    None
                } else {
                    Some((x - 1) as nat)
                },
            },
            (event == InputEvent::Tab || event == InputEvent::Enter || event == InputEvent::BackTab) ==> r
                == Some(event) && final(self).selected().is_none(),
            !(event == InputEvent::Backspace || event == InputEvent::Down || event == InputEvent::Up || event
                == InputEvent::Tab || event == InputEvent::Enter || event == InputEvent::BackTab
                || is_char(event)) ==> r == Some(event) && final(self).typed() == old(
                self,
            ).typed() && final(self).completor() == old(self).completor() && final(self).selected() == old(
                self,
            ).selected(),
    {
        match event {
            InputEvent::Backspace => {
                let _ = pop_char(&mut self.text);
                self.compl.update(&self.text);
                self.selection = None;
                None
            },
            InputEvent::Char(c) => {
                push_char(&mut self.text, c);
                self.compl.update(&self.text);
                self.selection = None;
                if self.strict && self.compl.matches().len() == 0 {
                    let _ = pop_char(&mut self.text);
                    self.compl.update(&self.text);
                }
                None
            },
            InputEvent::Down => {
                let n = self.compl.matches().len();
                if n > 0 {
                    self.selection = Some(
                        match self.selection {
                            None => 0,
                            Some(x) => if x < n - 1 {
                                x + 1
                            } else {
                                n - 1
                            },
                        },
                    );
                }
                None
            },
            InputEvent::Up => {
                self.selection = match self.selection {
                    None => None,
                    Some(x) => if x == 0 {
                        None
                    } else {
                        Some(x - 1)
                    },
                };
                None
            },
            InputEvent::Tab | InputEvent::Enter | InputEvent::BackTab => {
                self.exit();
                Some(event)
            },
            _ => Some(event),
        }
    }
}


/// The accounts sharing a purchase, picked one at a time, with a field to
/// type the next one.
#[derive(Clone, Debug)]
pub struct UsersInput {
    new_user: CompletorInput,
    users: Vec<String>,
    selection: Option<usize>,
}

impl UsersInput {
    /// The accounts picked.
    pub closed spec fn picked(&self) -> Seq<Seq<char>> {
        texts(self.users@)
    }

    /// The position of the account selected, if any.
    pub closed spec fn selected(&self) -> Option<nat> {
        match self.selection {
            Some(n) => Some(n as nat),
            None => None,
        }
    }

    /// The field to type the next account in.
    pub closed spec fn field(&self) -> CompletorInput {
        self.new_user
    }

    /// No account picked yet, and a strict field for the accounts of `compl`.
    pub fn new(compl: Completor) -> (r: Self)
        ensures
            r.picked().len() == 0,
            r.selected().is_none(),
            r.field().is_strict(),
            r.field().completor() == compl@,
            r.field().typed().len() == 0,
    {
        UsersInput { new_user: CompletorInput::new('[', ']', true, compl), users: Vec::new(), selection: None }
    }

    /// Whether some account is picked.
    pub fn valid(&self) -> (r: bool)
        ensures
            r == (self.picked().len() > 0),
    {
        self.users.len() > 0
    }

    /// The accounts picked.
    pub fn users(&self) -> (r: &Vec<String>)
        ensures
            texts(r@) == self.picked(),
    {
        &self.users
    }

    /// The field to type the next account in.
    pub fn new_user(&self) -> (r: &CompletorInput)
        ensures
            *r == self.field(),
    {
        &self.new_user
    }

    /// The position of the account selected, if any.
    pub fn selection(&self) -> (r: Option<usize>)
        ensures
            match r {
                Some(n) => self.selected() == Some(n as nat),
                None => self.selected().is_none(),
            },
    {
        self.selection
    }

    /// Picks `user`, unless it is already picked.
    pub fn add_user(&mut self, user: String)
        ensures
            final(self).picked() == (if old(self).picked().contains(user@) {
                old(self).picked()
            } else {
                old(self).picked().push(user@)
            }),
            final(self).selected() == old(self).selected(),
            final(self).field() == old(self).field(),
    {
        let mut i: usize = 0;
        while i < self.users.len()
            invariant
                i <= self.users@.len(),
                self.picked() == old(self).picked(),
                self.selected() == old(self).selected(),
                self.field() == old(self).field(),
                forall|j: int| 0 <= j < i ==> self.picked()[j] != user@,
            decreases self.users@.len() - i,
        {
            if self.users[i] == user {
                assert(self.picked()[i as int] == user@);
                return;
            }
            i = i + 1;
        }
        let ghost before = self.users@;
        let ghost u = user@;
        self.users.push(user);
        assert(texts(self.users@) =~= texts(before).push(u));
    }

    /// Removes the account selected; the selection stays at its place, or
    /// on the last account, or goes when none is left.
    pub fn del_user(&mut self)
        requires
            old(self).selected() matches Some(x) && x < old(self).picked().len(),
        ensures
            old(self).selected() matches Some(x) && {
                &&& final(self).picked() == old(self).picked().remove(x as int)
                &&& final(self).selected() == (if final(self).picked().len() == 0 {
                    None
                } else if x < final(self).picked().len() {
                    Some(x)
                } else {
                    Some((final(self).picked().len() - 1) as nat)
                })
            },
            final(self).field() == old(self).field(),
    {
        match self.selection {
            Some(x) => {
                let ghost before = self.users@;
                self.users.remove(x);
                assert(texts(self.users@) =~= texts(before).remove(x as int));
                self.selection = if self.users.len() == 0 {
                    None
                } else if x < self.users.len() {
                    Some(x)
                } else {
                    Some(self.users.len() - 1)
                };
            },
            None => {},
        }
    }

    /// Leaves the field: an account being typed takes its suggestion, a
    /// selection goes.
    fn exit(&mut self)
        ensures
            final(self).picked() == old(self).picked(),
            final(self).selected().is_none(),
    {
        if self.selection.is_none() {
            if self.new_user.exit_ready() {
                self.new_user.exit();
            }
        } else {
            self.selection = None;
        }
    }

    /// Picks the account being typed, if any, then empties the field.
    fn validate_new_user(&mut self)
        ensures
            final(self).selected() == old(self).selected(),
    {
        if !self.new_user.is_empty() && self.new_user.exit_ready() {
            self.new_user.exit();
            self.add_user(self.new_user.get());
            self.new_user.clear();
        }
    }

    /// Where the field to type an account in stands in `element_box`.
    pub fn new_user_box(&self, element_box: TermBox) -> (r: TermBox)
        requires
            element_box.left + self.field().text_bytes() + 2 <= usize::MAX,
            element_box.top < usize::MAX,
        ensures
            r.left == element_box.left,
            r.right == element_box.left + self.field().text_bytes() + 2,
            r.top == element_box.top,
            r.bottom == element_box.top + 1,
    {
        TermBox {
            left: element_box.left,
            right: element_box.left + self.new_user.display_len(),
            top: element_box.top,
            bottom: element_box.top + 1,
        }
    }

    /// Applies a key: Left and Right pick the account being typed and move
    /// the selection among the accounts picked; with a selection, Backspace
    /// and Delete remove the account selected, and Tab, Enter and BackTab
    /// leave it; without one, keys go to the field, and leaving the field
    /// with an account typed picks it.
    pub fn input(&mut self, event: InputEvent) -> (r: Option<InputEvent>)
        ensures
            event == InputEvent::Left ==> r.is_none() && final(self).selected() == match old(self).selected() {
                None => None,
                Some(x) => if x == 0 {
                    None
                } else {
                    Some((x - 1) as nat)
                },
            },
            (event == InputEvent::Backspace || event == InputEvent::Delete) ==> (old(self).selected() matches Some(
                x,
            ) ==> (x < old(self).picked().len() ==> r.is_none() && final(self).picked() == old(
                self,
            ).picked().remove(x as int))),
            old(self).selected().is_some() && leaves(event) ==> r == Some(event) && final(self).selected().is_none()
                && final(self).picked() == old(self).picked(),
            event == InputEvent::Right ==> r.is_none() && final(self).selected() == (if final(self).picked().len()
                == 0 {
                None
            } else {
                match old(self).selected() {
                    None => Some(0nat),
                    Some(x) => Some(
                        if x + 1 < final(self).picked().len() {
                            (x + 1) as nat
                        } else {
                            (final(self).picked().len() - 1) as nat
                        },
                    ),
                }
            }),
    {
        match event {
            InputEvent::Left => {
                self.validate_new_user();
                self.selection = match self.selection {
                    None => None,
                    Some(x) => if x == 0 {
                        None
                    } else {
                        Some(x - 1)
                    },
                };
                None
            },
            InputEvent::Right => {
                self.validate_new_user();
                let n = self.users.len();
                self.selection = if n == 0 {
                    None
                } else {
                    match self.selection {
                        None => Some(0),
                        Some(x) => Some(
                            if x < n - 1 {
                                x + 1
                            } else {
                                n - 1
                            },
                        ),
                    }
                };
                None
            },
            _ => {
                match self.selection {
                    None => {
                        let leaving = event == InputEvent::Tab || event == InputEvent::Enter || event
                            == InputEvent::BackTab;
                        if leaving && !self.new_user.exit_ready() {
                            return Some(event);
                        }
                        match self.new_user.input(event) {
                            Some(back) => {
                                if back == InputEvent::Tab || back == InputEvent::Enter || back
                                    == InputEvent::BackTab {
                                    if self.new_user.is_empty() {
                                        Some(back)
                                    } else {
                                        self.validate_new_user();
                                        None
                                    }
                                } else {
                                    Some(back)
                                }
                            },
                            None => None,
                        }
                    },
                    Some(x) => {
                        if event == InputEvent::Backspace || event == InputEvent::Delete {
                            if x < self.users.len() {
                                self.del_user();
                            }
                            None
                        } else if event == InputEvent::Tab || event == InputEvent::Enter || event
                            == InputEvent::BackTab {
                            self.exit();
                            Some(event)
                        } else {
                            Some(event)
                        }
                    },
                }
            },
        }
    }
}

impl UsersInput {
    /// The accounts picked, one share each.
    pub fn consumers(&self) -> (r: Consumers)
        ensures
            r.0.wf(),
            keys_of(r.0@).to_set() == self.picked().to_set(),
            forall|i: int| 0 <= i < r.0@.len() ==> (#[trigger] r.0@[i]).1 == 1,
    {
        let mut map: StrMap<usize> = StrMap::new();
        let mut i: usize = 0;
        while i < self.users.len()
            invariant
                i <= self.users@.len(),
                map.wf(),
                map.map().dom() == self.picked().take(i as int).to_set(),
                forall|k: Seq<char>| #[trigger] map.map().contains_key(k) ==> map.map()[k] == 1,
            decreases self.users@.len() - i,
        {
            map.insert(self.users[i].clone(), 1);
            proof {
                assert(self.picked().take(i + 1) =~= self.picked().take(i as int).push(self.picked()[i as int]));
                self.picked().take(i as int).lemma_push_to_set_commute(self.picked()[i as int]);
                assert(map.map().dom() =~= self.picked().take(i + 1).to_set());
            }
            i = i + 1;
        }
        proof {
            assert(self.picked().take(i as int) =~= self.picked());
            assert forall|j: int| 0 <= j < map@.len() implies (#[trigger] map@[j]).1 == 1 by {
                crate::keyed::lemma_entry_lookup(map@, j);
            }
            assert forall|k: Seq<char>| keys_of(map@).to_set().contains(k) == map.map().dom().contains(k) by {}
            assert(keys_of(map@).to_set() =~= map.map().dom());
        }
        Consumers(map)
    }
}

/// A purchase being entered, one field at a time.
#[derive(Clone, Debug)]
pub struct PurchaseInput {
    focus: PurchaseInputFocus,
    date: DateInput,
    amount: AmountInput,
    desc: CompletorInput,
    tag: CompletorInput,
    buyer: CompletorInput,
    consumers: UsersInput,
}

/// Whether the key leaves a field forward or back.
pub open spec fn leaves(e: InputEvent) -> bool {
    e == InputEvent::Tab || e == InputEvent::Enter || e == InputEvent::BackTab
}

impl PurchaseInput {
    /// The field with the focus.
    pub closed spec fn focused(&self) -> PurchaseInputFocus {
        self.focus
    }

    /// The amount field is well formed.
    pub closed spec fn wf(&self) -> bool {
        self.amount.wf()
    }

    /// The focused field can take the key: a date stays representable, a
    /// word field left takes a suggestion that is there.
    pub closed spec fn accepts(&self, event: InputEvent) -> bool {
        match self.focus {
            PurchaseInputFocus::Date => {
                &&& (event == InputEvent::Down || event == InputEvent::Right) ==> self.date.date@ < MAX_DAY
                &&& (event == InputEvent::Up || event == InputEvent::Left) ==> self.date.date@ > MIN_DAY
            },
            PurchaseInputFocus::Desc => leaves(event) ==> self.desc.can_exit(),
            PurchaseInputFocus::Tag => leaves(event) ==> self.tag.can_exit(),
            PurchaseInputFocus::Buyer => leaves(event) ==> self.buyer.can_exit(),
            _ => true,
        }
    }

    /// A purchase of `date`, with suggestions for its description, category
    /// and accounts; the category and the accounts must be of the lists.
    pub fn new(date: Date, desc_completor: Completor, tag_completor: Completor, account_completor: Completor) -> (r: Self)
        ensures
            r.focused() == PurchaseInputFocus::Date,
            r.wf(),
    {
        PurchaseInput {
            focus: PurchaseInputFocus::new(),
            date: DateInput::new(date),
            amount: AmountInput::new(),
            desc: CompletorInput::new('"', '"', false, desc_completor),
            tag: CompletorInput::new('<', '>', true, tag_completor),
            buyer: CompletorInput::new('[', ']', true, account_completor.clone()),
            consumers: UsersInput::new(account_completor),
        }
    }

    /// Every field holds what a purchase needs.
    pub closed spec fn complete(&self) -> bool {
        &&& self.amount@.0 != 0
        &&& self.desc.typed().len() > 0 && (!self.desc.is_strict() || self.desc.completor().0.contains(
            self.desc.typed(),
        ))
        &&& self.tag.typed().len() > 0 && (!self.tag.is_strict() || self.tag.completor().0.contains(
            self.tag.typed(),
        ))
        &&& self.buyer.typed().len() > 0 && (!self.buyer.is_strict() || self.buyer.completor().0.contains(
            self.buyer.typed(),
        ))
        &&& self.consumers.picked().len() > 0
    }

    /// Every field holds what a purchase needs.
    pub fn valid(&self) -> (r: bool)
        ensures
            r == self.complete(),
    {
        self.amount.valid() && self.desc.valid() && self.tag.valid() && self.buyer.valid()
            && self.consumers.valid()
    }

    pub fn focus(&self) -> (r: PurchaseInputFocus)
        ensures
            r == self.focused(),
    {
        self.focus
    }

    pub fn date_input(&self) -> &DateInput {
        &self.date
    }

    pub fn amount_input(&self) -> (r: &AmountInput)
        ensures
            self.wf() ==> r.wf(),
    {
        &self.amount
    }

    pub fn desc_input(&self) -> &CompletorInput {
        &self.desc
    }

    pub fn tag_input(&self) -> &CompletorInput {
        &self.tag
    }

    pub fn buyer_input(&self) -> &CompletorInput {
        &self.buyer
    }

    pub fn consumers_input(&self) -> &UsersInput {
        &self.consumers
    }

    /// Whether the focused field can take `event` (see `input`).
    pub fn accepts_input(&self, event: InputEvent) -> (r: bool)
        ensures
            r == self.accepts(event),
    {
        let leaving = event == InputEvent::Tab || event == InputEvent::Enter || event == InputEvent::BackTab;
        match self.focus {
            PurchaseInputFocus::Date => {
                let day = self.date.date.days();
                let forward = event == InputEvent::Down || event == InputEvent::Right;
                let back = event == InputEvent::Up || event == InputEvent::Left;
                (!forward || day < MAX_DAY) && (!back || day > MIN_DAY)
            },
            PurchaseInputFocus::Desc => !leaving || self.desc.exit_ready(),
            PurchaseInputFocus::Tag => !leaving || self.tag.exit_ready(),
            PurchaseInputFocus::Buyer => !leaving || self.buyer.exit_ready(),
            _ => true,
        }
    }

    /// Hands the key to the focused field. A Tab or Enter it hands back
    /// moves to the next field, or is handed back from the last field when
    /// the purchase is complete; a BackTab moves to the previous field.
    pub fn input(&mut self, event: InputEvent) -> (r: Option<InputEvent>)
        requires
            old(self).wf(),
            old(self).accepts(event),
        ensures
            final(self).wf(),
            r == Some(InputEvent::Tab) || r == Some(InputEvent::Enter) ==> final(self).focused()
                == PurchaseInputFocus::Consumers && final(self).complete(),
            r != Some(InputEvent::BackTab),
    {
        let event_opt = match self.focus {
            PurchaseInputFocus::Date => self.date.input(event),
            PurchaseInputFocus::Amount => self.amount.input(event),
            PurchaseInputFocus::Desc => self.desc.input(event),
            PurchaseInputFocus::Tag => self.tag.input(event),
            PurchaseInputFocus::Buyer => self.buyer.input(event),
            PurchaseInputFocus::Consumers => self.consumers.input(event),
        };
        match event_opt {
            Some(back) => {
                if back == InputEvent::Tab || back == InputEvent::Enter {
                    if self.focus.last() && self.valid() {
                        event_opt
                    } else {
                        self.focus.next();
                        None
                    }
                } else if back == InputEvent::BackTab {
                    self.focus.prev();
                    None
                } else {
                    event_opt
                }
            },
            None => None,
        }
    }

    /// The purchase entered: its accounts have one share each.
    pub fn into_purchase(self) -> (r: Purchase)
        requires
            self.wf(),
    {
        let consumers = self.consumers.consumers();
        Purchase {
            date: self.date.date,
            amount: self.amount.amount(),
            desc: self.desc.get(),
            tag: self.tag.get(),
            buyer: self.buyer.get(),
            consumers,
        }
    }
}

impl PurchaseInput {
    /// Where the field `index` stands in `element_box`: one row each, in
    /// the order of visit.
    pub fn child_box(index: PurchaseInputFocus, element_box: TermBox) -> (r: TermBox)
        requires
            element_box.top + 6 <= usize::MAX,
        ensures
            r.left == element_box.left,
            r.right == element_box.right,
            r.top == element_box.top + focus_index(index),
            r.bottom == element_box.top + focus_index(index) + 1,
    {
        let row: usize = match index {
            PurchaseInputFocus::Date => 0,
            PurchaseInputFocus::Amount => 1,
            PurchaseInputFocus::Desc => 2,
            PurchaseInputFocus::Tag => 3,
            PurchaseInputFocus::Buyer => 4,
            PurchaseInputFocus::Consumers => 5,
        };
        TermBox {
            left: element_box.left,
            right: element_box.right,
            top: element_box.top + row,
            bottom: element_box.top + row + 1,
        }
    }
}

/// The rows `begin..end` of a list of `count` rows shown in `height` rows
/// around the row `center`: as many rows as fit, growing on the side where
/// fewer are shown, the end first.
pub fn visible_range(center: usize, count: usize, height: usize) -> (r: (usize, usize))
    requires
        center <= count,
    ensures
        r.0 <= center <= r.1 <= count,
        r.1 - r.0 == (if count < height {
            count
        } else {
            height
        }),
{
    let mut begin = center;
    let mut end = center;
    while end - begin < height
        invariant
            begin <= center <= end <= count,
            end - begin <= height,
        ensures
            begin <= center <= end <= count,
            end - begin == (if count < height {
                count
            } else {
                height
            }),
        decreases height - (end - begin),
    {
        let avail_begin = begin > 0;
        let avail_end = end < count;
        if avail_begin && avail_end {
            if center - begin < end - center {
                begin = begin - 1;
            } else {
                end = end + 1;
            }
        } else if avail_begin {
            begin = begin - 1;
        } else if avail_end {
            end = end + 1;
        } else {
            break;
        }
    }
    (begin, end)
}

} // verus!
