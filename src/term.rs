//! Positions, boxes and column widths of the terminal layout, and the input
//! events the interface reacts to.
use vstd::prelude::*;
use crate::money::{CentsAmount, amounts_total, subdiv_part, weight_sum, lemma_part_le};

verus! {

/// A cell of the terminal.
#[derive(Copy, Clone, Debug)]
pub struct TermPos {
    pub col: usize,
    pub row: usize,
}

impl TermPos {
    pub fn new(col: usize, row: usize) -> (r: Self)
        ensures
            r.col == col && r.row == row,
    {
        TermPos { col, row }
    }
}

/// A rectangle of the terminal: columns `left..right`, rows `top..bottom`.
#[derive(Copy, Clone, Debug)]
pub struct TermBox {
    pub left: usize,
    pub right: usize,
    pub top: usize,
    pub bottom: usize,
}

impl TermBox {
    /// The top left cell.
    pub fn begin(&self) -> (r: TermPos)
        ensures
            r.col == self.left && r.row == self.top,
    {
        TermPos::new(self.left, self.top)
    }

    pub fn width(&self) -> (r: usize)
        requires
            self.left <= self.right,
        ensures
            r == self.right - self.left,
    {
        self.right - self.left
    }

    pub fn height(&self) -> (r: usize)
        requires
            self.top <= self.bottom,
        ensures
            r == self.bottom - self.top,
    {
        self.bottom - self.top
    }
}

/// A key pressed by the user.
#[derive(Copy, Clone, Debug, PartialEq, Eq, Structural)]
pub enum InputEvent {
    Up,
    Down,
    Left,
    Right,
    Esc,
    Backspace,
    Delete,
    Tab,
    BackTab,
    Enter,
    Char(char),
}

proof fn lemma_sum_of_parts(r: Seq<usize>, parts: Seq<CentsAmount>, k: int)
    requires
        0 <= k <= r.len() == parts.len(),
        forall|i: int| 0 <= i < r.len() ==> #[trigger] r[i] == parts[i]@,
    ensures
        weight_sum(r.take(k)) == amounts_total(parts.take(k)),
    decreases k,
{
    if k > 0 {
        lemma_sum_of_parts(r, parts, k - 1);
        assert(r.take(k).drop_last() =~= r.take(k - 1));
        assert(parts.take(k).drop_last() =~= parts.take(k - 1));
    }
}

/// Splits `total` columns by the weights: each gets the floor of its
/// proportional part, and the columns left over go one each to the first.
pub fn subdiv_flex<const SIZE: usize>(total: usize, weights: [usize; SIZE]) -> (r: [usize; SIZE])
    requires
        SIZE > 0,
        weight_sum(weights@) > 0,
    ensures
        forall|i: int| 0 <= i < SIZE ==> #[trigger] r@[i] == subdiv_part(total as nat, weights@, i),
        weight_sum(r@) == total,
{
    let mut list: Vec<usize> = Vec::new();
    let mut i: usize = 0;
    while i < SIZE
        invariant
            i <= SIZE,
            weights@.len() == SIZE,
            list@ == weights@.take(i as int),
        decreases SIZE - i,
    {
        list.push(weights[i]);
        i = i + 1;
        assert(list@ =~= weights@.take(i as int));
    }
    assert(list@ =~= weights@);
    let parts = CentsAmount::new(total as u64).subdiv(list);
    let mut ret = weights;
    i = 0;
    while i < SIZE
        invariant
            i <= SIZE,
            weights@.len() == SIZE == parts@.len() == ret@.len(),
            weight_sum(weights@) > 0,
            forall|j: int| 0 <= j < SIZE ==> #[trigger] parts@[j]@ == subdiv_part(total as nat, weights@, j),
            forall|j: int| 0 <= j < i ==> #[trigger] ret@[j] == parts@[j]@,
        decreases SIZE - i,
    {
        proof {
            lemma_part_le(total as nat, weights@, i as int);
        }
        ret[i] = parts[i].cents() as usize;
        i = i + 1;
    }
    proof {
        lemma_sum_of_parts(ret@, parts@, SIZE as int);
        assert(ret@.take(SIZE as int) =~= ret@);
        assert(parts@.take(SIZE as int) =~= parts@);
    }
    ret
}

/// The fixed widths of the columns.
pub open spec fn fixed_widths(ws: Seq<(usize, usize)>) -> Seq<usize> {
    ws.map_values(|w: (usize, usize)| w.0)
}

/// The flexible weights of the columns.
pub open spec fn flex_weights(ws: Seq<(usize, usize)>) -> Seq<usize> {
    ws.map_values(|w: (usize, usize)| w.1)
}

/// Splits `total` columns among columns that each take a fixed width plus a
/// part of what is left, split by their flexible weights (see `subdiv_flex`).
pub fn subdiv_const_flex<const SIZE: usize>(total: usize, weights: [(usize, usize); SIZE]) -> (r: [usize; SIZE])
    requires
        SIZE > 0,
        weight_sum(fixed_widths(weights@)) < total,
        weight_sum(flex_weights(weights@)) > 0,
    ensures
        forall|i: int|
            0 <= i < SIZE ==> #[trigger] r@[i] == weights@[i].0 + subdiv_part(
                (total - weight_sum(fixed_widths(weights@))) as nat,
                flex_weights(weights@),
                i,
            ),
        weight_sum(r@) == total,
{
    let ghost fixed = fixed_widths(weights@);
    let mut fixed_widths_arr: [usize; SIZE] = [0; SIZE];
    let mut flex: [usize; SIZE] = [0; SIZE];
    let mut fixed_total: usize = 0;
    let mut i: usize = 0;
    while i < SIZE
        invariant
            i <= SIZE,
            weights@.len() == SIZE == fixed_widths_arr@.len() == flex@.len(),
            fixed == fixed_widths(weights@),
            weight_sum(fixed) < total,
            fixed_total == weight_sum(fixed.take(i as int)),
            forall|j: int| 0 <= j < i ==> #[trigger] fixed_widths_arr@[j] == weights@[j].0,
            forall|j: int| 0 <= j < i ==> #[trigger] flex@[j] == weights@[j].1,
        decreases SIZE - i,
    {
        proof {
            assert(fixed.take(i + 1).drop_last() =~= fixed.take(i as int));
            lemma_take_le(fixed, i + 1);
        }
        fixed_widths_arr[i] = weights[i].0;
        flex[i] = weights[i].1;
        fixed_total = fixed_total + weights[i].0;
        i = i + 1;
    }
    assert(fixed.take(SIZE as int) =~= fixed);
    assert(flex@ =~= flex_weights(weights@));
    assert(fixed_widths_arr@ =~= fixed);
    let flex_widths = subdiv_flex(total - fixed_total, flex);
    let mut ret = fixed_widths_arr;
    i = 0;
    while i < SIZE
        invariant
            i <= SIZE,
            ret@.len() == SIZE == flex_widths@.len() == fixed.len(),
            weight_sum(fixed) + weight_sum(flex_widths@) == total,
            forall|j: int| i <= j < SIZE ==> #[trigger] ret@[j] == fixed[j],
            forall|j: int| 0 <= j < i ==> #[trigger] ret@[j] == fixed[j] + flex_widths@[j],
        decreases SIZE - i,
    {
        proof {
            lemma_elem_le(fixed, i as int);
            lemma_elem_le(flex_widths@, i as int);
        }
        ret[i] = ret[i] + flex_widths[i];
        i = i + 1;
    }
    proof {
        lemma_sum_pointwise(fixed, flex_widths@, ret@, SIZE as int);
        assert(ret@.take(SIZE as int) =~= ret@);
        assert(fixed.take(SIZE as int) =~= fixed);
        assert(flex_widths@.take(SIZE as int) =~= flex_widths@);
    }
    ret
}

proof fn lemma_take_le(s: Seq<usize>, k: int)
    requires
        0 <= k <= s.len(),
    ensures
        weight_sum(s.take(k)) <= weight_sum(s),
    decreases s.len(),
{
    if k < s.len() {
        assert(s.drop_last().take(k) =~= s.take(k));
        lemma_take_le(s.drop_last(), k);
    } else {
        assert(s.take(k) =~= s);
    }
}

proof fn lemma_elem_le(s: Seq<usize>, i: int)
    requires
        0 <= i < s.len(),
    ensures
        s[i] <= weight_sum(s),
    decreases s.len(),
{
    if i < s.len() - 1 {
        lemma_elem_le(s.drop_last(), i);
    }
}

proof fn lemma_sum_pointwise(a: Seq<usize>, b: Seq<usize>, c: Seq<usize>, k: int)
    requires
        0 <= k <= a.len(),
        a.len() == b.len() == c.len(),
        forall|j: int| 0 <= j < a.len() ==> #[trigger] c[j] == a[j] + b[j],
    ensures
        weight_sum(c.take(k)) == weight_sum(a.take(k)) + weight_sum(b.take(k)),
    decreases k,
{
    if k > 0 {
        lemma_sum_pointwise(a, b, c, k - 1);
        assert(a.take(k).drop_last() =~= a.take(k - 1));
        assert(b.take(k).drop_last() =~= b.take(k - 1));
        assert(c.take(k).drop_last() =~= c.take(k - 1));
    }
}

/// `s` cut to `w` characters, then padded with spaces on the right to `w`.
pub open spec fn align_left(s: Seq<char>, w: nat) -> Seq<char> {
    if s.len() >= w {
        s.take(w as int)
    } else {
        s + Seq::new((w - s.len()) as nat, |i: int| ' ')
    }
}

/// `text` cut or padded to exactly `width` characters, aligned left.
pub fn truncate_align_left(text: String, width: usize) -> (r: String)
    requires
        text.is_ascii(),
    ensures
        r@ == align_left(text@, width as nat),
{
    let n = text.as_str().unicode_len();
    let mut chars: Vec<char> = Vec::new();
    let mut i: usize = 0;
    while i < n && i < width
        invariant
            n == text@.len(),
            i <= n,
            i <= width,
            chars@ =~= text@.take(i as int),
        decreases n - i,
    {
        chars.push(text.as_str().get_char(i));
        i = i + 1;
    }
    while chars.len() < width
        invariant
            i <= chars@.len() <= width || chars@.len() == i,
            chars@.len() >= i,
            i == if n < width { n } else { width },
            chars@ =~= text@.take(i as int) + Seq::new((chars@.len() - i) as nat, |j: int| ' '),
        decreases width - chars@.len(),
    {
        chars.push(' ');
    }
    assert(chars@ =~= align_left(text@, width as nat));
    crate::money::string_of(chars)
}

} // verus!
