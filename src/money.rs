//! Exact amounts of money in cents, fair subdivision and width-constrained
//! rendering.
use vstd::prelude::*;

verus! {

/// The decimal digits of `n`, least significant first; empty for zero.
pub open spec fn digits_of(n: nat) -> Seq<nat>
    decreases n,
{
    if n == 0 {
        Seq::empty()
    } else {
        seq![n % 10].add(digits_of(n / 10))
    }
}

/// The digits of a vector of machine digits, as naturals.
pub open spec fn nats(v: Seq<usize>) -> Seq<nat> {
    v.map_values(|x: usize| x as nat)
}

/// The character that writes the decimal digit `d`.
pub open spec fn digit_char(d: nat) -> char {
    if d == 0 {
        '0'
    } else if d == 1 {
        '1'
    } else if d == 2 {
        '2'
    } else if d == 3 {
        '3'
    } else if d == 4 {
        '4'
    } else if d == 5 {
        '5'
    } else if d == 6 {
        '6'
    } else if d == 7 {
        '7'
    } else if d == 8 {
        '8'
    } else {
        '9'
    }
}

/// `d` extended with zeros (at the most significant end) to at least `len` digits.
pub open spec fn pad_zeros(d: Seq<nat>, len: nat) -> Seq<nat> {
    if d.len() >= len {
        d
    } else {
        d + Seq::new((len - d.len()) as nat, |i: int| 0nat)
    }
}

/// What follows the digit at position `i` (counted from the least significant
/// digit, in cents) when it is not the last one written: the decimal point
/// after the units digit of the scale, or a thousands separator.
pub open spec fn mark(i: int, scale: int, sep: bool) -> Seq<char> {
    if i == scale {
        seq!['.']
    } else if i % 3 == 2 && sep {
        seq![',']
    } else {
        Seq::empty()
    }
}

/// The digits of `d` from position `i` down to position `lo`, most significant
/// first, with their marks.
pub open spec fn render(d: Seq<nat>, i: int, lo: int, scale: int, sep: bool) -> Seq<char>
    decreases i - lo,
{
    if i <= lo {
        seq![digit_char(d[i])]
    } else {
        seq![digit_char(d[i])] + mark(i, scale, sep) + render(d, i - 1, lo, scale, sep)
    }
}

/// The amount `n` (in cents) written in full, with two decimals.
pub open spec fn exact_text(n: nat, sep: bool) -> Seq<char> {
    let d = pad_zeros(digits_of(n), 3);
    render(d, d.len() - 1, 0, 2, sep)
}

/// Position of the units digit for the scale chosen when the digits below
/// position `lo` are left out: units, thousands, millions or billions.
pub open spec fn scale_for(lo: int) -> int {
    if lo <= 2 {
        2
    } else if lo <= 5 {
        5
    } else if lo <= 8 {
        8
    } else {
        11
    }
}

/// The suffix that names the scale chosen for `lo`.
pub open spec fn scale_suffix(lo: int) -> Seq<char> {
    if lo <= 2 {
        Seq::empty()
    } else if lo <= 5 {
        seq!['k']
    } else if lo <= 8 {
        seq!['M']
    } else {
        seq!['G']
    }
}

/// The amount `n` (in cents) written with `k` significant digits.
pub open spec fn precision_text(n: nat, k: nat, sep: bool) -> Seq<char> {
    let ds = digits_of(n);
    if ds.len() <= k {
        exact_text(n, sep)
    } else {
        let lo = ds.len() - k;
        let scale = scale_for(lo);
        let d = pad_zeros(ds, (scale + 1) as nat);
        render(d, d.len() - 1, lo, scale, sep) + scale_suffix(lo)
    }
}

/// The position of the most significant digit of `n` (zero for zero).
pub open spec fn top_digit(n: nat) -> nat {
    if digits_of(n).len() > 0 {
        (digits_of(n).len() - 1) as nat
    } else {
        0
    }
}

/// `n` can be written with `k` significant digits: at least one, and no
/// scale above billions needed.
pub open spec fn writable(n: nat, k: nat) -> bool {
    k >= 1 && digits_of(n).len() <= k + 11
}

/// The largest number of significant digits, at most `k`, with which `n` can
/// be written in at most `w` characters; zero if there is none.
pub open spec fn fitting_digits(n: nat, w: nat, sep: bool, k: nat) -> nat
    decreases k,
{
    if k == 0 {
        0
    } else if writable(n, k) && precision_text(n, k, sep).len() <= w {
        k
    } else {
        fitting_digits(n, w, sep, (k - 1) as nat)
    }
}

/// The number of significant digits used to write `n` in `w` characters when
/// it does not fit in full: the most that fit, or one if none does.
pub open spec fn width_precision(n: nat, w: nat, sep: bool) -> nat {
    let k = fitting_digits(n, w, sep, top_digit(n));
    if k == 0 {
        1
    } else {
        k
    }
}

/// `n` can be written for a width of `w`: in full, with some number of
/// significant digits that fits, or else with one digit.
pub open spec fn width_writable(n: nat, w: nat, sep: bool) -> bool {
    exact_text(n, sep).len() <= w || writable(n, width_precision(n, w, sep))
}

/// The amount `n` written in at most `w` characters where possible: in full if
/// that fits, else with the most significant digits that fit (at least one).
pub open spec fn width_text(n: nat, w: nat, sep: bool) -> Seq<char> {
    if exact_text(n, sep).len() <= w {
        exact_text(n, sep)
    } else {
        precision_text(n, width_precision(n, w, sep), sep)
    }
}

/// `s` right-aligned in `w` characters (left as it is when longer).
pub open spec fn pad_left(s: Seq<char>, w: nat) -> Seq<char> {
    if s.len() >= w {
        s
    } else {
        Seq::new((w - s.len()) as nat, |i: int| ' ') + s
    }
}

/// Written in full, an amount has exactly one decimal point, followed by
/// exactly two digits.
pub proof fn lemma_exact_point(n: nat, sep: bool)
    ensures
        ({
            let r = exact_text(n, sep);
            &&& r.len() >= 4
            &&& r[r.len() - 3] == '.'
            &&& r[r.len() - 2] != '.' && r[r.len() - 1] != '.'
            &&& forall|j: int| 0 <= j < r.len() && j != r.len() - 3 ==> r[j] != '.'
        }),
{
    let d = pad_zeros(digits_of(n), 3);
    lemma_render_point(d, d.len() - 1, sep);
}

proof fn lemma_render_point(d: Seq<nat>, i: int, sep: bool)
    requires
        2 <= i < d.len(),
    ensures
        ({
            let r = render(d, i, 0, 2, sep);
            &&& r.len() >= 4
            &&& r[r.len() - 3] == '.'
            &&& r[r.len() - 2] != '.' && r[r.len() - 1] != '.'
            &&& forall|j: int| 0 <= j < r.len() && j != r.len() - 3 ==> r[j] != '.'
        }),
    decreases i,
{
    if i == 2 {
        assert(render(d, 0, 0, 2, sep) == seq![digit_char(d[0])]);
        assert(render(d, 1, 0, 2, sep) =~= seq![digit_char(d[1]), digit_char(d[0])]);
        assert(render(d, 2, 0, 2, sep) =~= seq![digit_char(d[2]), '.', digit_char(d[1]), digit_char(d[0])]);
    } else {
        lemma_render_point(d, i - 1, sep);
        let t = render(d, i - 1, 0, 2, sep);
        let h = seq![digit_char(d[i])] + mark(i, 2, sep);
        assert(render(d, i, 0, 2, sep) =~= h + t);
        assert forall|j: int| 0 <= j < h.len() implies h[j] != '.' by {}
    }
}

proof fn lemma_fitting_digits(n: nat, w: nat, sep: bool, k: nat)
    ensures
        fitting_digits(n, w, sep, k) <= k,
        fitting_digits(n, w, sep, k) > 0 ==> writable(n, fitting_digits(n, w, sep, k))
            && precision_text(n, fitting_digits(n, w, sep, k), sep).len() <= w,
        forall|j: nat|
            1 <= j <= k && writable(n, j) && #[trigger] precision_text(n, j, sep).len() <= w ==> j
                <= fitting_digits(n, w, sep, k),
    decreases k,
{
    if k > 0 {
        lemma_fitting_digits(n, w, sep, (k - 1) as nat);
    }
}

/// In `w` characters, at least as many as the amount takes with one
/// significant digit, the amount is written in at most `w` characters.
pub proof fn lemma_width_fits(n: nat, w: nat, sep: bool)
    requires
        precision_text(n, 1, sep).len() <= w,
    ensures
        width_text(n, w, sep).len() <= w,
{
    lemma_fitting_digits(n, w, sep, top_digit(n));
}

/// When the amount does not fit in full, it is written with the largest
/// number of significant digits that fits: no larger number that can be
/// written fits.
pub proof fn lemma_width_maximal(n: nat, w: nat, sep: bool, k: nat)
    requires
        exact_text(n, sep).len() > w,
        writable(n, k),
        precision_text(n, k, sep).len() <= w,
    ensures
        k <= width_precision(n, w, sep),
        precision_text(n, width_precision(n, w, sep), sep).len() <= w,
{
    lemma_fitting_digits(n, w, sep, top_digit(n));
    assert(k <= top_digit(n));
}

/// Relies on std's `FromIterator<char>` for `String`: the string holds the
/// characters in their order.
#[verifier::external_body]
pub(crate) fn string_of(chars: Vec<char>) -> (r: String)
    ensures
        r@ == chars@,
{
    String::from_iter(chars)
}

fn digit_to_char(d: usize) -> (c: char)
    ensures
        c == digit_char(d as nat),
{
    if d == 0 {
        '0'
    } else if d == 1 {
        '1'
    } else if d == 2 {
        '2'
    } else if d == 3 {
        '3'
    } else if d == 4 {
        '4'
    } else if d == 5 {
        '5'
    } else if d == 6 {
        '6'
    } else if d == 7 {
        '7'
    } else if d == 8 {
        '8'
    } else {
        '9'
    }
}

fn pad_digits(d: &mut Vec<usize>, len: usize)
    ensures
        nats(final(d)@) == pad_zeros(nats(old(d)@), len as nat),
        final(d)@.len() >= len,
        final(d)@.len() >= old(d)@.len(),
{
    let ghost orig = nats(d@);
    while d.len() < len
        invariant
            orig.len() <= d@.len() <= (if orig.len() >= len { orig.len() } else { len as nat }),
            nats(d@) == orig + Seq::new((d@.len() - orig.len()) as nat, |i: int| 0nat),
        decreases len - d@.len(),
    {
        let ghost prev = d@;
        d.push(0);
        assert(nats(d@) =~= nats(prev).push(0nat));
        assert(nats(d@) =~= orig + Seq::new((d@.len() - orig.len()) as nat, |i: int| 0nat));
    }
    assert(nats(d@) =~= pad_zeros(orig, len as nat));
}

fn render_chars(d: &Vec<usize>, top: usize, lo: usize, scale: usize, sep: bool) -> (r: Vec<char>)
    requires
        lo <= top < d@.len(),
    ensures
        r@ == render(nats(d@), top as int, lo as int, scale as int, sep),
{
    let ghost ds = nats(d@);
    let mut ret: Vec<char> = Vec::new();
    let mut index: usize = top;
    loop
        invariant_except_break
            ret@ + render(ds, index as int, lo as int, scale as int, sep) == render(
                ds,
                top as int,
                lo as int,
                scale as int,
                sep,
            ),
        invariant
            lo <= index <= top < d@.len(),
            ds == nats(d@),
        ensures
            ret@ == render(ds, top as int, lo as int, scale as int, sep),
        decreases index,
    {
        let ghost before = ret@;
        ret.push(digit_to_char(d[index]));
        if index == lo {
            assert(ret@ =~= before + render(ds, index as int, lo as int, scale as int, sep));
            break;
        }
        if index == scale {
            ret.push('.');
        } else if index % 3 == 2 && sep {
            ret.push(',');
        }
        assert(ret@ =~= before + seq![digit_char(ds[index as int])] + mark(index as int, scale as int, sep));
        assert(render(ds, index as int, lo as int, scale as int, sep) == seq![digit_char(ds[index as int])]
            + mark(index as int, scale as int, sep) + render(ds, index - 1, lo as int, scale as int, sep));
        assert(ret@ + render(ds, index - 1, lo as int, scale as int, sep) =~= before + render(ds, index as int, lo as int, scale as int, sep));
        index = index - 1;
    }
    ret
}

fn pad_chars(text: Vec<char>, width: usize) -> (r: Vec<char>)
    ensures
        r@ == pad_left(text@, width as nat),
{
    if text.len() >= width {
        text
    } else {
        let mut ret: Vec<char> = Vec::new();
        let fill = width - text.len();
        while ret.len() < fill
            invariant
                ret@.len() <= fill,
                ret@ =~= Seq::new(ret@.len(), |i: int| ' '),
            decreases fill - ret@.len(),
        {
            ret.push(' ');
        }
        let ghost spaces = ret@;
        let mut k: usize = 0;
        while k < text.len()
            invariant
                k <= text@.len(),
                ret@ =~= spaces + text@.subrange(0, k as int),
            decreases text@.len() - k,
        {
            ret.push(text[k]);
            k = k + 1;
        }
        assert(ret@ =~= pad_left(text@, width as nat));
        ret
    }
}

/// The sum of the weights.
pub open spec fn weight_sum(ws: Seq<usize>) -> nat
    decreases ws.len(),
{
    if ws.len() == 0 {
        0
    } else {
        weight_sum(ws.drop_last()) + ws.last() as nat
    }
}

/// The sum of the first `k` floor shares of `c` for the weights `ws`, each
/// `c * w / total` rounded down.
pub open spec fn floor_sum(c: nat, ws: Seq<usize>, total: nat, k: nat) -> nat
    decreases k,
{
    if k == 0 || k > ws.len() {
        0
    } else {
        floor_sum(c, ws, total, (k - 1) as nat) + c * (ws[k - 1] as nat) / total
    }
}

/// The cents left over once every weight has had its floor share of `c`.
pub open spec fn subdiv_remainder(c: nat, ws: Seq<usize>) -> int {
    c - floor_sum(c, ws, weight_sum(ws), ws.len())
}

/// Part `i` of `c` apportioned by the weights `ws`: the floor share, plus one
/// cent for each of the first parts while the remainder lasts.
pub open spec fn subdiv_part(c: nat, ws: Seq<usize>, i: int) -> nat {
    c * (ws[i] as nat) / weight_sum(ws) + (if i < subdiv_remainder(c, ws) {
        1nat
    } else {
        0nat
    })
}

/// The sum of the first `k` parts.
pub open spec fn parts_sum(c: nat, ws: Seq<usize>, k: nat) -> nat
    decreases k,
{
    if k == 0 || k > ws.len() {
        0
    } else {
        parts_sum(c, ws, (k - 1) as nat) + subdiv_part(c, ws, k - 1)
    }
}

/// The total of a sequence of amounts.
pub open spec fn amounts_total(s: Seq<CentsAmount>) -> nat
    decreases s.len(),
{
    if s.len() == 0 {
        0
    } else {
        amounts_total(s.drop_last()) + s.last()@
    }
}

/// No part of a subdivision exceeds the amount subdivided.
pub proof fn lemma_part_le(c: nat, ws: Seq<usize>, i: int)
    requires
        weight_sum(ws) > 0,
        0 <= i < ws.len(),
    ensures
        subdiv_part(c, ws, i) <= c,
{
    let total = weight_sum(ws);
    let n = ws.len();
    lemma_floor_sum_bounds(c, ws, total, n);
    assert(ws.take(n as int) =~= ws);
    let f = floor_sum(c, ws, total, n);
    assert(f <= c) by (nonlinear_arith)
        requires f * total <= c * total, total > 0;
    lemma_floor_sum_mono(c, ws, total, i as nat, n);
}

proof fn lemma_equal_weight_sum(ws: Seq<usize>, w: nat)
    requires
        forall|i: int| 0 <= i < ws.len() ==> ws[i] == w,
    ensures
        weight_sum(ws) == ws.len() * w,
    decreases ws.len(),
{
    if ws.len() > 0 {
        lemma_equal_weight_sum(ws.drop_last(), w);
        assert(weight_sum(ws) == (ws.len() - 1) * w + w);
        assert((ws.len() - 1) * w + w == ws.len() * w) by (nonlinear_arith);
    }
}

proof fn lemma_equal_floor_sum(c: nat, ws: Seq<usize>, total: nat, q: nat, k: nat)
    requires
        k <= ws.len(),
        forall|i: int| 0 <= i < ws.len() ==> c * (ws[i] as nat) / total == q,
    ensures
        floor_sum(c, ws, total, k) == k * q,
    decreases k,
{
    if k > 0 {
        lemma_equal_floor_sum(c, ws, total, q, (k - 1) as nat);
        assert(c * (ws[k - 1] as nat) / total == q);
        assert(floor_sum(c, ws, total, k) == floor_sum(c, ws, total, (k - 1) as nat) + c * (ws[k
            - 1] as nat) / total);
        assert((k - 1) * q + q == k * q) by (nonlinear_arith);
    } else {
        assert(k * q == 0) by (nonlinear_arith)
            requires k == 0;
    }
}

/// With equal weights, every part is the amount divided by the number of
/// parts, rounded down, and the first `c % n` parts get one cent more.
pub proof fn lemma_subdiv_equal_weights(c: nat, ws: Seq<usize>)
    requires
        ws.len() > 0,
        ws[0] > 0,
        forall|i: int| 0 <= i < ws.len() ==> #[trigger] ws[i] == ws[0],
    ensures
        subdiv_remainder(c, ws) == c % ws.len(),
        forall|i: int|
            0 <= i < ws.len() ==> #[trigger] subdiv_part(c, ws, i) == c / ws.len() + (if i < c % ws.len() {
                1nat
            } else {
                0nat
            }),
{
    let n = ws.len();
    let w = ws[0] as nat;
    lemma_equal_weight_sum(ws, w);
    let total = weight_sum(ws);
    assert(c * w / total == c / n) by {
        vstd::arithmetic::div_mod::lemma_div_multiples_vanish_quotient(w as int, c as int, n as int);
        assert(total == n * w);
        assert(c * w == w * c) by (nonlinear_arith);
        assert(w * n == n * w) by (nonlinear_arith);
    }
    assert forall|i: int| 0 <= i < ws.len() implies c * (ws[i] as nat) / total == c / n by {}
    lemma_equal_floor_sum(c, ws, total, c / n, n);
    vstd::arithmetic::div_mod::lemma_fundamental_div_mod(c as int, n as int);
    assert(n * (c / n) == (c / n) * n) by (nonlinear_arith);
}

proof fn lemma_weight_prefix(ws: Seq<usize>, k: int)
    requires
        0 <= k < ws.len(),
    ensures
        weight_sum(ws.take(k + 1)) == weight_sum(ws.take(k)) + ws[k],
        weight_sum(ws.take(k + 1)) <= weight_sum(ws),
{
    assert(ws.take(k + 1).drop_last() =~= ws.take(k));
    lemma_weight_take_le(ws, k + 1);
}

proof fn lemma_weight_take_le(ws: Seq<usize>, k: int)
    requires
        0 <= k <= ws.len(),
    ensures
        weight_sum(ws.take(k)) <= weight_sum(ws),
    decreases ws.len(),
{
    if k < ws.len() {
        assert(ws.drop_last().take(k) =~= ws.take(k));
        lemma_weight_take_le(ws.drop_last(), k);
    } else {
        assert(ws.take(k) =~= ws);
    }
}

proof fn lemma_weight_bound(ws: Seq<usize>, k: int)
    requires
        0 <= k <= ws.len(),
    ensures
        weight_sum(ws.take(k)) <= k * (usize::MAX as int),
    decreases k,
{
    if k > 0 {
        lemma_weight_bound(ws, k - 1);
        lemma_weight_prefix(ws, k - 1);
    }
}

proof fn lemma_floor_share(c: nat, w: nat, total: nat)
    requires
        total > 0,
    ensures
        (c * w / total) * total <= c * w,
        c * w < (c * w / total) * total + total,
{
    let q = c * w / total;
    vstd::arithmetic::div_mod::lemma_fundamental_div_mod((c * w) as int, total as int);
    vstd::arithmetic::div_mod::lemma_mod_bound((c * w) as int, total as int);
}

proof fn lemma_floor_sum_bounds(c: nat, ws: Seq<usize>, total: nat, k: nat)
    requires
        total > 0,
        k <= ws.len(),
    ensures
        floor_sum(c, ws, total, k) * total <= c * weight_sum(ws.take(k as int)),
        c * weight_sum(ws.take(k as int)) < floor_sum(c, ws, total, k) * total + k * total
            || k == 0,
    decreases k,
{
    if k > 0 {
        lemma_floor_sum_bounds(c, ws, total, (k - 1) as nat);
        lemma_weight_prefix(ws, k - 1);
        lemma_floor_share(c, ws[k - 1] as nat, total);
        let f = floor_sum(c, ws, total, (k - 1) as nat);
        let q = c * (ws[k - 1] as nat) / total;
        let wp = weight_sum(ws.take(k - 1));
        assert(floor_sum(c, ws, total, k) == f + q);
        assert(c * weight_sum(ws.take(k as int)) == c * wp + c * ws[k - 1]) by (nonlinear_arith)
            requires
                weight_sum(ws.take(k as int)) == wp + ws[k - 1],
        ;
        assert((f + q) * total == f * total + q * total) by (nonlinear_arith);
        assert((f + q) * total + k * total == f * total + (k - 1) * total + q * total + total)
            by (nonlinear_arith);
    }
}

proof fn lemma_floor_sum_mono(c: nat, ws: Seq<usize>, total: nat, j: nat, k: nat)
    requires
        j <= k <= ws.len(),
        total > 0,
    ensures
        floor_sum(c, ws, total, j) <= floor_sum(c, ws, total, k),
        j < k ==> c * (ws[j as int] as nat) / total <= floor_sum(c, ws, total, k),
    decreases k,
{
    if j < k {
        assert(floor_sum(c, ws, total, k) == floor_sum(c, ws, total, (k - 1) as nat) + c * (ws[k
            - 1] as nat) / total);
        lemma_floor_sum_mono(c, ws, total, j, (k - 1) as nat);
    }
}

proof fn lemma_parts_sum(c: nat, ws: Seq<usize>, k: nat)
    requires
        k <= ws.len(),
        subdiv_remainder(c, ws) >= 0,
        weight_sum(ws) > 0,
    ensures
        parts_sum(c, ws, k) == floor_sum(c, ws, weight_sum(ws), k) + (if k < subdiv_remainder(
            c,
            ws,
        ) {
            k as int
        } else {
            subdiv_remainder(c, ws)
        }),
    decreases k,
{
    if k > 0 {
        lemma_parts_sum(c, ws, (k - 1) as nat);
        let total = weight_sum(ws);
        assert(floor_sum(c, ws, total, k) == floor_sum(c, ws, total, (k - 1) as nat) + c * (ws[k
            - 1] as nat) / total);
        assert(parts_sum(c, ws, k) == parts_sum(c, ws, (k - 1) as nat) + subdiv_part(c, ws, k - 1));
    }
}

proof fn lemma_amounts_total(s: Seq<CentsAmount>, c: nat, ws: Seq<usize>, k: nat)
    requires
        k <= s.len() == ws.len(),
        forall|i: int| 0 <= i < s.len() ==> #[trigger] s[i]@ == subdiv_part(c, ws, i),
    ensures
        amounts_total(s.take(k as int)) == parts_sum(c, ws, k),
    decreases k,
{
    if k > 0 {
        lemma_amounts_total(s, c, ws, (k - 1) as nat);
        assert(s.take(k as int).drop_last() =~= s.take(k - 1));
    }
}

/// A non-negative amount of money, counted in cents.
#[derive(Debug, Copy, Clone, PartialEq, Eq, Structural, PartialOrd, Ord)]
pub struct CentsAmount {
    cents: u64,
}

impl View for CentsAmount {
    type V = nat;

    closed spec fn view(&self) -> nat {
        self.cents as nat
    }
}

impl CentsAmount {
    /// Every amount fits in a `u64`.
    pub proof fn lemma_bound(&self)
        ensures
            self@ <= u64::MAX,
    {
    }

    pub fn new(cents: u64) -> (r: Self)
        ensures
            r@ == cents,
    {
        Self { cents }
    }

    pub fn cents(&self) -> (r: u64)
        ensures
            r == self@,
    {
        self.cents
    }

    /// The sum of two amounts.
    pub fn plus(self, other: Self) -> (r: Self)
        requires
            self@ + other@ <= u64::MAX,
        ensures
            r@ == self@ + other@,
    {
        Self { cents: self.cents + other.cents }
    }

    /// The difference of two amounts, the second no larger than the first.
    pub fn minus(self, other: Self) -> (r: Self)
        requires
            other@ <= self@,
        ensures
            r@ == self@ - other@,
    {
        Self { cents: self.cents - other.cents }
    }

    /// The amount divided by `n`, rounded down.
    pub fn divided(self, n: usize) -> (r: Self)
        requires
            n > 0,
        ensures
            r@ == self@ / (n as nat),
    {
        Self { cents: self.cents / n as u64 }
    }

    /// The decimal digits of the amount in cents, least significant first.
    pub fn digits(&self) -> (r: Vec<usize>)
        ensures
            r@.len() == digits_of(self@).len(),
            forall|i: int| 0 <= i < r@.len() ==> r@[i] as nat == #[trigger] digits_of(self@)[i],
    {
        let mut ret: Vec<usize> = Vec::new();
        let mut value: u64 = self.cents;
        while value > 0
            invariant
                digits_of(self@) == ret@.map_values(|d: usize| d as nat) + digits_of(value as nat),
            decreases value,
        {
            let ghost prev = ret@;
            ret.push((value % 10) as usize);
            assert(ret@.map_values(|d: usize| d as nat) =~= prev.map_values(|d: usize| d as nat).push(
                (value as nat) % 10,
            ));
            assert(digits_of(value as nat) == seq![(value as nat) % 10].add(digits_of((value / 10) as nat)));
            assert(ret@.map_values(|d: usize| d as nat) + digits_of((value / 10) as nat) =~= prev.map_values(|d: usize| d as nat) + digits_of(value as nat));
            value = value / 10;
        }
        ret
    }

    fn exact_chars(&self, separator: bool) -> (r: Vec<char>)
        ensures
            r@ == exact_text(self@, separator),
    {
        let mut digits = self.digits();
        assert(nats(digits@) =~= digits_of(self@));
        pad_digits(&mut digits, 3);
        render_chars(&digits, digits.len() - 1, 0, 2, separator)
    }

    fn precision_chars(&self, nb_digits: usize, separator: bool) -> (r: Vec<char>)
        requires
            nb_digits > 0,
            digits_of(self@).len() <= nb_digits + 11,
        ensures
            r@ == precision_text(self@, nb_digits as nat, separator),
    {
        let mut digits = self.digits();
        assert(nats(digits@) =~= digits_of(self@));
        if digits.len() <= nb_digits {
            self.exact_chars(separator)
        } else {
            let smallest_index = digits.len() - nb_digits;
            let scale: usize = if smallest_index <= 2 {
                2
            } else if smallest_index <= 5 {
                5
            } else if smallest_index <= 8 {
                8
            } else {
                11
            };
            pad_digits(&mut digits, scale + 1);
            let mut ret = render_chars(&digits, digits.len() - 1, smallest_index, scale, separator);
            if smallest_index > 8 {
                ret.push('G');
            } else if smallest_index > 5 {
                ret.push('M');
            } else if smallest_index > 2 {
                ret.push('k');
            }
            assert(ret@ =~= precision_text(self@, nb_digits as nat, separator));
            ret
        }
    }

    fn width_chars(&self, width: usize, separator: bool) -> (r: Vec<char>)
        requires
            width_writable(self@, width as nat, separator),
        ensures
            r@ == width_text(self@, width as nat, separator),
    {
        let exact = self.exact_chars(separator);
        if exact.len() <= width {
            return exact;
        }
        let digits = self.digits();
        let n = digits.len();
        let mut k: usize = if n > 0 {
            n - 1
        } else {
            0
        };
        while k > 0
            invariant
                n == digits_of(self@).len(),
                k <= top_digit(self@),
                exact_text(self@, separator).len() > width,
                fitting_digits(self@, width as nat, separator, top_digit(self@)) == fitting_digits(
                    self@,
                    width as nat,
                    separator,
                    k as nat,
                ),
            decreases k,
        {
            if n - k <= 11 {
                let text = self.precision_chars(k, separator);
                if text.len() <= width {
                    assert(fitting_digits(self@, width as nat, separator, k as nat) == k);
                    return text;
                }
            }
            k = k - 1;
        }
        self.precision_chars(1, separator)
    }

    /// Whether the amount can be written for a width of `width` (see
    /// `as_string_width`).
    pub fn width_writable_check(&self, width: usize, separator: bool) -> (r: bool)
        ensures
            r == width_writable(self@, width as nat, separator),
    {
        let exact = self.exact_chars(separator);
        if exact.len() <= width {
            return true;
        }
        let n = self.digits().len();
        let mut k: usize = if n > 0 {
            n - 1
        } else {
            0
        };
        while k > 0
            invariant
                n == digits_of(self@).len(),
                k <= top_digit(self@),
                exact_text(self@, separator).len() > width,
                fitting_digits(self@, width as nat, separator, top_digit(self@)) == fitting_digits(
                    self@,
                    width as nat,
                    separator,
                    k as nat,
                ),
            decreases k,
        {
            if n - k <= 11 {
                let text = self.precision_chars(k, separator);
                if text.len() <= width {
                    assert(fitting_digits(self@, width as nat, separator, k as nat) == k);
                    return true;
                }
            }
            k = k - 1;
        }
        n <= 12
    }

    /// The amount with exactly two decimals, with thousands separators if
    /// `separator` is set.
    pub fn as_string_exact(&self, separator: bool) -> (r: String)
        ensures
            r@ == exact_text(self@, separator),
    {
        string_of(self.exact_chars(separator))
    }

    /// The amount with `nb_digits` significant digits, scaled with a suffix
    /// (k, M, G) where digits below the cents are left out.
    pub fn as_string_precision(&self, nb_digits: usize, separator: bool) -> (r: String)
        requires
            nb_digits > 0,
            digits_of(self@).len() <= nb_digits + 11,
        ensures
            r@ == precision_text(self@, nb_digits as nat, separator),
    {
        string_of(self.precision_chars(nb_digits, separator))
    }

    /// The amount in full if it fits in `width` characters, else with as many
    /// significant digits as fit, and at least one.
    pub fn as_string_width(&self, width: usize, separator: bool) -> (r: String)
        requires
            width_writable(self@, width as nat, separator),
        ensures
            r@ == width_text(self@, width as nat, separator),
    {
        string_of(self.width_chars(width, separator))
    }

    /// `as_string_width`, right-aligned in `width` characters.
    pub fn as_string_width_padded(&self, width: usize, separator: bool) -> (r: String)
        requires
            width_writable(self@, width as nat, separator),
        ensures
            r@ == pad_left(width_text(self@, width as nat, separator), width as nat),
    {
        string_of(pad_chars(self.width_chars(width, separator), width))
    }

    /// Apportions the amount by the weights: part `i` is the floor of
    /// `self * weights[i] / sum(weights)`, and the cents left over go one each
    /// to the first parts, in order.
    pub fn subdiv(&self, weights: Vec<usize>) -> (r: Vec<Self>)
        requires
            weight_sum(weights@) > 0,
        ensures
            r@.len() == weights@.len(),
            forall|i: int| 0 <= i < r@.len() ==> #[trigger] r@[i]@ == subdiv_part(self@, weights@, i),
            amounts_total(r@) == self@,
    {
        let ghost ws = weights@;
        let ghost c = self@;
        let n = weights.len();
        let mut wsum: u128 = 0;
        let mut i: usize = 0;
        while i < n
            invariant
                i <= n == ws.len(),
                ws == weights@,
                wsum == weight_sum(ws.take(i as int)),
            decreases n - i,
        {
            proof {
                lemma_weight_prefix(ws, i as int);
                lemma_weight_bound(ws, i as int);
                assert(i * (usize::MAX as int) + usize::MAX <= 0xffff_ffff_ffff_ffff_ffff_ffff_ffff_ffffint) by (nonlinear_arith)
                    requires i <= usize::MAX;
            }
            wsum = wsum + weights[i] as u128;
            i = i + 1;
        }
        assert(ws.take(n as int) =~= ws);
        let ghost total = weight_sum(ws);
        let mut parts: Vec<u64> = Vec::new();
        let mut parts_total: u64 = 0;
        i = 0;
        while i < n
            invariant
                i <= n == ws.len(),
                ws == weights@,
                c == self@,
                wsum == total == weight_sum(ws),
                total > 0,
                parts@.len() == i,
                forall|j: int| 0 <= j < i ==> #[trigger] parts@[j] == c * (ws[j] as nat) / total,
                parts_total == floor_sum(c, ws, total, i as nat),
                parts_total <= c,
            decreases n - i,
        {
            proof {
                lemma_weight_prefix(ws, i as int);
                lemma_floor_sum_bounds(c, ws, total, (i + 1) as nat);
                let f = floor_sum(c, ws, total, (i + 1) as nat);
                let wp = weight_sum(ws.take(i + 1));
                assert(f <= c) by (nonlinear_arith)
                    requires f * total <= c * wp, wp <= total, total > 0;
                lemma_floor_sum_mono(c, ws, total, i as nat, (i + 1) as nat);
                let w = weights@[i as int] as nat;
                assert(w <= total);
                assert(c * w <= u64::MAX * usize::MAX) by (nonlinear_arith)
                    requires c <= u64::MAX, w <= usize::MAX;
                assert(c * w / total <= c) by (nonlinear_arith)
                    requires w <= total, total > 0;
            }
            let share = (self.cents as u128 * weights[i] as u128 / wsum) as u64;
            parts.push(share);
            parts_total = parts_total + share;
            i = i + 1;
        }
        proof {
            lemma_floor_sum_bounds(c, ws, total, n as nat);
            let f = floor_sum(c, ws, total, n as nat);
            assert(c < f + n) by (nonlinear_arith)
                requires c * total < f * total + n * total, total > 0, n > 0;
        }
        let rem = (self.cents - parts_total) as usize;
        let ghost base = parts@;
        let mut k: usize = 0;
        while k < rem
            invariant
                k <= rem < n == ws.len() == parts@.len() == base.len(),
                rem == subdiv_remainder(c, ws),
                total == weight_sum(ws) > 0,
                c == self@,
                rem >= 1 ==> parts_total + 1 <= c,
                parts_total == floor_sum(c, ws, total, n as nat),
                forall|j: int| 0 <= j < n ==> #[trigger] base[j] == c * (ws[j] as nat) / total,
                forall|j: int| 0 <= j < n ==> #[trigger] parts@[j] == base[j] + (if j < k { 1int } else { 0int }),
            decreases rem - k,
        {
            proof {
                lemma_floor_sum_mono(c, ws, total, k as nat, n as nat);
                assert(parts@[k as int] == base[k as int]);
            }
            parts.set(k, parts[k] + 1);
            k = k + 1;
        }
        let mut ret: Vec<Self> = Vec::new();
        i = 0;
        while i < n
            invariant
                i <= n == parts@.len() == ws.len(),
                ret@.len() == i,
                forall|j: int| 0 <= j < i ==> #[trigger] ret@[j]@ == parts@[j],
            decreases n - i,
        {
            ret.push(Self::new(parts[i]));
            i = i + 1;
        }
        proof {
            assert forall|j: int| 0 <= j < ret@.len() implies #[trigger] ret@[j]@ == subdiv_part(c, ws, j) by {}
            lemma_amounts_total(ret@, c, ws, n as nat);
            lemma_parts_sum(c, ws, n as nat);
            assert(ret@.take(n as int) =~= ret@);
        }
        ret
    }
}

} // verus!

verus! {

/// The sign written before a signed amount: `-`, `+`, or nothing for zero.
pub open spec fn sign_text(v: int) -> Seq<char> {
    if v < 0 {
        seq!['-']
    } else if v > 0 {
        seq!['+']
    } else {
        Seq::empty()
    }
}

/// The magnitude of `v`.
pub open spec fn magnitude(v: int) -> nat {
    if v < 0 {
        (-v) as nat
    } else {
        v as nat
    }
}

/// A signed amount of money, counted in cents.
#[derive(Debug, Copy, Clone, PartialEq, Eq, Structural, PartialOrd, Ord)]
pub struct SignedCentsAmount {
    cents: i64,
}

impl View for SignedCentsAmount {
    type V = int;

    closed spec fn view(&self) -> int {
        self.cents as int
    }
}

fn with_sign(v: i64, text: Vec<char>) -> (r: Vec<char>)
    ensures
        r@ == sign_text(v as int) + text@,
{
    let mut ret: Vec<char> = Vec::new();
    if v < 0 {
        ret.push('-');
    } else if v > 0 {
        ret.push('+');
    }
    let ghost sign = ret@;
    let mut k: usize = 0;
    while k < text.len()
        invariant
            k <= text@.len(),
            ret@ =~= sign + text@.subrange(0, k as int),
        decreases text@.len() - k,
    {
        ret.push(text[k]);
        k = k + 1;
    }
    assert(ret@ =~= sign_text(v as int) + text@);
    ret
}

impl SignedCentsAmount {
    pub fn new(cents: i64) -> (r: Self)
        ensures
            r@ == cents,
    {
        Self { cents }
    }

    pub fn cents(&self) -> (r: i64)
        ensures
            r == self@,
    {
        self.cents
    }

    /// The amount, counted as a credit.
    pub fn positive(amount: CentsAmount) -> (r: Self)
        requires
            amount@ <= i64::MAX,
        ensures
            r@ == amount@,
    {
        Self { cents: amount.cents() as i64 }
    }

    /// The amount, counted as a debit.
    pub fn negative(amount: CentsAmount) -> (r: Self)
        requires
            amount@ <= i64::MAX,
        ensures
            r@ == -amount@,
    {
        Self { cents: -(amount.cents() as i64) }
    }

    /// The magnitude of the amount.
    pub fn abs(&self) -> (r: CentsAmount)
        ensures
            r@ == magnitude(self@),
    {
        if self.cents < 0 {
            CentsAmount::new((-(self.cents as i128)) as u64)
        } else {
            CentsAmount::new(self.cents as u64)
        }
    }

    /// The sum of two signed amounts.
    pub fn plus(self, other: Self) -> (r: Self)
        requires
            i64::MIN <= self@ + other@ <= i64::MAX,
        ensures
            r@ == self@ + other@,
    {
        Self { cents: self.cents + other.cents }
    }

    /// The amount with its sign and exactly two decimals.
    pub fn as_string_exact(&self, separator: bool) -> (r: String)
        ensures
            r@ == sign_text(self@) + exact_text(magnitude(self@), separator),
    {
        string_of(with_sign(self.cents, self.abs().exact_chars(separator)))
    }

    /// The amount with its sign and `nb_digits` significant digits.
    pub fn as_string_precision(&self, nb_digits: usize, separator: bool) -> (r: String)
        requires
            nb_digits > 0,
            digits_of(magnitude(self@)).len() <= nb_digits + 11,
        ensures
            r@ == sign_text(self@) + precision_text(magnitude(self@), nb_digits as nat, separator),
    {
        string_of(with_sign(self.cents, self.abs().precision_chars(nb_digits, separator)))
    }

    /// The amount with its sign, the magnitude written in `width - 1`
    /// characters as `CentsAmount::as_string_width` does.
    pub fn as_string_width(&self, width: usize, separator: bool) -> (r: String)
        requires
            width >= 1,
            width_writable(magnitude(self@), (width - 1) as nat, separator),
        ensures
            r@ == sign_text(self@) + width_text(magnitude(self@), (width - 1) as nat, separator),
    {
        string_of(with_sign(self.cents, self.abs().width_chars(width - 1, separator)))
    }

    /// `as_string_width`, right-aligned in `width` characters.
    pub fn as_string_width_padded(&self, width: usize, separator: bool) -> (r: String)
        requires
            width >= 1,
            width_writable(magnitude(self@), (width - 1) as nat, separator),
        ensures
            r@ == pad_left(
                sign_text(self@) + width_text(magnitude(self@), (width - 1) as nat, separator),
                width as nat,
            ),
    {
        let text = with_sign(self.cents, self.abs().width_chars(width - 1, separator));
        string_of(pad_chars(text, width))
    }
}

} // verus!
