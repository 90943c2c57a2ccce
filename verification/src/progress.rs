//! A basic command-line progress bar.

use vstd::prelude::*;

use crate::text::decimal;
use crate::text::push_decimal;

verus! {

/// How many of `width` cells are filled after `current` of `total` units.
pub open spec fn filled_cells(current: nat, total: nat, width: nat) -> nat {
    let share = current * width / total;
    if share < width {
        share
    } else {
        width
    }
}

/// A bar of `width` cells between brackets, the first `filled` of them filled.
pub open spec fn bar_text(filled: nat, width: nat) -> Seq<char> {
    seq!['['] + Seq::new(
        width,
        |i: int|
            if i < filled {
                '='
            } else {
                ' '
            },
    ) + seq![']']
}

/// The bar and the figures behind it.
pub open spec fn status_text(current: nat, total: nat, width: nat, percent: nat) -> Seq<char> {
    bar_text(filled_cells(current, total, width), width) + "  "@ + decimal(current) + " / "@
        + decimal(total) + " ("@ + decimal(percent) + "%)"@
}

/// Progress bar for a task of a known size.
pub struct Progress {
    total: usize,
    width: usize,
}

/// Size of the task, and width of the bar.
pub struct ProgressState {
    pub total: nat,
    pub width: nat,
}

impl View for Progress {
    type V = ProgressState;

    closed spec fn view(&self) -> ProgressState {
        ProgressState { total: self.total as nat, width: self.width as nat }
    }
}

/// Appends a bar.
fn push_bar(text: &mut String, filled: usize, width: usize)
    ensures
        final(text)@ == old(text)@ + bar_text(filled as nat, width as nat),
{
    proof {
        reveal_strlit("[");
        reveal_strlit("]");
        reveal_strlit("=");
        reveal_strlit(" ");
    }
    text.append("[");
    let mut i: usize = 0;
    while i < width
        invariant
            i <= width,
            "="@ =~= seq!['='],
            " "@ =~= seq![' '],
            text@ =~= old(text)@ + seq!['['] + bar_text(filled as nat, width as nat).subrange(
                1,
                1 + i,
            ),
        decreases width - i,
    {
        if i < filled {
            text.append("=");
        } else {
            text.append(" ");
        }
        i += 1;
    }
    text.append("]");
    assert(text@ =~= old(text)@ + bar_text(filled as nat, width as nat));
}

impl Progress {
    /// A bar for `total` units of work, `width` cells wide.
    pub fn new(total: usize, width: usize) -> (res: Self)
        ensures
            res@ == (ProgressState { total: total as nat, width: width as nat }),
    {
        Progress { total, width }
    }

    /// The text to show before anything is done.
    pub fn start(&self) -> (res: String)
        ensures
            res@ == bar_text(0, self@.width) + "  0 / "@ + decimal(self@.total) + " (0%)"@,
    {
        let mut text: String = String::new();
        push_bar(&mut text, 0, self.width);
        text.append("  0 / ");
        push_decimal(&mut text, self.total as u128);
        text.append(" (0%)");
        assert(Seq::<char>::empty() + bar_text(0, self@.width) =~= bar_text(0, self@.width));
        text
    }

    /// The text to show, over the one before, when `current` units are done.
    pub fn update(&self, current: usize) -> (res: String)
        requires
            self@.total > 0,
            current * self@.width <= usize::MAX,
            current * 100 <= usize::MAX,
        ensures
            res@ == "\r"@ + status_text(
                current as nat,
                self@.total,
                self@.width,
                (current * 100 / self@.total as int) as nat,
            ),
            res@ == "\r"@ + bar_text(
                filled_cells(current as nat, self@.total, self@.width),
                self@.width,
            ) + "  "@ + decimal(current as nat) + " / "@ + decimal(self@.total) + " ("@ + decimal(
                (current * 100 / self@.total as int) as nat,
            ) + "%)"@,
    {
        let share: usize = current * self.width / self.total;
        let filled: usize = if share < self.width {
            share
        } else {
            self.width
        };
        let percent: usize = current * 100 / self.total;
        let mut text: String = "\r".to_owned();
        push_bar(&mut text, filled, self.width);
        text.append("  ");
        push_decimal(&mut text, current as u128);
        text.append(" / ");
        push_decimal(&mut text, self.total as u128);
        text.append(" (");
        push_decimal(&mut text, percent as u128);
        text.append("%)");
        assert(text@ =~= "\r"@ + status_text(
            current as nat,
            self@.total,
            self@.width,
            (current * 100 / self@.total as int) as nat,
        ));
        assert(text@ =~= "\r"@ + bar_text(
            filled_cells(current as nat, self@.total, self@.width),
            self@.width,
        ) + "  "@ + decimal(current as nat) + " / "@ + decimal(self@.total) + " ("@ + decimal(
            (current * 100 / self@.total as int) as nat,
        ) + "%)"@);
        text
    }

    /// The text to show when the work is over: the end of the line.
    pub fn done(&self) -> (res: String)
        ensures
            res@ == "\n"@,
    {
        "\n".to_owned()
    }
}

/// A bar is as wide as its cells and its two brackets.
pub proof fn law_bar_width(filled: nat, width: nat)
    ensures
        bar_text(filled, width).len() == width + 2,
{
}

/// What a bar looks like: brackets around cells, of which the first ones are filled.
pub proof fn law_bar_cells(filled: nat, width: nat)
    ensures
        bar_text(filled, width).len() == width + 2,
        bar_text(filled, width)[0] == '[',
        bar_text(filled, width)[1 + width as int] == ']',
        forall|i: int|
            0 <= i < width && i < filled ==> #[trigger] bar_text(filled, width)[1 + i] == '=',
        forall|i: int| filled <= i < width ==> #[trigger] bar_text(filled, width)[1 + i] == ' ',
{
}

/// A cell is filled exactly when the share of the work that it stands for is done.
pub proof fn law_filled_share(current: nat, total: nat, width: nat, cell: nat)
    requires
        total > 0,
        cell < width,
    ensures
        cell < filled_cells(current, total, width) <==> (cell + 1) * total <= current * width,
{
    let (done, share) = ((current * width) as int, (current * width / total) as int);
    let (t, c) = (total as int, cell as int);
    vstd::arithmetic::div_mod::lemma_fundamental_div_mod(done, t);
    vstd::arithmetic::div_mod::lemma_mod_bound(done, t);
    assert(c + 1 <= share ==> (c + 1) * t <= t * share) by (nonlinear_arith)
        requires
            t > 0,
    ;
    assert(c + 1 > share ==> (c + 1) * t >= t * share + t) by (nonlinear_arith)
        requires
            t > 0,
    ;
}

/// The bar never shrinks as work gets done.
pub proof fn law_bar_grows(current: nat, later: nat, total: nat, width: nat)
    requires
        total > 0,
        current <= later,
    ensures
        filled_cells(current, total, width) <= filled_cells(later, total, width) <= width,
{
    assert(current * width <= later * width) by (nonlinear_arith)
        requires
            current <= later,
    ;
    vstd::arithmetic::div_mod::lemma_div_is_ordered(
        (current * width) as int,
        (later * width) as int,
        total as int,
    );
}

/// Once all of the work is done the bar is full, at one hundred percent.
pub proof fn law_bar_completes(total: nat, width: nat)
    requires
        total > 0,
    ensures
        filled_cells(total, total, width) == width,
        total * 100 / total == 100,
{
    vstd::arithmetic::mul::lemma_mul_is_commutative(total as int, width as int);
    vstd::arithmetic::div_mod::lemma_div_multiples_vanish(width as int, total as int);
    vstd::arithmetic::div_mod::lemma_div_multiples_vanish(100, total as int);
}

} // verus!
