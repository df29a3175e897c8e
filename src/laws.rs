use vstd::prelude::*;

use crate::app::{clamped, next_sel, App};
use crate::process::{sorted_by, SortColumn};

verus! {

/// Sorting by one column twice in a row: after each call the snapshot is
/// sorted by the resulting column and direction, the second call flips the
/// direction of the first, and from another column the two calls give
/// ascending and then descending order.
pub proof fn lemma_set_sort_toggle(a: App, b: App, c: App, col: SortColumn)
    requires
        App::sort_step(a, col, b),
        App::sort_step(b, col, c),
    ensures
        sorted_by(b.sort_column, b.sort_ascending, b.processes@),
        sorted_by(c.sort_column, c.sort_ascending, c.processes@),
        b.sort_column == col && c.sort_column == col,
        c.sort_ascending == !b.sort_ascending,
        a.sort_column != col ==> b.sort_ascending && !c.sort_ascending,
{
}

/// Deriving the view twice from the same snapshot and query gives the same
/// visible rows and the same selection as deriving it once.
pub proof fn lemma_apply_filter_idempotent(a: App, b: App, c: App)
    requires
        App::filter_step(a, b),
        App::filter_step(b, c),
    ensures
        c.filtered_processes@ == b.filtered_processes@,
        c.selected == b.selected,
{
    let n = b.filtered_processes@.len();
    assert(clamped(clamped(a.selected, n), n) == clamped(a.selected, n));
}

proof fn lemma_next_times(a: App, i: usize, k: nat)
    requires
        a.selected == Some(i),
        i < a.filtered_processes@.len(),
    ensures
        App::moved_next_times(a, k) == (App {
            selected: Some(((i + k) % (a.filtered_processes@.len() as int)) as usize),
            ..a
        }),
    decreases k,
{
    let n = a.filtered_processes@.len() as int;
    if k == 0 {
        vstd::arithmetic::div_mod::lemma_small_mod(i as nat, n as nat);
    } else {
        lemma_next_times(a, i, (k - 1) as nat);
        let prev = App::moved_next_times(a, (k - 1) as nat);
        let r = (i + k - 1) % n;
        vstd::std_specs::vec::axiom_spec_len(&a.filtered_processes);
        vstd::arithmetic::div_mod::lemma_mod_bound(i + k - 1, n);
        vstd::arithmetic::div_mod::lemma_mod_bound(i + k, n);
        assert(next_sel(prev.selected, n as nat) == Some(((r + 1) % n) as usize));
        vstd::arithmetic::div_mod::lemma_add_mod_noop(i + k - 1, 1, n);
        if n > 1 {
            vstd::arithmetic::div_mod::lemma_small_mod(1, n as nat);
        } else {
            assert((r + 1) % 1 == 0 && (i + k) % 1 == 0);
        }
    }
}

/// Moving down as many times as there are visible rows comes back to the
/// row that was selected.
pub proof fn lemma_move_next_wraps(a: App)
    requires
        a.wf(),
        a.selected is Some,
    ensures
        App::moved_next_times(a, a.filtered_processes@.len()) == a,
{
    let i = a.selected->Some_0;
    let n = a.filtered_processes@.len();
    lemma_next_times(a, i, n);
    vstd::arithmetic::div_mod::lemma_mod_add_multiples_vanish(i as int, n as int);
    vstd::arithmetic::div_mod::lemma_small_mod(i as nat, n);
}

} // verus!
