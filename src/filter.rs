//! Selecting records by status and due date: today, this week, all, or overdue.

use vstd::prelude::*;
use crate::date::{max_day, min_day, Date, MAX_YEAR};
use crate::text::same_text;
use crate::todoitem::TodoItem;

verus! {

#[derive(Clone, Copy, Debug, PartialEq, Eq, Structural)]
pub enum Filter {
    Today,
    Week,
    All,
    Overdue,
}

/// The due dates a filter admits: any (even none), those between two dates
/// inclusive, or none at all.
#[derive(Clone, Copy, Debug, PartialEq, Eq, Structural)]
pub enum DueWindow {
    Any,
    Between(Date, Date),
    Nothing,
}

pub open spec fn filter_named(s: Seq<char>) -> Option<Filter> {
    if s == seq!['t', 'o', 'd', 'a', 'y'] {
        Some(Filter::Today)
    } else if s == seq!['w', 'e', 'e', 'k'] {
        Some(Filter::Week)
    } else if s == seq!['a', 'l', 'l'] {
        Some(Filter::All)
    } else if s == seq!['o', 'v', 'e', 'r', 'd', 'u', 'e'] {
        Some(Filter::Overdue)
    } else {
        None
    }
}

/// The filter named `today`, `week`, `all` or `overdue`.
pub fn parse_filter(s: &str) -> (r: Option<Filter>)
    ensures
        r == filter_named(s@),
{
    proof {
        reveal_strlit("today");
        reveal_strlit("week");
        reveal_strlit("all");
        reveal_strlit("overdue");
        assert("today"@ =~= seq!['t', 'o', 'd', 'a', 'y']);
        assert("week"@ =~= seq!['w', 'e', 'e', 'k']);
        assert("all"@ =~= seq!['a', 'l', 'l']);
        assert("overdue"@ =~= seq!['o', 'v', 'e', 'r', 'd', 'u', 'e']);
    }
    if same_text(s, "today") {
        Some(Filter::Today)
    } else if same_text(s, "week") {
        Some(Filter::Week)
    } else if same_text(s, "all") {
        Some(Filter::All)
    } else if same_text(s, "overdue") {
        Some(Filter::Overdue)
    } else {
        None
    }
}

pub open spec fn window_holds(w: DueWindow, due: Option<Date>) -> bool {
    match w {
        DueWindow::Any => true,
        DueWindow::Between(a, b) => due matches Some(d) && a.on_or_before(d) && d.on_or_before(b),
        DueWindow::Nothing => false,
    }
}

pub open spec fn last_date() -> Date {
    Date { year: MAX_YEAR, month: 12, day: 31 }
}

/// The due dates that `f` admits on `today`: today alone; today to six days
/// later (up to the last date there is); anything; or every date before today.
pub fn due_window(f: Filter, today: Date) -> (r: DueWindow)
    requires
        today.wf(),
    ensures
        f == Filter::Today ==> r == DueWindow::Between(today, today),
        f == Filter::All ==> r == DueWindow::Any,
        f == Filter::Week ==> (r matches DueWindow::Between(a, b) && a == today && b.wf() && (
        b.day_number() == today.day_number() + 6 || (b == last_date() && !(min_day()
            <= today.day_number() + 6 <= max_day())))),
        f == Filter::Overdue ==> (r == DueWindow::Nothing <==> !(min_day() <= today.day_number()
            - 1 <= max_day())),
        f == Filter::Overdue ==> (r matches DueWindow::Between(a, b) ==> a.wf() && (forall|
            d: Date,
        | d.wf() ==> a.on_or_before(d)) && b.wf() && b.day_number() == today.day_number() - 1),
{
    match f {
        Filter::Today => DueWindow::Between(today, today),
        Filter::Week => match today.plus_days(6) {
            Some(end) => DueWindow::Between(today, end),
            None => DueWindow::Between(today, Date { year: MAX_YEAR, month: 12, day: 31 }),
        },
        Filter::All => DueWindow::Any,
        Filter::Overdue => match today.minus_days(1) {
            Some(end) => DueWindow::Between(Date::min_value(), end),
            None => DueWindow::Nothing,
        },
    }
}

/// Whether `due` lies in the window.
pub fn in_window(w: &DueWindow, due: Option<Date>) -> (r: bool)
    ensures
        r == window_holds(*w, due),
{
    match w {
        DueWindow::Any => true,
        DueWindow::Between(a, b) => match due {
            Some(d) => a.on_or_before_exec(&d) && d.on_or_before_exec(b),
            None => false,
        },
        DueWindow::Nothing => false,
    }
}

/// The positions, in order, of the records with status `done` whose due
/// date lies in the window.
pub open spec fn selected(items: Seq<TodoItem>, done: bool, w: DueWindow) -> Seq<usize>
    decreases items.len(),
{
    if items.len() == 0 {
        seq![]
    } else {
        let r = selected(items.drop_last(), done, w);
        if items.last().done == done && window_holds(w, items.last().due) {
            r.push((items.len() - 1) as usize)
        } else {
            r
        }
    }
}

pub fn select(items: &Vec<TodoItem>, done: bool, w: &DueWindow) -> (r: Vec<usize>)
    ensures
        r@ == selected(items@, done, *w),
        forall|i: int| 0 <= i < r@.len() ==> r@[i] < items@.len(),
{
    let mut out: Vec<usize> = Vec::new();
    let mut k: usize = 0;
    assert(items@.subrange(0, 0) =~= Seq::<TodoItem>::empty());
    while k < items.len()
        invariant
            k <= items@.len(),
            out@ == selected(items@.subrange(0, k as int), done, *w),
            forall|i: int| 0 <= i < out@.len() ==> out@[i] < k,
        decreases items@.len() - k,
    {
        assert(items@.subrange(0, k + 1).drop_last() =~= items@.subrange(0, k as int));
        assert(items@.subrange(0, k + 1).last() == items@[k as int]);
        if items[k].done == done && in_window(w, items[k].due) {
            out.push(k);
        }
        k = k + 1;
    }
    assert(items@.subrange(0, k as int) =~= items@);
    out
}

/// The `k`-th listed position, counting from 1.
pub fn nth_listed(positions: &Vec<usize>, k: usize) -> (r: Option<usize>)
    ensures
        1 <= k <= positions@.len() ==> r == Some(positions@[k - 1]),
        !(1 <= k <= positions@.len()) ==> r is None,
{
    if k > 0 && k <= positions.len() {
        Some(positions[k - 1])
    } else {
        None
    }
}

/// The first listed position whose record carries identifier `id`.
pub fn find_by_id(items: &Vec<TodoItem>, positions: &Vec<usize>, id: u128) -> (r: Option<usize>)
    requires
        forall|i: int| 0 <= i < positions@.len() ==> positions@[i] < items@.len(),
    ensures
        r matches Some(i) ==> exists|p: int|
            0 <= p < positions@.len() && positions@[p] == i && items@[i as int].uuid == Some(id)
                && forall|q: int|
                0 <= q < p ==> items@[positions@[q] as int].uuid != Some(id),
        r is None ==> forall|q: int|
            0 <= q < positions@.len() ==> items@[positions@[q] as int].uuid != Some(id),
{
    let mut k: usize = 0;
    while k < positions.len()
        invariant
            k <= positions@.len(),
            forall|i: int| 0 <= i < positions@.len() ==> positions@[i] < items@.len(),
            forall|q: int| 0 <= q < k ==> items@[positions@[q] as int].uuid != Some(id),
        decreases positions@.len() - k,
    {
        let i = positions[k];
        if items[i].uuid == Some(id) {
            return Some(i);
        }
        k = k + 1;
    }
    None
}

} // verus!
