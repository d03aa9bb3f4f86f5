//! Putting rows in order: sessions by the time at which they started, tasks by their date and,
//! on one date, by the time at which they start.

use crate::session::{FocusSession, FocusSessionView};
use crate::task::{Task, TaskView};
use crate::text::{lemma_precedes_total, lemma_precedes_transitive, precedes, str_lt};
use vstd::prelude::*;

verus! {

/// A row of a table whose rows have an order.
pub trait Ranked: DeepView + Sized {
    /// Whether the row `a` comes strictly before the row `b`.
    spec fn before(a: Self::V, b: Self::V) -> bool;

    /// Of two rows, at most one comes before the other.
    proof fn lemma_before_asymmetric(a: Self::V, b: Self::V)
        requires
            Self::before(a, b),
        ensures
            !Self::before(b, a),
    ;

    /// A row that comes before a row that comes before a third comes before the third.
    proof fn lemma_before_transitive(a: Self::V, b: Self::V, c: Self::V)
        requires
            Self::before(a, b),
            Self::before(b, c),
        ensures
            Self::before(a, c),
    ;

    /// Tells whether the row comes strictly before the other.
    fn comes_before(&self, other: &Self) -> (r: bool)
        ensures
            r == Self::before(self.deep_view(), other.deep_view()),
    ;
}

impl Ranked for FocusSession {
    /// Sessions go by the time at which they started.
    open spec fn before(a: FocusSessionView, b: FocusSessionView) -> bool {
        precedes(a.started_at, b.started_at)
    }

    proof fn lemma_before_asymmetric(a: FocusSessionView, b: FocusSessionView) {
        lemma_precedes_total(a.started_at, b.started_at);
    }

    proof fn lemma_before_transitive(a: FocusSessionView, b: FocusSessionView, c: FocusSessionView) {
        lemma_precedes_transitive(a.started_at, b.started_at, c.started_at);
    }

    fn comes_before(&self, other: &Self) -> (r: bool) {
        str_lt(self.started_at.as_str(), other.started_at.as_str())
    }
}

impl Ranked for Task {
    /// Tasks go by their date and, on one date, by the time at which they start.
    open spec fn before(a: TaskView, b: TaskView) -> bool {
        precedes(a.date, b.date) || (a.date == b.date && precedes(a.start_time, b.start_time))
    }

    proof fn lemma_before_asymmetric(a: TaskView, b: TaskView) {
        lemma_precedes_total(a.date, b.date);
        lemma_precedes_total(a.start_time, b.start_time);
    }

    proof fn lemma_before_transitive(a: TaskView, b: TaskView, c: TaskView) {
        if precedes(a.date, b.date) {
            if precedes(b.date, c.date) {
                lemma_precedes_transitive(a.date, b.date, c.date);
            }
        } else if !precedes(b.date, c.date) {
            lemma_precedes_transitive(a.start_time, b.start_time, c.start_time);
        }
    }

    fn comes_before(&self, other: &Self) -> (r: bool) {
        str_lt(self.date.as_str(), other.date.as_str()) || (self.date == other.date && str_lt(
            self.start_time.as_str(),
            other.start_time.as_str(),
        ))
    }
}

/// Whether the rows stand in their order: no row comes before a row in front of it. Rows of
/// which neither comes before the other may stand either way.
pub open spec fn ranked<T: Ranked>(rows: Seq<T::V>) -> bool {
    forall|i: int, j: int|
        0 <= i < j < rows.len() ==> !T::before(#[trigger] rows[j], #[trigger] rows[i])
}

/// Finds the place of a row among rows that stand in their order: the index of the first row
/// that the row comes before.
fn place<T: Ranked>(rows: &Vec<T>, row: &T) -> (p: usize)
    ensures
        p <= rows.len(),
        forall|i: int| 0 <= i < p ==> !T::before(row.deep_view(), #[trigger] rows.deep_view()[i]),
        p < rows.len() ==> T::before(row.deep_view(), rows.deep_view()[p as int]),
{
    let mut p: usize = 0;
    while p < rows.len()
        invariant
            p <= rows.len(),
            forall|i: int|
                0 <= i < p ==> !T::before(row.deep_view(), #[trigger] rows.deep_view()[i]),
        decreases rows.len() - p,
    {
        assert(rows.deep_view()[p as int] == rows[p as int].deep_view());
        if row.comes_before(&rows[p]) {
            return p;
        }
        p = p + 1;
    }
    p
}

/// Rows that stand in their order still do once a row is put at its place.
pub proof fn lemma_insert_keeps_ranked<T: Ranked>(rows: Seq<T::V>, p: int, row: T::V)
    requires
        ranked::<T>(rows),
        0 <= p <= rows.len(),
        forall|i: int| 0 <= i < p ==> !T::before(row, #[trigger] rows[i]),
        p < rows.len() ==> T::before(row, rows[p]),
    ensures
        ranked::<T>(rows.insert(p, row)),
{
    let after = rows.insert(p, row);
    assert forall|i: int, j: int| 0 <= i < j < after.len() implies !T::before(
        #[trigger] after[j],
        #[trigger] after[i],
    ) by {
        if j == p {
            assert(after[i] == rows[i]);
        } else if i == p {
            assert(after[j] == rows[j - 1]);
            if T::before(rows[j - 1], row) {
                if j - 1 == p {
                    T::lemma_before_asymmetric(row, rows[p]);
                } else {
                    T::lemma_before_transitive(rows[j - 1], row, rows[p]);
                    assert(!T::before(rows[j - 1], rows[p]));
                }
            }
        } else {
            let a = if i < p {
                i
            } else {
                i - 1
            };
            let b = if j < p {
                j
            } else {
                j - 1
            };
            assert(after[i] == rows[a]);
            assert(after[j] == rows[b]);
        }
    }
}

/// Puts rows in their order. The rows that come out are the rows that went in, each as often
/// as it went in.
pub fn sort<T: Ranked>(rows: Vec<T>) -> (r: Vec<T>)
    ensures
        ranked::<T>(r.deep_view()),
        r.deep_view().to_multiset() == rows.deep_view().to_multiset(),
{
    broadcast use {vstd::seq_lib::group_to_multiset_ensures, vstd::multiset::group_multiset_axioms};

    let ghost all = rows.deep_view();
    let mut rest = rows;
    let mut out: Vec<T> = Vec::new();
    assert(out.deep_view() =~= Seq::empty());
    assert(out.deep_view().to_multiset().add(rest.deep_view().to_multiset())
        =~= all.to_multiset());
    while rest.len() > 0
        invariant
            ranked::<T>(out.deep_view()),
            out.deep_view().to_multiset().add(rest.deep_view().to_multiset()) == all.to_multiset(),
        decreases rest.len(),
    {
        let ghost rest_before = rest.deep_view();
        let ghost out_before = out.deep_view();
        match rest.pop() {
            Some(row) => {
                assert(rest_before =~= rest.deep_view().push(row.deep_view()));
                let p = place(&out, &row);
                proof {
                    lemma_insert_keeps_ranked::<T>(out_before, p as int, row.deep_view());
                }
                let ghost plain = row.deep_view();
                out.insert(p, row);
                assert(out.deep_view() =~= out_before.insert(p as int, plain));
                proof {
                    vstd::seq_lib::to_multiset_insert(out_before, p as int, plain);
                    vstd::seq_lib::to_multiset_build(rest.deep_view(), plain);
                }
                assert(out.deep_view().to_multiset().add(rest.deep_view().to_multiset())
                    =~= out_before.to_multiset().add(rest_before.to_multiset()));
            },
            None => {},
        }
    }
    assert(rest.deep_view() =~= Seq::empty());
    assert(out.deep_view().to_multiset() =~= all.to_multiset());
    out
}

} // verus!
