//! A short look at each column: all of a short column, the two ends of a
//! long one.

use vstd::prelude::*;
use crate::column::{Column, ColumnData, ColumnView, Values, lemma_cut_len};
use crate::table::{Table, views};

verus! {

/// How many values of each end of a long column a summary shows, unless the
/// caller asks for another number.
pub const SAMPLE_EDGE: usize = 3;

/// The sample of one column.
#[derive(Clone, Debug, PartialEq, Eq)]
pub struct ColumnSummary {
    pub name: String,
    /// The values that come first: all of them where nothing was left out.
    pub first: ColumnData,
    /// The values that come after the gap; none where nothing was left out.
    pub last: ColumnData,
    /// Whether values between `first` and `last` were left out.
    pub elided: bool,
}

/// The mathematical model of [`ColumnSummary`].
pub struct SummaryView {
    pub name: Seq<char>,
    pub first: Values,
    pub last: Values,
    pub elided: bool,
}

impl View for ColumnSummary {
    type V = SummaryView;

    open spec fn view(&self) -> SummaryView {
        SummaryView {
            name: self.name@,
            first: self.first@,
            last: self.last@,
            elided: self.elided,
        }
    }
}

/// The sample of a column: the whole column where it has no more than twice
/// `edge` values, else its first `edge` and its last `edge` values with a gap
/// between them.
pub open spec fn summary_of(c: ColumnView, edge: nat) -> SummaryView {
    if c.values.len() <= 2 * edge {
        SummaryView { name: c.name, first: c.values, last: c.values.subrange(0, 0), elided: false }
    } else {
        SummaryView {
            name: c.name,
            first: c.values.head(edge),
            last: c.values.tail(edge),
            elided: true,
        }
    }
}

/// The samples of the columns, in column order.
pub open spec fn summaries_of(cols: Seq<ColumnView>, edge: nat) -> Seq<SummaryView> {
    cols.map_values(|c: ColumnView| summary_of(c, edge))
}

/// The models of a sequence of samples.
pub open spec fn summary_views(s: Seq<ColumnSummary>) -> Seq<SummaryView> {
    s.map_values(|x: ColumnSummary| x@)
}

/// The models of samples with one more sample are the models with one more
/// model.
proof fn lemma_summary_views_push(s: Seq<ColumnSummary>, x: ColumnSummary)
    ensures
        summary_views(s.push(x)) == summary_views(s).push(x@),
{
}

/// A sample leaves values out exactly when the column is longer than twice
/// the edge, and then shows `edge` values on each side of the gap; else it
/// shows every value once.
pub proof fn lemma_summary_size(c: ColumnView, edge: nat)
    ensures
        summary_of(c, edge).elided <==> c.values.len() > 2 * edge,
        summary_of(c, edge).elided ==> summary_of(c, edge).first.len() == edge && summary_of(
            c,
            edge,
        ).last.len() == edge,
        !summary_of(c, edge).elided ==> summary_of(c, edge).first == c.values && summary_of(
            c,
            edge,
        ).last.len() == 0,
{
    lemma_cut_len(c.values, edge);
}

impl Column {
    /// The sample of the column with `edge` values on each side of the gap.
    pub fn summary(&self, edge: usize) -> (out: ColumnSummary)
        ensures
            out@ == summary_of(self@, edge as nat),
    {
        let len: usize = self.len();
        if len <= edge || len - edge <= edge {
            ColumnSummary {
                name: self.name.clone(),
                first: self.data.duplicate(),
                last: self.data.slice(0, 0),
                elided: false,
            }
        } else {
            ColumnSummary {
                name: self.name.clone(),
                first: self.data.head(edge),
                last: self.data.tail(edge),
                elided: true,
            }
        }
    }
}

impl Table {
    /// The sample of every column, in column order, with `edge` values on
    /// each side of a gap.
    pub fn summarize(&self, edge: usize) -> (out: Vec<ColumnSummary>)
        ensures
            summary_views(out@) == summaries_of(self@, edge as nat),
    {
        let columns = self.columns();
        let ghost wanted = summaries_of(self@, edge as nat);
        let mut out: Vec<ColumnSummary> = Vec::new();
        let mut i: usize = 0;
        while i < columns.len()
            invariant
                i <= columns.len(),
                views(columns@) == self@,
                wanted == summaries_of(self@, edge as nat),
                summary_views(out@) == wanted.take(i as int),
            decreases columns.len() - i,
        {
            let next = columns[i].summary(edge);
            proof {
                lemma_summary_views_push(out@, next);
            }
            out.push(next);
            i = i + 1;
        }
        out
    }
}

} // verus!
