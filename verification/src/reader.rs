//! Assembling a table from the columns of a scientific binary table.
//!
//! The columns of a file may be read in any order and by any number of
//! workers. Each worker hands in what it produced together with the ordinal
//! of the header entry it worked on; the table is put together by ordinal,
//! so the order in which the workers finish leaves no mark on it.

use vstd::prelude::*;
pub use crate::detect::{FileType, which_file};
pub use crate::expand::{decode_column, expand_vector_column_from_flat};
pub use crate::header::parse_tform;
use crate::column::{Column, ColumnView, Values};
use crate::error::TableError;
use crate::expand::{decoded, expanded_name, outcome_view};
use crate::header::HeaderEntryView;
use crate::table::{Table, height, names_of, rectangular, unique_names, views};

verus! {

/// What reading one column of the header came to.
#[derive(Debug, PartialEq, Eq)]
pub struct ColumnOutcome {
    /// The ordinal of the header entry, counted from 1.
    pub ordinal: usize,
    /// The columns that the entry yielded, or why it yielded none.
    pub result: Result<Vec<Column>, TableError>,
}

/// The mathematical model of [`ColumnOutcome`].
pub struct OutcomeView {
    pub ordinal: nat,
    pub result: Result<Seq<ColumnView>, TableError>,
}

impl View for ColumnOutcome {
    type V = OutcomeView;

    open spec fn view(&self) -> OutcomeView {
        OutcomeView { ordinal: self.ordinal as nat, result: outcome_view(self.result) }
    }
}

/// The models of a sequence of outcomes.
pub open spec fn outcome_views(s: Seq<ColumnOutcome>) -> Seq<OutcomeView> {
    s.map_values(|o: ColumnOutcome| o@)
}

/// The models of a sequence of results.
pub open spec fn result_views(s: Seq<Result<Vec<Column>, TableError>>) -> Seq<
    Result<Seq<ColumnView>, TableError>,
> {
    s.map_values(|r: Result<Vec<Column>, TableError>| outcome_view(r))
}

/// Every ordinal from 1 to `count` is borne by exactly one outcome, and no
/// outcome bears another ordinal.
pub open spec fn complete(outcomes: Seq<OutcomeView>, count: nat) -> bool {
    &&& forall|j: int| 0 <= j < outcomes.len() ==> 1 <= (#[trigger] outcomes[j]).ordinal <= count
    &&& forall|i: int, j: int|
        0 <= i < j < outcomes.len() ==> (#[trigger] outcomes[i]).ordinal != (
        #[trigger] outcomes[j]).ordinal
    &&& forall|k: nat| 1 <= k <= count ==> bears(outcomes, k)
}

/// Some outcome bears the ordinal `k`.
pub open spec fn bears(outcomes: Seq<OutcomeView>, k: nat) -> bool {
    exists|j: int| 0 <= j < outcomes.len() && (#[trigger] outcomes[j]).ordinal == k
}

/// The position of an outcome that bears the ordinal `k`.
pub open spec fn position_of_ordinal(outcomes: Seq<OutcomeView>, k: nat) -> int {
    choose|j: int| 0 <= j < outcomes.len() && (#[trigger] outcomes[j]).ordinal == k
}

/// The results of the outcomes, by ordinal: first that of ordinal 1.
pub open spec fn in_order(outcomes: Seq<OutcomeView>, count: nat) -> Seq<
    Result<Seq<ColumnView>, TableError>,
> {
    Seq::new(count, |k: int| outcomes[position_of_ordinal(outcomes, (k + 1) as nat)].result)
}

/// The first error among the results, if any of them is one.
pub open spec fn first_error(results: Seq<Result<Seq<ColumnView>, TableError>>) -> Option<
    TableError,
>
    decreases results.len(),
{
    if results.len() == 0 {
        None
    } else {
        match first_error(results.drop_last()) {
            Some(e) => Some(e),
            None => match results.last() {
                Err(e) => Some(e),
                Ok(_) => None,
            },
        }
    }
}

/// The columns of all the results that hold columns, one result after the
/// other.
pub open spec fn all_columns(results: Seq<Result<Seq<ColumnView>, TableError>>) -> Seq<ColumnView>
    decreases results.len(),
{
    if results.len() == 0 {
        Seq::empty()
    } else {
        all_columns(results.drop_last()) + match results.last() {
            Ok(cols) => cols,
            Err(_) => Seq::empty(),
        }
    }
}

/// The table that columns form, if they form one.
pub open spec fn table_of(cols: Seq<ColumnView>) -> Result<Seq<ColumnView>, TableError> {
    if rectangular(cols) && unique_names(cols) {
        Ok(cols)
    } else {
        Err(TableError::SchemaError)
    }
}

/// What results that are already in header order come to: the first error
/// among them, or else the table of all their columns.
pub open spec fn collected(results: Seq<Result<Seq<ColumnView>, TableError>>) -> Result<
    Seq<ColumnView>,
    TableError,
> {
    match first_error(results) {
        Some(e) => Err(e),
        None => table_of(all_columns(results)),
    }
}

/// What the outcomes of reading `count` columns come to, whatever the order
/// in which they arrived.
pub open spec fn assembled(outcomes: Seq<OutcomeView>, count: nat) -> Result<
    Seq<ColumnView>,
    TableError,
> {
    if complete(outcomes, count) {
        collected(in_order(outcomes, count))
    } else {
        Err(TableError::SchemaError)
    }
}

/// Whatever was read, a table that comes out of the assembly has one row
/// count for all its columns and uses every column name once.
pub proof fn lemma_assembled_is_table(
    outcomes: Seq<OutcomeView>,
    count: nat,
    cols: Seq<ColumnView>,
)
    requires
        assembled(outcomes, count) == Ok::<Seq<ColumnView>, TableError>(cols),
    ensures
        rectangular(cols),
        unique_names(cols),
        forall|i: int| 0 <= i < cols.len() ==> (#[trigger] cols[i]).values.len() == height(cols),
{
}

/// An error among the first results is the first error of all of them.
pub proof fn lemma_first_error_stays(
    results: Seq<Result<Seq<ColumnView>, TableError>>,
    k: int,
)
    requires
        0 <= k <= results.len(),
        first_error(results.take(k)) is Some,
    ensures
        first_error(results) == first_error(results.take(k)),
    decreases results.len() - k,
{
    if k < results.len() {
        assert(results.take(k + 1).drop_last() =~= results.take(k));
        lemma_first_error_stays(results, k + 1);
    } else {
        assert(results.take(k) =~= results);
    }
}

/// `b` holds the outcomes of `a` in another order of arrival: outcome `j` of
/// `b` is outcome `p[j]` of `a`, and `q` leads back from `a` to `b`.
pub open spec fn rearranged(
    a: Seq<OutcomeView>,
    b: Seq<OutcomeView>,
    p: Seq<int>,
    q: Seq<int>,
) -> bool {
    &&& a.len() == b.len()
    &&& p.len() == b.len()
    &&& q.len() == a.len()
    &&& forall|j: int|
        0 <= j < b.len() ==> 0 <= #[trigger] p[j] < a.len() && q[p[j]] == j && b[j] == a[p[j]]
    &&& forall|i: int| 0 <= i < a.len() ==> 0 <= #[trigger] q[i] < b.len() && p[q[i]] == i
}

/// Outcomes that are complete stay complete in any other order of arrival.
proof fn lemma_complete_rearranged(
    a: Seq<OutcomeView>,
    b: Seq<OutcomeView>,
    p: Seq<int>,
    q: Seq<int>,
    count: nat,
)
    requires
        rearranged(a, b, p, q),
        complete(a, count),
    ensures
        complete(b, count),
{
    assert forall|j: int| 0 <= j < b.len() implies 1 <= (#[trigger] b[j]).ordinal <= count by {
        assert(b[j] == a[p[j]]);
    }
    assert forall|i: int, j: int| 0 <= i < j < b.len() implies (#[trigger] b[i]).ordinal != (
    #[trigger] b[j]).ordinal by {
        assert(b[i] == a[p[i]] && b[j] == a[p[j]]);
        assert(q[p[i]] == i && q[p[j]] == j);
        if p[i] < p[j] {
            assert(a[p[i]].ordinal != a[p[j]].ordinal);
        } else {
            assert(a[p[j]].ordinal != a[p[i]].ordinal);
        }
    }
    assert forall|k: nat| 1 <= k <= count implies bears(b, k) by {
        assert(bears(a, k));
        let i = position_of_ordinal(a, k);
        assert(b[q[i]] == a[p[q[i]]]);
        assert(b[q[i]].ordinal == k);
    }
}

/// The order in which the outcomes arrive does not matter: the same
/// outcomes, handed in in any two orders, come to the same table or to the
/// same error.
pub proof fn lemma_arrival_order(
    a: Seq<OutcomeView>,
    b: Seq<OutcomeView>,
    p: Seq<int>,
    q: Seq<int>,
    count: nat,
)
    requires
        rearranged(a, b, p, q),
    ensures
        assembled(a, count) == assembled(b, count),
{
    if complete(a, count) {
        lemma_complete_rearranged(a, b, p, q, count);
    }
    if complete(b, count) {
        assert(rearranged(b, a, q, p)) by {
            assert forall|i: int| 0 <= i < a.len() implies a[i] == b[q[i]] by {
                assert(b[q[i]] == a[p[q[i]]]);
            }
        }
        lemma_complete_rearranged(b, a, q, p, count);
    }
    if complete(a, count) {
        assert(in_order(a, count) =~= in_order(b, count)) by {
            assert forall|k: int| 0 <= k < count implies in_order(a, count)[k] == in_order(
                b,
                count,
            )[k] by {
                let o = (k + 1) as nat;
                assert(bears(a, o) && bears(b, o));
                let i = position_of_ordinal(a, o);
                let j = position_of_ordinal(b, o);
                assert(b[j] == a[p[j]]);
                if p[j] < i {
                    assert(a[p[j]].ordinal != a[i].ordinal);
                } else if i < p[j] {
                    assert(a[i].ordinal != a[p[j]].ordinal);
                }
            }
        }
    }
}

/// The names that a header entry gives to its columns: its own name for a
/// scalar column, the names of the expansion for a vector column.
pub open spec fn entry_names(entry: HeaderEntryView) -> Seq<Seq<char>> {
    if entry.repeat_count > 1 {
        Seq::new(entry.repeat_count, |i: int| expanded_name(entry.name, i as nat))
    } else {
        seq![entry.name]
    }
}

/// The names that a header gives to the columns of its table, entry after
/// entry.
pub open spec fn header_names(entries: Seq<HeaderEntryView>) -> Seq<Seq<char>>
    decreases entries.len(),
{
    if entries.len() == 0 {
        Seq::empty()
    } else {
        header_names(entries.drop_last()) + entry_names(entries.last())
    }
}

/// The entries stand in the order of their ordinals, the first with
/// ordinal 1.
pub open spec fn in_header_order(entries: Seq<HeaderEntryView>) -> bool {
    forall|j: int| 0 <= j < entries.len() ==> (#[trigger] entries[j]).ordinal == j + 1
}

/// The outcomes of decoding, for each entry of a header, the values that
/// were read for it.
pub open spec fn read_outcomes(entries: Seq<HeaderEntryView>, raws: Seq<Values>) -> Seq<
    OutcomeView,
> {
    Seq::new(
        entries.len(),
        |j: int| OutcomeView { ordinal: entries[j].ordinal, result: decoded(entries[j], raws[j]) },
    )
}

/// The columns that an entry yields bear the names that the entry gives,
/// whatever their values.
pub proof fn lemma_decoded_names(entry: HeaderEntryView, raw: Values)
    ensures
        decoded(entry, raw) matches Ok(cols) ==> names_of(cols) == entry_names(entry),
{
    if let Ok(cols) = decoded(entry, raw) {
        assert(names_of(cols) =~= entry_names(entry));
    }
}

/// The names of the columns of results that hold no error are the names of
/// each result, one result after the other.
proof fn lemma_names_of_all_columns(
    entries: Seq<HeaderEntryView>,
    results: Seq<Result<Seq<ColumnView>, TableError>>,
)
    requires
        results.len() == entries.len(),
        first_error(results) is None,
        forall|k: int|
            0 <= k < results.len() ==> ((#[trigger] results[k]) matches Ok(cols) ==> names_of(cols)
                == entry_names(entries[k])),
    ensures
        names_of(all_columns(results)) == header_names(entries),
    decreases results.len(),
{
    if results.len() > 0 {
        let front = results.drop_last();
        lemma_names_of_all_columns(entries.drop_last(), front);
        let last = results.last();
        assert(last is Ok);
        assert(names_of(all_columns(front) + last->Ok_0) =~= names_of(all_columns(front))
            + names_of(last->Ok_0));
    } else {
        assert(names_of(all_columns(results)) =~= header_names(entries));
    }
}

/// The entries by ordinal: first the entry with ordinal 1.
pub open spec fn entries_by_ordinal(entries: Seq<HeaderEntryView>) -> Seq<HeaderEntryView> {
    Seq::new(
        entries.len(),
        |k: int|
            entries[choose|j: int|
                0 <= j < entries.len() && (#[trigger] entries[j]).ordinal == k + 1],
    )
}

/// Entries that stand in header order are already ordered by ordinal.
pub proof fn lemma_header_order(entries: Seq<HeaderEntryView>)
    requires
        in_header_order(entries),
    ensures
        entries_by_ordinal(entries) == entries,
{
    let sorted = entries_by_ordinal(entries);
    assert forall|k: int| 0 <= k < entries.len() implies sorted[k] == entries[k] by {
        assert(entries[k].ordinal == k + 1);
        let j = choose|j: int|
            0 <= j < entries.len() && (#[trigger] entries[j]).ordinal == k + 1;
        assert(entries[j].ordinal == j + 1);
    }
    assert(sorted =~= entries);
}

/// The header alone fixes the names of the columns and their order: a
/// table read under a header has the names that the header gives, entry
/// after entry by ordinal, whatever values were read.
pub proof fn lemma_names_from_header(
    entries: Seq<HeaderEntryView>,
    raws: Seq<Values>,
    cols: Seq<ColumnView>,
)
    requires
        raws.len() == entries.len(),
        assembled(read_outcomes(entries, raws), entries.len()) == Ok::<
            Seq<ColumnView>,
            TableError,
        >(cols),
    ensures
        names_of(cols) == header_names(entries_by_ordinal(entries)),
{
    let outcomes = read_outcomes(entries, raws);
    let results = in_order(outcomes, entries.len());
    let sorted = entries_by_ordinal(entries);
    assert forall|k: int| 0 <= k < results.len() implies ((#[trigger] results[k]) matches Ok(
        part,
    ) ==> names_of(part) == entry_names(sorted[k])) by {
        let o = (k + 1) as nat;
        assert(bears(outcomes, o));
        let j = position_of_ordinal(outcomes, o);
        assert(entries[j].ordinal == o);
        let e = choose|e: int| 0 <= e < entries.len() && (#[trigger] entries[e]).ordinal == k + 1;
        assert(outcomes[e].ordinal == o);
        if e < j {
            assert(outcomes[e].ordinal != outcomes[j].ordinal);
        } else if j < e {
            assert(outcomes[j].ordinal != outcomes[e].ordinal);
        }
        lemma_decoded_names(entries[j], raws[j]);
    }
    lemma_names_of_all_columns(sorted, results);
}

/// Reading under the same header twice gives the same column names in the
/// same order, whatever values were read, and within each table every
/// column has the table's row count.
pub proof fn lemma_column_order_stable(
    entries: Seq<HeaderEntryView>,
    first_raws: Seq<Values>,
    second_raws: Seq<Values>,
    first: Seq<ColumnView>,
    second: Seq<ColumnView>,
)
    requires
        first_raws.len() == entries.len(),
        second_raws.len() == entries.len(),
        assembled(read_outcomes(entries, first_raws), entries.len()) == Ok::<
            Seq<ColumnView>,
            TableError,
        >(first),
        assembled(read_outcomes(entries, second_raws), entries.len()) == Ok::<
            Seq<ColumnView>,
            TableError,
        >(second),
    ensures
        names_of(first) == names_of(second),
        rectangular(first),
        rectangular(second),
{
    lemma_names_from_header(entries, first_raws, first);
    lemma_names_from_header(entries, second_raws, second);
}

/// The models of two column vectors, one after the other, are the models of
/// their concatenation.
proof fn lemma_views_add(a: Seq<Column>, b: Seq<Column>)
    ensures
        views(a + b) == views(a) + views(b),
{
    assert(views(a + b) =~= views(a) + views(b));
}

/// Puts results that are in header order together into a table.
///
/// The first error among the results is handed on. Where there is none, the
/// columns of all results, one result after the other, become the table;
/// columns of different lengths or of one name make it a
/// [`TableError::SchemaError`].
pub fn collect_columns(results: Vec<Result<Vec<Column>, TableError>>) -> (out: Result<
    Table,
    TableError,
>)
    ensures
        match out {
            Ok(t) => collected(result_views(results@)) == Ok::<Seq<ColumnView>, TableError>(t@)
                && rectangular(t@) && unique_names(t@),
            Err(e) => collected(result_views(results@)) == Err::<Seq<ColumnView>, TableError>(e),
        },
{
    let ghost given = result_views(results@);
    let mut columns: Vec<Column> = Vec::new();
    for result in it: results
        invariant
            it.seq() == results@,
            given == result_views(results@),
            first_error(given.take(it.index())) is None,
            views(columns@) == all_columns(given.take(it.index())),
    {
        let ghost k = it.index();
        proof {
            assert(given.take(k + 1).drop_last() =~= given.take(k));
            assert(given.take(k + 1).last() == outcome_view(result));
        }
        match result {
            Err(e) => {
                proof {
                    lemma_first_error_stays(given, k + 1);
                }
                return Err(e);
            },
            Ok(part) => {
                let mut part = part;
                proof {
                    lemma_views_add(columns@, part@);
                }
                columns.append(&mut part);
            },
        }
    }
    assert(given.take(given.len() as int) =~= given);
    Table::new(columns)
}

/// Puts each result into the place of its ordinal.
///
/// Gives the results by ordinal when the outcomes are [`complete`], and
/// fails with [`TableError::SchemaError`] when an ordinal is missing, comes
/// twice or lies outside `1..=count`.
pub fn resequence(count: usize, outcomes: Vec<ColumnOutcome>) -> (out: Result<
    Vec<Result<Vec<Column>, TableError>>,
    TableError,
>)
    ensures
        match out {
            Ok(results) => complete(outcome_views(outcomes@), count as nat) && result_views(
                results@,
            ) == in_order(outcome_views(outcomes@), count as nat),
            Err(e) => e == TableError::SchemaError && !complete(
                outcome_views(outcomes@),
                count as nat,
            ),
        },
{
    let ghost all = outcome_views(outcomes@);
    let mut slots: Vec<Option<Result<Vec<Column>, TableError>>> = Vec::new();
    let mut n: usize = 0;
    while n < count
        invariant
            n <= count,
            slots.len() == n,
            forall|k: int| 0 <= k < n ==> slots@[k] is None,
        decreases count - n,
    {
        slots.push(None);
        n = n + 1;
    }
    // owner[k] is the position of the outcome that sits in slot k, or -1
    // while the slot is empty.
    let ghost mut owner: Seq<int> = Seq::new(count as nat, |k: int| -1int);
    let mut rest = outcomes;
    while rest.len() > 0
        invariant
            all == outcome_views(outcomes@),
            rest@ == outcomes@.take(rest.len() as int),
            rest.len() <= outcomes.len(),
            slots.len() == count,
            owner.len() == count,
            forall|k: int|
                0 <= k < count ==> ((#[trigger] slots@[k]) is Some <==> owner[k] >= 0),
            forall|k: int|
                0 <= k < count && #[trigger] owner[k] >= 0 ==> rest.len() <= owner[k]
                    < outcomes.len() && all[owner[k]].ordinal == k + 1 && outcome_view(
                    slots@[k]->0,
                ) == all[owner[k]].result,
            forall|j: int|
                rest.len() <= j < outcomes.len() ==> 1 <= (#[trigger] all[j]).ordinal <= count
                    && owner[all[j].ordinal - 1] == j,
        decreases rest.len(),
    {
        let ghost m = rest.len() - 1;
        let outcome = rest.pop().unwrap();
        assert(outcome@ == all[m]);
        if outcome.ordinal < 1 || outcome.ordinal > count {
            return Err(TableError::SchemaError);
        }
        let k: usize = outcome.ordinal - 1;
        if slots[k].is_some() {
            assert(all[owner[k as int]].ordinal == all[m].ordinal);
            return Err(TableError::SchemaError);
        }
        slots[k] = Some(outcome.result);
        proof {
            owner = owner.update(k as int, m);
        }
    }
    let mut results: Vec<Result<Vec<Column>, TableError>> = Vec::new();
    for slot in it: slots
        invariant
            all == outcome_views(outcomes@),
            it.seq().len() == count,
            owner.len() == count,
            forall|k: int|
                0 <= k < count ==> ((#[trigger] it.seq()[k]) is Some <==> owner[k] >= 0),
            forall|k: int|
                0 <= k < count && #[trigger] owner[k] >= 0 ==> 0 <= owner[k] < outcomes.len()
                    && all[owner[k]].ordinal == k + 1 && outcome_view(it.seq()[k]->0)
                    == all[owner[k]].result,
            forall|j: int|
                0 <= j < outcomes.len() ==> 1 <= (#[trigger] all[j]).ordinal <= count
                    && owner[all[j].ordinal - 1] == j,
            results.len() == it.index(),
            forall|k: int|
                0 <= k < it.index() ==> #[trigger] owner[k] >= 0 && outcome_view(results@[k])
                    == all[owner[k]].result,
    {
        let ghost k = it.index();
        match slot {
            None => {
                assert(!bears(all, (k + 1) as nat));
                return Err(TableError::SchemaError);
            },
            Some(result) => {
                results.push(result);
            },
        }
    }
    proof {
        assert(results.len() == count);
        assert forall|k: nat| 1 <= k <= count implies bears(all, k) by {
            assert(all[owner[k - 1]].ordinal == k);
        }
        assert(complete(all, count as nat));
        assert(result_views(results@) =~= in_order(all, count as nat)) by {
            assert forall|k: int| 0 <= k < count implies result_views(results@)[k] == in_order(
                all,
                count as nat,
            )[k] by {
                assert(all[owner[k]].ordinal == k + 1);
                let j = position_of_ordinal(all, (k + 1) as nat);
                assert(owner[all[j].ordinal - 1] == j);
            }
        }
    }
    Ok(results)
}

/// Builds the table of a file from the outcomes of reading its `count`
/// columns, in whatever order they arrived.
///
/// The columns stand in the order of the ordinals of their header entries.
/// Fails with [`TableError::SchemaError`] when the outcomes are not
/// [`complete`]; else with the error of the lowest ordinal that has one;
/// else with [`TableError::SchemaError`] when the columns differ in length
/// or share a name.
pub fn assemble(count: usize, outcomes: Vec<ColumnOutcome>) -> (out: Result<Table, TableError>)
    ensures
        match out {
            Ok(t) => assembled(outcome_views(outcomes@), count as nat) == Ok::<
                Seq<ColumnView>,
                TableError,
            >(t@) && rectangular(t@) && unique_names(t@),
            Err(e) => assembled(outcome_views(outcomes@), count as nat) == Err::<
                Seq<ColumnView>,
                TableError,
            >(e),
        },
{
    match resequence(count, outcomes) {
        Ok(results) => collect_columns(results),
        Err(e) => Err(e),
    }
}

} // verus!
