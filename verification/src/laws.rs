use vstd::prelude::*;
use crate::aggregate::{init_model, step_row, title_at, AggModel};
use crate::classify::{cell_nonempty, cell_width, classify_spec, CellClass};

verus! {

/// The aggregate after a whole stream: the rows folded left to right into a
/// fresh aggregate. A run of [`crate::aggregate::Aggregator::ingest`] calls
/// walks exactly this function, one [`step_row`] per call.
pub open spec fn fold_rows(init: AggModel, rows: Seq<Seq<Seq<char>>>) -> AggModel
    decreases rows.len(),
{
    if rows.len() == 0 {
        init
    } else {
        step_row(fold_rows(init, rows.drop_last()), rows.last())
    }
}

/// Folding one more row is one more step.
pub proof fn lemma_fold_push(init: AggModel, rows: Seq<Seq<Seq<char>>>, row: Seq<Seq<char>>)
    ensures
        fold_rows(init, rows.push(row)) == step_row(fold_rows(init, rows), row),
{
    assert(rows.push(row).drop_last() =~= rows);
    assert(rows.push(row).last() == row);
}

/// How many of the rows are wide enough to include position `p`.
pub open spec fn rows_with_position(rows: Seq<Seq<Seq<char>>>, p: int) -> nat
    decreases rows.len(),
{
    if rows.len() == 0 {
        0
    } else {
        rows_with_position(rows.drop_last(), p) + if p < rows.last().len() {
            1nat
        } else {
            0nat
        }
    }
}

/// How many of the cells the rows hold at position `p` classify as `c`.
pub open spec fn class_count_at(rows: Seq<Seq<Seq<char>>>, p: int, c: CellClass) -> nat
    decreases rows.len(),
{
    if rows.len() == 0 {
        0
    } else {
        class_count_at(rows.drop_last(), p, c) + if p < rows.last().len() && classify_spec(
            rows.last()[p],
        ) == c {
            1nat
        } else {
            0nat
        }
    }
}

/// The largest trimmed width among the cells the rows hold at position `p`.
pub open spec fn max_width_at(rows: Seq<Seq<Seq<char>>>, p: int) -> nat
    decreases rows.len(),
{
    if rows.len() == 0 {
        0
    } else {
        let rest = max_width_at(rows.drop_last(), p);
        let here = if p < rows.last().len() {
            cell_width(rows.last()[p])
        } else {
            0nat
        };
        if here > rest {
            here
        } else {
            rest
        }
    }
}

/// Whether any row holds a non-empty trimmed cell at position `p`.
pub open spec fn any_value_at(rows: Seq<Seq<Seq<char>>>, p: int) -> bool {
    exists|i: int| 0 <= i < rows.len() && p < (#[trigger] rows[i]).len() && cell_nonempty(rows[i][p])
}

/// The width of the widest row: the number of column positions the stream
/// ever shows.
pub open spec fn widest_row(rows: Seq<Seq<Seq<char>>>) -> nat
    decreases rows.len(),
{
    if rows.len() == 0 {
        0
    } else {
        let rest = widest_row(rows.drop_last());
        if rest >= rows.last().len() {
            rest
        } else {
            rows.last().len()
        }
    }
}

/// [`any_value_at`] looks one row deeper exactly when that row reaches the
/// position and its cell has a value.
proof fn lemma_any_value_last(rows: Seq<Seq<Seq<char>>>, p: int)
    requires
        rows.len() > 0,
    ensures
        any_value_at(rows, p) == (any_value_at(rows.drop_last(), p) || (p < rows.last().len()
            && cell_nonempty(rows.last()[p]))),
{
    let prev = rows.drop_last();
    let n = rows.len() - 1;
    if any_value_at(prev, p) {
        let i = choose|i: int|
            0 <= i < prev.len() && p < (#[trigger] prev[i]).len() && cell_nonempty(prev[i][p]);
        assert(rows[i] == prev[i]);
        assert(any_value_at(rows, p));
    }
    if p < rows.last().len() && cell_nonempty(rows.last()[p]) {
        assert(rows[n] == rows.last());
        assert(any_value_at(rows, p));
    }
    if any_value_at(rows, p) {
        let i = choose|i: int|
            0 <= i < rows.len() && p < (#[trigger] rows[i]).len() && cell_nonempty(rows[i][p]);
        if i < n {
            assert(prev[i] == rows[i]);
            assert(any_value_at(prev, p));
        } else {
            assert(rows[i] == rows.last());
        }
    }
}

/// A position no row reaches has seen nothing at all.
proof fn lemma_absent_position(rows: Seq<Seq<Seq<char>>>, p: int, c: CellClass)
    requires
        p >= widest_row(rows),
    ensures
        rows_with_position(rows, p) == 0,
        class_count_at(rows, p, c) == 0,
        max_width_at(rows, p) == 0,
        !any_value_at(rows, p),
    decreases rows.len(),
{
    if rows.len() > 0 {
        lemma_absent_position(rows.drop_last(), p, c);
        lemma_any_value_last(rows, p);
    }
}

/// The shape of a fully folded aggregate: as many profiles as the widest row
/// has cells, each at its own position, carrying its header label, the exact
/// per-class counts, the exact largest trimmed width, and a latch that is set
/// exactly when some row had a value there.
pub proof fn lemma_fold_shape(titles: Seq<Seq<char>>, rows: Seq<Seq<Seq<char>>>, p: int)
    requires
        0 <= p,
    ensures
        fold_rows(init_model(titles), rows).titles == titles,
        fold_rows(init_model(titles), rows).rows == rows.len(),
        fold_rows(init_model(titles), rows).fields.len() == widest_row(rows),
        p < widest_row(rows) ==> {
            let fm = fold_rows(init_model(titles), rows).fields[p];
            &&& fm.pos == p
            &&& fm.title == title_at(titles, p)
            &&& fm.ints == class_count_at(rows, p, CellClass::Integer)
            &&& fm.floats == class_count_at(rows, p, CellClass::Float)
            &&& fm.texts == class_count_at(rows, p, CellClass::Text)
            &&& fm.max_width == max_width_at(rows, p)
            &&& fm.nonempty == any_value_at(rows, p)
        },
    decreases rows.len(),
{
    if rows.len() == 0 {
        assert(!any_value_at(rows, p));
    } else {
        let prev = rows.drop_last();
        let last = rows.last();
        lemma_fold_shape(titles, prev, p);
        lemma_any_value_last(rows, p);
        let m = fold_rows(init_model(titles), prev);
        if m.fields.len() <= p < last.len() {
            lemma_absent_position(prev, p, CellClass::Integer);
            lemma_absent_position(prev, p, CellClass::Float);
            lemma_absent_position(prev, p, CellClass::Text);
        }
    }
}

/// Every cell classifies as exactly one of the three classes, so the three
/// per-class counts at a position partition the rows that reach it.
proof fn lemma_class_counts_partition(rows: Seq<Seq<Seq<char>>>, p: int)
    ensures
        class_count_at(rows, p, CellClass::Integer) + class_count_at(rows, p, CellClass::Float)
            + class_count_at(rows, p, CellClass::Text) == rows_with_position(rows, p),
    decreases rows.len(),
{
    if rows.len() > 0 {
        lemma_class_counts_partition(rows.drop_last(), p);
    }
}

/// Law: each column's tally accounts for exactly the rows that included the
/// column. Folding any stream into a fresh aggregate leaves
/// `ints + floats + texts` at a position equal to the number of rows wide
/// enough to reach that position — ragged rows are not penalised.
pub proof fn lemma_tally_matches_presence(
    titles: Seq<Seq<char>>,
    rows: Seq<Seq<Seq<char>>>,
    p: int,
)
    requires
        0 <= p < fold_rows(init_model(titles), rows).fields.len(),
    ensures
        fold_rows(init_model(titles), rows).fields[p].tally() == rows_with_position(rows, p),
{
    lemma_fold_shape(titles, rows, p);
    lemma_class_counts_partition(rows, p);
}

/// Law: after any stream, a column's `max_width` is exactly the largest
/// trimmed width among the cells seen at that position.
pub proof fn lemma_max_width_exact(titles: Seq<Seq<char>>, rows: Seq<Seq<Seq<char>>>, p: int)
    requires
        0 <= p < fold_rows(init_model(titles), rows).fields.len(),
    ensures
        fold_rows(init_model(titles), rows).fields[p].max_width == max_width_at(rows, p),
{
    lemma_fold_shape(titles, rows, p);
}

/// Appending rows only widens the aggregate and only grows what a position
/// has seen.
proof fn lemma_history_grows(rows: Seq<Seq<Seq<char>>>, more: Seq<Seq<Seq<char>>>, p: int)
    ensures
        widest_row(rows + more) >= widest_row(rows),
        max_width_at(rows + more, p) >= max_width_at(rows, p),
        any_value_at(rows, p) ==> any_value_at(rows + more, p),
    decreases more.len(),
{
    if more.len() == 0 {
        assert(rows + more =~= rows);
    } else {
        lemma_history_grows(rows, more.drop_last(), p);
        assert((rows + more).drop_last() =~= rows + more.drop_last());
        if any_value_at(rows + more.drop_last(), p) {
            lemma_any_value_last(rows + more, p);
        }
    }
}

/// Law: `max_width` is monotonically non-decreasing as more rows are folded.
pub proof fn lemma_max_width_monotonic(
    titles: Seq<Seq<char>>,
    rows: Seq<Seq<Seq<char>>>,
    more: Seq<Seq<Seq<char>>>,
    p: int,
)
    requires
        0 <= p < fold_rows(init_model(titles), rows).fields.len(),
    ensures
        p < fold_rows(init_model(titles), rows + more).fields.len(),
        fold_rows(init_model(titles), rows + more).fields[p].max_width >= fold_rows(
            init_model(titles),
            rows,
        ).fields[p].max_width,
{
    lemma_fold_shape(titles, rows, p);
    lemma_fold_shape(titles, rows + more, p);
    lemma_history_grows(rows, more, p);
}

/// Law: after any stream, a column's latch is set exactly when some row held
/// a non-empty trimmed cell at that position — so it stays false while the
/// column has only ever been empty.
pub proof fn lemma_latch_exact(titles: Seq<Seq<char>>, rows: Seq<Seq<Seq<char>>>, p: int)
    requires
        0 <= p < fold_rows(init_model(titles), rows).fields.len(),
    ensures
        fold_rows(init_model(titles), rows).fields[p].nonempty == any_value_at(rows, p),
{
    lemma_fold_shape(titles, rows, p);
}

/// Law: the latch is one-way. Once a stream has set it at a position, no
/// continuation of the stream — however many empty cells it brings — clears
/// it.
pub proof fn lemma_latch_one_way(
    titles: Seq<Seq<char>>,
    rows: Seq<Seq<Seq<char>>>,
    more: Seq<Seq<Seq<char>>>,
    p: int,
)
    requires
        0 <= p < fold_rows(init_model(titles), rows).fields.len(),
        fold_rows(init_model(titles), rows).fields[p].nonempty,
    ensures
        p < fold_rows(init_model(titles), rows + more).fields.len(),
        fold_rows(init_model(titles), rows + more).fields[p].nonempty,
{
    lemma_fold_shape(titles, rows, p);
    lemma_fold_shape(titles, rows + more, p);
    lemma_history_grows(rows, more, p);
}

/// Law: a profile, once created, is never destroyed. Every position the
/// stream has shown keeps a profile, at the same position and under the same
/// label, through any continuation of the stream.
pub proof fn lemma_profiles_persist(
    titles: Seq<Seq<char>>,
    rows: Seq<Seq<Seq<char>>>,
    more: Seq<Seq<Seq<char>>>,
    p: int,
)
    requires
        0 <= p < fold_rows(init_model(titles), rows).fields.len(),
    ensures
        fold_rows(init_model(titles), rows + more).fields.len() >= fold_rows(
            init_model(titles),
            rows,
        ).fields.len(),
        fold_rows(init_model(titles), rows + more).fields[p].pos == p,
        fold_rows(init_model(titles), rows + more).fields[p].title == fold_rows(
            init_model(titles),
            rows,
        ).fields[p].title,
{
    lemma_fold_shape(titles, rows, p);
    lemma_fold_shape(titles, rows + more, p);
    lemma_history_grows(rows, more, p);
}

} // verus!
