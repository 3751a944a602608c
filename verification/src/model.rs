//! The mathematical model of a list: a sequence of (position, value) rows,
//! ordered by ascending position, together with the effect each list
//! primitive has on it.

use vstd::prelude::*;

verus! {

/// The rows of one key: each row is a (position, value) pair, listed in
/// ascending position order. Smaller positions are nearer the head (left).
pub open spec fn row_values(rows: Seq<(int, Seq<u8>)>) -> Seq<Seq<u8>> {
    rows.map_values(|r: (int, Seq<u8>)| r.1)
}

/// Positions strictly ascend, so every position occurs at most once.
pub open spec fn rows_sorted(rows: Seq<(int, Seq<u8>)>) -> bool {
    forall|i: int, j: int| 0 <= i < j < rows.len() ==> rows[i].0 < rows[j].0
}

/// Every position fits the store's signed 64-bit position column.
pub open spec fn rows_positions_fit(rows: Seq<(int, Seq<u8>)>) -> bool {
    forall|i: int| 0 <= i < rows.len() ==> i64::MIN <= #[trigger] rows[i].0 <= i64::MAX
}

pub open spec fn rows_wf(rows: Seq<(int, Seq<u8>)>) -> bool {
    rows_sorted(rows) && rows_positions_fit(rows)
}

/// Positions form a gap-free run. Every sequence of list commands keeps
/// this; only direct seeding can break it.
pub open spec fn rows_contiguous(rows: Seq<(int, Seq<u8>)>) -> bool {
    forall|i: int| 0 <= i < rows.len() ==> #[trigger] rows[i].0 == rows[0].0 + i
}

/// Redis-style index translation against the current boundaries.
pub open spec fn translate(first: int, last: int, index: int) -> int {
    if index < 0 {
        index + last + 1
    } else {
        index + first
    }
}

/// The position a single left push assigns: min(position) - 1, or -1 on an
/// empty key.
pub open spec fn push_left_pos(rows: Seq<(int, Seq<u8>)>) -> int {
    if rows.len() == 0 {
        -1
    } else {
        rows[0].0 - 1
    }
}

/// The position a single right push assigns: max(position) + 1, or 1 on an
/// empty key.
pub open spec fn push_right_pos(rows: Seq<(int, Seq<u8>)>) -> int {
    if rows.len() == 0 {
        1
    } else {
        rows.last().0 + 1
    }
}

pub open spec fn push_left_one(rows: Seq<(int, Seq<u8>)>, value: Seq<u8>) -> Seq<(int, Seq<u8>)> {
    seq![(push_left_pos(rows), value)] + rows
}

pub open spec fn push_right_one(rows: Seq<(int, Seq<u8>)>, value: Seq<u8>) -> Seq<(int, Seq<u8>)> {
    rows.push((push_right_pos(rows), value))
}

/// Pushing several values to the left, first value first: each value in
/// turn becomes the new head.
pub open spec fn push_left_all(rows: Seq<(int, Seq<u8>)>, values: Seq<Seq<u8>>) -> Seq<(int, Seq<u8>)>
    decreases values.len(),
{
    if values.len() == 0 {
        rows
    } else {
        push_left_all(push_left_one(rows, values[0]), values.drop_first())
    }
}

/// Pushing several values to the right, first value first.
pub open spec fn push_right_all(rows: Seq<(int, Seq<u8>)>, values: Seq<Seq<u8>>) -> Seq<(int, Seq<u8>)>
    decreases values.len(),
{
    if values.len() == 0 {
        rows
    } else {
        push_right_all(push_right_one(rows, values[0]), values.drop_first())
    }
}

/// The rows kept by a trim to the inclusive position range [lo, hi]; rows
/// whose position falls outside it are deleted, order is kept.
pub open spec fn trim_keep(rows: Seq<(int, Seq<u8>)>, lo: int, hi: int) -> Seq<(int, Seq<u8>)>
    decreases rows.len(),
{
    if rows.len() == 0 {
        Seq::empty()
    } else {
        let rest = trim_keep(rows.drop_first(), lo, hi);
        if lo <= rows[0].0 <= hi {
            seq![rows[0]] + rest
        } else {
            rest
        }
    }
}

/// The value stored at a given position, if any.
pub open spec fn lookup_at_pos(rows: Seq<(int, Seq<u8>)>, pos: int) -> Option<Seq<u8>>
    decreases rows.len(),
{
    if rows.len() == 0 {
        None
    } else if rows[0].0 == pos {
        Some(rows[0].1)
    } else {
        lookup_at_pos(rows.drop_first(), pos)
    }
}

/// Replacing the value at a given position; rows at other positions are
/// untouched, and a position that is absent leaves the list unchanged.
pub open spec fn update_at_pos(rows: Seq<(int, Seq<u8>)>, pos: int, value: Seq<u8>) -> Seq<(int, Seq<u8>)> {
    rows.map_values(|r: (int, Seq<u8>)| if r.0 == pos { (pos, value) } else { r })
}

/// Inserting one row at its sorted place.
pub open spec fn insert_sorted(rows: Seq<(int, Seq<u8>)>, pos: int, value: Seq<u8>) -> Seq<(int, Seq<u8>)>
    decreases rows.len(),
{
    if rows.len() == 0 {
        seq![(pos, value)]
    } else if pos < rows[0].0 {
        seq![(pos, value)] + rows
    } else {
        seq![rows[0]] + insert_sorted(rows.drop_first(), pos, value)
    }
}

pub open spec fn has_position(rows: Seq<(int, Seq<u8>)>, pos: int) -> bool {
    exists|i: int| 0 <= i < rows.len() && #[trigger] rows[i].0 == pos
}

/// What LRANGE returns for a key whose rows are `rows`, given the raw
/// start and stop arguments.
pub open spec fn lrange_result(rows: Seq<(int, Seq<u8>)>, start: int, stop: int) -> Seq<Seq<u8>> {
    if start == 0 && stop == -1 {
        row_values(rows)
    } else if start == 0 && stop >= 0 {
        row_values(rows).take(if stop + 1 <= rows.len() { stop + 1 } else { rows.len() as int })
    } else if rows.len() == 0 {
        Seq::empty()
    } else {
        let lo = translate(rows[0].0, rows.last().0, start);
        let hi = translate(rows[0].0, rows.last().0, stop);
        if lo > hi {
            Seq::empty()
        } else {
            row_values(trim_keep(rows, lo, hi))
        }
    }
}

/// What the list holds after LTRIM with the raw start and stop arguments.
pub open spec fn ltrim_result(rows: Seq<(int, Seq<u8>)>, start: int, stop: int) -> Seq<(int, Seq<u8>)> {
    if start == 0 && stop == -1 {
        rows
    } else if rows.len() == 0 {
        rows
    } else {
        trim_keep(
            rows,
            translate(rows[0].0, rows.last().0, start),
            translate(rows[0].0, rows.last().0, stop),
        )
    }
}

/// What LINDEX returns for the raw index argument.
pub open spec fn lindex_result(rows: Seq<(int, Seq<u8>)>, index: int) -> Option<Seq<u8>> {
    if rows.len() == 0 {
        None
    } else {
        lookup_at_pos(rows, translate(rows[0].0, rows.last().0, index))
    }
}

/// Whether LSET with the raw index argument succeeds.
pub open spec fn lset_in_range(rows: Seq<(int, Seq<u8>)>, index: int) -> bool {
    rows.len() > 0 && {
        let pos = translate(rows[0].0, rows.last().0, index);
        rows[0].0 <= pos <= rows.last().0
    }
}

/// What the list holds after a successful LSET.
pub open spec fn lset_result(rows: Seq<(int, Seq<u8>)>, index: int, value: Seq<u8>) -> Seq<(int, Seq<u8>)> {
    update_at_pos(rows, translate(rows[0].0, rows.last().0, index), value)
}

/// How far the head may sink by `n` left pushes without leaving i64.
pub open spec fn left_margin_ok(rows: Seq<(int, Seq<u8>)>, n: int) -> bool {
    if rows.len() == 0 {
        i64::MIN as int <= -n
    } else {
        i64::MIN as int <= rows[0].0 - n
    }
}

/// How far the tail may rise by `n` right pushes without leaving i64.
pub open spec fn right_margin_ok(rows: Seq<(int, Seq<u8>)>, n: int) -> bool {
    if rows.len() == 0 {
        n <= i64::MAX as int
    } else {
        rows.last().0 + n <= i64::MAX as int
    }
}

pub proof fn lemma_drop_first_wf(rows: Seq<(int, Seq<u8>)>)
    requires
        rows_wf(rows),
        rows.len() > 0,
    ensures
        rows_wf(rows.drop_first()),
{
    let rest = rows.drop_first();
    assert forall|i: int, j: int| 0 <= i < j < rest.len() implies (#[trigger] rest[i]).0 < (#[trigger] rest[j]).0 by {
        assert(rest[i] == rows[i + 1]);
        assert(rest[j] == rows[j + 1]);
    }
    assert forall|i: int| 0 <= i < rest.len() implies i64::MIN <= (#[trigger] rest[i]).0 <= i64::MAX by {
        assert(rest[i] == rows[i + 1]);
    }
}

pub proof fn lemma_drop_last_wf(rows: Seq<(int, Seq<u8>)>)
    requires
        rows_wf(rows),
        rows.len() > 0,
    ensures
        rows_wf(rows.drop_last()),
{
    let rest = rows.drop_last();
    assert forall|i: int, j: int| 0 <= i < j < rest.len() implies (#[trigger] rest[i]).0 < (#[trigger] rest[j]).0 by {
        assert(rest[i] == rows[i]);
        assert(rest[j] == rows[j]);
    }
    assert forall|i: int| 0 <= i < rest.len() implies i64::MIN <= (#[trigger] rest[i]).0 <= i64::MAX by {
        assert(rest[i] == rows[i]);
    }
}

pub proof fn lemma_trim_keep_props(rows: Seq<(int, Seq<u8>)>, lo: int, hi: int)
    requires
        rows_sorted(rows),
    ensures
        rows_sorted(trim_keep(rows, lo, hi)),
        trim_keep(rows, lo, hi).len() <= rows.len(),
        forall|j: int| 0 <= j < trim_keep(rows, lo, hi).len() ==> lo <= (#[trigger] trim_keep(
            rows,
            lo,
            hi,
        )[j]).0 <= hi,
        forall|j: int| 0 <= j < trim_keep(rows, lo, hi).len() ==> rows.len() > 0 && rows[0].0 <= (
        #[trigger] trim_keep(rows, lo, hi)[j]).0,
        rows_positions_fit(rows) ==> rows_positions_fit(trim_keep(rows, lo, hi)),
    decreases rows.len(),
{
    if rows.len() == 0 {
    } else {
        let rest = rows.drop_first();
        assert forall|i: int, j: int| 0 <= i < j < rest.len() implies (#[trigger] rest[i]).0 < (
        #[trigger] rest[j]).0 by {
            assert(rest[i] == rows[i + 1]);
            assert(rest[j] == rows[j + 1]);
        }
        lemma_trim_keep_props(rest, lo, hi);
        let tr = trim_keep(rest, lo, hi);
        let t = trim_keep(rows, lo, hi);
        if rows_positions_fit(rows) {
            assert forall|i: int| 0 <= i < rest.len() implies i64::MIN <= (#[trigger] rest[i]).0
                <= i64::MAX by {
                assert(rest[i] == rows[i + 1]);
            }
        }
        assert forall|j: int| 0 <= j < tr.len() implies rows[0].0 < (#[trigger] tr[j]).0 by {
            assert(rest[0] == rows[1]);
        }
        if lo <= rows[0].0 <= hi {
            assert(t == seq![rows[0]] + tr);
            assert(t[0] == rows[0]);
            assert forall|j: int| 1 <= j < t.len() implies #[trigger] t[j] == tr[j - 1] by {}
            assert forall|i: int, j: int| 0 <= i < j < t.len() implies (#[trigger] t[i]).0 < (
            #[trigger] t[j]).0 by {
                if i == 0 {
                    assert(t[j] == tr[j - 1]);
                } else {
                    assert(t[i] == tr[i - 1]);
                    assert(t[j] == tr[j - 1]);
                }
            }
        } else {
            assert(t == tr);
        }
    }
}

/// A trim whose range covers every position keeps the list unchanged.
pub proof fn lemma_trim_keep_all(rows: Seq<(int, Seq<u8>)>, lo: int, hi: int)
    requires
        forall|i: int| 0 <= i < rows.len() ==> lo <= (#[trigger] rows[i]).0 <= hi,
    ensures
        trim_keep(rows, lo, hi) == rows,
    decreases rows.len(),
{
    if rows.len() == 0 {
        assert(trim_keep(rows, lo, hi) =~= rows);
    } else {
        let rest = rows.drop_first();
        assert forall|i: int| 0 <= i < rest.len() implies lo <= (#[trigger] rest[i]).0 <= hi by {
            assert(rest[i] == rows[i + 1]);
        }
        lemma_trim_keep_all(rest, lo, hi);
        assert(trim_keep(rows, lo, hi) =~= rows);
    }
}

/// A trim whose range covers no position empties the list.
pub proof fn lemma_trim_keep_none(rows: Seq<(int, Seq<u8>)>, lo: int, hi: int)
    requires
        forall|i: int| 0 <= i < rows.len() ==> ((#[trigger] rows[i]).0 < lo || rows[i].0 > hi),
    ensures
        trim_keep(rows, lo, hi) == Seq::<(int, Seq<u8>)>::empty(),
    decreases rows.len(),
{
    if rows.len() == 0 {
        assert(trim_keep(rows, lo, hi) =~= Seq::<(int, Seq<u8>)>::empty());
    } else {
        let rest = rows.drop_first();
        assert forall|i: int| 0 <= i < rest.len() implies ((#[trigger] rest[i]).0 < lo
            || rest[i].0 > hi) by {
            assert(rest[i] == rows[i + 1]);
        }
        lemma_trim_keep_none(rest, lo, hi);
        assert(rows[0].0 < lo || rows[0].0 > hi);
    }
}

/// Two ranges that agree on every position of the list trim it alike.
pub proof fn lemma_trim_keep_same(rows: Seq<(int, Seq<u8>)>, lo: int, hi: int, lo2: int, hi2: int)
    requires
        forall|i: int| 0 <= i < rows.len() ==> ((lo <= (#[trigger] rows[i]).0 <= hi) <==> (lo2
            <= rows[i].0 <= hi2)),
    ensures
        trim_keep(rows, lo, hi) == trim_keep(rows, lo2, hi2),
    decreases rows.len(),
{
    if rows.len() == 0 {
    } else {
        let rest = rows.drop_first();
        assert forall|i: int| 0 <= i < rest.len() implies ((lo <= (#[trigger] rest[i]).0 <= hi)
            <==> (lo2 <= rest[i].0 <= hi2)) by {
            assert(rest[i] == rows[i + 1]);
        }
        lemma_trim_keep_same(rest, lo, hi, lo2, hi2);
        assert(rows[0].0 == rows.index(0).0);
    }
}

pub proof fn lemma_push_left_one_wf(rows: Seq<(int, Seq<u8>)>, value: Seq<u8>)
    requires
        rows_wf(rows),
        left_margin_ok(rows, 1),
    ensures
        rows_wf(push_left_one(rows, value)),
        push_left_one(rows, value).len() == rows.len() + 1,
        rows.len() > 0 ==> push_left_one(rows, value).last() == rows.last(),
{
    let res = push_left_one(rows, value);
    assert(res[0] == (push_left_pos(rows), value));
    assert forall|j: int| 1 <= j < res.len() implies #[trigger] res[j] == rows[j - 1] by {}
    assert forall|i: int, j: int| 0 <= i < j < res.len() implies (#[trigger] res[i]).0 < (
    #[trigger] res[j]).0 by {
        if i > 0 {
            assert(res[i] == rows[i - 1]);
        }
        assert(res[j] == rows[j - 1]);
    }
    if rows.len() > 0 {
        assert(res.last() == rows[rows.len() - 1]);
    }
}

pub proof fn lemma_push_right_one_wf(rows: Seq<(int, Seq<u8>)>, value: Seq<u8>)
    requires
        rows_wf(rows),
        right_margin_ok(rows, 1),
    ensures
        rows_wf(push_right_one(rows, value)),
        push_right_one(rows, value).len() == rows.len() + 1,
        rows.len() > 0 ==> push_right_one(rows, value)[0] == rows[0],
{
    let res = push_right_one(rows, value);
    assert forall|i: int, j: int| 0 <= i < j < res.len() implies (#[trigger] res[i]).0 < (
    #[trigger] res[j]).0 by {
        assert(res[i] == rows[i]);
        if j < rows.len() {
            assert(res[j] == rows[j]);
        }
    }
}

pub proof fn lemma_push_left_all_props(rows: Seq<(int, Seq<u8>)>, values: Seq<Seq<u8>>)
    requires
        rows_wf(rows),
        left_margin_ok(rows, values.len() as int),
    ensures
        rows_wf(push_left_all(rows, values)),
        push_left_all(rows, values).len() == rows.len() + values.len(),
        row_values(push_left_all(rows, values)) == values.reverse() + row_values(rows),
        rows.len() > 0 ==> push_left_all(rows, values).last() == rows.last(),
        rows.len() == 0 && values.len() > 0 ==> push_left_all(rows, values).last().0 == -1,
    decreases values.len(),
{
    let res = push_left_all(rows, values);
    if values.len() == 0 {
        assert(row_values(res) =~= values.reverse() + row_values(rows));
    } else {
        let one = push_left_one(rows, values[0]);
        lemma_push_left_one_wf(rows, values[0]);
        assert(one[0].0 == push_left_pos(rows));
        assert(left_margin_ok(one, values.len() - 1));
        lemma_push_left_all_props(one, values.drop_first());
        assert(row_values(one) =~= seq![values[0]] + row_values(rows));
        assert(values.drop_first().reverse() + (seq![values[0]] + row_values(rows)) =~= (
        values.drop_first().reverse() + seq![values[0]]) + row_values(rows));
        assert(values.reverse() =~= values.drop_first().reverse() + seq![values[0]]);
        assert(row_values(res) == values.drop_first().reverse() + row_values(one));
        assert(row_values(res) =~= values.reverse() + row_values(rows));
        if rows.len() > 0 {
            assert(res.last() == one.last());
        } else {
            assert(one.last().0 == -1);
            assert(one.len() > 0);
            assert(res.last() == one.last());
        }
    }
}

pub proof fn lemma_push_right_all_props(rows: Seq<(int, Seq<u8>)>, values: Seq<Seq<u8>>)
    requires
        rows_wf(rows),
        right_margin_ok(rows, values.len() as int),
    ensures
        rows_wf(push_right_all(rows, values)),
        push_right_all(rows, values).len() == rows.len() + values.len(),
        row_values(push_right_all(rows, values)) == row_values(rows) + values,
        rows.len() > 0 ==> push_right_all(rows, values)[0] == rows[0],
        rows.len() == 0 && values.len() > 0 ==> push_right_all(rows, values)[0].0 == 1,
    decreases values.len(),
{
    let res = push_right_all(rows, values);
    if values.len() == 0 {
        assert(row_values(res) =~= row_values(rows) + values);
    } else {
        let one = push_right_one(rows, values[0]);
        lemma_push_right_one_wf(rows, values[0]);
        assert(one.last().0 == push_right_pos(rows));
        assert(right_margin_ok(one, values.len() - 1));
        lemma_push_right_all_props(one, values.drop_first());
        assert(row_values(one) =~= row_values(rows) + seq![values[0]]);
        assert((row_values(rows) + seq![values[0]]) + values.drop_first() =~= row_values(rows)
            + values);
        assert(row_values(res) == row_values(one) + values.drop_first());
        assert(row_values(res) =~= row_values(rows) + values);
        if rows.len() == 0 {
            assert(one[0].0 == 1);
        }
    }
}

pub proof fn lemma_push_left_all_snoc(rows: Seq<(int, Seq<u8>)>, values: Seq<Seq<u8>>, v: Seq<u8>)
    ensures
        push_left_all(rows, values.push(v)) == push_left_one(push_left_all(rows, values), v),
    decreases values.len(),
{
    if values.len() == 0 {
        assert(values.push(v)[0] == v);
        assert(values.push(v).drop_first() =~= Seq::<Seq<u8>>::empty());
        assert(push_left_all(push_left_one(rows, v), Seq::<Seq<u8>>::empty())
            == push_left_one(rows, v));
        assert(push_left_all(rows, values) == rows);
    } else {
        assert(values.push(v)[0] == values[0]);
        assert(values.push(v).drop_first() =~= values.drop_first().push(v));
        lemma_push_left_all_snoc(push_left_one(rows, values[0]), values.drop_first(), v);
        assert(push_left_all(rows, values) == push_left_all(
            push_left_one(rows, values[0]),
            values.drop_first(),
        ));
    }
}

pub proof fn lemma_push_right_all_snoc(rows: Seq<(int, Seq<u8>)>, values: Seq<Seq<u8>>, v: Seq<u8>)
    ensures
        push_right_all(rows, values.push(v)) == push_right_one(push_right_all(rows, values), v),
    decreases values.len(),
{
    if values.len() == 0 {
        assert(values.push(v)[0] == v);
        assert(values.push(v).drop_first() =~= Seq::<Seq<u8>>::empty());
        assert(push_right_all(push_right_one(rows, v), Seq::<Seq<u8>>::empty())
            == push_right_one(rows, v));
        assert(push_right_all(rows, values) == rows);
    } else {
        assert(values.push(v)[0] == values[0]);
        assert(values.push(v).drop_first() =~= values.drop_first().push(v));
        lemma_push_right_all_snoc(push_right_one(rows, values[0]), values.drop_first(), v);
        assert(push_right_all(rows, values) == push_right_all(
            push_right_one(rows, values[0]),
            values.drop_first(),
        ));
    }
}

pub proof fn lemma_push_left_one_margin(rows: Seq<(int, Seq<u8>)>, value: Seq<u8>, m: int)
    requires
        left_margin_ok(rows, m + 1),
    ensures
        left_margin_ok(push_left_one(rows, value), m),
{
    let res = push_left_one(rows, value);
    assert(res[0].0 == push_left_pos(rows));
}

pub proof fn lemma_push_right_one_margin(rows: Seq<(int, Seq<u8>)>, value: Seq<u8>, m: int)
    requires
        right_margin_ok(rows, m + 1),
    ensures
        right_margin_ok(push_right_one(rows, value), m),
{
    let res = push_right_one(rows, value);
    assert(res.last().0 == push_right_pos(rows));
}

pub proof fn lemma_update_at_pos_props(rows: Seq<(int, Seq<u8>)>, pos: int, value: Seq<u8>)
    ensures
        update_at_pos(rows, pos, value).len() == rows.len(),
        forall|i: int| 0 <= i < rows.len() ==> (#[trigger] update_at_pos(rows, pos, value)[i]).0
            == rows[i].0,
        forall|i: int| 0 <= i < rows.len() && rows[i].0 == pos ==> #[trigger] update_at_pos(
            rows,
            pos,
            value,
        )[i] == (pos, value),
        forall|i: int| 0 <= i < rows.len() && rows[i].0 != pos ==> #[trigger] update_at_pos(
            rows,
            pos,
            value,
        )[i] == rows[i],
        rows_wf(rows) ==> rows_wf(update_at_pos(rows, pos, value)),
{
    let u = update_at_pos(rows, pos, value);
    assert forall|i: int| 0 <= i < rows.len() implies (#[trigger] u[i]).0 == rows[i].0 by {}
    if rows_wf(rows) {
        assert forall|i: int, j: int| 0 <= i < j < u.len() implies (#[trigger] u[i]).0 < (
        #[trigger] u[j]).0 by {
            assert(u[i].0 == rows[i].0);
            assert(u[j].0 == rows[j].0);
        }
        assert forall|i: int| 0 <= i < u.len() implies i64::MIN <= (#[trigger] u[i]).0
            <= i64::MAX by {
            assert(u[i].0 == rows[i].0);
        }
    }
}

pub proof fn lemma_lookup_at_pos_props(rows: Seq<(int, Seq<u8>)>, pos: int)
    requires
        rows_sorted(rows),
    ensures
        lookup_at_pos(rows, pos) is Some <==> has_position(rows, pos),
        forall|i: int| 0 <= i < rows.len() && (#[trigger] rows[i]).0 == pos ==> lookup_at_pos(
            rows,
            pos,
        ) == Some(rows[i].1),
    decreases rows.len(),
{
    if rows.len() == 0 {
    } else if rows[0].0 == pos {
        assert(has_position(rows, pos));
        assert forall|i: int| 0 <= i < rows.len() && (#[trigger] rows[i]).0 == pos implies
            lookup_at_pos(rows, pos) == Some(rows[i].1) by {
            if i != 0 {
                assert(rows[0].0 < rows[i].0);
            }
        }
    } else {
        let rest = rows.drop_first();
        assert forall|i: int, j: int| 0 <= i < j < rest.len() implies (#[trigger] rest[i]).0 < (
        #[trigger] rest[j]).0 by {
            assert(rest[i] == rows[i + 1]);
            assert(rest[j] == rows[j + 1]);
        }
        lemma_lookup_at_pos_props(rest, pos);
        if has_position(rows, pos) {
            let w = choose|i: int| 0 <= i < rows.len() && #[trigger] rows[i].0 == pos;
            assert(w != 0);
            assert(rest[w - 1] == rows[w]);
            assert(has_position(rest, pos));
        }
        if has_position(rest, pos) {
            let w = choose|i: int| 0 <= i < rest.len() && #[trigger] rest[i].0 == pos;
            assert(rows[w + 1] == rest[w]);
            assert(has_position(rows, pos));
        }
        assert forall|i: int| 0 <= i < rows.len() && (#[trigger] rows[i]).0 == pos implies
            lookup_at_pos(rows, pos) == Some(rows[i].1) by {
            assert(rest[i - 1] == rows[i]);
        }
    }
}

pub proof fn lemma_insert_sorted_props(rows: Seq<(int, Seq<u8>)>, pos: int, value: Seq<u8>)
    requires
        rows_sorted(rows),
        !has_position(rows, pos),
    ensures
        insert_sorted(rows, pos, value).len() == rows.len() + 1,
        rows_sorted(insert_sorted(rows, pos, value)),
        forall|j: int| 0 <= j < insert_sorted(rows, pos, value).len() ==> (#[trigger] insert_sorted(
            rows,
            pos,
            value,
        )[j] == (pos, value) || exists|i: int| 0 <= i < rows.len() && insert_sorted(rows, pos, value)[j]
            == rows[i]),
        rows_positions_fit(rows) && i64::MIN <= pos <= i64::MAX ==> rows_positions_fit(
            insert_sorted(rows, pos, value),
        ),
    decreases rows.len(),
{
    let res = insert_sorted(rows, pos, value);
    if rows.len() == 0 {
        assert(res == seq![(pos, value)]);
        assert(res[0] == (pos, value));
    } else if pos < rows[0].0 {
        assert(res == seq![(pos, value)] + rows);
        assert(res[0] == (pos, value));
        assert forall|j: int| 1 <= j < res.len() implies #[trigger] res[j] == rows[j - 1] by {}
        assert forall|i: int, j: int| 0 <= i < j < res.len() implies (#[trigger] res[i]).0 < (
        #[trigger] res[j]).0 by {
            if i > 0 {
                assert(res[i] == rows[i - 1]);
            }
            assert(res[j] == rows[j - 1]);
        }
    } else {
        assert(pos != rows[0].0) by {
            if pos == rows[0].0 {
                assert(rows[0].0 == pos);
                assert(has_position(rows, pos));
            }
        }
        assert(pos > rows[0].0);
        let rest = rows.drop_first();
        assert forall|i: int, j: int| 0 <= i < j < rest.len() implies (#[trigger] rest[i]).0 < (
        #[trigger] rest[j]).0 by {
            assert(rest[i] == rows[i + 1]);
            assert(rest[j] == rows[j + 1]);
        }
        assert(!has_position(rest, pos)) by {
            if has_position(rest, pos) {
                let w = choose|i: int| 0 <= i < rest.len() && #[trigger] rest[i].0 == pos;
                assert(rows[w + 1] == rest[w]);
                assert(has_position(rows, pos));
            }
        }
        if rows_positions_fit(rows) {
            assert forall|i: int| 0 <= i < rest.len() implies i64::MIN <= (#[trigger] rest[i]).0
                <= i64::MAX by {
                assert(rest[i] == rows[i + 1]);
            }
        }
        lemma_insert_sorted_props(rest, pos, value);
        let ri = insert_sorted(rest, pos, value);
        assert(res == seq![rows[0]] + ri);
        assert(res[0] == rows[0]);
        assert forall|j: int| 1 <= j < res.len() implies #[trigger] res[j] == ri[j - 1] by {}
        assert forall|j: int| 0 <= j < ri.len() implies rows[0].0 < (#[trigger] ri[j]).0 by {
            if ri[j] == (pos, value) {
            } else {
                let w = choose|i: int| 0 <= i < rest.len() && #[trigger] ri[j] == rest[i];
                assert(rest[w] == rows[w + 1]);
            }
        }
        assert forall|i: int, j: int| 0 <= i < j < res.len() implies (#[trigger] res[i]).0 < (
        #[trigger] res[j]).0 by {
            if i > 0 {
                assert(res[i] == ri[i - 1]);
            }
            assert(res[j] == ri[j - 1]);
        }
        assert forall|j: int| 0 <= j < res.len() implies (#[trigger] res[j] == (pos, value)
            || exists|i: int| 0 <= i < rows.len() && res[j] == rows[i]) by {
            if j == 0 {
                assert(res[j] == rows[0]);
            } else {
                assert(res[j] == ri[j - 1]);
                if ri[j - 1] == (pos, value) {
                } else {
                    let w = choose|i: int| 0 <= i < rest.len() && #[trigger] ri[j - 1] == rest[i];
                    assert(rest[w] == rows[w + 1]);
                    assert(res[j] == rows[w + 1]);
                }
            }
        }
    }
}

} // verus!
