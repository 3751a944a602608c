//! The laws of the list model: what holds of every list and every command
//! sequence, proved over the same spec functions the command contracts are
//! stated in.

use vstd::prelude::*;

use crate::monitor::{sent, Listener, Monitor};

use crate::model::{
    left_margin_ok, lemma_lookup_at_pos_props, lemma_push_left_all_props,
    lemma_push_right_all_props, lemma_trim_keep_all, lemma_update_at_pos_props, lindex_result,
    lookup_at_pos, lrange_result, lset_in_range, lset_result, ltrim_result, push_left_all,
    push_left_one, push_right_all, push_right_one, right_margin_ok, row_values, rows_contiguous,
    rows_wf, translate, trim_keep, update_at_pos,
};

verus! {

/// The rows a trim to [lo, hi] deletes, in order.
pub open spec fn trim_dropped(rows: Seq<(int, Seq<u8>)>, lo: int, hi: int) -> Seq<(int, Seq<u8>)>
    decreases rows.len(),
{
    if rows.len() == 0 {
        Seq::empty()
    } else {
        let rest = trim_dropped(rows.drop_first(), lo, hi);
        if lo <= rows[0].0 <= hi {
            rest
        } else {
            seq![rows[0]] + rest
        }
    }
}

/// A key's element count balances exactly: a push adds as many elements as
/// it was given values, a pop on a non-empty key removes one, a trim
/// removes exactly the rows outside its range, and a value update removes
/// none.
pub proof fn lemma_count_balance(
    rows: Seq<(int, Seq<u8>)>,
    values: Seq<Seq<u8>>,
    lo: int,
    hi: int,
    pos: int,
    value: Seq<u8>,
)
    requires
        rows_wf(rows),
        left_margin_ok(rows, values.len() as int),
        right_margin_ok(rows, values.len() as int),
    ensures
        push_left_all(rows, values).len() == rows.len() + values.len(),
        push_right_all(rows, values).len() == rows.len() + values.len(),
        rows.len() > 0 ==> rows.drop_first().len() == rows.len() - 1,
        rows.len() > 0 ==> rows.drop_last().len() == rows.len() - 1,
        trim_keep(rows, lo, hi).len() + trim_dropped(rows, lo, hi).len() == rows.len(),
        update_at_pos(rows, pos, value).len() == rows.len(),
    decreases rows.len(),
{
    lemma_push_left_all_props(rows, values);
    lemma_push_right_all_props(rows, values);
    lemma_update_at_pos_props(rows, pos, value);
    if rows.len() > 0 {
        let rest = rows.drop_first();
        crate::model::lemma_drop_first_wf(rows);
        lemma_count_balance(rest, values, lo, hi, pos, value);
    }
}

/// After RPUSH of values onto an empty key, LRANGE 0 -1 lists exactly
/// those values, in the order given.
pub proof fn lemma_rpush_then_lrange(rows: Seq<(int, Seq<u8>)>, values: Seq<Seq<u8>>)
    requires
        rows.len() == 0,
        rows_wf(rows),
        right_margin_ok(rows, values.len() as int),
    ensures
        lrange_result(push_right_all(rows, values), 0, -1) == values,
{
    lemma_push_right_all_props(rows, values);
    assert(row_values(rows) =~= Seq::<Seq<u8>>::empty());
    assert(row_values(push_right_all(rows, values)) =~= values);
}

/// After LPUSH of values onto an empty key, LRANGE 0 -1 lists exactly
/// those values, newest first.
pub proof fn lemma_lpush_then_lrange(rows: Seq<(int, Seq<u8>)>, values: Seq<Seq<u8>>)
    requires
        rows.len() == 0,
        rows_wf(rows),
        left_margin_ok(rows, values.len() as int),
    ensures
        lrange_result(push_left_all(rows, values), 0, -1) == values.reverse(),
{
    lemma_push_left_all_props(rows, values);
    assert(row_values(rows) =~= Seq::<Seq<u8>>::empty());
    assert(row_values(push_left_all(rows, values)) =~= values.reverse());
}

/// A pop takes back what a push just added: LPUSH then LPOP yields the
/// pushed value and restores the list, and so do RPUSH and RPOP.
pub proof fn lemma_push_then_pop(rows: Seq<(int, Seq<u8>)>, value: Seq<u8>)
    ensures
        push_left_one(rows, value)[0].1 == value,
        push_left_one(rows, value).drop_first() == rows,
        push_right_one(rows, value).last().1 == value,
        push_right_one(rows, value).drop_last() == rows,
{
    assert(push_left_one(rows, value).drop_first() =~= rows);
    assert(push_right_one(rows, value).drop_last() =~= rows);
}

/// On a list whose positions run without gaps, LINDEX i answers element
/// `translate(i) - first` of LRANGE 0 -1, for every index either side
/// resolves: the gap-free run is what every command sequence maintains,
/// and what directly seeded positions can break.
pub proof fn lemma_lindex_matches_lrange(rows: Seq<(int, Seq<u8>)>, index: int)
    requires
        rows_wf(rows),
        rows_contiguous(rows),
        rows.len() > 0,
        0 <= index < rows.len() || -rows.len() <= index < 0,
    ensures
        ({
            let norm = translate(rows[0].0, rows.last().0, index) - rows[0].0;
            &&& 0 <= norm < rows.len()
            &&& lindex_result(rows, index) == Some(lrange_result(rows, 0, -1)[norm])
        }),
{
    let first = rows[0].0;
    let last = rows.last().0;
    assert(last == first + rows.len() - 1);
    let pos = translate(first, last, index);
    let norm = pos - first;
    assert(rows[norm].0 == pos);
    lemma_lookup_at_pos_props(rows, pos);
    assert(lookup_at_pos(rows, pos) == Some(rows[norm].1));
    assert(lrange_result(rows, 0, -1)[norm] == rows[norm].1);
}

/// After a successful LSET at index i, LINDEX i answers the new value,
/// again on a gap-free run of positions.
pub proof fn lemma_lset_then_lindex(rows: Seq<(int, Seq<u8>)>, index: int, value: Seq<u8>)
    requires
        rows_wf(rows),
        rows_contiguous(rows),
        lset_in_range(rows, index),
    ensures
        lindex_result(lset_result(rows, index, value), index) == Some(value),
{
    let first = rows[0].0;
    let last = rows.last().0;
    let pos = translate(first, last, index);
    let norm = pos - first;
    assert(last == first + rows.len() - 1);
    assert(0 <= norm < rows.len());
    assert(rows[norm].0 == pos);
    let updated = lset_result(rows, index, value);
    lemma_update_at_pos_props(rows, pos, value);
    assert(updated[0].0 == rows[0].0);
    assert(updated.last().0 == rows.last().0);
    assert(updated[norm] == (pos, value));
    lemma_lookup_at_pos_props(updated, pos);
    assert(lookup_at_pos(updated, pos) == Some(value));
}

/// LTRIM 0 -1 is a no-op on any list state: by the fast path, and equally
/// by the range it denotes, which spans every position the key holds.
pub proof fn lemma_ltrim_full_range(rows: Seq<(int, Seq<u8>)>)
    requires
        rows_wf(rows),
    ensures
        ltrim_result(rows, 0, -1) == rows,
        rows.len() > 0 ==> trim_keep(
            rows,
            translate(rows[0].0, rows.last().0, 0),
            translate(rows[0].0, rows.last().0, -1),
        ) == rows,
{
    if rows.len() > 0 {
        let first = rows[0].0;
        let last = rows.last().0;
        assert forall|i: int| 0 <= i < rows.len() implies first <= (#[trigger] rows[i]).0
            <= last by {
            if i > 0 {
                assert(rows[0].0 < rows[i].0);
            }
            if i < rows.len() - 1 {
                assert(rows[i].0 < rows[rows.len() - 1].0);
            }
        }
        lemma_trim_keep_all(rows, translate(first, last, 0), translate(first, last, -1));
    }
}

proof fn lemma_trim_keep_contiguous(rows: Seq<(int, Seq<u8>)>, lo: int, hi: int)
    requires
        rows_contiguous(rows),
    ensures
        rows_contiguous(trim_keep(rows, lo, hi)),
        trim_keep(rows, lo, hi).len() > 0 ==> trim_keep(rows, lo, hi)[0].0 == (if rows.len() > 0
            && rows[0].0 >= lo {
            rows[0].0
        } else {
            lo
        }),
        rows.len() > 0 && rows[0].0 > hi ==> trim_keep(rows, lo, hi).len() == 0,
    decreases rows.len(),
{
    if rows.len() == 0 {
    } else {
        let rest = rows.drop_first();
        assert forall|i: int| 0 <= i < rest.len() implies (#[trigger] rest[i]).0 == rest[0].0
            + i by {
            assert(rest[i] == rows[i + 1]);
            assert(rest[0] == rows[1]);
        }
        lemma_trim_keep_contiguous(rest, lo, hi);
        let t = trim_keep(rows, lo, hi);
        let tr = trim_keep(rest, lo, hi);
        if lo <= rows[0].0 <= hi {
            assert(t == seq![rows[0]] + tr);
            if tr.len() > 0 {
                assert(rest.len() > 0);
                assert(rest[0] == rows[1]);
                assert(tr[0].0 == rows[0].0 + 1);
                assert forall|j: int| 0 <= j < t.len() implies (#[trigger] t[j]).0 == t[0].0
                    + j by {
                    if j > 0 {
                        assert(t[j] == tr[j - 1]);
                        assert(tr[j - 1].0 == tr[0].0 + (j - 1));
                    }
                }
            }
        } else if rows[0].0 > hi {
            assert(rest.len() == 0 || rest[0].0 > hi);
        } else {
            assert(rows[0].0 < lo);
        }
    }
}

/// Every list primitive keeps the positions of a key a gap-free run: a
/// push extends it by one at its end, a pop shortens it by one, a trim
/// keeps a block of it, and a value update leaves positions alone. This is
/// the run the index laws above build on; only direct seeding escapes it.
pub proof fn lemma_commands_keep_contiguity(
    rows: Seq<(int, Seq<u8>)>,
    value: Seq<u8>,
    lo: int,
    hi: int,
    pos: int,
)
    requires
        rows_contiguous(rows),
    ensures
        rows_contiguous(push_left_one(rows, value)),
        rows_contiguous(push_right_one(rows, value)),
        rows.len() > 0 ==> rows_contiguous(rows.drop_first()),
        rows.len() > 0 ==> rows_contiguous(rows.drop_last()),
        rows_contiguous(trim_keep(rows, lo, hi)),
        rows_contiguous(update_at_pos(rows, pos, value)),
{
    let pl = push_left_one(rows, value);
    assert forall|i: int| 0 <= i < pl.len() implies (#[trigger] pl[i]).0 == pl[0].0 + i by {
        if i > 0 {
            assert(pl[i] == rows[i - 1]);
            assert(rows[i - 1].0 == rows[0].0 + (i - 1));
        }
    }
    let pr = push_right_one(rows, value);
    assert forall|i: int| 0 <= i < pr.len() implies (#[trigger] pr[i]).0 == pr[0].0 + i by {
        if i < rows.len() {
            assert(pr[i] == rows[i]);
        } else {
            assert(pr[i].0 == crate::model::push_right_pos(rows));
            if rows.len() > 0 {
                assert(rows.last().0 == rows[0].0 + (rows.len() - 1));
            }
        }
    }
    if rows.len() > 0 {
        let df = rows.drop_first();
        assert forall|i: int| 0 <= i < df.len() implies (#[trigger] df[i]).0 == df[0].0 + i by {
            assert(df[i] == rows[i + 1]);
            assert(df[0] == rows[1]);
        }
        let dl = rows.drop_last();
        assert forall|i: int| 0 <= i < dl.len() implies (#[trigger] dl[i]).0 == dl[0].0 + i by {
            assert(dl[i] == rows[i]);
            assert(dl[0] == rows[0]);
        }
    }
    lemma_trim_keep_contiguous(rows, lo, hi);
    lemma_update_at_pos_props(rows, pos, value);
    let u = update_at_pos(rows, pos, value);
    assert forall|i: int| 0 <= i < u.len() implies (#[trigger] u[i]).0 == u[0].0 + i by {
        assert(u[i].0 == rows[i].0);
        assert(u[0].0 == rows[0].0);
    }
}

/// A monitor subscriber that has caught up with the bus receives the very
/// next message sent, whatever the bus dropped before: this is why a
/// MONITOR session sees every command logged after it subscribed, in
/// dispatch order.
pub proof fn lemma_subscriber_sees_next_message(
    pre: Monitor,
    post: Monitor,
    listener: Listener,
    message: Seq<char>,
)
    requires
        pre.wf(),
        post.wf(),
        sent(pre, post, message),
        listener.position == pre.stop,
    ensures
        listener.position < post.stop,
        post.queue_view()[listener.position - post.start] == message,
{
    if pre.queue.len() < pre.capacity() {
        assert(post.queue_view().last() == message);
    } else {
        assert(post.queue_view().last() == message);
        assert(post.queue_view().len() == pre.queue_view().len());
    }
}

} // verus!
