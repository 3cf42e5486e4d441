//! Merging events into rows: events that share a time become one row whose
//! lanes are the union of theirs, and the rows stand in ascending order.

use vstd::prelude::*;
use crate::wrapper::Note;

verus! {

/// The union of the lanes of all events of `events` that lie at time `t`.
pub open spec fn mask_at(events: Seq<Note>, t: i64) -> u32
    decreases events.len(),
{
    if events.len() == 0 {
        0
    } else {
        let rest = mask_at(events.drop_last(), t);
        if events.last().row_time == t {
            rest | events.last().notes
        } else {
            rest
        }
    }
}

/// Some event of `events` lies at time `t`.
pub open spec fn has_time(events: Seq<Note>, t: i64) -> bool {
    exists|i: int| 0 <= i < events.len() && (#[trigger] events[i]).row_time == t
}

/// No two rows share a time, and earlier rows come first.
pub open spec fn strictly_ascending(rows: Seq<Note>) -> bool {
    forall|i: int, j: int| 0 <= i < j < rows.len() ==> rows[i].row_time < rows[j].row_time
}

/// The places of `rows` that do not lie after the place before: they share
/// its time or lie before it.
pub open spec fn not_rising(rows: Seq<Note>) -> spec_fn(int) -> bool {
    |i: int| i >= 1 && rows[i].row_time <= rows[i - 1].row_time
}

/// `rows` is the merge of `events`: in ascending order, one row for each time
/// at which an event lies, holding the union of the lanes struck at that time.
pub open spec fn is_merge_of(rows: Seq<Note>, events: Seq<Note>) -> bool {
    &&& strictly_ascending(rows)
    &&& forall|i: int|
        0 <= i < rows.len() ==> has_time(events, (#[trigger] rows[i]).row_time) && rows[i].notes
            == mask_at(events, rows[i].row_time)
    &&& forall|j: int| 0 <= j < events.len() ==> has_time(rows, (#[trigger] events[j]).row_time)
}

/// Without an event at `t` no lane is active at `t`.
pub proof fn lemma_mask_without_time(events: Seq<Note>, t: i64)
    requires
        !has_time(events, t),
    ensures
        mask_at(events, t) == 0,
    decreases events.len(),
{
    if events.len() > 0 {
        let front = events.drop_last();
        assert(events.last() == events[events.len() - 1]);
        assert forall|i: int| 0 <= i < front.len() implies (#[trigger] front[i]).row_time != t by {
            assert(front[i] == events[i]);
        }
        lemma_mask_without_time(front, t);
    }
}

/// In ascending rows the lanes at the time of a row are that row's lanes.
pub proof fn lemma_mask_of_row(rows: Seq<Note>, i: int)
    requires
        strictly_ascending(rows),
        0 <= i < rows.len(),
    ensures
        mask_at(rows, rows[i].row_time) == rows[i].notes,
    decreases rows.len(),
{
    let t = rows[i].row_time;
    let front = rows.drop_last();
    assert forall|a: int, b: int| 0 <= a < b < front.len() implies front[a].row_time
        < front[b].row_time by {
        assert(front[a] == rows[a] && front[b] == rows[b]);
    }
    if i == rows.len() - 1 {
        assert forall|k: int| 0 <= k < front.len() implies (#[trigger] front[k]).row_time != t by {
            assert(front[k] == rows[k]);
        }
        lemma_mask_without_time(front, t);
        let m = rows[i].notes;
        assert(0u32 | m == m) by (bit_vector);
    } else {
        assert(front[i] == rows[i]);
        lemma_mask_of_row(front, i);
    }
}

/// Adding an event adds its lanes at its own time and changes no other time.
pub proof fn lemma_mask_push(events: Seq<Note>, event: Note, t: i64)
    ensures
        mask_at(events.push(event), t) == if event.row_time == t {
            mask_at(events, t) | event.notes
        } else {
            mask_at(events, t)
        },
{
    assert(events.push(event).drop_last() =~= events);
}

/// Merges one event into ascending rows: its lanes join the row at its time,
/// or it becomes a new row at the place its time gives it.
pub fn merge_event(rows: &mut Vec<Note>, event: Note)
    requires
        strictly_ascending(old(rows)@),
    ensures
        is_merge_of(final(rows)@, old(rows)@.push(event)),
{
    let ghost before = rows@;
    let mut p: usize = rows.len();
    while p > 0 && rows[p - 1].row_time > event.row_time
        invariant
            p <= rows.len(),
            rows@ == before,
            forall|k: int| p <= k < rows.len() ==> rows[k].row_time > event.row_time,
        decreases p,
    {
        p -= 1;
    }
    if p > 0 && rows[p - 1].row_time == event.row_time {
        let joined = Note { notes: rows[p - 1].notes | event.notes, row_time: event.row_time };
        rows[p - 1] = joined;
        proof {
            let after = rows@;
            let all = before.push(event);
            assert forall|i: int, j: int| 0 <= i < j < after.len() implies after[i].row_time
                < after[j].row_time by {
                assert(after[i].row_time == before[i].row_time);
                assert(after[j].row_time == before[j].row_time);
            }
            assert forall|i: int| 0 <= i < after.len() implies has_time(
                all,
                (#[trigger] after[i]).row_time,
            ) && after[i].notes == mask_at(all, after[i].row_time) by {
                assert(all[i] == before[i]);
                assert(all[i].row_time == after[i].row_time);
                lemma_mask_push(before, event, after[i].row_time);
                lemma_mask_of_row(before, i);
            }
            assert forall|j: int| 0 <= j < all.len() implies has_time(
                after,
                (#[trigger] all[j]).row_time,
            ) by {
                if j < before.len() {
                    assert(after[j].row_time == all[j].row_time);
                } else {
                    assert(after[p - 1].row_time == all[j].row_time);
                }
            }
        }
    } else {
        rows.insert(p, event);
        proof {
            let after = rows@;
            let all = before.push(event);
            assert forall|k: int| 0 <= k < p implies before[k].row_time < event.row_time by {
                if k < p - 1 {
                    assert(before[k].row_time < before[p - 1].row_time);
                }
            }
            assert forall|i: int, j: int| 0 <= i < j < after.len() implies after[i].row_time
                < after[j].row_time by {
                if j < p {
                    assert(after[i] == before[i] && after[j] == before[j]);
                } else if j == p {
                    assert(after[i] == before[i]);
                } else if i == p {
                    assert(after[j] == before[j - 1]);
                } else if i < p {
                    assert(after[i] == before[i] && after[j] == before[j - 1]);
                } else {
                    assert(after[i] == before[i - 1] && after[j] == before[j - 1]);
                }
            }
            assert(!has_time(before, event.row_time));
            assert forall|i: int| 0 <= i < after.len() implies has_time(
                all,
                (#[trigger] after[i]).row_time,
            ) && after[i].notes == mask_at(all, after[i].row_time) by {
                lemma_mask_push(before, event, after[i].row_time);
                if i == p {
                    assert(all[before.len() as int] == event);
                    lemma_mask_without_time(before, event.row_time);
                    let m = event.notes;
                    assert(0u32 | m == m) by (bit_vector);
                } else {
                    let k = if i < p { i } else { i - 1 };
                    assert(after[i] == before[k]);
                    assert(all[k] == before[k]);
                    lemma_mask_of_row(before, k);
                }
            }
            assert forall|j: int| 0 <= j < all.len() implies has_time(
                after,
                (#[trigger] all[j]).row_time,
            ) by {
                if j < p {
                    assert(after[j] == all[j]);
                } else if j < before.len() {
                    assert(after[j + 1] == all[j]);
                } else {
                    assert(after[p as int] == all[j]);
                }
            }
        }
    }
}

/// Merging `events` after the events that `rows` was merged from is merging
/// all of them at once.
pub proof fn lemma_merge_step(rows: Seq<Note>, seen: Seq<Note>, next: Seq<Note>, event: Note)
    requires
        is_merge_of(rows, seen),
        is_merge_of(next, rows.push(event)),
    ensures
        is_merge_of(next, seen.push(event)),
{
    let mid = rows.push(event);
    let all = seen.push(event);
    assert forall|t: i64| #[trigger] mask_at(mid, t) == mask_at(all, t) by {
        lemma_mask_push(rows, event, t);
        lemma_mask_push(seen, event, t);
        if has_time(rows, t) {
            let i = choose|i: int| 0 <= i < rows.len() && (#[trigger] rows[i]).row_time == t;
            lemma_mask_of_row(rows, i);
        } else {
            lemma_mask_without_time(rows, t);
            if has_time(seen, t) {
                let j = choose|j: int| 0 <= j < seen.len() && (#[trigger] seen[j]).row_time == t;
                assert(has_time(rows, seen[j].row_time));
            }
            lemma_mask_without_time(seen, t);
        }
    }
    assert forall|i: int| 0 <= i < next.len() implies has_time(all, (#[trigger] next[i]).row_time)
        && next[i].notes == mask_at(all, next[i].row_time) by {
        let t = next[i].row_time;
        assert(has_time(mid, t));
        let k = choose|k: int| 0 <= k < mid.len() && (#[trigger] mid[k]).row_time == t;
        if k < rows.len() {
            assert(mid[k] == rows[k]);
            assert(has_time(seen, rows[k].row_time));
            let j = choose|j: int| 0 <= j < seen.len() && (#[trigger] seen[j]).row_time == t;
            assert(all[j] == seen[j]);
        } else {
            assert(all[seen.len() as int] == event);
        }
        assert(mask_at(mid, t) == mask_at(all, t));
    }
    assert forall|j: int| 0 <= j < all.len() implies has_time(
        next,
        (#[trigger] all[j]).row_time,
    ) by {
        if j < seen.len() {
            assert(all[j] == seen[j]);
            assert(has_time(rows, seen[j].row_time));
            let i = choose|i: int| 0 <= i < rows.len() && (#[trigger] rows[i]).row_time
                == seen[j].row_time;
            assert(mid[i] == rows[i]);
            assert(has_time(next, mid[i].row_time));
        } else {
            assert(mid[rows.len() as int] == event);
            assert(has_time(next, mid[rows.len() as int].row_time));
        }
    }
}

/// Merges all of `events`.
pub fn merge_rows(events: &Vec<Note>) -> (rows: Vec<Note>)
    ensures
        is_merge_of(rows@, events@),
{
    let mut rows: Vec<Note> = Vec::new();
    let mut k: usize = 0;
    while k < events.len()
        invariant
            k <= events.len(),
            is_merge_of(rows@, events@.take(k as int)),
        decreases events.len() - k,
    {
        let ghost seen = events@.take(k as int);
        let ghost held = rows@;
        merge_event(&mut rows, events[k]);
        proof {
            lemma_merge_step(held, seen, rows@, events@[k as int]);
            assert(seen.push(events@[k as int]) =~= events@.take(k + 1));
        }
        k += 1;
    }
    proof {
        assert(events@.take(events.len() as int) =~= events@);
    }
    rows
}

/// Every event at time `t` adds nothing to the lanes that are active at `t`.
pub proof fn lemma_mask_holds_event(events: Seq<Note>, i: int)
    requires
        0 <= i < events.len(),
    ensures
        mask_at(events, events[i].row_time) | events[i].notes == mask_at(
            events,
            events[i].row_time,
        ),
    decreases events.len(),
{
    let t = events[i].row_time;
    let front = events.drop_last();
    let rest = mask_at(front, t);
    let m = events[i].notes;
    if i == events.len() - 1 {
        assert((rest | m) | m == rest | m) by (bit_vector);
    } else {
        assert(front[i] == events[i]);
        lemma_mask_holds_event(front, i);
        if events.last().row_time == t {
            let l = events.last().notes;
            assert(rest | m == rest ==> (rest | l) | m == rest | l) by (bit_vector);
        }
    }
}

/// A mask that holds the lanes of every event at `t` holds all lanes active
/// at `t`.
pub proof fn lemma_mask_is_least(events: Seq<Note>, t: i64, bound: u32)
    requires
        forall|i: int|
            0 <= i < events.len() && (#[trigger] events[i]).row_time == t ==> bound
                | events[i].notes == bound,
    ensures
        bound | mask_at(events, t) == bound,
    decreases events.len(),
{
    if events.len() == 0 {
        assert(bound | 0u32 == bound) by (bit_vector);
    } else {
        let front = events.drop_last();
        assert forall|i: int| 0 <= i < front.len() && (#[trigger] front[i]).row_time
            == t implies bound | front[i].notes == bound by {
            assert(front[i] == events[i]);
        }
        lemma_mask_is_least(front, t, bound);
        let rest = mask_at(front, t);
        if events.last().row_time == t {
            let l = events.last().notes;
            assert(events[events.len() - 1] == events.last());
            assert(bound | rest == bound && bound | l == bound ==> bound | (rest | l) == bound)
                by (bit_vector);
        }
    }
}

/// Two event sequences that hold the same events, in whatever order and
/// however often, have the same lanes active at every time.
pub proof fn lemma_mask_ignores_order_and_repeats(a: Seq<Note>, b: Seq<Note>, t: i64)
    requires
        forall|e: Note| a.contains(e) <==> b.contains(e),
    ensures
        mask_at(a, t) == mask_at(b, t),
{
    let ma = mask_at(a, t);
    let mb = mask_at(b, t);
    assert forall|i: int| 0 <= i < a.len() && (#[trigger] a[i]).row_time == t implies mb
        | a[i].notes == mb by {
        assert(a.contains(a[i]));
        let j = choose|j: int| 0 <= j < b.len() && b[j] == a[i];
        lemma_mask_holds_event(b, j);
    }
    lemma_mask_is_least(a, t, mb);
    assert forall|j: int| 0 <= j < b.len() && (#[trigger] b[j]).row_time == t implies ma
        | b[j].notes == ma by {
        assert(b.contains(b[j]));
        let i = choose|i: int| 0 <= i < a.len() && a[i] == b[j];
        lemma_mask_holds_event(a, i);
    }
    lemma_mask_is_least(b, t, ma);
    assert(mb | ma == mb && ma | mb == ma ==> ma == mb) by (bit_vector);
}

/// Ascending rows that lie at the same times lie there in the same places.
pub proof fn lemma_same_times_same_places(a: Seq<Note>, b: Seq<Note>)
    requires
        strictly_ascending(a),
        strictly_ascending(b),
        forall|t: i64| has_time(a, t) <==> has_time(b, t),
    ensures
        a.len() == b.len(),
        forall|i: int| 0 <= i < a.len() ==> a[i].row_time == b[i].row_time,
    decreases a.len(),
{
    if a.len() == 0 {
        if b.len() > 0 {
            assert(has_time(b, b[0].row_time));
        }
    } else {
        let ta = a.last().row_time;
        assert(has_time(a, a[a.len() - 1].row_time));
        assert(has_time(b, ta));
        let j = choose|j: int| 0 <= j < b.len() && (#[trigger] b[j]).row_time == ta;
        let tb = b.last().row_time;
        assert(has_time(b, b[b.len() - 1].row_time));
        assert(has_time(a, tb));
        let i = choose|i: int| 0 <= i < a.len() && (#[trigger] a[i]).row_time == tb;
        assert(ta == tb) by {
            if i < a.len() - 1 {
                assert(a[i].row_time < a[a.len() - 1].row_time);
            }
            if j < b.len() - 1 {
                assert(b[j].row_time < b[b.len() - 1].row_time);
            }
        }
        let fa = a.drop_last();
        let fb = b.drop_last();
        assert forall|x: int, y: int| 0 <= x < y < fa.len() implies fa[x].row_time
            < fa[y].row_time by {
            assert(fa[x] == a[x] && fa[y] == a[y]);
        }
        assert forall|x: int, y: int| 0 <= x < y < fb.len() implies fb[x].row_time
            < fb[y].row_time by {
            assert(fb[x] == b[x] && fb[y] == b[y]);
        }
        assert forall|t: i64| has_time(fa, t) <==> has_time(fb, t) by {
            if has_time(fa, t) {
                let x = choose|x: int| 0 <= x < fa.len() && (#[trigger] fa[x]).row_time == t;
                assert(fa[x] == a[x]);
                assert(a[x].row_time < a[a.len() - 1].row_time);
                assert(has_time(a, a[x].row_time));
                let y = choose|y: int| 0 <= y < b.len() && (#[trigger] b[y]).row_time == t;
                assert(fb[y] == b[y]);
            }
            if has_time(fb, t) {
                let y = choose|y: int| 0 <= y < fb.len() && (#[trigger] fb[y]).row_time == t;
                assert(fb[y] == b[y]);
                assert(b[y].row_time < b[b.len() - 1].row_time);
                assert(has_time(b, b[y].row_time));
                let x = choose|x: int| 0 <= x < a.len() && (#[trigger] a[x]).row_time == t;
                assert(fa[x] == a[x]);
            }
        }
        lemma_same_times_same_places(fa, fb);
        assert forall|k: int| 0 <= k < a.len() implies a[k].row_time == b[k].row_time by {
            if k < a.len() - 1 {
                assert(fa[k] == a[k] && fb[k] == b[k]);
            }
        }
    }
}

/// The merge is independent of the order of the events and of repeats among
/// them: event sequences that hold the same events have one and the same
/// merge. In particular two events at one time give one row with both their
/// lanes whichever comes first, and an event merged twice counts once.
pub proof fn lemma_merge_ignores_order_and_repeats(
    rows_a: Seq<Note>,
    a: Seq<Note>,
    rows_b: Seq<Note>,
    b: Seq<Note>,
)
    requires
        is_merge_of(rows_a, a),
        is_merge_of(rows_b, b),
        forall|e: Note| a.contains(e) <==> b.contains(e),
    ensures
        rows_a == rows_b,
{
    assert forall|t: i64| has_time(a, t) <==> has_time(b, t) by {
        if has_time(a, t) {
            let i = choose|i: int| 0 <= i < a.len() && (#[trigger] a[i]).row_time == t;
            assert(a.contains(a[i]));
            let j = choose|j: int| 0 <= j < b.len() && b[j] == a[i];
            assert(b[j].row_time == t);
        }
        if has_time(b, t) {
            let j = choose|j: int| 0 <= j < b.len() && (#[trigger] b[j]).row_time == t;
            assert(b.contains(b[j]));
            let i = choose|i: int| 0 <= i < a.len() && a[i] == b[j];
            assert(a[i].row_time == t);
        }
    }
    assert forall|t: i64| has_time(rows_a, t) <==> has_time(rows_b, t) by {
        if has_time(rows_a, t) {
            let i = choose|i: int| 0 <= i < rows_a.len() && (#[trigger] rows_a[i]).row_time == t;
            assert(has_time(a, rows_a[i].row_time));
            let j = choose|j: int| 0 <= j < b.len() && (#[trigger] b[j]).row_time == t;
            assert(has_time(rows_b, b[j].row_time));
        }
        if has_time(rows_b, t) {
            let i = choose|i: int| 0 <= i < rows_b.len() && (#[trigger] rows_b[i]).row_time == t;
            assert(has_time(b, rows_b[i].row_time));
            let j = choose|j: int| 0 <= j < a.len() && (#[trigger] a[j]).row_time == t;
            assert(has_time(rows_a, a[j].row_time));
        }
    }
    lemma_same_times_same_places(rows_a, rows_b);
    assert forall|i: int| 0 <= i < rows_a.len() implies rows_a[i] == rows_b[i] by {
        lemma_mask_ignores_order_and_repeats(a, b, rows_a[i].row_time);
    }
    assert(rows_a =~= rows_b);
}

/// The events determine their merge.
pub proof fn lemma_merge_unique(rows_a: Seq<Note>, rows_b: Seq<Note>, events: Seq<Note>)
    requires
        is_merge_of(rows_a, events),
        is_merge_of(rows_b, events),
    ensures
        rows_a == rows_b,
{
    lemma_merge_ignores_order_and_repeats(rows_a, events, rows_b, events);
}

/// Ascending rows are their own merge: merging what was merged changes
/// nothing.
pub proof fn lemma_merged_rows_are_fixed(rows: Seq<Note>)
    requires
        strictly_ascending(rows),
    ensures
        is_merge_of(rows, rows),
{
    assert forall|i: int| 0 <= i < rows.len() implies has_time(rows, (#[trigger] rows[i]).row_time)
        && rows[i].notes == mask_at(rows, rows[i].row_time) by {
        lemma_mask_of_row(rows, i);
    }
}

/// Two events at one time, merged in either order, give the one row that
/// holds the lanes of both.
pub proof fn lemma_merge_pair(rows: Seq<Note>, t: i64, m1: u32, m2: u32, swapped: bool)
    requires
        is_merge_of(
            rows,
            if swapped {
                seq![Note { notes: m2, row_time: t }, Note { notes: m1, row_time: t }]
            } else {
                seq![Note { notes: m1, row_time: t }, Note { notes: m2, row_time: t }]
            },
        ),
    ensures
        rows == seq![Note { notes: m1 | m2, row_time: t }],
{
    let e1 = Note { notes: m1, row_time: t };
    let e2 = Note { notes: m2, row_time: t };
    let events = if swapped { seq![e2, e1] } else { seq![e1, e2] };
    let one = seq![Note { notes: m1 | m2, row_time: t }];
    assert(events.drop_last() =~= seq![events[0]]);
    assert(events.drop_last().drop_last() =~= Seq::<Note>::empty());
    assert(mask_at(Seq::<Note>::empty(), t) == 0);
    assert(mask_at(events.drop_last(), t) == 0u32 | events[0].notes);
    assert(mask_at(events, t) == (0u32 | events[0].notes) | events[1].notes);
    assert((0u32 | m1) | m2 == m1 | m2 && (0u32 | m2) | m1 == m1 | m2) by (bit_vector);
    assert(one[0].row_time == t);
    assert(has_time(events, one[0].row_time)) by {
        assert(events[0].row_time == t);
    }
    assert(has_time(one, events[0].row_time) && has_time(one, events[1].row_time));
    assert(is_merge_of(one, events));
    lemma_merge_unique(rows, one, events);
}

/// Rows merged from events that each strike a lane, all of them among the
/// lanes of `limit`, each strike a lane, all of them among the lanes of `limit`.
pub proof fn lemma_merged_lanes(rows: Seq<Note>, events: Seq<Note>, limit: u32)
    requires
        is_merge_of(rows, events),
        forall|j: int|
            0 <= j < events.len() ==> (#[trigger] events[j]).notes != 0 && limit | events[j].notes
                == limit,
    ensures
        forall|i: int|
            0 <= i < rows.len() ==> (#[trigger] rows[i]).notes != 0 && rows[i].notes <= limit,
{
    assert forall|i: int| 0 <= i < rows.len() implies (#[trigger] rows[i]).notes != 0
        && rows[i].notes <= limit by {
        let t = rows[i].row_time;
        let m = mask_at(events, t);
        assert(has_time(events, t));
        let j = choose|j: int| 0 <= j < events.len() && (#[trigger] events[j]).row_time == t;
        lemma_mask_holds_event(events, j);
        let e = events[j].notes;
        assert(m | e == m && e != 0 ==> m != 0) by (bit_vector);
        lemma_mask_is_least(events, t, limit);
        assert(limit | m == limit ==> m <= limit) by (bit_vector);
    }
}

/// Rows are in strictly ascending order exactly if each lies after the one
/// before it.
pub proof fn lemma_rising_is_ascending(rows: Seq<Note>)
    ensures
        strictly_ascending(rows) <==> forall|i: int|
            0 <= i < rows.len() ==> !#[trigger] not_rising(rows)(i),
{
    if strictly_ascending(rows) {
        assert forall|i: int| 0 <= i < rows.len() implies !#[trigger] not_rising(rows)(i) by {
            if i >= 1 {
                assert(rows[i - 1].row_time < rows[i].row_time);
            }
        }
    }
    if forall|i: int| 0 <= i < rows.len() ==> !#[trigger] not_rising(rows)(i) {
        assert forall|i: int, j: int| 0 <= i < j < rows.len() implies rows[i].row_time
            < rows[j].row_time by {
            lemma_rising_between(rows, i, j);
        }
    }
}

/// Where each row lies after the one before it, a later row lies after an
/// earlier one.
proof fn lemma_rising_between(rows: Seq<Note>, i: int, j: int)
    requires
        0 <= i < j < rows.len(),
        forall|k: int| 0 <= k < rows.len() ==> !#[trigger] not_rising(rows)(k),
    ensures
        rows[i].row_time < rows[j].row_time,
    decreases j - i,
{
    assert(!not_rising(rows)(j));
    if i < j - 1 {
        lemma_rising_between(rows, i, j - 1);
    }
}

} // verus!
