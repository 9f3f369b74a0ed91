//! What a whole walk hands out, whatever the source answers, and what it hands out when
//! the source answers from one fixed history.

use vstd::prelude::*;
use crate::cursor::{
    admits, admitting, cursor_after, first_cursor, kept, next_cursor, query_of, PageQuery,
    RequestCursor,
};
use crate::fill::Fill;
use crate::seq_facts::{
    lemma_concat_members, lemma_filter_keeps_order, lemma_filter_members,
    lemma_part_is_not_longer,
};

verus! {

/// The fills handed out by a walk that starts at `cursor` while the source answers the
/// successive queries with `pages`, one page each. The walk ends at the first page that
/// hands out nothing; pages after that one are never asked for.
pub open spec fn emitted<P>(
    cursor: RequestCursor,
    start: Option<i64>,
    pages: Seq<Seq<Fill<P>>>,
) -> Seq<Fill<P>>
    decreases pages.len(),
{
    if pages.len() == 0 {
        Seq::empty()
    } else {
        match next_cursor(cursor, start, pages.first()) {
            None => Seq::empty(),
            Some(next) => kept(cursor, start, pages.first()) + emitted(
                next,
                start,
                pages.drop_first(),
            ),
        }
    }
}

/// Every fill has a larger identifier than the fills after it.
pub open spec fn ids_descend<P>(s: Seq<Fill<P>>) -> bool {
    forall|i: int, j: int| 0 <= i < j < s.len() ==> (#[trigger] s[i])@.id > (#[trigger] s[j])@.id
}

/// Every fill of the page lies before `end_exclusive`.
pub open spec fn within<P>(page: Seq<Fill<P>>, end_exclusive: i64) -> bool {
    forall|i: int| 0 <= i < page.len() ==> (#[trigger] page[i])@.time < end_exclusive
}

/// Every page that the walk asks for holds only fills before the end of its query.
pub open spec fn answers_within<P>(
    cursor: RequestCursor,
    start: Option<i64>,
    pages: Seq<Seq<Fill<P>>>,
) -> bool
    decreases pages.len(),
{
    if pages.len() == 0 {
        true
    } else {
        &&& within(pages.first(), cursor.end_time)
        &&& match next_cursor(cursor, start, pages.first()) {
            None => true,
            Some(next) => answers_within(next, start, pages.drop_first()),
        }
    }
}

proof fn lemma_descent_is_distinct<P>(s: Seq<Fill<P>>)
    requires
        ids_descend(s),
    ensures
        s.no_duplicates(),
{
    assert forall|i: int, j: int| 0 <= i < s.len() && 0 <= j < s.len() && i != j implies s[i]
        != s[j] by {
        if i < j {
            assert(s[i]@.id > s[j]@.id);
        } else {
            assert(s[j]@.id > s[i]@.id);
        }
    }
}

proof fn lemma_kept_descends<P>(cursor: RequestCursor, start: Option<i64>, page: Seq<Fill<P>>)
    requires
        ids_descend(page),
    ensures
        ids_descend(kept(cursor, start, page)),
        forall|x: Fill<P>| #[trigger]
            kept(cursor, start, page).contains(x) <==> page.contains(x) && admits(cursor, start, x),
{
    let above = |a: Fill<P>, b: Fill<P>| a@.id > b@.id;
    lemma_filter_keeps_order(page, admitting(cursor, start), above);
    lemma_filter_members(page, admitting(cursor, start));
}

proof fn lemma_concat_descends<P>(a: Seq<Fill<P>>, b: Seq<Fill<P>>)
    requires
        ids_descend(a),
        ids_descend(b),
        a.len() > 0 ==> forall|j: int| 0 <= j < b.len() ==> (#[trigger] b[j])@.id < a.last()@.id,
    ensures
        ids_descend(a + b),
{
    let ab = a + b;
    assert forall|i: int, j: int| 0 <= i < j < ab.len() implies (#[trigger] ab[i])@.id > (
    #[trigger] ab[j])@.id by {
        if j < a.len() {
            assert(ab[i] == a[i] && ab[j] == a[j]);
        } else if i >= a.len() {
            assert(ab[i] == b[i - a.len()] && ab[j] == b[j - a.len()]);
        } else {
            assert(ab[i] == a[i] && ab[j] == b[j - a.len()]);
            if i < a.len() - 1 {
                assert(a[i]@.id > a[a.len() - 1]@.id);
            }
        }
    }
}

/// No fill is handed out twice: where every page lists its fills by falling identifier,
/// as a source does that returns the newest first, the identifiers of all the fills
/// handed out fall strictly from one to the next, so no two of them are equal.
pub proof fn lemma_no_fill_twice<P>(
    cursor: RequestCursor,
    start: Option<i64>,
    pages: Seq<Seq<Fill<P>>>,
)
    requires
        forall|k: int| 0 <= k < pages.len() ==> ids_descend(#[trigger] pages[k]),
    ensures
        ids_descend(emitted(cursor, start, pages)),
        forall|i: int|
            0 <= i < emitted(cursor, start, pages).len() ==> (#[trigger] emitted(
                cursor,
                start,
                pages,
            )[i])@.id < cursor.oldest_id_seen,
        forall|i: int, j: int|
            0 <= i < emitted(cursor, start, pages).len() && 0 <= j < emitted(
                cursor,
                start,
                pages,
            ).len() && i != j ==> (#[trigger] emitted(cursor, start, pages)[i])@.id != (
            #[trigger] emitted(cursor, start, pages)[j])@.id,
    decreases pages.len(),
{
    let out = emitted(cursor, start, pages);
    if pages.len() > 0 {
        let page = pages.first();
        let batch = kept(cursor, start, page);
        assert(ids_descend(page));
        lemma_kept_descends(cursor, start, page);
        match next_cursor(cursor, start, page) {
            None => {},
            Some(next) => {
                let rest = pages.drop_first();
                let tail = emitted(next, start, rest);
                assert forall|k: int| 0 <= k < rest.len() implies ids_descend(
                    #[trigger] rest[k],
                ) by {
                    assert(rest[k] == pages[k + 1]);
                }
                lemma_no_fill_twice(next, start, rest);
                assert(next == cursor_after(batch.last()));
                lemma_concat_descends(batch, tail);
                assert(out == batch + tail);
                assert(batch.contains(batch.last()));
                assert forall|i: int| 0 <= i < out.len() implies (#[trigger] out[i])@.id
                    < cursor.oldest_id_seen by {
                    if i < batch.len() {
                        assert(batch.contains(batch[i]));
                    } else {
                        assert(out[i] == tail[i - batch.len()]);
                    }
                }
            },
        }
    }
    assert forall|i: int, j: int| 0 <= i < out.len() && 0 <= j < out.len() && i != j implies (
    #[trigger] out[i])@.id != (#[trigger] out[j])@.id by {
        if i < j {
            assert(out[i]@.id > out[j]@.id);
        } else {
            assert(out[j]@.id > out[i]@.id);
        }
    }
}

/// The cursor only moves back: after a page that keeps to the end of its query, the next
/// query does not end later than this one, and the identifier below which fills count
/// as new has fallen.
pub proof fn lemma_cursor_moves_back<P>(
    cursor: RequestCursor,
    start: Option<i64>,
    page: Seq<Fill<P>>,
)
    requires
        within(page, cursor.end_time),
        next_cursor(cursor, start, page) is Some,
    ensures
        next_cursor(cursor, start, page).unwrap().end_time <= cursor.end_time,
        next_cursor(cursor, start, page).unwrap().oldest_id_seen < cursor.oldest_id_seen,
{
    let batch = kept(cursor, start, page);
    lemma_filter_members(page, admitting(cursor, start));
    assert(batch.contains(batch.last()));
    assert(page.contains(batch.last()));
}

/// Nothing outside the window is handed out: where the source keeps to the end of each
/// query, every fill handed out lies before the end of the run and, where the run has a
/// start, not before that.
pub proof fn lemma_nothing_outside_the_window<P>(
    cursor: RequestCursor,
    start: Option<i64>,
    pages: Seq<Seq<Fill<P>>>,
)
    requires
        answers_within(cursor, start, pages),
    ensures
        forall|i: int|
            0 <= i < emitted(cursor, start, pages).len() ==> {
                let f = #[trigger] emitted(cursor, start, pages)[i];
                &&& f@.time < cursor.end_time
                &&& start matches Some(s) ==> s <= f@.time
            },
    decreases pages.len(),
{
    let out = emitted(cursor, start, pages);
    if pages.len() > 0 {
        let page = pages.first();
        let batch = kept(cursor, start, page);
        lemma_filter_members(page, admitting(cursor, start));
        match next_cursor(cursor, start, page) {
            None => {},
            Some(next) => {
                let rest = pages.drop_first();
                let tail = emitted(next, start, rest);
                lemma_nothing_outside_the_window(next, start, rest);
                assert(batch.contains(batch.last()));
                assert(page.contains(batch.last()));
                assert(next.end_time <= cursor.end_time);
                assert forall|i: int| 0 <= i < out.len() implies {
                    let f = #[trigger] out[i];
                    &&& f@.time < cursor.end_time
                    &&& start matches Some(s) ==> s <= f@.time
                } by {
                    if i < batch.len() {
                        assert(batch.contains(batch[i]));
                        assert(page.contains(batch[i]));
                    } else {
                        assert(out[i] == tail[i - batch.len()]);
                    }
                }
            },
        }
    }
}

/// The fills of a history are listed newest first: identifiers fall strictly, as the
/// exchange assigns them in rising order, and times do not rise.
pub open spec fn newest_first<P>(history: Seq<Fill<P>>) -> bool {
    forall|i: int, j: int|
        0 <= i < j < history.len() ==> {
            &&& (#[trigger] history[i])@.id > (#[trigger] history[j])@.id
            &&& history[i]@.time >= history[j]@.time
        }
}

/// The fills that lie in the span of a query.
pub open spec fn asked_for<P>(q: PageQuery) -> spec_fn(Fill<P>) -> bool {
    |f: Fill<P>| q.start_inclusive <= f@.time < q.end_exclusive
}

/// `page` is an answer of a source that holds `history` to the query `q`: the newest
/// fills in the span of the query, in their order, and either all of them or, where the
/// source cuts the page off, at least `least` of them. A source with a fixed page limit
/// answers so with its limit as `least`.
pub open spec fn answers<P>(
    history: Seq<Fill<P>>,
    q: PageQuery,
    least: nat,
    page: Seq<Fill<P>>,
) -> bool {
    let matching = history.filter(asked_for(q));
    &&& page.len() <= matching.len()
    &&& page == matching.take(page.len() as int)
    &&& page.len() == matching.len() || page.len() >= least
}

/// Every page that the walk asks for is an answer of the source that holds `history`,
/// wherever the source cuts its pages off.
pub open spec fn served_by<P>(
    history: Seq<Fill<P>>,
    least: nat,
    cursor: RequestCursor,
    start: Option<i64>,
    pages: Seq<Seq<Fill<P>>>,
) -> bool
    decreases pages.len(),
{
    if pages.len() == 0 {
        true
    } else {
        &&& answers(history, query_of(cursor), least, pages.first())
        &&& match next_cursor(cursor, start, pages.first()) {
            None => true,
            Some(next) => served_by(history, least, next, start, pages.drop_first()),
        }
    }
}

/// The walk comes to its end within `pages`: one of the pages hands out nothing.
pub open spec fn runs_out<P>(
    cursor: RequestCursor,
    start: Option<i64>,
    pages: Seq<Seq<Fill<P>>>,
) -> bool
    decreases pages.len(),
{
    if pages.len() == 0 {
        false
    } else {
        match next_cursor(cursor, start, pages.first()) {
            None => true,
            Some(next) => runs_out(next, start, pages.drop_first()),
        }
    }
}

/// The fills executed in the second `t`.
pub open spec fn in_second<P>(t: i64) -> spec_fn(Fill<P>) -> bool {
    |f: Fill<P>| f@.time == t
}

/// No second holds as many fills as a page that is cut off: a page that ends within a
/// second then has room, when that second is asked for again, for at least one fill not
/// seen before.
pub open spec fn no_second_fills_a_page<P>(history: Seq<Fill<P>>, least: nat) -> bool {
    forall|t: i64| #[trigger] history.filter(in_second::<P>(t)).len() < least
}

/// A fill is due at `cursor` when the source is still to return it and the walk is to
/// hand it out: it lies in the span of the query, is new and is wanted.
spec fn is_due<P>(cursor: RequestCursor, start: Option<i64>, f: Fill<P>) -> bool {
    &&& 0 <= f@.time < cursor.end_time
    &&& admits(cursor, start, f)
}

/// The fills of the span `[start, end)`, and not before the epoch, where every query
/// starts.
pub open spec fn in_window<P>(start: Option<i64>, end: i64) -> spec_fn(Fill<P>) -> bool {
    |f: Fill<P>| 0 <= f@.time < end && (start matches Some(s) ==> s <= f@.time)
}

spec fn seen_before<P>(cursor: RequestCursor) -> spec_fn(Fill<P>) -> bool {
    |f: Fill<P>| f@.id >= cursor.oldest_id_seen && 0 <= f@.time < cursor.end_time
}

spec fn newer<P>() -> spec_fn(Fill<P>, Fill<P>) -> bool {
    |a: Fill<P>, b: Fill<P>| a@.id > b@.id && a@.time >= b@.time
}

proof fn lemma_filter_of_history<P>(history: Seq<Fill<P>>, p: spec_fn(Fill<P>) -> bool)
    requires
        newest_first(history),
    ensures
        newest_first(history.filter(p)),
        ids_descend(history.filter(p)),
        history.filter(p).no_duplicates(),
        forall|x: Fill<P>| #[trigger] history.filter(p).contains(x) <==> history.contains(x) && p(x),
{
    lemma_filter_keeps_order(history, p, newer::<P>());
    lemma_filter_members(history, p);
    lemma_descent_is_distinct(history.filter(p));
}

/// Two lists of fills with falling identifiers that hold the same fills are one list.
proof fn lemma_same_fills<P>(a: Seq<Fill<P>>, b: Seq<Fill<P>>)
    requires
        ids_descend(a),
        ids_descend(b),
        forall|x: Fill<P>| a.contains(x) <==> b.contains(x),
    ensures
        a =~= b,
    decreases a.len(),
{
    if a.len() == 0 {
        if b.len() > 0 {
            assert(b.contains(b[0]));
        }
    } else {
        let la = a.len() - 1;
        assert(a.contains(a[la]));
        assert(b.contains(a[la]));
        let lb = b.len() - 1;
        assert(b.contains(b[lb]));
        assert(a.contains(b[lb]));
        let i = choose|i: int| 0 <= i < a.len() && a[i] == b[lb];
        let j = choose|j: int| 0 <= j < b.len() && b[j] == a[la];
        if i < la {
            assert(a[i]@.id > a[la]@.id);
        }
        if j < lb {
            assert(b[j]@.id > b[lb]@.id);
        }
        assert(a[la] == b[lb]);
        let a0 = a.drop_last();
        let b0 = b.drop_last();
        assert forall|x: Fill<P>| a0.contains(x) <==> b0.contains(x) by {
            if a0.contains(x) {
                let k = choose|k: int| 0 <= k < a0.len() && a0[k] == x;
                assert(a[k] == x);
                assert(a[k]@.id > a[la]@.id);
                assert(a.contains(x));
                let l = choose|l: int| 0 <= l < b.len() && b[l] == x;
                assert(b0[l] == x);
            }
            if b0.contains(x) {
                let k = choose|k: int| 0 <= k < b0.len() && b0[k] == x;
                assert(b[k] == x);
                assert(b[k]@.id > b[lb]@.id);
                assert(b.contains(x));
                let l = choose|l: int| 0 <= l < a.len() && a[l] == x;
                assert(a0[l] == x);
            }
        }
        assert forall|i: int, j: int| 0 <= i < j < a0.len() implies (#[trigger] a0[i])@.id > (
        #[trigger] a0[j])@.id by {
            assert(a0[i] == a[i] && a0[j] == a[j]);
        }
        assert forall|i: int, j: int| 0 <= i < j < b0.len() implies (#[trigger] b0[i])@.id > (
        #[trigger] b0[j])@.id by {
            assert(b0[i] == b[i] && b0[j] == b[j]);
        }
        lemma_same_fills(a0, b0);
        assert(a =~= a0.push(a[la]));
        assert(b =~= b0.push(b[lb]));
    }
}

/// What one page of the history does for the walk: it hands out only fills that are due,
/// and every fill that is due is handed out or is still due at the next cursor, which
/// again finds fewer fills seen before in its span than a page that is cut off holds.
proof fn lemma_page_of_history<P>(
    history: Seq<Fill<P>>,
    least: nat,
    cursor: RequestCursor,
    start: Option<i64>,
    page: Seq<Fill<P>>,
)
    requires
        newest_first(history),
        no_second_fills_a_page(history, least),
        history.filter(seen_before::<P>(cursor)).len() < least,
        answers(history, query_of(cursor), least, page),
    ensures
        ids_descend(kept(cursor, start, page)),
        forall|x: Fill<P>| #[trigger]
            kept(cursor, start, page).contains(x) ==> history.contains(x) && is_due(
                cursor,
                start,
                x,
            ),
        forall|x: Fill<P>|
            #![trigger history.contains(x)]
            history.contains(x) && is_due(cursor, start, x) ==> kept(cursor, start, page).len()
                > 0 && (kept(cursor, start, page).contains(x) || is_due(
                cursor_after(kept(cursor, start, page).last()),
                start,
                x,
            )),
        kept(cursor, start, page).len() > 0 ==> {
            let next = cursor_after(kept(cursor, start, page).last());
            &&& history.filter(seen_before::<P>(next)).len() < least
            &&& kept(cursor, start, page).last()@.id < cursor.oldest_id_seen
            &&& forall|x: Fill<P>| #[trigger]
                is_due(next, start, x) ==> is_due(cursor, start, x) && x@.id < kept(
                    cursor,
                    start,
                    page,
                ).last()@.id
        },
{
    let q = query_of(cursor);
    let matching = history.filter(asked_for::<P>(q));
    let batch = kept(cursor, start, page);
    let stale = history.filter(seen_before::<P>(cursor));
    lemma_filter_of_history(history, asked_for::<P>(q));
    lemma_filter_of_history(history, seen_before::<P>(cursor));
    assert forall|i: int| 0 <= i < page.len() implies #[trigger] page[i] == matching[i] by {
        assert(page[i] == matching.take(page.len() as int)[i]);
    }
    assert forall|i: int, j: int| 0 <= i < j < page.len() implies (#[trigger] page[i])@.id > (
    #[trigger] page[j])@.id && page[i]@.time >= page[j]@.time by {
        assert(page[i] == matching[i] && page[j] == matching[j]);
    }
    assert(ids_descend(page));
    lemma_descent_is_distinct(page);
    assert forall|x: Fill<P>| page.contains(x) implies history.contains(x) && 0 <= x@.time
        < cursor.end_time by {
        let i = choose|i: int| 0 <= i < page.len() && page[i] == x;
        assert(matching[i] == x);
        assert(matching.contains(x));
    }
    lemma_kept_descends(cursor, start, page);
    // A page that is cut off holds a fill not seen before.
    if page.len() >= least {
        if forall|i: int| 0 <= i < page.len() ==> (#[trigger] page[i])@.id
            >= cursor.oldest_id_seen {
            assert forall|x: Fill<P>| page.contains(x) implies stale.contains(x) by {
                let i = choose|i: int| 0 <= i < page.len() && page[i] == x;
                assert(page[i]@.id >= cursor.oldest_id_seen);
            }
            lemma_part_is_not_longer(page, stale);
            assert(false);
        }
    }
    assert forall|x: Fill<P>|
        #![trigger history.contains(x)]
        history.contains(x) && is_due(cursor, start, x) implies batch.len() > 0 && (
    batch.contains(x) || is_due(cursor_after(batch.last()), start, x)) by {
        assert(matching.contains(x));
        if page.contains(x) {
            assert(batch.contains(x));
        } else {
            let k = choose|k: int| 0 <= k < matching.len() && matching[k] == x;
            if k < page.len() {
                assert(page[k] == x);
            }
            assert(page.len() >= least);
            let i = choose|i: int| 0 <= i < page.len() && (#[trigger] page[i])@.id
                < cursor.oldest_id_seen;
            assert(matching[i]@.time >= matching[k]@.time);
            assert(page.contains(page[i]));
            assert(batch.contains(page[i]));
            assert(batch.len() > 0);
            let oldest = batch.last();
            assert(batch.contains(oldest));
            assert(page.contains(oldest));
            let m = choose|m: int| 0 <= m < page.len() && page[m] == oldest;
            assert(matching[m]@.id > matching[k]@.id && matching[m]@.time >= matching[k]@.time);
        }
    }
    if batch.len() > 0 {
        let oldest = batch.last();
        let next = cursor_after(oldest);
        assert(batch.contains(oldest));
        assert(page.contains(oldest));
        assert(history.contains(oldest));
        assert(next.end_time == oldest@.time + 1);
        let n = choose|n: int| 0 <= n < history.len() && history[n] == oldest;
        let again = history.filter(seen_before::<P>(next));
        let same = history.filter(in_second::<P>(oldest@.time));
        lemma_filter_of_history(history, seen_before::<P>(next));
        lemma_filter_of_history(history, in_second::<P>(oldest@.time));
        assert forall|x: Fill<P>| again.contains(x) implies same.contains(x) by {
            let i = choose|i: int| 0 <= i < history.len() && history[i] == x;
            if i < n {
                assert(history[i]@.time >= history[n]@.time);
            } else if i > n {
                assert(history[n]@.id > history[i]@.id);
            }
        }
        lemma_part_is_not_longer(again, same);
    }
}

/// The walk over a history, from any cursor that finds fewer fills seen before in its
/// span than a page holds: it hands out, by falling identifier, the fills that are due.
proof fn lemma_walk_of_history<P>(
    history: Seq<Fill<P>>,
    least: nat,
    cursor: RequestCursor,
    start: Option<i64>,
    pages: Seq<Seq<Fill<P>>>,
)
    requires
        newest_first(history),
        no_second_fills_a_page(history, least),
        history.filter(seen_before::<P>(cursor)).len() < least,
        served_by(history, least, cursor, start, pages),
        runs_out(cursor, start, pages),
    ensures
        ids_descend(emitted(cursor, start, pages)),
        forall|x: Fill<P>| #[trigger]
            emitted(cursor, start, pages).contains(x) <==> history.contains(x) && is_due(
                cursor,
                start,
                x,
            ),
    decreases pages.len(),
{
    let out = emitted(cursor, start, pages);
    let page = pages.first();
    let batch = kept(cursor, start, page);
    lemma_page_of_history(history, least, cursor, start, page);
    match next_cursor(cursor, start, page) {
        None => {
            assert(batch.len() == 0);
            assert forall|x: Fill<P>| #[trigger]
                out.contains(x) <==> history.contains(x) && is_due(cursor, start, x) by {
                if history.contains(x) && is_due(cursor, start, x) {
                    assert(batch.len() > 0);
                }
            }
        },
        Some(next) => {
            let rest = pages.drop_first();
            let tail = emitted(next, start, rest);
            assert(next == cursor_after(batch.last()));
            lemma_walk_of_history(history, least, next, start, rest);
            assert(out == batch + tail);
            lemma_concat_members(batch, tail);
            assert forall|j: int| 0 <= j < tail.len() implies (#[trigger] tail[j])@.id
                < batch.last()@.id by {
                assert(tail.contains(tail[j]));
                assert(is_due(next, start, tail[j]));
            }
            lemma_concat_descends(batch, tail);
            assert forall|x: Fill<P>| #[trigger]
                out.contains(x) <==> history.contains(x) && is_due(cursor, start, x) by {
                if out.contains(x) {
                    if batch.contains(x) {
                    } else {
                        assert(tail.contains(x));
                        assert(is_due(next, start, x));
                    }
                }
                if history.contains(x) && is_due(cursor, start, x) {
                    if !batch.contains(x) {
                        assert(is_due(next, start, x));
                        assert(tail.contains(x));
                    }
                }
            }
        },
    }
}

/// Every fill once: a walk that is served from one history and runs to its end hands
/// out exactly the fills of the history that lie in the window, each once and in the
/// order of the history, wherever the pages end. It holds where no second has as many
/// fills as the smallest page that is cut off, and no fill carries the largest
/// identifier.
pub proof fn lemma_every_fill_once<P>(
    history: Seq<Fill<P>>,
    least: nat,
    start: Option<i64>,
    end: i64,
    pages: Seq<Seq<Fill<P>>>,
)
    requires
        newest_first(history),
        forall|i: int| 0 <= i < history.len() ==> (#[trigger] history[i])@.id < u64::MAX,
        no_second_fills_a_page(history, least),
        served_by(history, least, first_cursor(end), start, pages),
        runs_out(first_cursor(end), start, pages),
    ensures
        emitted(first_cursor(end), start, pages) == history.filter(in_window::<P>(start, end)),
{
    let cursor = first_cursor(end);
    let out = emitted(cursor, start, pages);
    let wanted = history.filter(in_window::<P>(start, end));
    let stale = history.filter(seen_before::<P>(cursor));
    lemma_filter_of_history(history, seen_before::<P>(cursor));
    if stale.len() > 0 {
        assert(stale.contains(stale[0]));
        let i = choose|i: int| 0 <= i < history.len() && history[i] == stale[0];
        assert(history[i]@.id < u64::MAX);
    }
    assert(history.filter(in_second::<P>(0)).len() < least);
    lemma_walk_of_history(history, least, cursor, start, pages);
    lemma_filter_of_history(history, in_window::<P>(start, end));
    assert forall|x: Fill<P>| out.contains(x) <==> wanted.contains(x) by {
        if history.contains(x) {
            let i = choose|i: int| 0 <= i < history.len() && history[i] == x;
            assert(history[i]@.id < u64::MAX);
        }
    }
    lemma_same_fills(out, wanted);
}

/// The whole history once: without a start, and with every fill between the epoch and
/// the end of the run, the walk hands out the history as it stands, wherever the pages
/// end.
pub proof fn lemma_whole_history_once<P>(
    history: Seq<Fill<P>>,
    least: nat,
    end: i64,
    pages: Seq<Seq<Fill<P>>>,
)
    requires
        newest_first(history),
        forall|i: int|
            0 <= i < history.len() ==> (#[trigger] history[i])@.id < u64::MAX && 0
                <= history[i]@.time < end,
        no_second_fills_a_page(history, least),
        served_by(history, least, first_cursor(end), None, pages),
        runs_out(first_cursor(end), None, pages),
    ensures
        emitted(first_cursor(end), None, pages) == history,
{
    lemma_every_fill_once(history, least, None, end, pages);
    let wanted = history.filter(in_window::<P>(None, end));
    lemma_filter_of_history(history, in_window::<P>(None, end));
    assert forall|x: Fill<P>| wanted.contains(x) <==> history.contains(x) by {
        if history.contains(x) {
            let i = choose|i: int| 0 <= i < history.len() && history[i] == x;
            assert(0 <= history[i]@.time < end);
        }
    }
    assert(ids_descend(history));
    lemma_same_fills(wanted, history);
}

/// Fills of one second are not parted: two fills of the history in the same second of
/// the window are both handed out, wherever the pages end between them, because the
/// page after a fill is asked for up to the second after it.
pub proof fn lemma_same_second_both_handed_out<P>(
    history: Seq<Fill<P>>,
    least: nat,
    start: Option<i64>,
    end: i64,
    pages: Seq<Seq<Fill<P>>>,
    i: int,
    j: int,
)
    requires
        newest_first(history),
        forall|k: int| 0 <= k < history.len() ==> (#[trigger] history[k])@.id < u64::MAX,
        no_second_fills_a_page(history, least),
        served_by(history, least, first_cursor(end), start, pages),
        runs_out(first_cursor(end), start, pages),
        0 <= i < history.len(),
        0 <= j < history.len(),
        history[i]@.time == history[j]@.time,
        0 <= history[i]@.time < end,
        start matches Some(s) ==> s <= history[i]@.time,
    ensures
        emitted(first_cursor(end), start, pages).contains(history[i]),
        emitted(first_cursor(end), start, pages).contains(history[j]),
{
    lemma_every_fill_once(history, least, start, end, pages);
    lemma_filter_of_history(history, in_window::<P>(start, end));
    assert(history.contains(history[i]));
    assert(history.contains(history[j]));
}

} // verus!
