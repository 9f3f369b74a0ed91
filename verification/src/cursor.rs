use vstd::prelude::*;
use crate::calendar::Date;
use crate::fill::Fill;
use crate::request::FetchError;

verus! {

/// Why a run cannot start.
#[derive(Debug, Clone, Copy, PartialEq, Eq, Structural)]
pub enum ConfigError {
    /// The inclusive start is not earlier than the exclusive end.
    EmptyRange,
    /// The first second of a boundary date lies beyond the seconds that can be counted.
    DateOutOfRange,
}

/// The half-open span of seconds `[start, end)` that a run covers. Without a start the
/// span has no lower bound.
#[derive(Debug, Clone, Copy, PartialEq, Eq)]
pub struct Window {
    start: Option<i64>,
    end: i64,
}

/// The query that asks the source for one page: fills from `start_inclusive` up to, and
/// not including, `end_exclusive`, newest first.
#[derive(Debug, Clone, Copy, PartialEq, Eq, Structural)]
pub struct PageQuery {
    pub start_inclusive: i64,
    pub end_exclusive: i64,
}

/// Where the walk through the history stands between two pages.
#[derive(Debug, Clone, Copy, PartialEq, Eq, Structural)]
pub struct RequestCursor {
    /// Exclusive upper bound of the next page.
    pub end_time: i64,
    /// Identifier of the oldest fill handed out so far; `u64::MAX` before the first page.
    pub oldest_id_seen: u64,
}

/// The cursor before the first page of a run that ends at `end_time`: nothing has been
/// handed out, so every identifier below the largest counts as new.
pub open spec fn first_cursor(end_time: i64) -> RequestCursor {
    RequestCursor { end_time, oldest_id_seen: u64::MAX }
}

/// The page that is fetched at `cursor`. It always starts at the epoch: the source
/// returns the newest fills of a span first and cuts the page off at its limit, so only
/// the end of the span moves.
pub open spec fn query_of(cursor: RequestCursor) -> PageQuery {
    PageQuery { start_inclusive: 0, end_exclusive: cursor.end_time }
}

/// A fill of a page is new when its identifier lies below every identifier handed out
/// so far, and wanted when it is not older than the start of the window.
pub open spec fn admits<P>(cursor: RequestCursor, start: Option<i64>, f: Fill<P>) -> bool {
    &&& f@.id < cursor.oldest_id_seen
    &&& start matches Some(s) ==> s <= f@.time
}

/// `admits` as a predicate on fills.
pub open spec fn admitting<P>(cursor: RequestCursor, start: Option<i64>) -> spec_fn(Fill<P>) -> bool {
    |f: Fill<P>| admits(cursor, start, f)
}

/// The fills of `page` that are handed out, in the order of the page.
pub open spec fn kept<P>(cursor: RequestCursor, start: Option<i64>, page: Seq<Fill<P>>) -> Seq<
    Fill<P>,
> {
    page.filter(admitting(cursor, start))
}

/// The cursor that follows `f`, the oldest fill handed out: the next page ends one second
/// after `f`, so that fills of the same second are asked for again, and only identifiers
/// below that of `f` count as new.
pub open spec fn cursor_after<P>(f: Fill<P>) -> RequestCursor {
    RequestCursor { end_time: (f@.time + 1) as i64, oldest_id_seen: f@.id }
}

/// The cursor after `page`, or `None` where the page hands out nothing and the walk ends.
pub open spec fn next_cursor<P>(
    cursor: RequestCursor,
    start: Option<i64>,
    page: Seq<Fill<P>>,
) -> Option<RequestCursor> {
    let batch = kept(cursor, start, page);
    if batch.len() == 0 {
        None
    } else {
        Some(cursor_after(batch.last()))
    }
}

/// The day on which a run ends: the given one, or the day that `now` falls on in UTC.
pub open spec fn end_day(end: Option<Date>, now: i64) -> int {
    match end {
        Some(date) => date.day as int,
        None => now / 86_400,
    }
}

/// The bounds of the run between two dates, each taken at its first second in UTC, or
/// the reason why there is no such run. An end that is left out is today.
pub open spec fn window_of_dates(start: Option<Date>, end: Option<Date>, now: i64) -> Result<
    (Option<i64>, i64),
    ConfigError,
> {
    let last = end_day(end, now);
    if start matches Some(first) && first.day >= last {
        Err(ConfigError::EmptyRange)
    } else if !(i64::MIN <= last * 86_400 <= i64::MAX) || (start matches Some(first) && !(i64::MIN
        <= first.day * 86_400 <= i64::MAX)) {
        Err(ConfigError::DateOutOfRange)
    } else {
        Ok(
            (
                match start {
                    Some(first) => Some((first.day * 86_400) as i64),
                    None => None,
                },
                (last * 86_400) as i64,
            ),
        )
    }
}

impl Window {
    #[verifier::type_invariant]
    spec fn non_empty(self) -> bool {
        self.start matches Some(s) ==> s < self.end
    }

    /// The first second of the span, if it has one.
    pub closed spec fn spec_start(&self) -> Option<i64> {
        self.start
    }

    /// The second at which the span ends.
    pub closed spec fn spec_end(&self) -> i64 {
        self.end
    }

    /// The span `[start, end)`, unless it is empty.
    pub fn new(start: Option<i64>, end: i64) -> (r: Result<Window, ConfigError>)
        ensures
            r is Err <==> (start matches Some(s) && s >= end),
            r matches Err(e) ==> e == ConfigError::EmptyRange,
            r matches Ok(w) ==> w.start() == start && w.end() == end,
    {
        match start {
            Some(s) => {
                if s >= end {
                    return Err(ConfigError::EmptyRange);
                }
            },
            None => {},
        }
        Ok(Window { start, end })
    }

    /// The span from the first second of `start` to the first second of `end`, both in
    /// UTC. Where `end` is left out, the run ends with the first second of the day that
    /// `now` falls on.
    pub fn from_dates(start: Option<Date>, end: Option<Date>, now: i64) -> (r: Result<
        Window,
        ConfigError,
    >)
        ensures
            match window_of_dates(start, end, now) {
                Ok(bounds) => r matches Ok(w) && w.start() == bounds.0 && w.end() == bounds.1,
                Err(e) => r == Err::<Window, ConfigError>(e),
            },
    {
        let last = match end {
            Some(date) => date,
            None => Date::of_instant(now, 0),
        };
        match start {
            Some(first) => {
                if first.day >= last.day {
                    return Err(ConfigError::EmptyRange);
                }
            },
            None => {},
        }
        let end_time = match last.midnight() {
            Some(t) => t,
            None => {
                return Err(ConfigError::DateOutOfRange);
            },
        };
        let start_time = match start {
            Some(first) => match first.midnight() {
                Some(t) => Some(t),
                None => {
                    return Err(ConfigError::DateOutOfRange);
                },
            },
            None => None,
        };
        Ok(Window { start: start_time, end: end_time })
    }

    /// The first second of the span, if it has one. It lies before the end.
    #[verifier::when_used_as_spec(spec_start)]
    pub fn start(&self) -> (r: Option<i64>)
        ensures
            r == self.start(),
            r matches Some(s) ==> s < self.end(),
    {
        proof {
            use_type_invariant(self);
        }
        self.start
    }

    /// The second at which the span ends, which is no part of it.
    #[verifier::when_used_as_spec(spec_end)]
    pub fn end(&self) -> (r: i64)
        ensures
            r == self.end(),
    {
        self.end
    }

    /// The cursor before the first page of the run over this span.
    pub fn first_cursor(&self) -> (r: RequestCursor)
        ensures
            r == first_cursor(self.end()),
    {
        RequestCursor::new(self.end)
    }
}

impl RequestCursor {
    /// The cursor before the first page of a run that ends at `end_time`.
    pub fn new(end_time: i64) -> (r: RequestCursor)
        ensures
            r == first_cursor(end_time),
    {
        RequestCursor { end_time, oldest_id_seen: u64::MAX }
    }

    /// The page to fetch next.
    pub fn query(&self) -> (q: PageQuery)
        ensures
            q == query_of(*self),
    {
        PageQuery { start_inclusive: 0, end_exclusive: self.end_time }
    }

    /// Whether `f` is handed out.
    pub fn accepts<P>(&self, start: Option<i64>, f: &Fill<P>) -> (r: bool)
        ensures
            r == admits(*self, start, *f),
    {
        f.id() < self.oldest_id_seen && match start {
            Some(s) => s <= f.time(),
            None => true,
        }
    }

    /// Takes the page fetched for `self.query()` and returns the fills to hand out, in
    /// the order of the page, with the cursor for the next page. The walk is over when
    /// that cursor is `None`, which is exactly when nothing is handed out.
    pub fn advance<P>(&self, start: Option<i64>, page: Vec<Fill<P>>) -> (r: (
        Vec<Fill<P>>,
        Option<RequestCursor>,
    ))
        ensures
            r.0@ == kept(*self, start, page@),
            r.1 == next_cursor(*self, start, page@),
            r.1 is None <==> r.0@.len() == 0,
    {
        let ghost all = page@;
        let ghost pred = admitting::<P>(*self, start);
        let mut batch: Vec<Fill<P>> = Vec::new();
        let mut next: Option<RequestCursor> = None;
        proof {
            assert(all.take(0) =~= Seq::<Fill<P>>::empty());
            reveal(Seq::filter);
        }
        for f in it: page
            invariant
                it.seq() == all,
                pred == admitting::<P>(*self, start),
                batch@ == all.take(it.index() as int).filter(pred),
                next == next_cursor(*self, start, all.take(it.index() as int)),
        {
            proof {
                let i = it.index() as int;
                assert(all.take(i + 1) =~= all.take(i).push(all[i]));
                all.take(i).lemma_filter_push(all[i], pred);
            }
            if self.accepts(start, &f) {
                next = Some(RequestCursor { end_time: f.time() + 1, oldest_id_seen: f.id() });
                batch.push(f);
            }
        }
        proof {
            assert(all.take(all.len() as int) =~= all);
        }
        (batch, next)
    }

    /// Takes what the fetch of `self.query()` came to. A page is handled as in `advance`.
    /// A failure ends the run: it is handed back as it came, and nothing is tried again.
    pub fn on_fetched<P>(
        &self,
        start: Option<i64>,
        fetched: Result<Vec<Fill<P>>, FetchError>,
    ) -> (r: Result<(Vec<Fill<P>>, Option<RequestCursor>), FetchError>)
        ensures
            match fetched {
                Ok(page) => r matches Ok(step) && step.0@ == kept(*self, start, page@) && step.1
                    == next_cursor(*self, start, page@),
                Err(e) => r == Err::<(Vec<Fill<P>>, Option<RequestCursor>), FetchError>(e),
            },
    {
        match fetched {
            Ok(page) => Ok(self.advance(start, page)),
            Err(e) => Err(e),
        }
    }
}

} // verus!
