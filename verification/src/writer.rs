use vstd::prelude::*;
use crate::calendar::{date_at, Date};
use crate::fill::Fill;

verus! {

/// What to do with the sinks before a fill is appended.
#[derive(Debug, Clone, Copy, PartialEq, Eq)]
pub enum SinkAction {
    /// The open sink is the sink of the fill's day: append to it.
    Reuse,
    /// Close the sink of `close`, if there is one, then open the sink of `date` and
    /// append to that. With `resume` the sink of `date` was open earlier in this run and
    /// holds fills already, which stay; without it the sink is created empty.
    Open { date: Date, resume: bool, close: Option<Date> },
}

/// The state of the writer as contracts see it.
#[verifier::ext_equal]
pub struct WriterView {
    /// Seconds that the reference clock is ahead of UTC.
    pub utc_offset: i32,
    /// Day of the sink that is open, if one is.
    pub target_date: Option<Date>,
    /// Days whose sink was opened in this run.
    pub opened: Set<Date>,
}

/// Routes fills to one sink per calendar day, with at most one sink open at a time.
pub struct WriterCursor {
    utc_offset: i32,
    target_date: Option<Date>,
    opened: Vec<Date>,
}

impl View for WriterCursor {
    type V = WriterView;

    closed spec fn view(&self) -> WriterView {
        WriterView {
            utc_offset: self.utc_offset,
            target_date: self.target_date,
            opened: self.opened@.to_set(),
        }
    }
}

/// The writer before the first fill.
pub open spec fn fresh_writer(utc_offset: i32) -> WriterView {
    WriterView { utc_offset, target_date: None, opened: Set::empty() }
}

/// The action for a fill of day `date`: the open sink is reused exactly when it is the
/// sink of that day. The order of the days plays no part.
pub open spec fn action_for(w: WriterView, date: Date) -> SinkAction {
    if w.target_date == Some(date) {
        SinkAction::Reuse
    } else {
        SinkAction::Open { date, resume: w.opened.contains(date), close: w.target_date }
    }
}

/// The writer after a fill of day `date`.
pub open spec fn writer_after(w: WriterView, date: Date) -> WriterView {
    WriterView {
        utc_offset: w.utc_offset,
        target_date: Some(date),
        opened: w.opened.insert(date),
    }
}

impl WriterCursor {
    #[verifier::type_invariant]
    spec fn consistent(self) -> bool {
        &&& self.opened@.no_duplicates()
        &&& self.target_date matches Some(d) ==> self.opened@.contains(d)
    }

    /// A writer with no sink open, for a clock `utc_offset` seconds east of UTC.
    pub fn new(utc_offset: i32) -> (w: WriterCursor)
        ensures
            w@ == fresh_writer(utc_offset),
    {
        let w = WriterCursor { utc_offset, target_date: None, opened: Vec::new() };
        assert(w.opened@.to_set() =~= Set::<Date>::empty());
        w
    }

    /// The day of the sink that is open.
    pub fn target_date(&self) -> (r: Option<Date>)
        ensures
            r == self@.target_date,
    {
        self.target_date
    }

    /// How many different sinks this run has opened.
    pub fn sinks_opened(&self) -> (n: usize)
        ensures
            n == self@.opened.len(),
    {
        proof {
            use_type_invariant(self);
            self.opened@.unique_seq_to_set();
        }
        self.opened.len()
    }

    fn has_opened(&self, date: Date) -> (r: bool)
        ensures
            r == self@.opened.contains(date),
    {
        let mut i: usize = 0;
        while i < self.opened.len()
            invariant
                i <= self.opened.len(),
                forall|j: int| 0 <= j < i ==> self.opened@[j] != date,
            decreases self.opened.len() - i,
        {
            if self.opened[i].day == date.day {
                return true;
            }
            i += 1;
        }
        false
    }

    /// Decides where `fill` goes. The writer that comes back has the sink of the fill's
    /// day as the open one, and the caller appends the fill to it.
    pub fn route<P>(self, fill: &Fill<P>) -> (r: (WriterCursor, SinkAction))
        ensures
            r.1 == action_for(self@, date_at(fill@.time, self@.utc_offset)),
            r.0@ == writer_after(self@, date_at(fill@.time, self@.utc_offset)),
    {
        proof {
            use_type_invariant(&self);
        }
        let date = Date::of_instant(fill.time(), self.utc_offset);
        let close = self.target_date;
        match close {
            Some(d) => {
                if d.day == date.day {
                    assert(self.opened@.to_set().insert(date) =~= self.opened@.to_set());
                    return (self, SinkAction::Reuse);
                }
            },
            None => {},
        }
        let resume = self.has_opened(date);
        let WriterCursor { utc_offset, target_date: _, opened } = self;
        let ghost before = opened@;
        let mut opened = opened;
        if !resume {
            opened.push(date);
            assert(before.push(date).to_set() =~= before.to_set().insert(date)) by {
                assert forall|d: Date| before.push(date).contains(d) <==> (before.contains(d) || d
                    == date) by {
                    if before.contains(d) {
                        let j = choose|j: int| 0 <= j < before.len() && before[j] == d;
                        assert(before.push(date)[j] == d);
                    }
                    if d == date {
                        assert(before.push(date)[before.len() as int] == d);
                    }
                }
            }
            assert(opened@.no_duplicates()) by {
                assert(!before.contains(date));
                assert forall|i: int, j: int|
                    0 <= i < opened@.len() && 0 <= j < opened@.len() && i != j implies opened@[i]
                    != opened@[j] by {
                    if i < before.len() {
                        assert(before.contains(before[i]));
                    }
                    if j < before.len() {
                        assert(before.contains(before[j]));
                    }
                }
            }
        } else {
            assert(before.to_set().insert(date) =~= before.to_set());
        }
        assert(opened@.contains(date)) by {
            if !resume {
                assert(opened@[before.len() as int] == date);
            }
        }
        (
            WriterCursor { utc_offset, target_date: Some(date), opened },
            SinkAction::Open { date, resume, close },
        )
    }

    /// Ends the run: the day of the sink that is still open and has to be closed.
    pub fn finish(self) -> (close: Option<Date>)
        ensures
            close == self@.target_date,
    {
        self.target_date
    }
}

} // verus!
