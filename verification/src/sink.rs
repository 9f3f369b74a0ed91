//! The sinks of a run: what they hold once the writer's actions are carried out, and
//! what the file of a sink is called.

use vstd::prelude::*;
use vstd::string::StringExecFns;
use crate::calendar::{calendar_text, date_at, Date, FIRST_CALENDAR_DAY, LAST_CALENDAR_DAY};
use crate::fill::Fill;
use crate::writer::{action_for, fresh_writer, writer_after, SinkAction, WriterView};

verus! {

/// The sinks as contracts see them: what each holds, and which one is open.
#[verifier::ext_equal]
pub struct Sinks<P> {
    pub contents: Map<Date, Seq<Fill<P>>>,
    pub open: Option<Date>,
}

/// The sinks before the run.
pub open spec fn no_sinks<P>() -> Sinks<P> {
    Sinks { contents: Map::empty(), open: None }
}

/// The sinks after `action` is carried out and `f` is appended to the open sink. A sink
/// that is opened again keeps what it holds; a sink that is opened first starts empty.
pub open spec fn appended<P>(sinks: Sinks<P>, action: SinkAction, f: Fill<P>) -> Sinks<P> {
    match action {
        SinkAction::Reuse => match sinks.open {
            Some(d) => Sinks {
                contents: sinks.contents.insert(d, sinks.contents[d].push(f)),
                open: sinks.open,
            },
            None => sinks,
        },
        SinkAction::Open { date, resume, close } => Sinks {
            contents: sinks.contents.insert(
                date,
                if resume {
                    sinks.contents[date].push(f)
                } else {
                    seq![f]
                },
            ),
            open: Some(date),
        },
    }
}

/// The writer and the sinks after `fills` went through a fresh writer one by one.
pub open spec fn routed<P>(utc_offset: i32, fills: Seq<Fill<P>>) -> (WriterView, Sinks<P>)
    decreases fills.len(),
{
    if fills.len() == 0 {
        (fresh_writer(utc_offset), no_sinks())
    } else {
        let before = routed(utc_offset, fills.drop_last());
        let date = date_at(fills.last()@.time, utc_offset);
        (
            writer_after(before.0, date),
            appended(before.1, action_for(before.0, date), fills.last()),
        )
    }
}

/// The fills of the day `date`.
pub open spec fn on_day<P>(utc_offset: i32, date: Date) -> spec_fn(Fill<P>) -> bool {
    |f: Fill<P>| date_at(f@.time, utc_offset) == date
}

/// Each fill in the sink of its day: after any stream of fills, in any order of days,
/// there is a sink for exactly the days that have a fill, each sink holds exactly the
/// fills of its day in the order in which they came, the open sink is the one the
/// writer names, and that is the sink of the last fill.
pub proof fn lemma_each_fill_in_the_sink_of_its_day<P>(utc_offset: i32, fills: Seq<Fill<P>>)
    ensures
        routed(utc_offset, fills).1.open == routed(utc_offset, fills).0.target_date,
        fills.len() > 0 ==> routed(utc_offset, fills).0.target_date == Some(
            date_at(fills.last()@.time, utc_offset),
        ),
        routed(utc_offset, fills).1.contents.dom() == routed(utc_offset, fills).0.opened,
        routed(utc_offset, fills).0.opened.finite(),
        forall|d: Date|
            routed(utc_offset, fills).0.opened.contains(d) <==> (#[trigger] fills.filter(
                on_day(utc_offset, d),
            )).len() > 0,
        forall|d: Date|
            routed(utc_offset, fills).0.opened.contains(d) ==> routed(
                utc_offset,
                fills,
            ).1.contents[d] == #[trigger] fills.filter(on_day(utc_offset, d)),
    decreases fills.len(),
{
    let after = routed(utc_offset, fills);
    if fills.len() == 0 {
        assert(after.1.contents.dom() =~= after.0.opened);
        assert forall|d: Date|
            after.0.opened.contains(d) <==> (#[trigger] fills.filter(on_day(utc_offset, d))).len()
                > 0 by {
            fills.lemma_filter_len(on_day(utc_offset, d));
        }
    } else {
        let prev = fills.drop_last();
        let f = fills.last();
        let date = date_at(f@.time, utc_offset);
        let before = routed(utc_offset, prev);
        lemma_each_fill_in_the_sink_of_its_day(utc_offset, prev);
        assert(fills =~= prev.push(f));
        assert(before.0.target_date matches Some(d) ==> before.0.opened.contains(d)) by {
            if prev.len() > 0 {
                let last_date = date_at(prev.last()@.time, utc_offset);
                prev.drop_last().lemma_filter_push(prev.last(), on_day(utc_offset, last_date));
                assert(prev =~= prev.drop_last().push(prev.last()));
                assert(prev.filter(on_day(utc_offset, last_date)).len() > 0);
            }
        }
        assert forall|d: Date|
            after.0.opened.contains(d) <==> (#[trigger] fills.filter(on_day(utc_offset, d))).len()
                > 0 by {
            prev.lemma_filter_push(f, on_day(utc_offset, d));
            assert(before.0.opened.contains(d) <==> prev.filter(on_day(utc_offset, d)).len() > 0);
        }
        assert forall|d: Date| after.0.opened.contains(d) implies after.1.contents[d]
            == #[trigger] fills.filter(on_day(utc_offset, d)) by {
            prev.lemma_filter_push(f, on_day(utc_offset, d));
            assert(before.0.opened.contains(d) <==> prev.filter(on_day(utc_offset, d)).len() > 0);
            if d == date {
                if !before.0.opened.contains(d) {
                    assert(prev.filter(on_day(utc_offset, d)) =~= Seq::<Fill<P>>::empty());
                    assert(Seq::<Fill<P>>::empty().push(f) =~= seq![f]);
                } else {
                    assert(before.1.contents[d] == prev.filter(on_day(utc_offset, d)));
                }
            } else {
                assert(before.0.opened.contains(d));
                assert(before.1.contents[d] == prev.filter(on_day(utc_offset, d)));
            }
        }
        assert(after.1.contents.dom() =~= after.0.opened);
    }
}

/// Every action fits the sinks it meets: after any stream of fills, the sink that the
/// next action closes is the one that is open, a sink is reused only if it is the sink
/// of the day, and a sink is resumed exactly if it exists.
pub proof fn lemma_action_fits_the_sinks<P>(utc_offset: i32, fills: Seq<Fill<P>>, date: Date)
    ensures
        match action_for(routed(utc_offset, fills).0, date) {
            SinkAction::Reuse => routed(utc_offset, fills).1.open == Some(date),
            SinkAction::Open { date: opened, resume, close } => {
                &&& opened == date
                &&& close == routed(utc_offset, fills).1.open
                &&& resume <==> routed(utc_offset, fills).1.contents.dom().contains(date)
            },
        },
{
    lemma_each_fill_in_the_sink_of_its_day(utc_offset, fills);
}

/// The account that a sink is named after: the sub-account, or `main` without one.
pub open spec fn account_label(sub_account: Option<String>) -> Seq<char> {
    match sub_account {
        Some(name) => name@,
        None => "main"@,
    }
}

/// The file of the sink of `day`: the account, an underscore, the date and `.csv`.
pub open spec fn sink_name(sub_account: Option<String>, day: int) -> Seq<char> {
    account_label(sub_account) + "_"@ + calendar_text(day) + ".csv"@
}

/// The name of the file that holds the sink of `date`, for the days that the calendar
/// can name. The directory it stands in is the caller's.
pub fn sink_file_name(sub_account: &Option<String>, date: &Date) -> (r: Option<String>)
    ensures
        r is Some <==> FIRST_CALENDAR_DAY <= date.day <= LAST_CALENDAR_DAY,
        r matches Some(name) ==> name@ == sink_name(*sub_account, date.day as int),
{
    let day = match date.text() {
        Some(text) => text,
        None => {
            return None;
        },
    };
    let mut name = match sub_account {
        Some(account) => account.clone(),
        None => String::from_str("main"),
    };
    name.append("_");
    name.append(day.as_str());
    name.append(".csv");
    Some(name)
}

} // verus!
