use fills_archive::cursor::{ConfigError, PageQuery, RequestCursor, Window};
use fills_archive::calendar::Date;
use fills_archive::fill::Fill;
use fills_archive::request::FetchError;

fn fill(id: u64, time: i64) -> Fill<&'static str> {
    Fill::new(id, time, "payload").unwrap()
}

fn ids(fills: &[Fill<&'static str>]) -> Vec<u64> {
    fills.iter().map(|f| f.id()).collect()
}

/// A source that holds `history`, newest first, and answers a query with at most `limit`
/// fills of its span.
fn answer(history: &[Fill<&'static str>], q: &PageQuery, limit: usize) -> Vec<Fill<&'static str>> {
    history
        .iter()
        .filter(|f| q.start_inclusive <= f.time() && f.time() < q.end_exclusive)
        .take(limit)
        .cloned()
        .collect()
}

/// Walks the history to its end and returns what was handed out and how many pages were
/// asked for.
fn walk(history: &[Fill<&'static str>], limit: usize, window: &Window) -> (Vec<Fill<&'static str>>, usize) {
    let mut out = Vec::new();
    let mut fetched = 0;
    let mut cursor = Some(window.first_cursor());
    while let Some(at) = cursor {
        let page = answer(history, &at.query(), limit);
        fetched += 1;
        let (batch, next) = at.advance(window.start(), page);
        out.extend(batch);
        cursor = next;
    }
    (out, fetched)
}

fn sample_history() -> Vec<Fill<&'static str>> {
    vec![
        fill(109, 500),
        fill(108, 500),
        fill(107, 499),
        fill(106, 450),
        fill(105, 450),
        fill(104, 450),
        fill(103, 300),
        fill(102, 120),
        fill(101, 100),
        fill(100, 100),
    ]
}

#[test]
fn first_cursor_accepts_every_identifier_below_the_largest() {
    let cursor = RequestCursor::new(1_000);
    assert_eq!(cursor, RequestCursor { end_time: 1_000, oldest_id_seen: u64::MAX });
    assert!(cursor.accepts(None, &fill(u64::MAX - 1, 5)));
    assert!(!cursor.accepts(None, &fill(u64::MAX, 5)));
}

#[test]
fn query_starts_at_the_epoch_and_ends_at_the_cursor() {
    let cursor = RequestCursor { end_time: 777, oldest_id_seen: 12 };
    assert_eq!(cursor.query(), PageQuery { start_inclusive: 0, end_exclusive: 777 });
}

#[test]
fn advance_pads_the_next_end_by_one_second() {
    let cursor = RequestCursor::new(1_000);
    let (batch, next) = cursor.advance(None, vec![fill(9, 700), fill(8, 650), fill(7, 650)]);
    assert_eq!(ids(&batch), vec![9, 8, 7]);
    assert_eq!(next, Some(RequestCursor { end_time: 651, oldest_id_seen: 7 }));
}

#[test]
fn advance_keeps_the_order_of_the_page_and_the_payload() {
    let cursor = RequestCursor { end_time: 1_000, oldest_id_seen: 50 };
    let page = vec![
        Fill::new(60, 900, "seen").unwrap(),
        Fill::new(49, 900, "a").unwrap(),
        Fill::new(48, 800, "b").unwrap(),
    ];
    let (batch, next) = cursor.advance(None, page);
    assert_eq!(batch, vec![Fill::new(49, 900, "a").unwrap(), Fill::new(48, 800, "b").unwrap()]);
    assert_eq!(*batch[0].payload(), "a");
    assert_eq!(next, Some(RequestCursor { end_time: 801, oldest_id_seen: 48 }));
}

#[test]
fn advance_drops_fills_with_an_identifier_already_seen() {
    let cursor = RequestCursor { end_time: 501, oldest_id_seen: 108 };
    let (batch, next) = cursor.advance(None, vec![fill(109, 500), fill(108, 500), fill(107, 499)]);
    assert_eq!(ids(&batch), vec![107]);
    assert_eq!(next, Some(RequestCursor { end_time: 500, oldest_id_seen: 107 }));
}

#[test]
fn advance_drops_fills_older_than_the_start() {
    let cursor = RequestCursor::new(1_000);
    let (batch, next) = cursor.advance(Some(450), vec![fill(5, 451), fill(4, 450), fill(3, 449)]);
    assert_eq!(ids(&batch), vec![5, 4]);
    assert_eq!(next, Some(RequestCursor { end_time: 451, oldest_id_seen: 4 }));
}

#[test]
fn empty_page_ends_the_walk() {
    let cursor = RequestCursor::new(1_000);
    let (batch, next) = cursor.advance(None, Vec::<Fill<&'static str>>::new());
    assert!(batch.is_empty());
    assert_eq!(next, None);
}

#[test]
fn page_of_seen_fills_only_ends_the_walk() {
    let cursor = RequestCursor { end_time: 501, oldest_id_seen: 108 };
    let (batch, next) = cursor.advance(None, vec![fill(109, 500), fill(108, 500)]);
    assert!(batch.is_empty());
    assert_eq!(next, None);
}

#[test]
fn page_of_old_fills_only_ends_the_walk() {
    let cursor = RequestCursor::new(1_000);
    let (batch, next) = cursor.advance(Some(600), vec![fill(9, 599), fill(8, 10)]);
    assert!(batch.is_empty());
    assert_eq!(next, None);
}

#[test]
fn no_identifier_is_handed_out_twice() {
    let history = sample_history();
    for limit in 4..=12 {
        let window = Window::new(None, 1_000).unwrap();
        let (out, _) = walk(&history, limit, &window);
        let mut seen = ids(&out);
        seen.sort();
        seen.dedup();
        assert_eq!(seen.len(), out.len());
    }
}

#[test]
fn nothing_outside_the_window_is_handed_out() {
    let history = sample_history();
    let window = Window::new(Some(120), 500).unwrap();
    let (out, _) = walk(&history, 4, &window);
    assert_eq!(ids(&out), vec![107, 106, 105, 104, 103, 102]);
    assert!(out.iter().all(|f| 120 <= f.time() && f.time() < 500));
}

#[test]
fn whole_history_comes_out_once_for_every_page_size() {
    let history = sample_history();
    let window = Window::new(None, 1_000).unwrap();
    for limit in 4..=12 {
        let (out, _) = walk(&history, limit, &window);
        assert_eq!(out, history);
    }
}

#[test]
fn fills_of_one_second_on_both_sides_of_a_page_end_come_out() {
    let history = vec![fill(5, 200), fill(4, 100), fill(3, 100), fill(2, 100), fill(1, 50)];
    let window = Window::new(None, 1_000).unwrap();
    // The first page ends between the fills 4 and 3 of the second 100.
    let first = answer(&history, &window.first_cursor().query(), 2);
    assert_eq!(ids(&first), vec![5, 4]);
    let (out, fetched) = walk(&history, 4, &window);
    assert_eq!(ids(&out), vec![5, 4, 3, 2, 1]);
    assert_eq!(fetched, 3);
    let (first_batch, next) = window.first_cursor().advance(window.start(), first);
    assert_eq!(ids(&first_batch), vec![5, 4]);
    let next = next.unwrap();
    assert_eq!(next.end_time, 101);
    let second = answer(&history, &next.query(), 4);
    let (second_batch, _) = next.advance(window.start(), second);
    assert_eq!(ids(&second_batch), vec![3, 2, 1]);
}

#[test]
fn a_second_that_fills_a_page_stops_the_walk_early() {
    let history = vec![fill(4, 100), fill(3, 100), fill(2, 100), fill(1, 50)];
    let window = Window::new(None, 1_000).unwrap();
    let (out, _) = walk(&history, 2, &window);
    assert_eq!(ids(&out), vec![4, 3]);
}

#[test]
fn source_without_fills_yields_nothing() {
    let window = Window::new(None, 1_000).unwrap();
    let (out, fetched) = walk(&[], 5_000, &window);
    assert!(out.is_empty());
    assert_eq!(fetched, 1);
}

#[test]
fn window_rejects_a_start_at_or_after_the_end() {
    assert_eq!(Window::new(Some(10), 10), Err(ConfigError::EmptyRange));
    assert_eq!(Window::new(Some(11), 10), Err(ConfigError::EmptyRange));
    let window = Window::new(Some(9), 10).unwrap();
    assert_eq!(window.start(), Some(9));
    assert_eq!(window.end(), 10);
    let open = Window::new(None, i64::MIN).unwrap();
    assert_eq!(open.start(), None);
}

#[test]
fn window_between_two_dates_runs_from_midnight_to_midnight() {
    let window =
        Window::from_dates(Some(Date { day: 19_723 }), Some(Date { day: 19_725 }), 0).unwrap();
    assert_eq!(window.start(), Some(1_704_067_200));
    assert_eq!(window.end(), 1_704_240_000);
    assert_eq!(window.first_cursor(), RequestCursor::new(1_704_240_000));
}

#[test]
fn window_without_an_end_stops_at_the_start_of_today() {
    let now = 1_704_110_400;
    let window = Window::from_dates(None, None, now).unwrap();
    assert_eq!(window.start(), None);
    assert_eq!(window.end(), 1_704_067_200);
    let before_epoch = Window::from_dates(None, None, -1).unwrap();
    assert_eq!(before_epoch.end(), -86_400);
}

#[test]
fn dates_in_the_wrong_order_are_rejected() {
    let day = |d: i64| Some(Date { day: d });
    assert_eq!(Window::from_dates(day(19_725), day(19_725), 0), Err(ConfigError::EmptyRange));
    assert_eq!(Window::from_dates(day(19_726), day(19_725), 0), Err(ConfigError::EmptyRange));
    assert_eq!(
        Window::from_dates(day(19_723), None, 1_704_110_400),
        Err(ConfigError::EmptyRange)
    );
    assert!(Window::from_dates(day(19_722), None, 1_704_110_400).is_ok());
}

#[test]
fn dates_beyond_the_seconds_that_can_be_counted_are_rejected() {
    let day = |d: i64| Some(Date { day: d });
    let last = i64::MAX / 86_400;
    assert!(Window::from_dates(None, day(last), 0).is_ok());
    assert_eq!(Window::from_dates(None, day(last + 1), 0), Err(ConfigError::DateOutOfRange));
    assert_eq!(
        Window::from_dates(day(i64::MIN / 86_400 - 1), day(0), 0),
        Err(ConfigError::DateOutOfRange)
    );
    assert_eq!(Window::from_dates(day(last + 2), day(last + 1), 0), Err(ConfigError::EmptyRange));
}

#[test]
fn fill_needs_a_second_after_its_own() {
    assert!(Fill::new(1, i64::MAX, ()).is_none());
    let f = Fill::new(7, i64::MAX - 1, 2.5f64).unwrap();
    assert_eq!((f.id(), f.time(), *f.payload()), (7, i64::MAX - 1, 2.5));
    let copy = f.clone();
    assert_eq!(copy, f);
    assert_eq!(f.into_payload(), 2.5);
    let (_, next) = RequestCursor::new(i64::MAX).advance(None, vec![copy]);
    assert_eq!(next, Some(RequestCursor { end_time: i64::MAX, oldest_id_seen: 7 }));
}

#[test]
fn overlapping_pages_hand_out_each_fill_once() {
    let pages = vec![
        vec![fill(9, 90), fill(8, 80), fill(7, 80)],
        vec![fill(8, 80), fill(7, 80), fill(6, 80), fill(5, 70)],
        vec![fill(5, 70), fill(4, 60)],
        vec![fill(4, 60)],
        vec![fill(3, 50)],
    ];
    let mut out = Vec::new();
    let mut cursor = Some(RequestCursor::new(100));
    let mut asked = Vec::new();
    for page in pages {
        let Some(here) = cursor else { break };
        asked.push(here.query().end_exclusive);
        let (batch, next) = here.advance(None, page);
        out.extend(batch);
        cursor = next;
    }
    assert_eq!(ids(&out), vec![9, 8, 7, 6, 5, 4]);
    assert_eq!(asked, vec![100, 81, 71, 61]);
    assert_eq!(cursor, None);
}

#[test]
fn failed_fetch_ends_the_run_with_the_failure() {
    let cursor = RequestCursor::new(1_000);
    let failure = FetchError::Malformed { cause: "eof".to_string(), body: "<html>".to_string() };
    let fetched: Result<Vec<Fill<&'static str>>, FetchError> = Err(failure.clone());
    assert_eq!(cursor.on_fetched(None, fetched), Err(failure));
    let refused = FetchError::Transport { cause: "timed out".to_string() };
    let fetched: Result<Vec<Fill<&'static str>>, FetchError> = Err(refused.clone());
    assert_eq!(cursor.on_fetched(Some(5), fetched), Err(refused));
}

#[test]
fn fetched_page_is_handled_as_a_page() {
    let cursor = RequestCursor::new(1_000);
    let step = cursor.on_fetched(Some(10), Ok(vec![fill(3, 30), fill(2, 9)])).unwrap();
    assert_eq!(ids(&step.0), vec![3]);
    assert_eq!(step.1, Some(RequestCursor { end_time: 31, oldest_id_seen: 3 }));
}

#[test]
fn pages_of_changing_size_hand_out_the_whole_history() {
    let history = sample_history();
    let window = Window::new(None, 1_000).unwrap();
    for sizes in [[4usize, 9, 5, 4, 6], [10, 4, 4, 4, 4], [5, 4, 7, 4, 12]] {
        let mut out = Vec::new();
        let mut cursor = Some(window.first_cursor());
        let mut turn = 0;
        while let Some(here) = cursor {
            let page = answer(&history, &here.query(), sizes[turn % sizes.len()]);
            turn += 1;
            let (batch, next) = here.advance(window.start(), page);
            out.extend(batch);
            cursor = next;
        }
        assert_eq!(out, history);
    }
}
