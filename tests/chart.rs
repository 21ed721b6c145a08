use stockchart::decimal::{format_price, parse_price, PriceError};
use stockchart::frame::compose;
use stockchart::order::{date_le, sort_by_date};
use stockchart::series::{normalize, DailyRecord, PricePoint, Series};
use stockchart::session::{command_for_key, Command, LoopState, Session};
use stockchart::viewport::{Viewport, SPAN, ZOOM_STEP};

fn record(close: &str) -> DailyRecord {
    DailyRecord {
        open: "1.0000".to_string(),
        high: "2.0000".to_string(),
        low: "0.5000".to_string(),
        close: close.to_string(),
        volume: "1000".to_string(),
    }
}

fn entries(closes: &[(&str, &str)]) -> Vec<(String, DailyRecord)> {
    closes.iter().map(|(d, c)| (d.to_string(), record(c))).collect()
}

fn series_of(n: usize) -> Series {
    let list: Vec<(String, DailyRecord)> = (0..n)
        .map(|i| (format!("day{}", i), record(&format!("{}.00", 100 + i))))
        .collect();
    normalize(&list).unwrap()
}

#[test]
fn parse_plain_and_signed_decimals() {
    assert_eq!(parse_price("100.00"), Ok(1_000_000));
    assert_eq!(parse_price("110.00"), Ok(1_100_000));
    assert_eq!(parse_price("-2.5"), Ok(-25_000));
    assert_eq!(parse_price("+7"), Ok(70_000));
    assert_eq!(parse_price(".5"), Ok(5_000));
    assert_eq!(parse_price("5."), Ok(50_000));
    assert_eq!(parse_price("0"), Ok(0));
    assert_eq!(parse_price("-0.0000"), Ok(0));
}

#[test]
fn parse_drops_digits_past_the_fourth() {
    assert_eq!(parse_price("1.23456"), Ok(12_345));
    assert_eq!(parse_price("-1.99999"), Ok(-19_999));
}

#[test]
fn parse_rejects_non_decimals() {
    for s in ["", ".", "-", "+.", "abc", "1.2.3", "1,5", " 1", "1e5", "--1", "12a"] {
        assert_eq!(parse_price(s), Err(PriceError::NotDecimal), "{:?}", s);
    }
}

#[test]
fn parse_range_limits() {
    assert_eq!(parse_price("100000000000"), Ok(1_000_000_000_000_000));
    assert_eq!(parse_price("-100000000000"), Ok(-1_000_000_000_000_000));
    assert_eq!(parse_price("100000000000.0001"), Err(PriceError::OutOfRange));
    assert_eq!(parse_price("100000000001"), Err(PriceError::OutOfRange));
    assert_eq!(parse_price("99999999999999999999999999"), Err(PriceError::OutOfRange));
    assert_eq!(parse_price("000000000000000000000001.5"), Ok(15_000));
}

#[test]
fn format_shortest_decimal() {
    assert_eq!(format_price(1_000_000), "100");
    assert_eq!(format_price(1_105_000), "110.5");
    assert_eq!(format_price(-25_000), "-2.5");
    assert_eq!(format_price(0), "0");
    assert_eq!(format_price(12_345), "1.2345");
    assert_eq!(format_price(-1), "-0.0001");
    assert_eq!(format_price(10_100), "1.01");
    assert_eq!(format_price(10_010), "1.001");
    assert_eq!(format_price(i128::MIN + 1).len() > 30, true);
}

#[test]
fn normalize_two_days() {
    let list = entries(&[("2020-01-01", "100.00"), ("2020-01-02", "110.00")]);
    let s = normalize(&list).unwrap();
    assert_eq!(s.count, 2);
    assert_eq!(s.min, 1_000_000);
    assert_eq!(s.max, 1_100_000);
    assert_eq!(
        s.points,
        vec![
            PricePoint { index: 0, close: 1_000_000 },
            PricePoint { index: 1, close: 1_100_000 }
        ]
    );
    assert_eq!(s.labels, vec!["2020-01-01".to_string(), "2020-01-02".to_string()]);
}

#[test]
fn normalize_empty_is_neutral() {
    let s = normalize(&Vec::new()).unwrap();
    assert_eq!(s.count, 0);
    assert_eq!(s.min, 0);
    assert_eq!(s.max, 0);
    assert!(s.points.is_empty());
    assert!(s.labels.is_empty());
}

#[test]
fn normalize_extrema_bound_every_point() {
    let list = entries(&[("a", "5.5"), ("b", "-3"), ("c", "12.25"), ("d", "0"), ("e", "12.25")]);
    let s = normalize(&list).unwrap();
    assert_eq!(s.count, list.len());
    assert_eq!(s.min, -30_000);
    assert_eq!(s.max, 122_500);
    for p in &s.points {
        assert!(s.min <= p.close && p.close <= s.max);
    }
    assert_eq!(s.points.iter().map(|p| p.index).collect::<Vec<_>>(), vec![0, 1, 2, 3, 4]);
}

#[test]
fn normalize_reports_first_bad_close() {
    let list = entries(&[("a", "1"), ("b", "x"), ("c", "y")]);
    let e = normalize(&list).unwrap_err();
    assert_eq!(e.index, 1);
    assert_eq!(e.reason, PriceError::NotDecimal);
    let list = entries(&[("a", "1"), ("b", "2"), ("c", "999999999999")]);
    let e = normalize(&list).unwrap_err();
    assert_eq!(e.index, 2);
    assert_eq!(e.reason, PriceError::OutOfRange);
}

#[test]
fn pan_right_clamps_at_series_end() {
    let mut v = Viewport::new();
    assert_eq!((v.window_start, v.window_end), (0, 100));
    v.pan_right(250);
    assert_eq!((v.window_start, v.window_end), (100, 200));
    v.pan_right(250);
    assert_eq!((v.window_start, v.window_end), (100, 200));
}

#[test]
fn pan_at_edges_changes_nothing() {
    let mut v = Viewport::new();
    let before = v;
    v.pan_left();
    assert_eq!(v, before);
    let mut w = Viewport { window_start: 200, window_end: 300, zoom_offset: 0 };
    let at_end = w;
    w.pan_right(300);
    assert_eq!(w, at_end);
    w.pan_left();
    assert_eq!((w.window_start, w.window_end), (100, 200));
}

#[test]
fn pans_stay_within_series() {
    let count = 420;
    let mut v = Viewport::new();
    let moves = [true, true, true, true, true, false, true, false, false, false, false, false, true];
    for right in moves {
        if right {
            v.pan_right(count);
        } else {
            v.pan_left();
        }
        assert!(v.window_end <= count);
        assert_eq!(v.window_end - v.window_start, SPAN);
    }
    assert_eq!((v.window_start, v.window_end), (100, 200));
}

#[test]
fn zoom_in_grows_and_zoom_out_stops_above_zero() {
    let mut v = Viewport::new();
    let mut last = v.zoom_offset;
    for _ in 0..5 {
        v.zoom_in();
        assert!(v.zoom_offset > last);
        last = v.zoom_offset;
    }
    assert_eq!(v.zoom_offset, 5 * ZOOM_STEP);
    for _ in 0..10 {
        v.zoom_out();
    }
    assert_eq!(v.zoom_offset, ZOOM_STEP);
    let mut z = Viewport::new();
    z.zoom_out();
    assert_eq!(z.zoom_offset, 0);
}

#[test]
fn zoom_in_stops_at_the_largest_offset() {
    let mut v = Viewport { window_start: 0, window_end: 100, zoom_offset: u64::MAX - 5 };
    v.zoom_in();
    assert_eq!(v.zoom_offset, u64::MAX - 5);
}

#[test]
fn frame_of_empty_series_with_zoom() {
    let s = normalize(&Vec::new()).unwrap();
    let mut v = Viewport::new();
    v.zoom_in();
    let f = compose(&s, &v);
    assert_eq!(f.x_bounds, (0, 100));
    assert!(f.x_labels.is_none());
    assert_eq!(f.y_bounds, (-100_000, 100_000));
    assert_eq!(f.y_labels, ("-10".to_string(), "10".to_string()));
    assert!(f.plotted.is_empty());
}

#[test]
fn frame_of_flat_series_has_zero_height() {
    let list = entries(&[("a", "42.5"), ("b", "42.5")]);
    let s = normalize(&list).unwrap();
    let f = compose(&s, &Viewport::new());
    assert_eq!(f.y_bounds, (425_000, 425_000));
    assert_eq!(f.y_labels, ("42.5".to_string(), "42.5".to_string()));
}

#[test]
fn frame_uses_global_labels_and_all_points() {
    let s = series_of(250);
    let mut v = Viewport::new();
    v.pan_right(s.count);
    v.zoom_in();
    v.zoom_in();
    let f = compose(&s, &v);
    assert_eq!(f.x_bounds, (100, 200));
    assert_eq!(f.x_labels, Some(("day0".to_string(), "day249".to_string())));
    assert_eq!(f.y_bounds, (1_000_000 - 200_000, 3_490_000 + 200_000));
    assert_eq!(f.y_labels, ("80".to_string(), "369".to_string()));
    assert_eq!(f.plotted, s.points);
}

#[test]
fn keys_map_to_commands() {
    assert_eq!(command_for_key('q'), Command::Quit);
    assert_eq!(command_for_key('h'), Command::PanLeft);
    assert_eq!(command_for_key('l'), Command::PanRight);
    assert_eq!(command_for_key('j'), Command::ZoomIn);
    assert_eq!(command_for_key('k'), Command::ZoomOut);
    assert_eq!(command_for_key('x'), Command::Unrecognized);
    assert_eq!(command_for_key('Q'), Command::Unrecognized);
}

#[test]
fn quit_first_draws_one_frame() {
    let mut session = Session::new(series_of(3));
    let frames = session.run_events(&vec![Command::Quit, Command::PanRight]);
    assert_eq!(frames.len(), 1);
    assert_eq!(session.state, LoopState::Terminated);
    assert_eq!(session.view, Viewport::new());
}

#[test]
fn events_drive_the_viewport_until_quit() {
    let mut session = Session::new(series_of(250));
    let events = vec![
        Command::PanRight,
        Command::Tick,
        Command::ZoomIn,
        Command::Unrecognized,
        Command::Quit,
        Command::PanLeft,
    ];
    let frames = session.run_events(&events);
    assert_eq!(frames.len(), 5);
    assert_eq!(frames[1].x_bounds, (100, 200));
    assert_eq!(frames[4].y_bounds.0, 1_000_000 - 100_000);
    assert_eq!(session.state, LoopState::Terminated);
    assert_eq!(session.view.window_start, 100);
    assert_eq!(session.view.zoom_offset, ZOOM_STEP);
}

#[test]
fn events_run_out_while_running() {
    let mut session = Session::new(series_of(10));
    let frames = session.run_events(&vec![Command::Tick, Command::ZoomOut]);
    assert_eq!(frames.len(), 3);
    assert_eq!(session.state, LoopState::Running);
    assert_eq!(session.handle(Command::Quit), LoopState::Terminated);
}

#[test]
fn dates_compare_chronologically() {
    assert!(date_le("2019-12-31", "2020-01-01"));
    assert!(date_le("2020-01-01", "2020-01-01"));
    assert!(!date_le("2020-02-01", "2020-01-31"));
    assert!(date_le("", "a"));
    assert!(!date_le("ab", "a"));
    assert!(date_le("a", "ab"));
}

#[test]
fn sort_orders_entries_by_date() {
    let list = entries(&[
        ("2020-01-03", "3"),
        ("2019-12-30", "0"),
        ("2020-01-01", "1"),
        ("2020-01-02", "2"),
    ]);
    let sorted = sort_by_date(list);
    let keys: Vec<&str> = sorted.iter().map(|(k, _)| k.as_str()).collect();
    assert_eq!(keys, vec!["2019-12-30", "2020-01-01", "2020-01-02", "2020-01-03"]);
    let closes: Vec<&str> = sorted.iter().map(|(_, r)| r.close.as_str()).collect();
    assert_eq!(closes, vec!["0", "1", "2", "3"]);
    let s = normalize(&sorted).unwrap();
    assert_eq!(s.labels[0], "2019-12-30");
    assert_eq!(s.points[3], PricePoint { index: 3, close: 30_000 });
}

#[test]
fn sort_keeps_every_entry() {
    assert!(sort_by_date(Vec::new()).is_empty());
    let list = entries(&[("b", "1"), ("a", "2"), ("b", "3"), ("a", "4")]);
    let sorted = sort_by_date(list);
    let keys: Vec<&str> = sorted.iter().map(|(k, _)| k.as_str()).collect();
    assert_eq!(keys, vec!["a", "a", "b", "b"]);
    let mut closes: Vec<&str> = sorted.iter().map(|(_, r)| r.close.as_str()).collect();
    closes.sort();
    assert_eq!(closes, vec!["1", "2", "3", "4"]);
}
