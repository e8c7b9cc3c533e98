use diff_calc::chords::{group_into_chords, rate_slot, Chord};
use diff_calc::map::{HitObject, QuaverMap};
use diff_calc::overlay::{OverlayEvent, OverlayResponse, OverlayStatus, ShownResults};
use diff_calc::quaver::{
    find_and_parse_map, is_searched_file, parse_key_count, qua_file_name, rate_text_from_mods,
};
use diff_calc::text::{before_first, is_white_space_char, parse_u32_text, trim_text};
use diff_calc::watcher::{
    rate_bits_equal, FileChanges, MapWatcher, WatcherAction, DEFAULT_RATE_BITS,
};

fn map_with_mode(title: &str, mode: &str) -> QuaverMap {
    QuaverMap {
        title: title.to_string(),
        artist: "Artist".to_string(),
        difficulty_name: "Hard".to_string(),
        hit_objects: vec![
            HitObject { start_time: Some(0), lane: 1 },
            HitObject { start_time: Some(0), lane: 2 },
            HitObject { start_time: Some(250), lane: 4 },
        ],
        mode: mode.to_string(),
    }
}

fn changes(mapid: Option<&str>, rate: Option<f32>) -> FileChanges {
    FileChanges { next_mapid: mapid.map(|s| s.to_string()), next_rate: rate.map(|r| r.to_bits()) }
}

// ---- key count -------------------------------------------------------------

#[test]
fn key_count_of_keys4_is_4() {
    assert_eq!(parse_key_count("Keys4"), Ok(4));
    assert_eq!(parse_key_count("Keys7"), Ok(7));
}

#[test]
fn key_count_accepts_what_u32_parse_accepts() {
    assert_eq!(parse_key_count("Keys+4"), Ok(4));
    assert_eq!(parse_key_count("Keys007"), Ok(7));
    assert_eq!(parse_key_count("Keys4294967295"), Ok(u32::MAX));
}

#[test]
fn key_count_without_keys_prefix_is_invalid_format() {
    assert_eq!(parse_key_count("4K"), Err("Invalid mode format: 4K".to_string()));
    assert_eq!(parse_key_count("keys4"), Err("Invalid mode format: keys4".to_string()));
    assert_eq!(parse_key_count(""), Err("Invalid mode format: ".to_string()));
}

#[test]
fn key_count_with_bad_number_cannot_be_parsed() {
    for mode in ["Keys", "Keys+", "Keys-1", "Keys 4", "Keys4294967296", "Keys4a", "Keys٤"] {
        assert_eq!(
            parse_key_count(mode),
            Err(format!("Could not parse key count from: {mode}")),
            "{mode}"
        );
    }
}

#[test]
fn key_count_law_on_rendered_numbers() {
    for n in [0u32, 1, 2, 9, 10, 99, 100, 12345, u32::MAX] {
        assert_eq!(parse_key_count(&format!("Keys{n}")), Ok(n));
    }
}

// ---- text helpers ----------------------------------------------------------

#[test]
fn parse_u32_text_agrees_with_std() {
    for s in [
        "", "0", "+0", "+", "-0", "-", "12", "0012", "4294967295", "4294967296",
        "99999999999999999999", "1 ", " 1", "1_000", "+12", "++1", "٣",
    ] {
        assert_eq!(parse_u32_text(s), s.parse::<u32>().ok(), "{s:?}");
    }
}

#[test]
fn trim_text_agrees_with_std() {
    for s in [
        "", "   ", "abc", "  abc  ", "\t\n a b \r\n", "\u{3000}x\u{85}", "\u{a0}\u{2028}y z\u{205f}",
        "\u{200b}keep\u{200b}", "\u{1680}\u{2000}\u{200a}q\u{202f}\u{2029}",
    ] {
        assert_eq!(trim_text(s), s.trim(), "{s:?}");
    }
}

#[test]
fn white_space_matches_std() {
    for code in 0u32..0x3100 {
        if let Some(c) = char::from_u32(code) {
            assert_eq!(is_white_space_char(c), c.is_whitespace(), "{code:#x}");
        }
    }
}

#[test]
fn before_first_cuts_at_first_occurrence() {
    assert_eq!(before_first("1.5x", 'x'), Some("1.5".to_string()));
    assert_eq!(before_first("axbx", 'x'), Some("a".to_string()));
    assert_eq!(before_first("x", 'x'), Some(String::new()));
    assert_eq!(before_first("abc", 'x'), None);
    assert_eq!(before_first("1.5X", 'x'), None);
}

// ---- rate in the mods file -------------------------------------------------

#[test]
fn rate_text_of_mods() {
    assert_eq!(rate_text_from_mods("1.5x"), Ok("1.5".to_string()));
    assert_eq!(rate_text_from_mods("  1.2 x, Mirror"), Ok("1.2".to_string()));
    assert_eq!(rate_text_from_mods("Hx1.5x"), Ok("H".to_string()));
    assert_eq!(rate_text_from_mods(" x"), Ok(String::new()));
}

#[test]
fn rate_text_without_x_is_an_error() {
    assert_eq!(rate_text_from_mods("None"), Err("No 'x' found in mods string".to_string()));
    assert_eq!(rate_text_from_mods("1.5X"), Err("No 'x' found in mods string".to_string()));
}

#[test]
fn rate_of_mods_example() {
    let text = rate_text_from_mods("1.5x").unwrap();
    assert_eq!(text.parse::<f32>(), Ok(1.5f32));
}

// ---- finding a map -------------------------------------------------------

#[test]
fn qua_file_name_appends_extension() {
    assert_eq!(qua_file_name("12345"), "12345.qua");
    assert_eq!(qua_file_name(""), ".qua");
}

#[test]
fn searched_file_must_be_a_file_with_that_name() {
    let wanted = "7.qua".to_string();
    assert!(is_searched_file(true, &Some("7.qua".to_string()), &wanted));
    assert!(!is_searched_file(false, &Some("7.qua".to_string()), &wanted));
    assert!(!is_searched_file(true, &Some("17.qua".to_string()), &wanted));
    assert!(!is_searched_file(true, &None, &wanted));
}

#[test]
fn find_and_parse_map_not_found() {
    let r = find_and_parse_map("42", None);
    assert_eq!(r.err(), Some("Could not find map with ID: 42".to_string()));
}

#[test]
fn find_and_parse_map_unparsable() {
    let r = find_and_parse_map("42", Some(("/songs/x/42.qua".to_string(), None)));
    assert_eq!(r.err(), Some("Failed to parse map: /songs/x/42.qua".to_string()));
}

#[test]
fn find_and_parse_map_found() {
    let m = map_with_mode("Song", "Keys4");
    let r = find_and_parse_map("42", Some(("/songs/x/42.qua".to_string(), Some(m)))).ok().unwrap();
    assert_eq!(r.title, "Song");
    assert_eq!(r.mode, "Keys4");
    assert_eq!(r.hit_objects.len(), 3);
}

#[test]
fn map_clone_keeps_everything() {
    let m = map_with_mode("Song", "Keys4");
    let c = m.clone();
    assert_eq!(c.title, m.title);
    assert_eq!(c.artist, m.artist);
    assert_eq!(c.difficulty_name, m.difficulty_name);
    assert_eq!(c.hit_objects, m.hit_objects);
    assert_eq!(c.mode, m.mode);
}

// ---- chords ----------------------------------------------------------------

#[test]
fn chords_group_simultaneous_hits_in_time_order() {
    let objs = vec![
        HitObject { start_time: Some(1000), lane: 1 },
        HitObject { start_time: Some(0), lane: 2 },
        HitObject { start_time: None, lane: 1 },
        HitObject { start_time: Some(1000), lane: 4 },
        HitObject { start_time: Some(500), lane: 32 },
        HitObject { start_time: Some(1000), lane: 1 },
    ];
    assert_eq!(
        group_into_chords(&objs),
        vec![
            Chord { time: 0, lanes: 0b11 },
            Chord { time: 500, lanes: 1 << 31 },
            Chord { time: 1000, lanes: 0b1001 },
        ]
    );
}

#[test]
fn chords_lane_zero_counts_as_lane_one() {
    let objs = vec![HitObject { start_time: Some(7), lane: 0 }];
    assert_eq!(group_into_chords(&objs), vec![Chord { time: 7, lanes: 1 }]);
}

#[test]
fn chords_of_no_objects() {
    assert_eq!(group_into_chords(&vec![]), vec![]);
}

#[test]
fn chords_hold_every_note() {
    let mut objs = Vec::new();
    for i in 0..200u32 {
        objs.push(HitObject { start_time: Some((i * 37) % 11 * 100), lane: i % 7 + 1 });
    }
    let chords = group_into_chords(&objs);
    for w in chords.windows(2) {
        assert!(w[0].time < w[1].time);
    }
    for o in &objs {
        let t = o.start_time.unwrap_or(0);
        let c = chords.iter().find(|c| c.time == t).unwrap();
        assert_ne!(c.lanes & (1 << (o.lane - 1)), 0);
    }
    for c in &chords {
        let mut mask = 0u32;
        for o in &objs {
            if o.start_time.unwrap_or(0) == c.time {
                mask |= 1 << (o.lane - 1);
            }
        }
        assert_eq!(c.lanes, mask);
    }
}

#[test]
fn chords_ignore_order_and_repetition() {
    let objs = vec![
        HitObject { start_time: Some(300), lane: 2 },
        HitObject { start_time: None, lane: 4 },
        HitObject { start_time: Some(300), lane: 3 },
        HitObject { start_time: Some(100), lane: 1 },
    ];
    let mut permuted = objs.clone();
    permuted.reverse();
    let mut repeated = objs.clone();
    repeated.extend(objs.iter().copied());
    repeated.push(objs[2]);
    let base = group_into_chords(&objs);
    assert_eq!(group_into_chords(&permuted), base);
    assert_eq!(group_into_chords(&repeated), base);
    // a missing start time is the same note as a start at 0, lane 0 as lane 1
    let same = vec![
        HitObject { start_time: Some(0), lane: 4 },
        HitObject { start_time: Some(100), lane: 0 },
        HitObject { start_time: Some(300), lane: 3 },
        HitObject { start_time: Some(300), lane: 2 },
    ];
    assert_eq!(group_into_chords(&same), base);
}

#[test]
fn rate_slot_falls_back_to_first() {
    assert_eq!(rate_slot(3, 14), 3);
    assert_eq!(rate_slot(13, 14), 13);
    assert_eq!(rate_slot(14, 14), 0);
    assert_eq!(rate_slot(usize::MAX, 14), 0);
}

// ---- rates compared as floats ----------------------------------------------

#[test]
fn rate_bits_equal_is_float_equality() {
    let samples = [0.0f32, -0.0, 1.0, 1.5, 0.7, 2.0, f32::NAN, -f32::NAN, f32::INFINITY, f32::MIN_POSITIVE];
    for a in samples {
        for b in samples {
            assert_eq!(rate_bits_equal(a.to_bits(), b.to_bits()), a == b, "{a} {b}");
        }
    }
    assert_eq!(DEFAULT_RATE_BITS, 1.0f32.to_bits());
}

// ---- the file watcher ------------------------------------------------------

#[test]
fn watcher_loads_map_and_asks_for_calc() {
    let mut w = MapWatcher::new();
    let ch = changes(Some("1"), None);
    assert!(w.wants_map(&ch.next_mapid));
    let a = w.on_changes(ch, Some(Ok(map_with_mode("A", "Keys4"))));
    match a {
        WatcherAction::UpdateCalc { map, key_count, rate_bits } => {
            assert_eq!(map.title, "A");
            assert_eq!(key_count, 4);
            assert_eq!(rate_bits, 1.0f32.to_bits());
        }
        _ => panic!("expected a calculation"),
    }
    assert_eq!(w.current_mapid, Some("1".to_string()));
}

#[test]
fn watcher_repeated_changes_are_idle() {
    let mut w = MapWatcher::new();
    let _ = w.on_changes(changes(Some("1"), Some(1.5)), Some(Ok(map_with_mode("A", "Keys4"))));
    let again = changes(Some("1"), Some(1.5));
    assert!(!w.wants_map(&again.next_mapid));
    assert!(matches!(w.on_changes(again, None), WatcherAction::Idle));
}

#[test]
fn watcher_nan_rate_always_counts_as_changed() {
    let mut w = MapWatcher::new();
    let _ = w.on_changes(changes(Some("1"), Some(f32::NAN)), Some(Ok(map_with_mode("A", "Keys4"))));
    let a = w.on_changes(changes(Some("1"), Some(f32::NAN)), None);
    assert!(matches!(a, WatcherAction::UpdateCalc { .. }));
}

#[test]
fn watcher_rate_change_recomputes_with_new_rate() {
    let mut w = MapWatcher::new();
    let _ = w.on_changes(changes(Some("1"), None), Some(Ok(map_with_mode("A", "Keys7"))));
    match w.on_changes(changes(None, Some(1.2)), None) {
        WatcherAction::UpdateCalc { key_count, rate_bits, .. } => {
            assert_eq!(key_count, 7);
            assert_eq!(rate_bits, 1.2f32.to_bits());
        }
        _ => panic!("expected a calculation"),
    }
    // -0.0 and 0.0 compare equal, so the second does not count as a change
    let _ = w.on_changes(changes(None, Some(0.0)), None);
    assert!(matches!(w.on_changes(changes(None, Some(-0.0)), None), WatcherAction::Idle));
}

#[test]
fn watcher_failed_load_changes_nothing() {
    let mut w = MapWatcher::new();
    let _ = w.on_changes(changes(Some("1"), Some(1.0)), Some(Ok(map_with_mode("A", "Keys4"))));
    let ch = changes(Some("2"), Some(1.3));
    assert!(w.wants_map(&ch.next_mapid));
    match w.on_changes(ch, Some(Err("Could not find map with ID: 2".to_string()))) {
        WatcherAction::ShowText(t) => assert_eq!(t, "Map error: Could not find map with ID: 2"),
        _ => panic!("expected a message"),
    }
    assert_eq!(w.current_mapid, Some("1".to_string()));
    assert_eq!(w.current_rate, Some(1.0f32.to_bits()));
    assert_eq!(w.current_map.as_ref().unwrap().title, "A");
}

#[test]
fn watcher_rate_without_map_is_idle() {
    let mut w = MapWatcher::new();
    assert!(matches!(w.on_changes(changes(None, Some(1.1)), None), WatcherAction::Idle));
    assert_eq!(w.current_rate, Some(1.1f32.to_bits()));
    assert!(matches!(w.on_changes(changes(None, None), None), WatcherAction::Idle));
}

#[test]
fn watcher_too_few_keys() {
    let mut w = MapWatcher::new();
    match w.on_changes(changes(Some("9"), None), Some(Ok(map_with_mode("A", "Keys1")))) {
        WatcherAction::ShowText(t) => assert_eq!(t, "Cannot calculate difficulty for less than 2K"),
        _ => panic!("expected a message"),
    }
}

#[test]
fn watcher_bad_mode() {
    let mut w = MapWatcher::new();
    match w.on_changes(changes(Some("9"), None), Some(Ok(map_with_mode("A", "Hello")))) {
        WatcherAction::ShowText(t) => assert_eq!(t, "Mode error: Invalid mode format: Hello"),
        _ => panic!("expected a message"),
    }
    match w.on_changes(changes(Some("10"), None), Some(Ok(map_with_mode("A", "KeysX")))) {
        WatcherAction::ShowText(t) => {
            assert_eq!(t, "Mode error: Could not parse key count from: KeysX")
        }
        _ => panic!("expected a message"),
    }
}

#[test]
fn watcher_keeps_id_with_map() {
    let mut w = MapWatcher::new();
    assert!(w.current_mapid.is_none() && w.current_map.is_none());
    let _ = w.on_changes(changes(Some("3"), None), Some(Err("x".to_string())));
    assert!(w.current_mapid.is_none() && w.current_map.is_none());
    let _ = w.on_changes(changes(Some("3"), None), Some(Ok(map_with_mode("A", "Keys4"))));
    assert!(w.current_mapid.is_some() && w.current_map.is_some());
}

// ---- the overlay -----------------------------------------------------------

#[test]
fn overlay_starts_waiting() {
    let s: OverlayStatus<u32> = OverlayStatus::new();
    assert_eq!(s.status_text(), "Waiting for map update");
    assert!(s.shows_status());
    assert!(s.shown_results().is_none());
    assert!(!s.is_dragging());
}

#[test]
fn overlay_shows_results_then_text() {
    let mut s: OverlayStatus<u32> = OverlayStatus::new();
    let r = ShownResults { map: map_with_mode("Shown", "Keys4"), rate_bits: 1.1f32.to_bits(), score: 17 };
    assert_eq!(s.update(OverlayEvent::ResultsReady(r)), OverlayResponse::Nothing);
    assert!(!s.shows_status());
    let shown = s.shown_results().unwrap();
    assert_eq!(shown.map.title, "Shown");
    assert_eq!(shown.rate_bits, 1.1f32.to_bits());
    assert_eq!(shown.score, 17);
    s.update(OverlayEvent::ChangeText("Map error: x".to_string()));
    assert!(s.shows_status());
    assert!(s.shown_results().is_none());
    assert_eq!(s.status_text(), "Map error: x");
}

#[test]
fn overlay_drags_with_left_button() {
    let mut s: OverlayStatus<u32> = OverlayStatus::new();
    assert_eq!(s.update(OverlayEvent::MouseMoved), OverlayResponse::RememberCursor);
    s.update(OverlayEvent::MousePressed { left: false });
    assert!(!s.is_dragging());
    s.update(OverlayEvent::MousePressed { left: true });
    assert!(s.is_dragging());
    assert_eq!(s.update(OverlayEvent::MouseMoved), OverlayResponse::MoveWindow);
    s.update(OverlayEvent::MouseReleased { left: false });
    assert!(s.is_dragging());
    s.update(OverlayEvent::MouseReleased { left: true });
    assert_eq!(s.update(OverlayEvent::MouseMoved), OverlayResponse::RememberCursor);
    assert_eq!(s.update(OverlayEvent::WindowOpened), OverlayResponse::RememberWindow);
}
