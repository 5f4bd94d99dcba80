use clippy_native::settings::{
    format_window_position, parse_window_position, persisted_sound_path, ring_file_names, sound_candidates,
};
use clippy_native::text::{decimal_i32, parse_i32_range, trim};

#[test]
fn window_position_parses() {
    assert_eq!(parse_window_position("10,20"), Some((10, 20)));
    assert_eq!(parse_window_position("  -5,+7\n"), Some((-5, 7)));
    assert_eq!(parse_window_position("1,2,3"), Some((1, 2)));
}

#[test]
fn window_position_rejects_bad_text() {
    assert_eq!(parse_window_position("1"), None);
    assert_eq!(parse_window_position(""), None);
    assert_eq!(parse_window_position("a,2"), None);
    assert_eq!(parse_window_position("1, 2"), None);
    assert_eq!(parse_window_position("1,"), None);
    assert_eq!(parse_window_position("-,2"), None);
    assert_eq!(parse_window_position("2147483648,0"), None);
}

#[test]
fn window_position_extremes() {
    assert_eq!(parse_window_position("-2147483648,2147483647"), Some((i32::MIN, i32::MAX)));
    assert_eq!(parse_window_position("0000000000000000012,3"), Some((12, 3)));
}

#[test]
fn window_position_formats() {
    assert_eq!(format_window_position(10, -20), "10,-20");
    assert_eq!(format_window_position(i32::MIN, 0), "-2147483648,0");
}

#[test]
fn window_position_round_trips() {
    for (x, y) in [(0, 0), (1, -1), (i32::MAX, i32::MIN), (1920, 1080), (-37, 400)] {
        assert_eq!(parse_window_position(&format_window_position(x, y)), Some((x, y)));
    }
}

#[test]
fn decimal_matches_display() {
    for n in [0, 7, 10, 99, -1, -100, 123456789, i32::MIN, i32::MAX] {
        let s: String = decimal_i32(n).into_iter().collect();
        assert_eq!(s, n.to_string());
    }
}

#[test]
fn i32_parsing_matches_std() {
    for s in ["0", "+0", "-0", "42", "-42", "+", "-", "", "12a", "2147483647", "2147483648", "-2147483648", "-2147483649", " 1", "99999999999999999999"] {
        let cs: Vec<char> = s.chars().collect();
        assert_eq!(parse_i32_range(&cs, 0, cs.len()), s.parse::<i32>().ok(), "{s}");
    }
}

#[test]
fn trim_matches_std() {
    for s in ["", "  ", " a ", "\t\nab c\r\n", "\u{a0}x\u{3000}", "x"] {
        assert_eq!(trim(s), s.trim());
    }
}

#[test]
fn persisted_sound_path_is_trimmed() {
    assert_eq!(persisted_sound_path("  /home/u/ding.oga\n"), Some("/home/u/ding.oga".to_string()));
    assert_eq!(persisted_sound_path(" \n\t"), None);
    assert_eq!(persisted_sound_path(""), None);
}

#[test]
fn ring_names_in_order() {
    assert_eq!(ring_file_names(), vec!["ring.oga", "ring.ogg", "ring.wav", "ring.mp3", "ring.flac"]);
}

#[test]
fn sound_candidates_in_order() {
    let v = sound_candidates(Some("/c.oga".to_string()), Some("/e.wav".to_string()), vec!["/r.oga".to_string()]);
    assert_eq!(
        v,
        vec![
            "/c.oga",
            "/e.wav",
            "/r.oga",
            "/usr/share/sounds/freedesktop/stereo/complete.oga",
            "/usr/share/sounds/freedesktop/stereo/message.oga",
            "/usr/share/sounds/freedesktop/stereo/bell.oga",
        ]
    );
}

#[test]
fn empty_environment_sound_is_skipped() {
    let v = sound_candidates(None, Some(String::new()), vec![]);
    assert_eq!(v.len(), 3);
    assert_eq!(v[0], "/usr/share/sounds/freedesktop/stereo/complete.oga");
}

#[test]
fn terminals_tried_in_order() {
    let v = clippy_native::settings::terminal_launchers("assistant");
    let names: Vec<&str> = v.iter().map(|(b, _)| b.as_str()).collect();
    assert_eq!(names, vec!["gnome-terminal", "konsole", "x-terminal-emulator", "alacritty", "kitty", "tilix", "xterm"]);
    assert_eq!(v[0].1, vec!["--", "assistant"]);
    assert_eq!(v[1].1, vec!["-e", "assistant"]);
    assert_eq!(v[4].1, vec!["assistant"]);
    assert_eq!(v[6].1, vec!["-e", "assistant"]);
}
