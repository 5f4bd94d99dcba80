use vstd::prelude::*;

use crate::text::{
    chars_of, decimal, decimal_i32, decimal_parses_back, find_char, index_of, is_white, parse_i32_range,
    parse_i32_spec, string_of_chars, trim, trim_bounds, trimmed,
};

verus! {

/// The window position that a saved text gives back: the text is trimmed and
/// split at commas; the first two pieces must parse as `i32`s (x, then y),
/// further pieces are ignored.
pub open spec fn window_position_spec(text: Seq<char>) -> Option<(i32, i32)> {
    let t = trimmed(text);
    let c = index_of(t, ',');
    if c < 0 {
        None
    } else {
        let rest = t.subrange(c + 1, t.len() as int);
        let c2 = index_of(rest, ',');
        let y_text = if c2 < 0 {
            rest
        } else {
            rest.subrange(0, c2)
        };
        match (parse_i32_spec(t.subrange(0, c)), parse_i32_spec(y_text)) {
            (Some(x), Some(y)) => Some((x, y)),
            _ => None,
        }
    }
}

/// The text a window position is saved as: `x,y` in decimal.
pub open spec fn window_position_text(x: i32, y: i32) -> Seq<char> {
    decimal(x as int) + seq![','] + decimal(y as int)
}

/// Reads a saved window position (the contents of the position file).
pub fn parse_window_position(text: &str) -> (pos: Option<(i32, i32)>)
    ensures
        pos == window_position_spec(text@),
{
    let cs = chars_of(text);
    let (a, b) = trim_bounds(&cs);
    let ghost t = cs@.subrange(a as int, b as int);
    let c = find_char(&cs, a, b, ',');
    if c == b - a {
        return None;
    }
    let x_end = a + c;
    let y_start = x_end + 1;
    let c2 = find_char(&cs, y_start, b, ',');
    let y_end = y_start + c2;
    proof {
        assert(cs@.subrange(a as int, x_end as int) =~= t.subrange(0, c as int));
        assert(cs@.subrange(y_start as int, b as int) =~= t.subrange(c + 1, t.len() as int));
        let rest = t.subrange(c + 1, t.len() as int);
        if c2 < b - y_start {
            assert(cs@.subrange(y_start as int, y_end as int) =~= rest.subrange(0, c2 as int));
        } else {
            assert(cs@.subrange(y_start as int, y_end as int) =~= rest);
        }
    }
    let x = parse_i32_range(&cs, a, x_end);
    let y = parse_i32_range(&cs, y_start, y_end);
    match (x, y) {
        (Some(x), Some(y)) => Some((x, y)),
        _ => None,
    }
}

/// Writes a window position as `x,y`.
pub fn format_window_position(x: i32, y: i32) -> (s: String)
    ensures
        s@ == window_position_text(x, y),
{
    let mut cs = decimal_i32(x);
    cs.push(',');
    let ys = decimal_i32(y);
    let ghost prefix = cs@;
    let mut i: usize = 0;
    while i < ys.len()
        invariant
            i <= ys@.len(),
            cs@ == prefix + ys@.take(i as int),
        decreases ys.len() - i,
    {
        cs.push(ys[i]);
        i = i + 1;
        assert(cs@ =~= prefix + ys@.take(i as int));
    }
    assert(ys@.take(ys@.len() as int) =~= ys@);
    string_of_chars(&cs)
}

/// A saved position reads back as itself.
pub proof fn window_position_round_trip(x: i32, y: i32)
    ensures
        window_position_spec(window_position_text(x, y)) == Some((x, y)),
{
    let dx = decimal(x as int);
    let dy = decimal(y as int);
    decimal_parses_back(x);
    decimal_parses_back(y);
    let s = window_position_text(x, y);
    let n = s.len() as int;
    assert forall|i: int| 0 <= i < n implies !is_white(s[i]) by {
        if i < dx.len() {
            assert(s[i] == dx[i]);
        } else if i > dx.len() {
            assert(s[i] == dy[i - dx.len() - 1]);
        }
    }
    crate::text::lemma_leading_white(s, 0);
    crate::text::lemma_trailing_white(s, n);
    assert(trimmed(s) =~= s);
    assert forall|j: int| 0 <= j < dx.len() implies s[j] != ',' by {
        assert(s[j] == dx[j]);
    }
    crate::text::lemma_index_of(s, ',', dx.len() as int);
    assert(s.subrange(0, dx.len() as int) =~= dx);
    assert(s.subrange(dx.len() as int + 1, n) =~= dy);
    crate::text::lemma_index_of(dy, ',', dy.len() as int);
}

/// The saved custom sound path that a file holds: its trimmed contents, or
/// `None` when nothing but white space is left.
pub fn persisted_sound_path(text: &str) -> (p: Option<String>)
    ensures
        match p {
            Some(s) => trimmed(text@).len() > 0 && s@ == trimmed(text@),
            None => trimmed(text@).len() == 0,
        },
{
    let t = trim(text);
    if t.as_str().is_empty() {
        None
    } else {
        Some(t)
    }
}

/// The texts of a list of strings.
pub open spec fn texts(v: Seq<String>) -> Seq<Seq<char>> {
    v.map_values(|s: String| s@)
}

proof fn lemma_texts_push(v: Seq<String>, s: String)
    ensures
        texts(v.push(s)) == texts(v).push(s@),
{
    assert(texts(v.push(s)) =~= texts(v).push(s@));
}

/// File names of a custom ring in the user's configuration directory, in the
/// order they are looked for.
pub fn ring_file_names() -> (names: Vec<String>)
    ensures
        texts(names@) == seq!["ring.oga"@, "ring.ogg"@, "ring.wav"@, "ring.mp3"@, "ring.flac"@],
{
    let mut v: Vec<String> = Vec::new();
    v.push("ring.oga".to_owned());
    v.push("ring.ogg".to_owned());
    v.push("ring.wav".to_owned());
    v.push("ring.mp3".to_owned());
    v.push("ring.flac".to_owned());
    assert(texts(v@) =~= seq!["ring.oga"@, "ring.ogg"@, "ring.wav"@, "ring.mp3"@, "ring.flac"@]);
    v
}

/// The desktop's stock sounds, tried last.
pub open spec fn fallback_sounds() -> Seq<Seq<char>> {
    seq![
        "/usr/share/sounds/freedesktop/stereo/complete.oga"@,
        "/usr/share/sounds/freedesktop/stereo/message.oga"@,
        "/usr/share/sounds/freedesktop/stereo/bell.oga"@,
    ]
}

/// The sound files to try, in order: the chosen custom sound, the sound the
/// environment names (when not empty), the custom rings found in the
/// configuration directory, then the desktop's stock sounds. The first that
/// exists is played.
pub open spec fn sound_candidates_spec(
    custom: Option<Seq<char>>,
    env_sound: Option<Seq<char>>,
    ring_files: Seq<Seq<char>>,
) -> Seq<Seq<char>> {
    let c = match custom {
        Some(p) => seq![p],
        None => Seq::empty(),
    };
    let e = match env_sound {
        Some(p) => if p.len() > 0 {
            seq![p]
        } else {
            Seq::empty()
        },
        None => Seq::empty(),
    };
    c + e + ring_files + fallback_sounds()
}

pub open spec fn opt_text(o: Option<String>) -> Option<Seq<char>> {
    match o {
        Some(s) => Some(s@),
        None => None,
    }
}

/// Lists the sound files to try, in the order of `sound_candidates_spec`.
pub fn sound_candidates(custom: Option<String>, env_sound: Option<String>, ring_files: Vec<String>) -> (v: Vec<String>)
    ensures
        texts(v@) == sound_candidates_spec(opt_text(custom), opt_text(env_sound), texts(ring_files@)),
{
    let mut v: Vec<String> = Vec::new();
    let ghost c: Seq<Seq<char>> = match opt_text(custom) {
        Some(p) => seq![p],
        None => Seq::empty(),
    };
    let ghost e: Seq<Seq<char>> = match opt_text(env_sound) {
        Some(p) => if p.len() > 0 {
            seq![p]
        } else {
            Seq::empty()
        },
        None => Seq::empty(),
    };
    match custom {
        Some(p) => v.push(p),
        None => {},
    }
    match env_sound {
        Some(p) => {
            if !p.as_str().is_empty() {
                v.push(p);
            }
        },
        None => {},
    }
    assert(texts(v@) =~= c + e);
    let ghost head = texts(v@);
    let mut i: usize = 0;
    while i < ring_files.len()
        invariant
            i <= ring_files@.len(),
            texts(v@) == head + texts(ring_files@).take(i as int),
        decreases ring_files.len() - i,
    {
        let r = ring_files[i].clone();
        assert(r@ == texts(ring_files@)[i as int]);
        let ghost before = v@;
        v.push(r);
        proof {
            lemma_texts_push(before, r);
            assert(texts(ring_files@).take(i + 1) =~= texts(ring_files@).take(i as int).push(r@));
        }
        i = i + 1;
        assert(texts(v@) =~= head + texts(ring_files@).take(i as int));
    }
    assert(texts(ring_files@).take(ring_files@.len() as int) =~= texts(ring_files@));
    let ghost mid = texts(v@);
    v.push("/usr/share/sounds/freedesktop/stereo/complete.oga".to_owned());
    v.push("/usr/share/sounds/freedesktop/stereo/message.oga".to_owned());
    v.push("/usr/share/sounds/freedesktop/stereo/bell.oga".to_owned());
    assert(texts(v@) =~= mid + fallback_sounds());
    v
}

} // verus!

verus! {

/// The terminal emulators tried, in order, to open the coding assistant whose
/// command is `cmd`, each with the arguments that make it run that command.
pub open spec fn terminal_launchers_spec(cmd: Seq<char>) -> Seq<(Seq<char>, Seq<Seq<char>>)> {
    seq![
        ("gnome-terminal"@, seq!["--"@, cmd]),
        ("konsole"@, seq!["-e"@, cmd]),
        ("x-terminal-emulator"@, seq!["-e"@, cmd]),
        ("alacritty"@, seq!["-e"@, cmd]),
        ("kitty"@, seq![cmd]),
        ("tilix"@, seq!["-e"@, cmd]),
        ("xterm"@, seq!["-e"@, cmd]),
    ]
}

/// A terminal to try and its arguments, as texts.
pub open spec fn launcher_text(l: (String, Vec<String>)) -> (Seq<char>, Seq<Seq<char>>) {
    (l.0@, texts(l.1@))
}

fn launcher(bin: &str, opt: Option<&str>, cmd: &str) -> (l: (String, Vec<String>))
    ensures
        launcher_text(l) == (bin@, match opt {
            Some(o) => seq![o@, cmd@],
            None => seq![cmd@],
        }),
{
    let mut args: Vec<String> = Vec::new();
    match opt {
        Some(o) => args.push(o.to_owned()),
        None => {},
    }
    args.push(cmd.to_owned());
    assert(texts(args@) =~= match opt {
        Some(o) => seq![o@, cmd@],
        None => seq![cmd@],
    });
    (bin.to_owned(), args)
}

/// The terminals to try, in order, to open the coding assistant `cmd`; the
/// first that starts wins.
pub fn terminal_launchers(cmd: &str) -> (v: Vec<(String, Vec<String>)>)
    ensures
        v@.map_values(|l: (String, Vec<String>)| launcher_text(l)) == terminal_launchers_spec(cmd@),
{
    let mut v: Vec<(String, Vec<String>)> = Vec::new();
    v.push(launcher("gnome-terminal", Some("--"), cmd));
    v.push(launcher("konsole", Some("-e"), cmd));
    v.push(launcher("x-terminal-emulator", Some("-e"), cmd));
    v.push(launcher("alacritty", Some("-e"), cmd));
    v.push(launcher("kitty", None, cmd));
    v.push(launcher("tilix", Some("-e"), cmd));
    v.push(launcher("xterm", Some("-e"), cmd));
    assert(v@.map_values(|l: (String, Vec<String>)| launcher_text(l)) =~= terminal_launchers_spec(cmd@));
    v
}

} // verus!
