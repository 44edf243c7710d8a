//! Headers and events.

use asciicast::cast::{log_utf8_output, Event, Header, HeaderConfig};
use asciicast::size::{console_window_size, fits_screen, resized_to, PtySize};

fn config() -> HeaderConfig {
    HeaderConfig {
        term: "xterm-256color".to_string(),
        wezterm_version: "1.2.3".to_string(),
        wezterm_target_triple: "x86_64-unknown-linux-gnu".to_string(),
        foreground: "#ffffff".to_string(),
        background: "#000000".to_string(),
        colors: (0..20).map(|i| format!("#{i:06x}")).collect(),
    }
}

fn size(cols: u16, rows: u16) -> PtySize {
    PtySize {
        rows,
        cols,
        pixel_width: 0,
        pixel_height: 0,
    }
}

fn var(name: &str, value: &str) -> (String, String) {
    (name.to_string(), value.to_string())
}

#[test]
fn header_describes_the_recording() {
    let header = Header::new(
        &config(),
        &Some("/bin/zsh".to_string()),
        &Some("C".to_string()),
        size(80, 24),
        &vec!["ls".to_string(), "a b".to_string()],
        1_700_000_000,
    );

    assert_eq!(header.version, 2);
    assert_eq!((header.width, header.height), (80, 24));
    assert_eq!(header.timestamp, Some(1_700_000_000));
    assert_eq!(header.duration, None);
    assert_eq!(header.idle_time_limit, None);
    assert_eq!(header.command, Some("ls 'a b'".to_string()));
    assert_eq!(header.title, None);
    assert_eq!(
        header.env,
        vec![
            var("TERM", "xterm-256color"),
            var("WEZTERM_VERSION", "1.2.3"),
            var("WEZTERM_TARGET_TRIPLE", "x86_64-unknown-linux-gnu"),
            var("SHELL", "/bin/zsh"),
            var("LANG", "C"),
        ]
    );
    let theme = header.theme.unwrap();
    assert_eq!(theme.fg, "#ffffff");
    assert_eq!(theme.bg, "#000000");
    assert_eq!(
        theme.palette,
        "#000000:#000001:#000002:#000003:#000004:#000005:#000006:#000007:\
         #000008:#000009:#00000a:#00000b:#00000c:#00000d:#00000e:#00000f"
    );
}

#[test]
fn header_of_the_default_program_has_no_command() {
    let header = Header::new(&config(), &None, &None, size(1, 2), &vec![], 0);

    assert_eq!(header.command, None);
    assert_eq!(header.env.len(), 3);
    let header = Header::for_command(
        &config(),
        &None,
        &Some("de".to_string()),
        size(1, 2),
        Some("x y".to_string()),
        0,
    );
    assert_eq!(header.command, Some("x y".to_string()));
    assert_eq!(header.env[3], var("LANG", "de"));
}

#[test]
fn output_events_are_told_from_others() {
    let event = Event::log_output(7, "text".to_string());
    assert_eq!((event.0, event.1.as_str()), (7, "o"));
    assert_eq!(event.output(), Some("text"));
    assert_eq!(
        Event(0, "i".to_string(), "text".to_string()).output(),
        None
    );
    assert_eq!(Event(0, "oo".to_string(), "text".to_string()).output(), None);
    assert_eq!(Event(0, String::new(), "text".to_string()).output(), None);
}

#[test]
fn a_character_across_a_boundary_is_carried_forward() {
    let mut buffer = Vec::new();
    let mut data = b"ab\xe2\x82".to_vec();

    assert_eq!(log_utf8_output(&mut buffer, 1, &mut data).2, "ab");
    assert_eq!(data, b"");
    assert_eq!(buffer, b"\xe2\x82");

    let mut data = b"\xacc".to_vec();
    assert_eq!(log_utf8_output(&mut buffer, 2, &mut data).2, "\u{20ac}c");
    assert_eq!(buffer, b"");
}

#[test]
fn an_empty_text_is_logged_too() {
    let mut buffer = Vec::new();
    let mut data = b"\xf0\x9f".to_vec();

    let event = log_utf8_output(&mut buffer, 3, &mut data);
    assert_eq!((event.0, event.1.as_str(), event.2.as_str()), (3, "o", ""));
    assert_eq!(buffer, b"\xf0\x9f");
}

#[test]
fn one_malformed_sequence_is_skipped_at_a_time() {
    let mut buffer = Vec::new();
    let mut data = b"a\xff\xfeb".to_vec();

    assert_eq!(log_utf8_output(&mut buffer, 0, &mut data).2, "a");
    assert_eq!(buffer, b"\xfeb");
    assert_eq!(log_utf8_output(&mut buffer, 0, &mut data).2, "");
    assert_eq!(buffer, b"b");
    assert_eq!(log_utf8_output(&mut buffer, 0, &mut data).2, "b");
    assert_eq!(buffer, b"");
}

#[test]
fn text_in_pieces_is_logged_whole() {
    let text = "plain \u{e9}\u{20ac}\u{1f600}\u{7ff}\u{800}\u{ffff}\u{10000}\u{10ffff} end";
    for step in 1..7 {
        let mut buffer = Vec::new();
        let mut logged = String::new();
        for piece in text.as_bytes().chunks(step) {
            logged.push_str(&log_utf8_output(&mut buffer, 0, &mut piece.to_vec()).2);
            assert!(buffer.len() <= 3);
        }
        assert_eq!(logged, text);
        assert_eq!(buffer, b"");
    }
}

#[test]
fn sizes_of_windows() {
    assert_eq!(resized_to(120, 40), size(120, 40));
    assert_eq!(resized_to(0, -1), size(1, 1));
    assert_eq!(console_window_size(0, 0, 79, 24), size(80, 25));
    assert_eq!(console_window_size(5, 7, 4, 6), size(0, 0));
    assert_eq!(console_window_size(5, 7, 3, 7), size(65535, 1));
}

#[test]
fn recordings_fit_screens_that_are_large_enough() {
    assert!(fits_screen(size(80, 24), 80, 24));
    assert!(fits_screen(size(81, 25), 80, 24));
    assert!(!fits_screen(size(79, 24), 80, 24));
    assert!(!fits_screen(size(80, 23), 80, 24));
}
