use typing_game::components::{Component, Layout};
use typing_game::display::Display;
use typing_game::game::{Game, TimeMode};
use typing_game::layout::{transform_row, StateMap};
use typing_game::score::{accuracy_text, decimal, wpm_text};
use typing_game::timer::Timer;
use typing_game::words::{Key, WordFeed};

fn state(pairs: &[(&str, &str)]) -> StateMap {
    let mut s = StateMap::new();
    for (k, v) in pairs {
        s.insert(k.to_string(), v.to_string());
    }
    s
}

#[test]
fn score_formatting() {
    assert_eq!(accuracy_text(45, 5), "90.00");
    assert_eq!(wpm_text(225, 30), "90");
    assert_eq!(decimal(30), "30");
}

#[test]
fn score_formatting_edges() {
    assert_eq!(accuracy_text(0, 0), "0.00");
    assert_eq!(accuracy_text(2, 1), "66.67");
    assert_eq!(accuracy_text(7, 0), "100.00");
    assert_eq!(wpm_text(100, 0), "0");
    assert_eq!(wpm_text(1, 8), "2");
    assert_eq!(decimal(0), "0");
    assert_eq!(decimal(1207), "1207");
}

#[test]
fn substitution_fills_known_placeholders() {
    let s = state(&[("time", "30"), ("wpm", "90")]);
    assert_eq!(transform_row("time: {{time}}s speed: {{wpm}}wpm", &s), "time: 30s speed: 90wpm");
    let out = transform_row("{{time}}{{wpm}}", &s);
    assert!(!out.contains("{{"));
    assert_eq!(out, "3090");
}

#[test]
fn substitution_keeps_unknown_placeholders() {
    let s = state(&[("a", "1")]);
    assert_eq!(transform_row("{{b}} {{a}} {{a", &s), "{{b}} 1 {{a");
    assert_eq!(transform_row("", &s), "");
}

#[test]
fn state_map_last_insert_wins() {
    let mut s = state(&[("k", "1"), ("j", "2")]);
    s.insert("k".to_string(), "3".to_string());
    assert_eq!(s.get("k"), Some("3".to_string()));
    assert_eq!(s.get("j"), Some("2".to_string()));
    assert_eq!(s.get("x"), None);
    assert_eq!(s.copy().get("k"), Some("3".to_string()));
}

#[test]
fn component_kinds() {
    assert_eq!(Component::new("words").id(), "words");
    assert_eq!(Component::new("score").id(), "score");
    assert_eq!(Component::new("word").id(), "word");
    assert_eq!(Component::new("other").id(), "word");
    assert_eq!(Component::new("words").size(), (3, 8));
    assert_eq!(Component::new("word").template(), vec!["", "{{word}}", ""]);
    let score = Component::new("score");
    let cols = score.template()[1].len() as u64;
    assert_eq!(score.size(), (3, cols));
}

#[test]
fn component_line_uses_state() {
    let mut c = Component::new("word");
    c.set_state(&state(&[("word", "abc")]));
    assert_eq!(c.line(1), "abc");
    assert_eq!(c.line(0), "");
    assert_eq!(c.line(7), "");
    assert_eq!(c.state().get("word"), Some("abc".to_string()));
}

fn play_layout() -> Layout {
    Layout { layout: vec![vec![Component::new("words")], vec![Component::new("word")]] }
}

#[test]
fn layout_update_and_replace() {
    let mut l = play_layout();
    l.update("word", ("word", "hey"));
    l.update("nothing", ("word", "x"));
    assert_eq!(l.layout[1][0].state().get("word"), Some("hey".to_string()));
    l.replace("words", &state(&[("row1", "r1")]));
    assert_eq!(l.layout[0][0].state().get("row1"), Some("r1".to_string()));
    assert_eq!(l.find("word"), Some((1, 0)));
    assert_eq!(l.find("score"), None);
    assert_eq!(l.get_row_size(0), Some((3, 8)));
    assert_eq!(l.get_row_size(2), None);
    assert!(l.get_row(1).is_some());
}

#[test]
fn display_draws_rows() {
    let mut l = play_layout();
    l.update("words", ("row1", "ab "));
    l.update("words", ("row2", "cd "));
    l.update("word", ("word", "a"));
    let mut d = Display::new();
    let end = "\n\u{1b}[2K\u{1b}[100D";
    let body = format!("{e}ab {e}cd {e}{e}a{e}{e}", e = end);
    assert_eq!(d.render_no_clear(&l, 80), body);
    assert_eq!(d.render(&l, 80), format!("\u{1b}[1J\u{1b}[1;1H{}", body));
    assert_eq!(Display::clear(), "\u{1b}[1J\u{1b}[1;1H");
}

#[test]
fn timer_counts_only_when_running() {
    let mut t = Timer::new(2);
    t.tick();
    assert_eq!(t.passed(), 0);
    assert!(!t.running());
    t.start();
    assert!(t.running());
    let mut last = t.passed();
    for _ in 0..3 {
        t.tick();
        assert!(t.passed() >= last);
        last = t.passed();
    }
    assert_eq!(t.passed(), 3);
    assert!(t.is_limit());
    let mut u = Timer::new(2);
    u.set(10);
    assert!(!u.running());
    assert!(!u.is_limit());
}

#[test]
fn game_session_flow() {
    let feed = WordFeed::new(vec!["cat".to_string()]).unwrap();
    let mut game = Game::new(TimeMode { time: 5 }, feed).unwrap();
    game.apply_mode();
    assert_eq!(game.timer().passed(), 0);
    let first = game.refresh(80);
    assert!(first.starts_with("\u{1b}[1J\u{1b}[1;1H"));
    assert!(!game.timer().running());
    for c in "cat ".chars() {
        assert!(game.process_key(Key::Char(c), 80).is_ok());
    }
    assert!(game.timer().running());
    assert_eq!(game.word_queue().words_count(), (1, 0));
    for _ in 0..30 {
        game.tick();
    }
    assert!(game.timer().is_limit());
    assert!(game.process_key(Key::Ctrl('c'), 80).is_err());
    let score = game.end(80);
    assert!(score.contains("time: 30s   correct: 1  incorrect: 0  accuracy: 100.00%  speed: 1wpm"));
    assert!(!score.contains("{{"));
    let again = game.end_no_clear(80);
    assert!(again.contains("speed: 1wpm"));
}

#[test]
fn game_refuses_feed_with_overlong_word() {
    let long = "x".repeat(60);
    let feed = WordFeed::new(vec![long]).unwrap();
    assert!(Game::new(TimeMode { time: 5 }, feed).is_none());
}
