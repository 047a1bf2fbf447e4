use typing_game::words::{random, Color, Key, LiveWord, WordFeed, WordQueue};

fn feed(words: &[&str]) -> WordFeed {
    WordFeed::new(words.iter().map(|w| w.to_string()).collect()).unwrap()
}

fn queue(words: &[&str]) -> WordQueue {
    let mut q = WordQueue::new(feed(words)).unwrap();
    q.init();
    q
}

fn press(q: &mut WordQueue, keys: &[Key]) {
    for k in keys {
        q.register_key(*k);
    }
}

#[test]
fn exact_match_single_word() {
    let mut q = queue(&["cat"]);
    let before = q.current_index();
    press(&mut q, &[Key::Char('c'), Key::Char('a'), Key::Char('t'), Key::Char(' ')]);
    assert_eq!(q.words_count(), (1, 0));
    assert_eq!(q.correct_stroke_count(), 3);
    assert_eq!(q.current_index(), before + 1);
}

#[test]
fn mistake_single_word() {
    let mut q = queue(&["cat"]);
    press(&mut q, &[Key::Char('c'), Key::Char('x'), Key::Char('t'), Key::Char(' ')]);
    assert_eq!(q.words_count(), (0, 1));
    assert_eq!(q.correct_stroke_count(), 1);
}

#[test]
fn backspace_recovery() {
    let mut q = queue(&["dog"]);
    press(
        &mut q,
        &[Key::Char('d'), Key::Char('x'), Key::Backspace, Key::Char('o'), Key::Char('g'), Key::Char(' ')],
    );
    assert_eq!(q.words_count().0, 1);
    assert_eq!(q.correct_stroke_count(), 3);
}

#[test]
fn leading_space_ignored() {
    let mut q = queue(&["hi"]);
    q.register_key(Key::Char(' '));
    assert_eq!(q.current_index(), 0);
    assert_eq!(q.words_count(), (0, 0));
    press(&mut q, &[Key::Char('h'), Key::Char('i'), Key::Char(' ')]);
    assert_eq!(q.words_count(), (1, 0));
}

#[test]
fn row_flush() {
    let mut q = WordQueue::with_row_budget(feed(&["ab", "cd", "ef"]), 10).unwrap();
    q.init();
    let row0 = q.row_expected(0);
    let row1 = q.row_expected(1);
    assert_eq!(row0.len(), 3);
    assert_eq!(row1.len(), 3);
    for word in &row0 {
        for c in word.chars() {
            q.register_key(Key::Char(c));
        }
        q.register_key(Key::Char(' '));
    }
    assert_eq!(q.current_index(), 0);
    assert_eq!(q.row_expected(0), row1);
    assert_eq!(q.row_expected(1).len(), 3);
    assert_eq!(q.row_expected(2).len(), 0);
    assert_eq!(q.words_count(), (3, 0));
    assert_eq!(q.correct_stroke_count(), 6);
}

#[test]
fn flush_on_last_word_of_row_with_mistakes() {
    let mut q = WordQueue::with_row_budget(feed(&["ab"]), 10).unwrap();
    q.init();
    let row1 = q.row_expected(1);
    for _ in 0..3 {
        q.register_key(Key::Char('a'));
        q.register_key(Key::Char('z'));
        q.register_key(Key::Char(' '));
    }
    assert_eq!(q.current_index(), 0);
    assert_eq!(q.row_expected(0), row1);
    assert_eq!(q.words_count(), (0, 3));
    assert_eq!(q.correct_stroke_count(), 3);
}

#[test]
fn rows_stay_within_budget() {
    let mut q = WordQueue::with_row_budget(feed(&["a", "bbb", "cccccc"]), 12).unwrap();
    q.init();
    for _ in 0..20 {
        for r in 0..2 {
            let row = q.row_expected(r);
            assert!(!row.is_empty());
            let total: usize = row.iter().map(|w| w.len() + 1).sum();
            assert!(total <= 12);
        }
        let current = q.row_expected(0)[q.current_index()].clone();
        for c in current.chars() {
            q.register_key(Key::Char(c));
        }
        q.register_key(Key::Char(' '));
        assert!(q.current_index() < q.row_expected(0).len());
    }
}

#[test]
fn word_too_long_for_row_is_refused() {
    assert!(WordQueue::with_row_budget(feed(&["abcdefghij"]), 10).is_none());
    assert!(WordQueue::with_row_budget(feed(&["abcdefghi"]), 10).is_some());
}

#[test]
fn counters_never_decrease() {
    let mut q = queue(&["to", "be"]);
    let keys = [
        Key::Char('t'),
        Key::Char(' '),
        Key::Backspace,
        Key::Char('b'),
        Key::Char('e'),
        Key::Char(' '),
        Key::Other,
        Key::Ctrl('x'),
        Key::Char(' '),
    ];
    let mut last = (q.words_count(), q.correct_stroke_count());
    for k in keys {
        q.register_key(k);
        let now = (q.words_count(), q.correct_stroke_count());
        assert!(now.0 .0 >= last.0 .0 && now.0 .1 >= last.0 .1 && now.1 >= last.1);
        last = now;
    }
}

#[test]
fn other_keys_change_nothing() {
    let mut q = queue(&["cat"]);
    q.register_key(Key::Char('c'));
    let before = q.get_parsed();
    q.register_key(Key::Other);
    q.register_key(Key::Ctrl('a'));
    assert_eq!(q.get_parsed(), before);
    assert_eq!(q.get_current_word_ref().actual(), "c");
}

#[test]
fn rendered_rows_are_stable() {
    let mut q = queue(&["cat"]);
    q.register_key(Key::Char('c'));
    assert_eq!(q.get_parsed(), q.get_parsed());
}

#[test]
fn rendered_rows_color_around_cursor() {
    let mut q = WordQueue::with_row_budget(feed(&["ab"]), 10).unwrap();
    q.init();
    press(&mut q, &[Key::Char('a'), Key::Char('b'), Key::Char(' '), Key::Char('a')]);
    let rows = q.get_parsed();
    assert_eq!(
        rows[0],
        "\u{1b}[32mab\u{1b}[0m \u{1b}[32ma\u{1b}[0mb\u{1b}[0m ab "
    );
    assert_eq!(rows[1], "ab ab ab ");
}

#[test]
fn live_word_matched_flag_follows_input() {
    let mut w = LiveWord::new("hi".to_string());
    assert!(!w.is_correct());
    assert!(!w.push_char('h'));
    assert!(w.push_char('i'));
    assert!(w.is_correct());
    assert!(!w.push_char('!'));
    assert!(w.pop_char());
    assert!(!w.pop_char());
    assert!(!w.pop_char());
    assert!(!w.pop_char());
    assert_eq!(w.actual(), "");
    assert_eq!(w.expected(), "hi");
}

#[test]
fn empty_expected_matches_empty_input() {
    let w = LiveWord::new(String::new());
    assert!(w.is_correct());
}

#[test]
fn stroke_count_is_common_prefix() {
    let mut w = LiveWord::new("cat".to_string());
    assert_eq!(w.correct_stroke_count(), 0);
    for c in "caterpillar".chars() {
        w.push_char(c);
    }
    assert_eq!(w.correct_stroke_count(), 3);
    let mut v = LiveWord::new("cat".to_string());
    v.push_char('c');
    v.push_char('x');
    v.push_char('t');
    assert_eq!(v.correct_stroke_count(), 1);
}

#[test]
fn final_coloring() {
    let mut w = LiveWord::new("cat".to_string());
    assert_eq!(w.to_color_string_outcome(), "\u{1b}[31mcat\u{1b}[0m");
    for c in "cat".chars() {
        w.push_char(c);
    }
    assert_eq!(w.to_color_string_outcome(), "\u{1b}[32mcat\u{1b}[0m");
}

#[test]
fn active_coloring() {
    let mut w = LiveWord::new("cat".to_string());
    assert_eq!(w.to_color_string_outcome_detail(), "\u{1b}[32m\u{1b}[0mcat\u{1b}[0m");
    w.push_char('c');
    w.push_char('a');
    assert_eq!(w.to_color_string_outcome_detail(), "\u{1b}[32mca\u{1b}[0mt\u{1b}[0m");
    w.pop_char();
    w.push_char('x');
    w.push_char('t');
    assert_eq!(
        w.to_color_string_outcome_detail(),
        "\u{1b}[32mc\u{1b}[31ma\u{1b}[0mt\u{1b}[0m"
    );
    w.push_char('s');
    assert_eq!(
        w.to_color_string_outcome_detail(),
        "\u{1b}[32mc\u{1b}[31ma\u{1b}[0mt\u{1b}[0m"
    );
}

#[test]
fn color_values() {
    assert_eq!(Color::Reset.value(), "\u{1b}[0m");
    assert_eq!(Color::Green.value(), "\u{1b}[32m");
    assert_eq!(Color::Red.value(), "\u{1b}[31m");
    assert_eq!(Color::Yellow.value(), "\u{1b}[33m");
    assert_eq!(Color::White.value(), "\u{1b}[37m");
}

#[test]
fn feed_skips_empty_words() {
    assert!(WordFeed::new(vec![]).is_none());
    assert!(WordFeed::new(vec![String::new()]).is_none());
    let f = WordFeed::new(vec![String::new(), "x".to_string()]).unwrap();
    for _ in 0..20 {
        assert_eq!(f.get_random().expected(), "x");
    }
}

#[test]
fn random_stays_in_range() {
    for _ in 0..100 {
        let r = random(3..7);
        assert!((3..7).contains(&r));
    }
    assert_eq!(random(5..6), 5);
}
