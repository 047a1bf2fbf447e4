//! One typing session: the queue, the screen layout, its display and the
//! clock, driven one key press at a time.

use vstd::prelude::*;
use vstd::string::StringExecFns;
use crate::components::{Component, Layout, is_first, changed_only_at};
use crate::display::{Display, clear_text, frame};
use crate::layout::{StateMap, lookup};
use crate::score::{accuracy_spec, accuracy_text, dec, decimal, wpm_text, wpm_value};
use crate::timer::Timer;
use crate::words::{Key, WordFeed, WordQueue, colored_row, feed_fits, plain_row, row_fresh};

verus! {

/// How a session ends.
pub trait Mode {}

/// A session that ends after a number of seconds.
pub struct TimeMode {
    pub time: u32,
}

impl Mode for TimeMode {}

/// Rows of the play screen: the two word rows above the word being typed.
pub open spec fn play_shape(l: Seq<Seq<Component>>) -> bool {
    &&& l.len() == 2
    &&& l[0].len() == 1
    &&& l[1].len() == 1
    &&& l[0][0].id_spec() == "words"@
    &&& l[1][0].id_spec() == "word"@
}

proof fn lemma_play_kept(before: Seq<Seq<Component>>, after: Seq<Seq<Component>>, id: Seq<char>, r: int, c: int)
    requires
        play_shape(before),
        is_first(before, id, r, c),
        changed_only_at(before, after, r, c),
        id == "words"@ || id == "word"@,
    ensures
        play_shape(after),
        id == "words"@ ==> r == 0 && c == 0 && after[1][0] == before[1][0],
        id == "word"@ ==> r == 1 && c == 0 && after[0][0] == before[0][0],
{
    lemma_first_in_play(before, id, r, c);
    assert(after[0].len() == before[0].len());
    assert(after[1].len() == before[1].len());
    if id == "words"@ {
        assert(after[1][0] == before[1][0]);
    } else {
        assert(after[0][0] == before[0][0]);
    }
}

proof fn lemma_first_in_play(l: Seq<Seq<Component>>, id: Seq<char>, r: int, c: int)
    requires
        play_shape(l),
        is_first(l, id, r, c),
    ensures
        id == "words"@ ==> r == 0 && c == 0,
        id == "word"@ ==> r == 1 && c == 0,
{
    reveal_strlit("words");
    reveal_strlit("word");
    assert(l[r][c].id_spec() == id);
    if r == 1 {
        assert("word"@ != "words"@) by {
            assert("word"@.len() != "words"@.len());
        }
    }
}

proof fn lemma_play_first(l: Seq<Seq<Component>>)
    requires
        play_shape(l),
    ensures
        is_first(l, "words"@, 0, 0),
        is_first(l, "word"@, 1, 0),
{
    reveal_strlit("words");
    reveal_strlit("word");
    assert("word"@ != "words"@) by {
        assert("word"@.len() != "words"@.len());
    }
}

proof fn lemma_play_wf(l: Layout)
    requires
        play_shape(l.grid()),
    ensures
        l.wf(),
{
    assert forall|r: int| 0 <= r < l.grid().len() implies (#[trigger] l.grid()[r]).len() <= 65535 by {
        if r == 0 {
        } else {
            assert(r == 1);
        }
    }
}

/// A typing session.
pub struct Game<M: Mode> {
    mode: M,
    word_queue: WordQueue,
    layout: Layout,
    display: Display,
    timer: Timer,
}

impl<M: Mode> Game<M> {
    pub closed spec fn queue(&self) -> WordQueue {
        self.word_queue
    }

    pub closed spec fn screen(&self) -> Layout {
        self.layout
    }

    pub closed spec fn clock(&self) -> Timer {
        self.timer
    }

    pub closed spec fn session_mode(&self) -> M {
        self.mode
    }

    pub closed spec fn screen_display(&self) -> Display {
        self.display
    }

    /// A session just built from `mode` and `feed`: the mode kept, both rows
    /// fresh with the cursor at the start and no tallies, rows of 60
    /// characters over `feed`, the play screen with empty states, the display
    /// not yet measured, and a stopped 60-second clock at zero.
    pub open spec fn fresh_for(&self, mode: M, feed: WordFeed) -> bool {
        let q = self.queue();
        let g = self.screen().grid();
        &&& self.wf()
        &&& self.session_mode() == mode
        &&& q.source() == feed
        &&& q.budget() == 60
        &&& q.cursor() == 0
        &&& row_fresh(q.row(0)) && row_fresh(q.row(1))
        &&& q.correct_words() == 0 && q.incorrect_words() == 0 && q.correct_strokes() == 0
        &&& g[0][0].state_spec().len() == 0
        &&& g[1][0].state_spec().len() == 0
        &&& !self.screen_display().measured()
        &&& !self.clock().is_running()
        &&& self.clock().elapsed() == 0
        &&& self.clock().limit_secs() == 60
    }

    pub open spec fn wf(&self) -> bool {
        &&& self.queue().wf()
        &&& play_shape(self.screen().grid())
        &&& self.screen().wf()
    }

    /// The play screen shows the queue: both rows and what has been typed
    /// of the current word.
    pub open spec fn shows_queue(&self) -> bool {
        let g = self.screen().grid();
        let q = self.queue();
        &&& lookup(g[0][0].state_spec(), "row1"@) == Some(colored_row(q.row(0), q.cursor(), q.row(0).len() as int))
        &&& lookup(g[0][0].state_spec(), "row2"@) == Some(plain_row(q.row(1), q.row(1).len() as int))
        &&& lookup(g[1][0].state_spec(), "word"@) == Some(q.current().act())
    }

    /// A session over words of `feed`, with a 60-second clock; `None` when a
    /// word of the feed does not fit in a row.
    pub fn new(mode: M, feed: WordFeed) -> (r: Option<Self>)
        requires
            feed.wf(),
        ensures
            r is Some <==> feed_fits(feed, 60),
            r is Some ==> r->Some_0.fresh_for(mode, feed),
    {
        new_game(mode, feed)
    }

    /// Puts the queue's rows and the current input into the layout.
    pub fn update_layout(&mut self)
        requires
            old(self).wf(),
        ensures
            final(self).wf(),
            final(self).shows_queue(),
            final(self).queue() == old(self).queue(),
            final(self).clock() == old(self).clock(),
            forall|k: Seq<char>|
                k != "row1"@ && k != "row2"@ ==> #[trigger] lookup(final(self).screen().grid()[0][0].state_spec(), k)
                    == lookup(old(self).screen().grid()[0][0].state_spec(), k),
            forall|k: Seq<char>|
                k != "word"@ ==> #[trigger] lookup(final(self).screen().grid()[1][0].state_spec(), k)
                    == lookup(old(self).screen().grid()[1][0].state_spec(), k),
    {
        let rows = self.word_queue.get_parsed();
        let current = self.word_queue.get_current_word_ref().actual();
        proof {
            reveal_strlit("words");
            reveal_strlit("word");
            reveal_strlit("row1");
            reveal_strlit("row2");
            lemma_play_first(self.layout.grid());
        }
        let ghost g0 = self.layout.grid();
        self.layout.update("words", ("row1", rows[0].as_str()));
        proof {
            let (r, c) = choose|r: int, c: int| #[trigger] is_first(g0, "words"@, r, c)
                && changed_only_at(g0, self.layout.grid(), r, c) && lookup(self.layout.grid()[r][c].state_spec(), "row1"@)
                == Some(rows@[0]@) && forall|k: Seq<char>| k != "row1"@ ==> #[trigger] lookup(self.layout.grid()[r][c].state_spec(), k)
                    == lookup(g0[r][c].state_spec(), k);
            lemma_play_kept(g0, self.layout.grid(), "words"@, r, c);
            lemma_play_first(self.layout.grid());
        }
        let ghost g1 = self.layout.grid();
        self.layout.update("words", ("row2", rows[1].as_str()));
        proof {
            let (r, c) = choose|r: int, c: int| #[trigger] is_first(g1, "words"@, r, c)
                && changed_only_at(g1, self.layout.grid(), r, c) && lookup(self.layout.grid()[r][c].state_spec(), "row2"@)
                == Some(rows@[1]@) && forall|k: Seq<char>| k != "row2"@ ==> #[trigger] lookup(self.layout.grid()[r][c].state_spec(), k)
                    == lookup(g1[r][c].state_spec(), k);
            lemma_play_kept(g1, self.layout.grid(), "words"@, r, c);
            assert("row1"@ != "row2"@) by {
                assert("row1"@[3] != "row2"@[3]);
            }
            assert(lookup(self.layout.grid()[0][0].state_spec(), "row1"@) == lookup(g1[0][0].state_spec(), "row1"@));
            lemma_play_first(self.layout.grid());
        }
        let ghost g2 = self.layout.grid();
        self.layout.update("word", ("word", current.as_str()));
        proof {
            let (r, c) = choose|r: int, c: int| #[trigger] is_first(g2, "word"@, r, c)
                && changed_only_at(g2, self.layout.grid(), r, c) && lookup(self.layout.grid()[r][c].state_spec(), "word"@)
                == Some(current@) && forall|k: Seq<char>| k != "word"@ ==> #[trigger] lookup(self.layout.grid()[r][c].state_spec(), k)
                    == lookup(g2[r][c].state_spec(), k);
            lemma_play_kept(g2, self.layout.grid(), "word"@, r, c);
            lemma_play_wf(self.layout);
            assert(g2[1][0] == g0[1][0]);
            assert forall|k: Seq<char>| k != "row1"@ && k != "row2"@ implies #[trigger] lookup(self.layout.grid()[0][0].state_spec(), k)
                == lookup(g0[0][0].state_spec(), k) by {
                assert(lookup(g2[0][0].state_spec(), k) == lookup(g1[0][0].state_spec(), k));
                assert(lookup(g1[0][0].state_spec(), k) == lookup(g0[0][0].state_spec(), k));
            }
        }
    }

    /// Handles one key press. Ctrl-C ends the session (`Err`); any other key
    /// starts the clock if needed, goes to the queue, and the repainted
    /// screen is returned.
    pub fn process_key(&mut self, key: Key, term_cols: u16) -> (r: Result<String, ()>)
        requires
            old(self).wf(),
        ensures
            final(self).wf(),
            key == Key::Ctrl('c') ==> r is Err && *final(self) == *old(self),
            key != Key::Ctrl('c') ==> {
                &&& r is Ok
                &&& WordQueue::key_step(old(self).queue(), final(self).queue(), key)
                &&& final(self).clock().is_running()
                &&& final(self).clock().elapsed() == old(self).clock().elapsed()
                &&& final(self).clock().limit_secs() == old(self).clock().limit_secs()
                &&& final(self).shows_queue()
                &&& r->Ok_0@ == clear_text() + frame(final(self).screen().grid(), 2)
            },
    {
        if let Key::Ctrl(c) = key {
            if c == 'c' {
                return Err(());
            }
        }
        if !self.timer.running() {
            self.timer.start();
        }
        self.word_queue.register_key(key);
        self.update_layout();
        Ok(self.display.render(&self.layout, term_cols))
    }

    /// Repaints the screen with the current state of the queue.
    pub fn refresh(&mut self, term_cols: u16) -> (r: String)
        requires
            old(self).wf(),
        ensures
            final(self).wf(),
            final(self).shows_queue(),
            final(self).queue() == old(self).queue(),
            final(self).clock() == old(self).clock(),
            r@ == clear_text() + frame(final(self).screen().grid(), 2),
    {
        self.update_layout();
        self.display.render(&self.layout, term_cols)
    }

    /// One second of play has passed.
    pub fn tick(&mut self)
        requires
            old(self).wf(),
        ensures
            final(self).wf(),
            Timer::ticked(old(self).clock(), final(self).clock()),
            final(self).queue() == old(self).queue(),
    {
        self.timer.tick();
    }

    pub fn timer(&self) -> (r: &Timer)
        ensures
            *r == self.clock(),
    {
        &self.timer
    }

    pub fn word_queue(&self) -> (r: &WordQueue)
        ensures
            *r == self.queue(),
    {
        &self.word_queue
    }

    /// The closing screen, drawn after clearing.
    pub fn end(&mut self, term_cols: u16) -> (r: String)
        ensures
            exists|l: Seq<Seq<Component>>|
                is_score_layout(l, old(self).queue(), old(self).clock()) && r@ == clear_text() + frame(l, 1),
    {
        let score_layout = build_score_layout(self);
        self.display.render(&score_layout, term_cols)
    }

    /// The closing screen, drawn below what the terminal shows.
    pub fn end_no_clear(&mut self, term_cols: u16) -> (r: String)
        ensures
            exists|l: Seq<Seq<Component>>|
                is_score_layout(l, old(self).queue(), old(self).clock()) && r@ == frame(l, 1),
    {
        let score_layout = build_score_layout(self);
        self.display.render_no_clear(&score_layout, term_cols)
    }
}

impl Game<TimeMode> {
    /// Sets the clock to the mode's limit.
    pub fn apply_mode(&mut self)
        requires
            !old(self).clock().is_running(),
        ensures
            final(self).clock().limit_secs() == old(self).session_mode().time,
            final(self).clock().elapsed() == old(self).clock().elapsed(),
            final(self).clock().is_running() == old(self).clock().is_running(),
            final(self).queue() == old(self).queue(),
            final(self).screen() == old(self).screen(),
    {
        self.timer.set(self.mode.time);
    }
}

/// The score screen holds one component whose state has each figure under its
/// placeholder name.
pub open spec fn score_state_ok(st: Seq<(Seq<char>, Seq<char>)>, q: WordQueue, t: Timer) -> bool {
    &&& lookup(st, "correct"@) == Some(dec(q.correct_words() as nat))
    &&& lookup(st, "incorrect"@) == Some(dec(q.incorrect_words() as nat))
    &&& lookup(st, "accuracy"@) == Some(accuracy_spec(q.correct_words() as nat, q.incorrect_words() as nat))
    &&& lookup(st, "wpm"@) == Some(dec(wpm_value(q.correct_strokes() as nat, t.elapsed() as nat)))
    &&& lookup(st, "time"@) == Some(dec(t.elapsed() as nat))
}

/// `l` is a score screen for the queue's tallies and the clock.
pub open spec fn is_score_layout(l: Seq<Seq<Component>>, q: WordQueue, t: Timer) -> bool {
    &&& l.len() == 1
    &&& l[0].len() == 1
    &&& l[0][0].id_spec() == "score"@
    &&& score_state_ok(l[0][0].state_spec(), q, t)
}

/// The score screen: one `score` component filled with the session's figures.
fn build_score_layout<M: Mode>(game: &Game<M>) -> (r: Layout)
    ensures
        r.wf(),
        is_score_layout(r.grid(), game.queue(), game.clock()),
{
    let score = Component::new("score");
    let mut score_state = StateMap::new();
    let (correct, incorrect) = game.word_queue.words_count();
    let correct_stroke_count = game.word_queue.correct_stroke_count();
    let passed = game.timer.passed();
    let mut row: Vec<Component> = Vec::new();
    row.push(score);
    let mut raw_score_layout: Vec<Vec<Component>> = Vec::new();
    raw_score_layout.push(row);
    let mut score_layout = Layout { layout: raw_score_layout };
    let accuracy = accuracy_text(correct, incorrect);
    let wpm = wpm_text(correct_stroke_count, passed);
    proof {
        reveal_strlit("correct");
        reveal_strlit("incorrect");
        reveal_strlit("accuracy");
        reveal_strlit("wpm");
        reveal_strlit("time");
        reveal_strlit("score");
        assert("correct"@.len() == 7 && "incorrect"@.len() == 9 && "accuracy"@.len() == 8);
        assert("wpm"@.len() == 3 && "time"@.len() == 4);
    }
    let correct_text = decimal(correct as u64);
    score_state.insert(String::from_str("correct"), correct_text);
    let incorrect_text = decimal(incorrect as u64);
    let ghost s1 = score_state;
    score_state.insert(String::from_str("incorrect"), incorrect_text);
    let ghost s2 = score_state;
    score_state.insert(String::from_str("accuracy"), accuracy);
    let ghost s3 = score_state;
    score_state.insert(String::from_str("wpm"), wpm);
    let ghost s4 = score_state;
    let time_text = decimal(passed as u64);
    score_state.insert(String::from_str("time"), time_text);
    proof {
        assert(score_state.get_spec("wpm"@) == s4.get_spec("wpm"@));
        assert(score_state.get_spec("accuracy"@) == s3.get_spec("accuracy"@));
        assert(s4.get_spec("accuracy"@) == s3.get_spec("accuracy"@));
        assert(score_state.get_spec("incorrect"@) == s2.get_spec("incorrect"@));
        assert(s4.get_spec("incorrect"@) == s2.get_spec("incorrect"@));
        assert(s3.get_spec("incorrect"@) == s2.get_spec("incorrect"@));
        assert(score_state.get_spec("correct"@) == s1.get_spec("correct"@));
        assert(s4.get_spec("correct"@) == s1.get_spec("correct"@));
        assert(s3.get_spec("correct"@) == s1.get_spec("correct"@));
        assert(s2.get_spec("correct"@) == s1.get_spec("correct"@));
        assert(score_layout.grid()[0][0] == score);
        assert(is_first(score_layout.grid(), "score"@, 0, 0));
        assert(score_state_ok(score_state.pairs(), game.queue(), game.clock()));
    }
    let ghost before = score_layout.grid();
    score_layout.replace("score", &score_state);
    proof {
        let (r, c) = choose|r: int, c: int| #[trigger] is_first(before, "score"@, r, c)
            && changed_only_at(before, score_layout.grid(), r, c);
        assert(r == 0 && c == 0);
        assert(score_layout.grid()[0][0].id_spec() == "score"@);
        assert(score_layout.grid()[0][0].state_spec() == score_state.pairs());
    }
    score_layout
}

fn new_game<M: Mode>(mode: M, feed: WordFeed) -> (r: Option<Game<M>>)
    requires
        feed.wf(),
    ensures
        r is Some <==> feed_fits(feed, 60),
        r is Some ==> r->Some_0.fresh_for(mode, feed),
{
    let mut word_queue = match WordQueue::new(feed) {
        Some(q) => q,
        None => return None,
    };
    let display = Display::new();
    let mut top: Vec<Component> = Vec::new();
    top.push(Component::new("words"));
    let mut bottom: Vec<Component> = Vec::new();
    bottom.push(Component::new("word"));
    let mut rows: Vec<Vec<Component>> = Vec::new();
    rows.push(top);
    rows.push(bottom);
    let layout = Layout { layout: rows };
    let timer = Timer::new(60);
    word_queue.init();
    proof {
        reveal_strlit("words");
        reveal_strlit("word");
        reveal_strlit("score");
        assert(layout.grid()[0] == top@);
        assert(layout.grid()[1] == bottom@);
        assert("words"@ != "score"@) by {
            assert("words"@[1] != "score"@[1]);
        }
        assert("word"@ != "score"@) by {
            assert("word"@[1] != "score"@[1]);
        }
        assert("word"@ != "words"@) by {
            assert("word"@.len() != "words"@.len());
        }
        assert(play_shape(layout.grid()));
        lemma_play_wf(layout);
    }
    Some(Game { mode, word_queue, layout, display, timer })
}

} // verus!
