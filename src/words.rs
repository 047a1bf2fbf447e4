//! Words to type: the live word under input, the feed that supplies words and
//! the two-row queue that the player works through.

use vstd::prelude::*;
use vstd::string::StringExecFns;
use vstd::string::StrSliceExecFns;
use std::ops::Range;

verus! {

/// Foreground colours used to paint typed words.
pub enum Color {
    Reset,
    Green,
    Red,
    Yellow,
    White,
}

pub open spec fn reset_code() -> Seq<char> {
    "\u{001b}[0m"@
}

pub open spec fn green_code() -> Seq<char> {
    "\u{001b}[32m"@
}

pub open spec fn red_code() -> Seq<char> {
    "\u{001b}[31m"@
}

pub open spec fn color_code(c: Color) -> Seq<char> {
    match c {
        Color::Reset => reset_code(),
        Color::Green => green_code(),
        Color::Red => red_code(),
        Color::Yellow => "\u{001b}[33m"@,
        Color::White => "\u{001b}[37m"@,
    }
}

impl Color {
    /// The ANSI escape sequence that selects this colour.
    pub fn value(&self) -> (r: &'static str)
        ensures
            r@ == color_code(*self),
    {
        match self {
            Color::Reset => "\u{001b}[0m",
            Color::Green => "\u{001b}[32m",
            Color::Red => "\u{001b}[31m",
            Color::Yellow => "\u{001b}[33m",
            Color::White => "\u{001b}[37m",
        }
    }
}

/// Length of the longest common prefix of `a` and `b`.
pub open spec fn lcp(a: Seq<char>, b: Seq<char>) -> nat
    decreases a.len(),
{
    if a.len() == 0 || b.len() == 0 || a[0] != b[0] {
        0
    } else {
        1 + lcp(a.drop_first(), b.drop_first())
    }
}

/// `n` characters agree at the front of both sequences, and no more do.
pub open spec fn is_common_prefix_len(a: Seq<char>, b: Seq<char>, n: nat) -> bool {
    &&& n <= a.len()
    &&& n <= b.len()
    &&& forall|j: int| 0 <= j < n ==> a[j] == b[j]
    &&& (n == a.len() || n == b.len() || a[n as int] != b[n as int])
}

/// `lcp` is exactly the longest common prefix, so it never exceeds either length.
pub proof fn lemma_lcp(a: Seq<char>, b: Seq<char>)
    ensures
        is_common_prefix_len(a, b, lcp(a, b)),
    decreases a.len(),
{
    if !(a.len() == 0 || b.len() == 0 || a[0] != b[0]) {
        lemma_lcp(a.drop_first(), b.drop_first());
        let n = lcp(a, b);
        assert forall|j: int| 0 <= j < n implies a[j] == b[j] by {
            if j > 0 {
                assert(a.drop_first()[j - 1] == b.drop_first()[j - 1]);
            }
        }
    }
}

proof fn lemma_lcp_skip(a: Seq<char>, b: Seq<char>, i: int)
    requires
        0 <= i < a.len(),
        i < b.len(),
        a[i] == b[i],
    ensures
        lcp(a.skip(i), b.skip(i)) == 1 + lcp(a.skip(i + 1), b.skip(i + 1)),
{
    assert(a.skip(i).drop_first() =~= a.skip(i + 1));
    assert(b.skip(i).drop_first() =~= b.skip(i + 1));
}

/// What the active word looks like from position `i` of `e` on, while
/// the green run that covers the correct prefix is still open.
pub open spec fn active_tail(e: Seq<char>, a: Seq<char>, i: int) -> Seq<char>
    decreases e.len() - i,
{
    if i < 0 || i >= e.len() {
        Seq::empty()
    } else if i < a.len() {
        if e[i] == a[i] {
            seq![e[i]] + active_tail(e, a, i + 1)
        } else {
            red_code() + seq![e[i]] + reset_code() + e.subrange(i + 1, e.len() as int)
        }
    } else {
        reset_code() + e.subrange(i, e.len() as int)
    }
}

/// The word at the cursor: the correct prefix in green, the first wrong
/// position in red, the rest plain.
pub open spec fn active_text(e: Seq<char>, a: Seq<char>) -> Seq<char> {
    green_code() + active_tail(e, a, 0) + reset_code()
}

/// A word the cursor has passed: green when typed exactly, red otherwise.
pub open spec fn final_text(e: Seq<char>, matched: bool) -> Seq<char> {
    (if matched { green_code() } else { red_code() }) + e + reset_code()
}

/// Appends `c` to `s`.
/// Relies on std's `String::push`, which appends one character at the end.
#[verifier::external_body]
pub(crate) fn push_char_to(s: &mut String, c: char)
    ensures
        final(s)@ == old(s)@.push(c),
{
    s.push(c);
}

/// A word to type together with what has been typed for it so far.
pub struct LiveWord {
    expected: String,
    actual: String,
    matched: bool,
}

impl LiveWord {
    /// The word to type.
    pub closed spec fn exp(&self) -> Seq<char> {
        self.expected@
    }

    /// What has been typed for it.
    pub closed spec fn act(&self) -> Seq<char> {
        self.actual@
    }

    /// The stored match flag.
    pub closed spec fn matched_flag(&self) -> bool {
        self.matched
    }

    /// The match flag agrees with the two texts.
    pub open spec fn wf(&self) -> bool {
        self.matched_flag() == (self.act() == self.exp())
    }

    pub fn new(expected: String) -> (r: Self)
        ensures
            r.wf(),
            r.exp() == expected@,
            r.act() == Seq::<char>::empty(),
    {
        let actual = String::new();
        let matched = expected == actual;
        LiveWord { expected, actual, matched }
    }

    pub fn expected(&self) -> (r: String)
        ensures
            r@ == self.exp(),
    {
        self.expected.clone()
    }

    pub fn actual(&self) -> (r: String)
        ensures
            r@ == self.act(),
    {
        self.actual.clone()
    }

    /// Appends a typed character; returns whether the word now matches.
    pub fn push_char(&mut self, c: char) -> (r: bool)
        ensures
            final(self).wf(),
            final(self).exp() == old(self).exp(),
            final(self).act() == old(self).act().push(c),
            r == (final(self).act() == final(self).exp()),
    {
        push_char_to(&mut self.actual, c);
        self.matched = self.expected == self.actual;
        self.matched
    }

    /// Removes the last typed character, if any; returns whether the word now matches.
    pub fn pop_char(&mut self) -> (r: bool)
        ensures
            final(self).wf(),
            final(self).exp() == old(self).exp(),
            final(self).act() == (if old(self).act().len() == 0 {
                old(self).act()
            } else {
                old(self).act().drop_last()
            }),
            r == (final(self).act() == final(self).exp()),
    {
        let n = self.actual.as_str().unicode_len();
        if n > 0 {
            let kept = String::from_str(self.actual.as_str().substring_char(0, n - 1));
            self.actual = kept;
        }
        self.matched = self.expected == self.actual;
        self.matched
    }

    /// Number of characters typed correctly before the first divergence.
    pub fn correct_stroke_count(&self) -> (r: u16)
        requires
            self.exp().len() <= u16::MAX,
        ensures
            r == lcp(self.act(), self.exp()),
            is_common_prefix_len(self.act(), self.exp(), r as nat),
            r <= self.act().len(),
            r <= self.exp().len(),
    {
        let a = self.actual.as_str();
        let e = self.expected.as_str();
        let na = a.unicode_len();
        let ne = e.unicode_len();
        let mut i: usize = 0;
        proof {
            assert(self.act().skip(0) =~= self.act());
            assert(self.exp().skip(0) =~= self.exp());
        }
        while i < na && i < ne && a.get_char(i) == e.get_char(i)
            invariant
                i <= na,
                i <= ne,
                na == a@.len(),
                ne == e@.len(),
                a@ == self.act(),
                e@ == self.exp(),
                ne <= u16::MAX,
                lcp(a@, e@) == i + lcp(a@.skip(i as int), e@.skip(i as int)),
            decreases ne - i,
        {
            proof {
                lemma_lcp_skip(a@, e@, i as int);
            }
            i = i + 1;
        }
        proof {
            lemma_lcp(a@, e@);
        }
        i as u16
    }

    pub fn is_correct(&self) -> (r: bool)
        ensures
            r == self.matched_flag(),
    {
        self.matched
    }

    /// The colored form of a word the cursor has passed.
    pub fn to_color_string_outcome(&self) -> (r: String)
        ensures
            r@ == final_text(self.exp(), self.matched_flag()),
    {
        let color = if self.is_correct() {
            Color::Green.value()
        } else {
            Color::Red.value()
        };
        let mut out = String::from_str(color);
        out.append(self.expected.as_str());
        out.append(Color::Reset.value());
        out
    }

    /// The colored form of the word at the cursor.
    pub fn to_color_string_outcome_detail(&self) -> (r: String)
        ensures
            r@ == active_text(self.exp(), self.act()),
    {
        get_color_string_outcome_detail(&self.expected, &self.actual, (Color::Green.value(), Color::Red.value(), Color::Reset.value()))
    }
}

/// Paints `expected` against `actual`: the agreeing prefix in the first colour,
/// the first disagreeing expected character in the second, the rest plain,
/// each coloured run closed by the third.
fn get_color_string_outcome_detail(
    expected: &String,
    actual: &String,
    colors: (&str, &str, &str),
) -> (r: String)
    requires
        colors.0@ == green_code(),
        colors.1@ == red_code(),
        colors.2@ == reset_code(),
    ensures
        r@ == active_text(expected@, actual@),
{
    let (green, red, reset) = colors;
    let e = expected.as_str();
    let a = actual.as_str();
    let ne = e.unicode_len();
    let na = a.unicode_len();
    let mut buffer = String::from_str(green);
    let mut i: usize = 0;
    while i < ne
        invariant
            ne == e@.len(),
            na == a@.len(),
            e@ == expected@,
            a@ == actual@,
            green@ == green_code(),
            red@ == red_code(),
            reset@ == reset_code(),
            i <= ne,
            green_code() + active_tail(e@, a@, 0) == buffer@ + active_tail(e@, a@, i as int),
        decreases ne - i,
    {
        if i < na {
            let ec = e.get_char(i);
            if ec == a.get_char(i) {
                buffer.append(e.substring_char(i, i + 1));
                proof {
                    assert(e@.subrange(i as int, i + 1) =~= seq![ec]);
                    assert(buffer@ + active_tail(e@, a@, i + 1) =~= (buffer@.subrange(0, buffer@.len() - 1)) + active_tail(e@, a@, i as int));
                }
                i = i + 1;
            } else {
                let old_buffer = Ghost(buffer@);
                buffer.append(red);
                buffer.append(e.substring_char(i, i + 1));
                buffer.append(reset);
                buffer.append(e.substring_char(i + 1, ne));
                proof {
                    assert(e@.subrange(i as int, i + 1) =~= seq![ec]);
                    assert(buffer@ =~= old_buffer@ + active_tail(e@, a@, i as int));
                    assert(active_tail(e@, a@, ne as int) =~= Seq::<char>::empty());
                    assert(buffer@ + active_tail(e@, a@, ne as int) =~= buffer@);
                }
                i = ne;
            }
        } else {
            let old_buffer = Ghost(buffer@);
            buffer.append(reset);
            buffer.append(e.substring_char(i, ne));
            proof {
                assert(buffer@ =~= old_buffer@ + active_tail(e@, a@, i as int));
                assert(buffer@ + active_tail(e@, a@, ne as int) =~= buffer@);
            }
            i = ne;
        }
    }
    proof {
        assert(buffer@ + active_tail(e@, a@, i as int) =~= buffer@);
    }
    buffer.append(reset);
    buffer
}


/// Draws a number uniformly from `range`.
/// Relies on rand's `Rng::gen_range` on the thread-local generator, which
/// returns a value in `start..end` and panics on an empty range.
#[verifier::external_body]
pub fn random(range: Range<u32>) -> (r: u32)
    requires
        range.start < range.end,
    ensures
        range.start <= r < range.end,
{
    rand::Rng::gen_range(&mut rand::thread_rng(), range)
}

/// Supplies words drawn at random from a fixed list.
pub struct WordFeed {
    words: Vec<String>,
}

impl WordFeed {
    /// The words the feed draws from.
    pub closed spec fn word_list(&self) -> Seq<Seq<char>> {
        self.words@.map_values(|w: String| w@)
    }

    /// The list is non-empty, indexable by `u32`, and holds no empty word.
    pub open spec fn wf(&self) -> bool {
        &&& 0 < self.word_list().len() <= u32::MAX
        &&& forall|i: int| 0 <= i < self.word_list().len() ==> self.word_list()[i].len() > 0
    }

    /// Builds a feed from the non-empty words of `words`; `None` when there
    /// are none, or more than `u32` can index.
    pub fn new(words: Vec<String>) -> (r: Option<Self>)
        ensures
            r is Some ==> (exists|i: int| 0 <= i < words@.len() && words@[i]@.len() > 0),
            (exists|i: int| 0 <= i < words@.len() && words@[i]@.len() > 0) && words@.len()
                <= u32::MAX ==> r is Some,
            r is Some ==> r->Some_0.wf(),
            r is Some ==> forall|w: Seq<char>|
                #![trigger r->Some_0.word_list().contains(w)]
                r->Some_0.word_list().contains(w) <==> (w.len() > 0 && exists|i: int|
                    0 <= i < words@.len() && words@[i]@ == w),
    {
        let mut kept: Vec<String> = Vec::new();
        let mut i: usize = 0;
        while i < words.len()
            invariant
                i <= words@.len(),
                forall|k: int| 0 <= k < kept@.len() ==> kept@[k]@.len() > 0,
                forall|w: Seq<char>|
                    (exists|k: int| 0 <= k < kept@.len() && kept@[k]@ == w) <==> (w.len() > 0
                        && exists|j: int| 0 <= j < i && words@[j]@ == w),
                kept@.len() <= i,
            decreases words@.len() - i,
        {
            let n = words[i].as_str().unicode_len();
            if n > 0 {
                let ghost old_kept = kept@;
                kept.push(words[i].clone());
                proof {
                    assert(kept@ == old_kept.push(words@[i as int]));
                    assert forall|w: Seq<char>|
                        (exists|k: int| 0 <= k < kept@.len() && kept@[k]@ == w) <==> (w.len() > 0
                            && exists|j: int| 0 <= j < i + 1 && words@[j]@ == w) by {
                        if w.len() > 0 && exists|j: int| 0 <= j < i + 1 && words@[j]@ == w {
                            let j = choose|j: int| 0 <= j < i + 1 && words@[j]@ == w;
                            if j < i {
                                assert(exists|j: int| 0 <= j < i && words@[j]@ == w);
                                let k = choose|k: int| 0 <= k < old_kept.len() && old_kept[k]@ == w;
                                assert(kept@[k]@ == w);
                            } else {
                                assert(kept@[kept@.len() - 1]@ == w);
                            }
                        }
                        if exists|k: int| 0 <= k < kept@.len() && kept@[k]@ == w {
                            let k = choose|k: int| 0 <= k < kept@.len() && kept@[k]@ == w;
                            if k < kept@.len() - 1 {
                                assert(old_kept[k]@ == w);
                                let j = choose|j: int| 0 <= j < i && words@[j]@ == w;
                                assert(0 <= j < i + 1 && words@[j]@ == w);
                            } else {
                                assert(words@[i as int]@ == w);
                            }
                        }
                    }
                }
            } else {
                proof {
                    assert(words@[i as int]@.len() == 0);
                    assert forall|w: Seq<char>|
                        (exists|k: int| 0 <= k < kept@.len() && kept@[k]@ == w) <==> (w.len() > 0
                            && exists|j: int| 0 <= j < i + 1 && words@[j]@ == w) by {
                        if exists|j: int| 0 <= j < i + 1 && words@[j]@ == w && w.len() > 0 {
                            let j = choose|j: int| 0 <= j < i + 1 && words@[j]@ == w && w.len() > 0;
                            assert(j < i);
                            assert(exists|j2: int| 0 <= j2 < i && words@[j2]@ == w);
                        }
                        if exists|k: int| 0 <= k < kept@.len() && kept@[k]@ == w {
                            let j = choose|j: int| 0 <= j < i && words@[j]@ == w;
                            assert(0 <= j < i + 1 && words@[j]@ == w);
                        }
                    }
                }
            }
            i = i + 1;
        }
        if kept.len() == 0 || kept.len() > u32::MAX as usize {
            proof {
                if kept@.len() == 0 {
                    assert forall|j: int| 0 <= j < words@.len() implies !(words@[j]@.len() > 0) by {
                        let w = words@[j]@;
                        if w.len() > 0 {
                            assert(exists|j2: int| 0 <= j2 < i && words@[j2]@ == w);
                        }
                    }
                }
            }
            None
        } else {
            let feed = WordFeed { words: kept };
            proof {
                assert forall|w: Seq<char>|
                    feed.word_list().contains(w) <==> (w.len() > 0 && exists|j: int|
                        0 <= j < words@.len() && words@[j]@ == w) by {
                    if feed.word_list().contains(w) {
                        let k = choose|k: int| 0 <= k < feed.word_list().len() && feed.word_list()[k] == w;
                        assert(kept@[k]@ == w);
                    }
                    if w.len() > 0 && exists|j: int| 0 <= j < words@.len() && words@[j]@ == w {
                        let k = choose|k: int| 0 <= k < kept@.len() && kept@[k]@ == w;
                        assert(feed.word_list()[k] == w);
                    }
                }
                let w = kept@[0]@;
                assert(exists|k: int| 0 <= k < kept@.len() && kept@[k]@ == w);
            }
            Some(feed)
        }
    }

    /// A fresh live word whose target is drawn from the list.
    pub fn get_random(&self) -> (r: LiveWord)
        requires
            self.wf(),
        ensures
            r.wf(),
            r.act() == Seq::<char>::empty(),
            self.word_list().contains(r.exp()),
    {
        let random_int: u32 = random(0..self.words.len() as u32);
        let word = &self.words[random_int as usize];
        proof {
            assert(self.word_list()[random_int as int] == word@);
        }
        LiveWord::new(word.clone())
    }
}

/// A key press as the queue sees it.
#[derive(Clone, Copy, Debug)]
pub enum Key {
    Char(char),
    Backspace,
    Ctrl(char),
    Other,
}

/// Characters taken by a row: each word's length plus the space after it.
pub open spec fn row_total(r: Seq<LiveWord>) -> int
    decreases r.len(),
{
    if r.len() == 0 {
        0
    } else {
        row_total(r.drop_last()) + r.last().exp().len() + 1
    }
}

proof fn lemma_row_total_update(r: Seq<LiveWord>, k: int, w: LiveWord)
    requires
        0 <= k < r.len(),
        w.exp() == r[k].exp(),
    ensures
        row_total(r.update(k, w)) == row_total(r),
    decreases r.len(),
{
    let u = r.update(k, w);
    if k < r.len() - 1 {
        assert(u.drop_last() =~= r.drop_last().update(k, w));
        lemma_row_total_update(r.drop_last(), k, w);
    } else {
        assert(u.drop_last() =~= r.drop_last());
    }
}

/// The shape of every row the queue holds: words from the feed, each shorter
/// than the budget, together within the budget.
pub open spec fn row_ok(r: Seq<LiveWord>, budget: int, feed: WordFeed) -> bool {
    &&& r.len() > 0
    &&& row_total(r) <= budget
    &&& forall|k: int|
        #![trigger r[k]]
        0 <= k < r.len() ==> r[k].wf() && feed.word_list().contains(r[k].exp()) && 0 < r[k].exp().len()
            < budget
}

/// A row never takes more than its budget plus the length of any one of its
/// words: each word was taken while the row stayed under the budget.
pub proof fn lemma_row_budget(r: Seq<LiveWord>, budget: int, feed: WordFeed)
    requires
        row_ok(r, budget, feed),
    ensures
        row_total(r) <= budget,
        forall|k: int| 0 <= k < r.len() ==> row_total(r) < budget + (#[trigger] r[k]).exp().len(),
{
    assert forall|k: int| 0 <= k < r.len() implies row_total(r) < budget + (#[trigger] r[k]).exp().len() by {
        assert(r[k].exp().len() > 0);
    }
}

/// Nothing has been typed in any word of the row.
pub open spec fn row_fresh(r: Seq<LiveWord>) -> bool {
    forall|k: int| 0 <= k < r.len() ==> (#[trigger] r[k]).act() == Seq::<char>::empty()
}

/// The row was closed by a word of the feed that did not fit after it.
pub open spec fn row_full(r: Seq<LiveWord>, budget: int, feed: WordFeed) -> bool {
    exists|w: Seq<char>| #[trigger] feed.word_list().contains(w) && row_total(r) + w.len() >= budget
}

/// Every word of the feed is shorter than `budget`.
pub open spec fn feed_fits(feed: WordFeed, budget: int) -> bool {
    forall|i: int| 0 <= i < feed.word_list().len() ==> #[trigger] feed.word_list()[i].len() < budget
}

/// How a word looks in the active row, given its index and the cursor.
pub open spec fn word_text(w: LiveWord, x: int, cursor: int) -> Seq<char> {
    if x < cursor {
        final_text(w.exp(), w.matched_flag())
    } else if x == cursor {
        active_text(w.exp(), w.act())
    } else {
        w.exp()
    }
}

/// The first `n` words of the active row, each followed by a space.
pub open spec fn colored_row(r: Seq<LiveWord>, cursor: int, n: int) -> Seq<char>
    decreases n,
{
    if n <= 0 {
        Seq::empty()
    } else {
        colored_row(r, cursor, n - 1) + word_text(r[n - 1], n - 1, cursor) + seq![' ']
    }
}

/// The first `n` target words of a row, each followed by a space.
pub open spec fn plain_row(r: Seq<LiveWord>, n: int) -> Seq<char>
    decreases n,
{
    if n <= 0 {
        Seq::empty()
    } else {
        plain_row(r, n - 1) + r[n - 1].exp() + seq![' ']
    }
}

/// `a + 1`, held at `u16::MAX`.
pub open spec fn bump(a: u16) -> u16 {
    if a < u16::MAX {
        (a + 1) as u16
    } else {
        a
    }
}

/// `a + b`, held at `u16::MAX`.
pub open spec fn sat_add(a: u16, b: u16) -> u16 {
    if a + b <= u16::MAX {
        (a + b) as u16
    } else {
        u16::MAX
    }
}

/// Packs randomly drawn words into one row: a word is taken while the row so
/// far plus the word stays under `fit_row_into_len`; the first that does not
/// fit ends the row.
fn gen_row(feed: &WordFeed, fit_row_into_len: u8) -> (r: Vec<LiveWord>)
    requires
        feed.wf(),
        feed_fits(*feed, fit_row_into_len as int),
    ensures
        row_ok(r@, fit_row_into_len as int, *feed),
        row_fresh(r@),
        row_full(r@, fit_row_into_len as int, *feed),
{
    let budget = fit_row_into_len as usize;
    let mut total_length: usize = 0;
    let mut words: Vec<LiveWord> = Vec::new();
    loop
        invariant
            feed.wf(),
            feed_fits(*feed, budget as int),
            budget == fit_row_into_len,
            total_length == row_total(words@),
            total_length <= budget,
            words@.len() == 0 ==> total_length == 0,
            forall|k: int|
                #![trigger words@[k]]
                0 <= k < words@.len() ==> words@[k].wf() && feed.word_list().contains(words@[k].exp())
                    && 0 < words@[k].exp().len() < budget && words@[k].act() == Seq::<char>::empty(),
        ensures
            words@.len() > 0,
            row_full(words@, budget as int, *feed),
        decreases budget - total_length,
    {
        let word = feed.get_random();
        let len = word.expected.as_str().unicode_len();
        proof {
            let i = choose|i: int| 0 <= i < feed.word_list().len() && feed.word_list()[i] == word.exp();
            assert(feed.word_list()[i].len() < budget);
        }
        if !(total_length + len < budget) {
            proof {
                assert(feed.word_list().contains(word.exp()) && row_total(words@) + word.exp().len() >= budget);
            }
            break;
        }
        let ghost before = words@;
        total_length = total_length + len + 1;
        words.push(word);
        proof {
            assert(words@.drop_last() =~= before);
        }
    }
    words
}

/// Two rows of words to type, the cursor in the first, and the tallies of
/// words committed so far.
pub struct WordQueue {
    feed: WordFeed,
    current_index: usize,
    fit_row_into_len: u8,
    num_rows: usize,
    rows: Vec<Vec<LiveWord>>,
    correct_count: u16,
    incorrect_count: u16,
    correct_stroke_count: u16,
}

impl WordQueue {
    pub closed spec fn source(&self) -> WordFeed {
        self.feed
    }

    /// Row `i` of the queue.
    pub closed spec fn row(&self, i: int) -> Seq<LiveWord> {
        self.rows@[i]@
    }

    /// Number of rows held.
    pub closed spec fn row_count(&self) -> int {
        self.rows@.len() as int
    }

    /// Index of the active word within row 0.
    pub closed spec fn cursor(&self) -> int {
        self.current_index as int
    }

    /// Character budget of a row.
    pub closed spec fn budget(&self) -> int {
        self.fit_row_into_len as int
    }

    pub closed spec fn correct_words(&self) -> u16 {
        self.correct_count
    }

    pub closed spec fn incorrect_words(&self) -> u16 {
        self.incorrect_count
    }

    pub closed spec fn correct_strokes(&self) -> u16 {
        self.correct_stroke_count
    }

    pub closed spec fn rows_wanted(&self) -> int {
        self.num_rows as int
    }

    /// The word under the cursor.
    pub open spec fn current(&self) -> LiveWord {
        self.row(0)[self.cursor()]
    }

    /// Built, but with no rows yet.
    pub open spec fn ready(&self) -> bool {
        &&& self.source().wf()
        &&& feed_fits(self.source(), self.budget())
        &&& self.rows_wanted() == 2
        &&& self.row_count() == 0
        &&& self.cursor() == 0
    }

    /// Two rows of the right shape, the cursor inside row 0.
    pub open spec fn wf(&self) -> bool {
        &&& self.source().wf()
        &&& feed_fits(self.source(), self.budget())
        &&& self.rows_wanted() == 2
        &&& self.row_count() == 2
        &&& row_ok(self.row(0), self.budget(), self.source())
        &&& row_ok(self.row(1), self.budget(), self.source())
        &&& 0 <= self.cursor() < self.row(0).len()
    }

    /// A queue over `feed` whose rows hold up to 60 characters; `None` when some
    /// word of the feed does not fit in a row.
    pub fn new(feed: WordFeed) -> (r: Option<Self>)
        requires
            feed.wf(),
        ensures
            r is Some <==> feed_fits(feed, 60),
            r is Some ==> r->Some_0.ready() && r->Some_0.budget() == 60 && r->Some_0.source() == feed,
            r is Some ==> r->Some_0.correct_words() == 0 && r->Some_0.incorrect_words() == 0
                && r->Some_0.correct_strokes() == 0,
    {
        Self::with_row_budget(feed, 60)
    }

    /// A queue over `feed` whose rows hold up to `budget` characters; `None`
    /// when some word of the feed does not fit in a row.
    pub fn with_row_budget(feed: WordFeed, budget: u8) -> (r: Option<Self>)
        requires
            feed.wf(),
        ensures
            r is Some <==> feed_fits(feed, budget as int),
            r is Some ==> r->Some_0.ready() && r->Some_0.budget() == budget && r->Some_0.source()
                == feed,
            r is Some ==> r->Some_0.correct_words() == 0 && r->Some_0.incorrect_words() == 0
                && r->Some_0.correct_strokes() == 0,
    {
        let mut i: usize = 0;
        while i < feed.words.len()
            invariant
                i <= feed.words@.len(),
                forall|k: int| 0 <= k < i ==> #[trigger] feed.word_list()[k].len() < budget,
            decreases feed.words@.len() - i,
        {
            if feed.words[i].as_str().unicode_len() >= budget as usize {
                proof {
                    assert(feed.word_list()[i as int] == feed.words@[i as int]@);
                }
                return None;
            }
            proof {
                assert(feed.word_list()[i as int] == feed.words@[i as int]@);
            }
            i = i + 1;
        }
        Some(WordQueue {
            feed,
            current_index: 0,
            fit_row_into_len: budget,
            num_rows: 2,
            rows: Vec::new(),
            correct_count: 0,
            incorrect_count: 0,
            correct_stroke_count: 0,
        })
    }

    /// Fills the queue with its two rows.
    pub fn init(&mut self)
        requires
            old(self).ready(),
        ensures
            final(self).wf(),
            final(self).cursor() == 0,
            row_fresh(final(self).row(0)) && row_fresh(final(self).row(1)),
            row_full(final(self).row(0), final(self).budget(), final(self).source()),
            row_full(final(self).row(1), final(self).budget(), final(self).source()),
            final(self).source() == old(self).source(),
            final(self).budget() == old(self).budget(),
            final(self).correct_words() == old(self).correct_words(),
            final(self).incorrect_words() == old(self).incorrect_words(),
            final(self).correct_strokes() == old(self).correct_strokes(),
    {
        let mut k: usize = 0;
        while k < self.num_rows
            invariant
                self.source() == old(self).source(),
                self.budget() == old(self).budget(),
                self.source().wf(),
                feed_fits(self.source(), self.budget()),
                self.rows_wanted() == 2,
                self.cursor() == 0,
                k <= 2,
                self.row_count() == k,
                forall|j: int| 0 <= j < k ==> row_ok(#[trigger] self.row(j), self.budget(), self.source())
                    && row_fresh(self.row(j)) && row_full(self.row(j), self.budget(), self.source()),
                self.correct_words() == old(self).correct_words(),
                self.incorrect_words() == old(self).incorrect_words(),
                self.correct_strokes() == old(self).correct_strokes(),
            decreases 2 - k,
        {
            let row = gen_row(&self.feed, self.fit_row_into_len);
            let ghost prev = *self;
            self.rows.push(row);
            proof {
                assert forall|j: int| 0 <= j < k + 1 implies row_ok(#[trigger] self.row(j), self.budget(), self.source())
                    && row_fresh(self.row(j)) && row_full(self.row(j), self.budget(), self.source()) by {
                    if j < k {
                        assert(row_ok(prev.row(j), prev.budget(), prev.source()));
                        assert(row_fresh(prev.row(j)) && row_full(prev.row(j), prev.budget(), prev.source()));
                        assert(self.rows@[j] == prev.rows@[j]);
                    } else {
                        assert(self.rows@[j]@ == row@);
                    }
                }
            }
            k = k + 1;
        }
        proof {
            assert(row_ok(self.row(0), self.budget(), self.source()) && row_fresh(self.row(0))
                && row_full(self.row(0), self.budget(), self.source()));
            assert(row_ok(self.row(1), self.budget(), self.source()) && row_fresh(self.row(1))
                && row_full(self.row(1), self.budget(), self.source()));
        }
    }

    /// The word under the cursor.
    pub fn get_current_word_ref(&self) -> (r: &LiveWord)
        requires
            self.wf(),
        ensures
            *r == self.current(),
    {
        &self.rows[0][self.current_index]
    }

    /// Index of the word under the cursor.
    pub fn current_index(&self) -> (r: usize)
        ensures
            r == self.cursor(),
    {
        self.current_index
    }

    /// The target words of row `i`; empty when there is no such row.
    pub fn row_expected(&self, i: usize) -> (r: Vec<String>)
        ensures
            i < self.row_count() ==> r@.len() == self.row(i as int).len() && forall|k: int|
                0 <= k < r@.len() ==> (#[trigger] r@[k])@ == self.row(i as int)[k].exp(),
            i >= self.row_count() ==> r@.len() == 0,
    {
        let mut out: Vec<String> = Vec::new();
        if i < self.rows.len() {
            let row = &self.rows[i];
            let mut k: usize = 0;
            while k < row.len()
                invariant
                    row@ == self.row(i as int),
                    k <= row@.len(),
                    out@.len() == k,
                    forall|j: int| 0 <= j < k ==> (#[trigger] out@[j])@ == row@[j].exp(),
                decreases row@.len() - k,
            {
                out.push(row[k].expected());
                k = k + 1;
            }
        }
        out
    }

    /// Correct and incorrect words committed so far.
    pub fn words_count(&self) -> (r: (u16, u16))
        ensures
            r == (self.correct_words(), self.incorrect_words()),
    {
        (self.correct_count, self.incorrect_count)
    }

    /// Correctly typed characters over all committed words.
    pub fn correct_stroke_count(&self) -> (r: u16)
        ensures
            r == self.correct_strokes(),
    {
        self.correct_stroke_count
    }
}

impl WordQueue {
    /// `new` is `old` after the word under the cursor was committed: the
    /// tallies take it in, and the cursor moves on, or the rows roll over.
    pub open spec fn committed(before: WordQueue, after: WordQueue) -> bool {
        let w = before.current();
        &&& after.correct_words() == (if w.matched_flag() {
            bump(before.correct_words())
        } else {
            before.correct_words()
        })
        &&& after.incorrect_words() == (if w.matched_flag() {
            before.incorrect_words()
        } else {
            bump(before.incorrect_words())
        })
        &&& after.correct_strokes() == sat_add(before.correct_strokes(), lcp(w.act(), w.exp()) as u16)
        &&& after.source() == before.source()
        &&& after.budget() == before.budget()
        &&& if before.cursor() + 1 < before.row(0).len() {
            &&& after.cursor() == before.cursor() + 1
            &&& after.row(0) == before.row(0)
            &&& after.row(1) == before.row(1)
        } else {
            &&& after.cursor() == 0
            &&& after.row(0) == before.row(1)
            &&& row_fresh(after.row(1))
            &&& row_full(after.row(1), after.budget(), after.source())
        }
    }

    /// `after` is `before` with the word under the cursor replaced by `w`.
    pub open spec fn edited(before: WordQueue, after: WordQueue, w: LiveWord) -> bool {
        &&& after.row(0) == before.row(0).update(before.cursor(), w)
        &&& after.row(1) == before.row(1)
        &&& after.cursor() == before.cursor()
        &&& after.correct_words() == before.correct_words()
        &&& after.incorrect_words() == before.incorrect_words()
        &&& after.correct_strokes() == before.correct_strokes()
        &&& after.source() == before.source()
        &&& after.budget() == before.budget()
    }

    /// `after` is what one press of `key` makes of `before`.
    pub open spec fn key_step(before: WordQueue, after: WordQueue, key: Key) -> bool {
        match key {
            Key::Char(c) => if c == ' ' {
                if before.current().act().len() > 0 {
                    Self::committed(before, after)
                } else {
                    after == before
                }
            } else {
                exists|w: LiveWord|
                    #![trigger Self::edited(before, after, w)]
                    Self::edited(before, after, w) && w.wf() && w.exp()
                        == before.current().exp() && w.act() == before.current().act().push(c)
            },
            Key::Backspace => exists|w: LiveWord|
                #![trigger Self::edited(before, after, w)]
                Self::edited(before, after, w) && w.wf() && w.exp()
                    == before.current().exp() && w.act() == (if before.current().act().len()
                    == 0 {
                    before.current().act()
                } else {
                    before.current().act().drop_last()
                }),
            _ => after == before,
        }
    }

    /// A key press never lowers a tally.
    pub proof fn lemma_counters_monotone(before: WordQueue, after: WordQueue, key: Key)
        requires
            Self::key_step(before, after, key),
        ensures
            after.correct_words() >= before.correct_words(),
            after.incorrect_words() >= before.incorrect_words(),
            after.correct_strokes() >= before.correct_strokes(),
    {
        if let Key::Backspace = key {
            let w = choose|w: LiveWord| Self::edited(before, after, w);
        } else if let Key::Char(c) = key {
            if c != ' ' {
                let w = choose|w: LiveWord| Self::edited(before, after, w);
            }
        }
    }

    /// A space that commits the last word of row 0 flushes: two rows remain,
    /// the cursor is back at 0, and the former row 1 is row 0, unchanged.
    pub proof fn lemma_flush(before: WordQueue, after: WordQueue)
        requires
            before.wf(),
            after.wf(),
            Self::key_step(before, after, Key::Char(' ')),
            before.current().act().len() > 0,
            before.cursor() == before.row(0).len() - 1,
        ensures
            after.row_count() == 2,
            after.cursor() == 0,
            after.row(0) == before.row(1),
            row_fresh(after.row(1)),
    {
    }

    /// Drops row 0, moves row 1 up and appends a fresh row.
    fn flush(&mut self)
        requires
            old(self).wf(),
        ensures
            final(self).wf(),
            final(self).row(0) == old(self).row(1),
            row_fresh(final(self).row(1)),
            row_full(final(self).row(1), final(self).budget(), final(self).source()),
            final(self).cursor() == 0,
            final(self).source() == old(self).source(),
            final(self).budget() == old(self).budget(),
            final(self).correct_words() == old(self).correct_words(),
            final(self).incorrect_words() == old(self).incorrect_words(),
            final(self).correct_strokes() == old(self).correct_strokes(),
    {
        self.rows.remove(0);
        let row = gen_row(&self.feed, self.fit_row_into_len);
        self.rows.push(row);
        self.current_index = 0;
        proof {
            assert(self.rows@[1]@ == row@);
        }
    }

    /// Commits the word under the cursor and moves on.
    fn move_index(&mut self)
        requires
            old(self).wf(),
        ensures
            final(self).wf(),
            Self::committed(*old(self), *final(self)),
    {
        let i = self.current_index;
        let correct = self.rows[0][i].is_correct();
        if correct {
            if self.correct_count < u16::MAX {
                self.correct_count = self.correct_count + 1;
            }
        } else {
            if self.incorrect_count < u16::MAX {
                self.incorrect_count = self.incorrect_count + 1;
            }
        }
        proof {
            assert(self.row(0)[i as int].exp().len() < 256);
        }
        let strokes = self.rows[0][i].correct_stroke_count();
        if self.correct_stroke_count as u32 + strokes as u32 <= u16::MAX as u32 {
            self.correct_stroke_count = self.correct_stroke_count + strokes;
        } else {
            self.correct_stroke_count = u16::MAX;
        }
        if i < self.rows[0].len() - 1 {
            self.current_index = i + 1;
        } else {
            self.flush();
        }
    }

    /// Applies one key press: a space commits a word that has input, other
    /// characters are typed into the word under the cursor, backspace erases.
    pub fn register_key(&mut self, key: Key)
        requires
            old(self).wf(),
        ensures
            final(self).wf(),
            Self::key_step(*old(self), *final(self), key),
    {
        let i = self.current_index;
        match key {
            Key::Char(c) => {
                if c != ' ' {
                    self.rows[0][i].push_char(c);
                    proof {
                        lemma_row_total_update(old(self).row(0), i as int, self.current());
                        assert(self.row(0) =~= old(self).row(0).update(i as int, self.current()));
                        assert(Self::edited(*old(self), *self, self.current()));
                    }
                } else {
                    if self.rows[0][i].actual.as_str().unicode_len() != 0 {
                        self.move_index();
                    }
                }
            },
            Key::Backspace => {
                self.rows[0][i].pop_char();
                proof {
                    lemma_row_total_update(old(self).row(0), i as int, self.current());
                    assert(self.row(0) =~= old(self).row(0).update(i as int, self.current()));
                    assert(Self::edited(*old(self), *self, self.current()));
                }
            },
            _ => {},
        }
    }

    /// The two rows as text: row 0 colored around the cursor, row 1 plain.
    pub fn get_parsed(&self) -> (r: Vec<String>)
        requires
            self.wf(),
        ensures
            r@.len() == 2,
            r@[0]@ == colored_row(self.row(0), self.cursor(), self.row(0).len() as int),
            r@[1]@ == plain_row(self.row(1), self.row(1).len() as int),
    {
        let mut out: Vec<String> = Vec::new();
        out.push(Self::to_string(&self.rows[0], Some(self.current_index)));
        out.push(Self::to_string(&self.rows[1], None));
        out
    }

    fn to_string(words: &Vec<LiveWord>, active_index: Option<usize>) -> (r: String)
        requires
            forall|k: int| 0 <= k < words@.len() ==> (#[trigger] words@[k]).exp().len() <= u16::MAX,
        ensures
            active_index is Some ==> r@ == colored_row(words@, active_index->Some_0 as int, words@.len() as int),
            active_index is None ==> r@ == plain_row(words@, words@.len() as int),
    {
        if let Some(index) = active_index {
            to_colored_string(words, index)
        } else {
            to_string(words)
        }
    }
}

fn to_colored_string(words: &Vec<LiveWord>, index: usize) -> (r: String)
    ensures
        r@ == colored_row(words@, index as int, words@.len() as int),
{
    let mut buffer = String::new();
    let mut x: usize = 0;
    while x < words.len()
        invariant
            x <= words@.len(),
            buffer@ == colored_row(words@, index as int, x as int),
        decreases words@.len() - x,
    {
        let word = &words[x];
        let string = if x < index {
            word.to_color_string_outcome()
        } else if x == index {
            word.to_color_string_outcome_detail()
        } else {
            word.expected()
        };
        buffer.append(string.as_str());
        buffer.append(" ");
        proof {
            reveal_strlit(" ");
            assert(buffer@ =~= colored_row(words@, index as int, x + 1));
        }
        x = x + 1;
    }
    buffer
}

fn to_string(words: &Vec<LiveWord>) -> (r: String)
    ensures
        r@ == plain_row(words@, words@.len() as int),
{
    let mut buffer = String::new();
    let mut x: usize = 0;
    while x < words.len()
        invariant
            x <= words@.len(),
            buffer@ == plain_row(words@, x as int),
        decreases words@.len() - x,
    {
        buffer.append(words[x].expected.as_str());
        buffer.append(" ");
        proof {
            reveal_strlit(" ");
            assert(buffer@ =~= plain_row(words@, x + 1));
        }
        x = x + 1;
    }
    buffer
}

} // verus!
