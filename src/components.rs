//! The screen's building blocks: three kinds of component, each a fixed
//! template filled from its own state, arranged in rows.

use vstd::prelude::*;
use vstd::string::StringExecFns;
use vstd::string::StrSliceExecFns;
use crate::layout::{StateMap, lookup, same_text, subst_from, transform_row};

verus! {

pub open spec fn words_template() -> Seq<Seq<char>> {
    seq![""@, "{{row1}}"@, "{{row2}}"@]
}

pub open spec fn word_template() -> Seq<Seq<char>> {
    seq![""@, "{{word}}"@, ""@]
}

pub open spec fn score_template() -> Seq<Seq<char>> {
    seq![
        ""@,
        "time: {{time}}s   correct: {{correct}}  incorrect: {{incorrect}}  accuracy: {{accuracy}}%  speed: {{wpm}}wpm"@,
        ""@,
    ]
}

/// A unit of the screen, told apart by what it shows.
pub enum Component {
    Words { state: StateMap },
    Word { state: StateMap },
    Score { state: StateMap },
}

/// Largest length among `lines`, 0 when there are none.
pub open spec fn max_len(lines: Seq<Seq<char>>) -> int
    decreases lines.len(),
{
    if lines.len() == 0 {
        0
    } else {
        let m = max_len(lines.drop_last());
        if lines.last().len() > m {
            lines.last().len() as int
        } else {
            m
        }
    }
}

/// Template line `x` of `c` with its placeholders filled; empty past the last line.
pub open spec fn comp_line(c: Component, x: int) -> Seq<char> {
    if 0 <= x < c.template_spec().len() {
        subst_from(c.template_spec()[x], 0, c.state_spec())
    } else {
        Seq::empty()
    }
}

/// Line `x` of the first `n` components of a row, side by side.
pub open spec fn sub_row(cs: Seq<Component>, x: int, n: int) -> Seq<char>
    decreases n,
{
    if n <= 0 {
        Seq::empty()
    } else {
        sub_row(cs, x, n - 1) + comp_line(cs[n - 1], x)
    }
}

/// Height of a row of components: its tallest template.
pub open spec fn row_rows(cs: Seq<Component>) -> int
    decreases cs.len(),
{
    if cs.len() == 0 {
        0
    } else {
        let m = row_rows(cs.drop_last());
        if cs.last().template_spec().len() > m {
            cs.last().template_spec().len() as int
        } else {
            m
        }
    }
}

/// Width of a row of components: the sum of their widths.
pub open spec fn row_cols(cs: Seq<Component>) -> int
    decreases cs.len(),
{
    if cs.len() == 0 {
        0
    } else {
        row_cols(cs.drop_last()) + max_len(cs.last().template_spec())
    }
}

pub open spec fn lines_bounded(t: Seq<Seq<char>>) -> bool {
    t.len() <= 3 && forall|i: int| 0 <= i < t.len() ==> #[trigger] t[i].len() <= 200
}

proof fn lemma_max_len_bounded(t: Seq<Seq<char>>)
    requires
        lines_bounded(t),
    ensures
        max_len(t) <= 200,
    decreases t.len(),
{
    if t.len() > 0 {
        assert(lines_bounded(t.drop_last()));
        lemma_max_len_bounded(t.drop_last());
    }
}

impl Component {
    pub open spec fn template_spec(&self) -> Seq<Seq<char>> {
        match self {
            Component::Words { .. } => words_template(),
            Component::Word { .. } => word_template(),
            Component::Score { .. } => score_template(),
        }
    }

    pub open spec fn id_spec(&self) -> Seq<char> {
        match self {
            Component::Words { .. } => "words"@,
            Component::Word { .. } => "word"@,
            Component::Score { .. } => "score"@,
        }
    }

    pub open spec fn state_spec(&self) -> Seq<(Seq<char>, Seq<char>)> {
        match self {
            Component::Words { state } => state.pairs(),
            Component::Word { state } => state.pairs(),
            Component::Score { state } => state.pairs(),
        }
    }

    /// A component with an empty state, chosen by id; an unknown id gives `Word`.
    pub fn new(id: &str) -> (r: Self)
        ensures
            r.id_spec() == (if id@ == "words"@ || id@ == "score"@ {
                id@
            } else {
                "word"@
            }),
            r.state_spec().len() == 0,
    {
        let state = StateMap::new();
        if same_text(id, "words") {
            Component::Words { state }
        } else if same_text(id, "score") {
            Component::Score { state }
        } else {
            Component::Word { state }
        }
    }

    pub fn id(&self) -> (r: &'static str)
        ensures
            r@ == self.id_spec(),
    {
        match self {
            Component::Words { .. } => "words",
            Component::Word { .. } => "word",
            Component::Score { .. } => "score",
        }
    }

    pub fn template(&self) -> (r: Vec<&'static str>)
        ensures
            r@.len() == self.template_spec().len(),
            forall|i: int| 0 <= i < r@.len() ==> (#[trigger] r@[i])@ == self.template_spec()[i],
    {
        match self {
            Component::Words { .. } => vec!["", "{{row1}}", "{{row2}}"],
            Component::Word { .. } => vec!["", "{{word}}", ""],
            Component::Score { .. } => vec![
                "",
                "time: {{time}}s   correct: {{correct}}  incorrect: {{incorrect}}  accuracy: {{accuracy}}%  speed: {{wpm}}wpm",
                "",
            ],
        }
    }

    /// A copy of the component's state.
    pub fn state(&self) -> (r: StateMap)
        ensures
            r.pairs() == self.state_spec(),
    {
        match self {
            Component::Words { state } => state.copy(),
            Component::Word { state } => state.copy(),
            Component::Score { state } => state.copy(),
        }
    }

    /// Replaces the component's state, keeping its kind.
    pub fn set_state(&mut self, new_state: &StateMap)
        ensures
            final(self).state_spec() == new_state.pairs(),
            final(self).id_spec() == old(self).id_spec(),
            final(self).template_spec() == old(self).template_spec(),
    {
        let copied = new_state.copy();
        match self {
            Component::Words { state } => {
                *state = copied;
            },
            Component::Word { state } => {
                *state = copied;
            },
            Component::Score { state } => {
                *state = copied;
            },
        }
    }

    /// Template rows and the width of the widest one.
    pub fn size(&self) -> (r: (u64, u64))
        ensures
            r.0 == self.template_spec().len(),
            r.1 == max_len(self.template_spec()),
    {
        proof {
            reveal_strlit("");
            reveal_strlit("{{row1}}");
            reveal_strlit("{{row2}}");
            reveal_strlit("{{word}}");
            reveal_strlit("time: {{time}}s   correct: {{correct}}  incorrect: {{incorrect}}  accuracy: {{accuracy}}%  speed: {{wpm}}wpm");
        }
        let t = self.template();
        proof {
            assert(t@.map_values(|s: &str| s@) =~= self.template_spec());
            lemma_template_bounds(*self);
        }
        get_unit_size(&t)
    }

    /// Line `x` of the template with placeholders filled, or nothing past the end.
    pub fn line(&self, x: usize) -> (r: String)
        ensures
            r@ == comp_line(*self, x as int),
    {
        let t = self.template();
        if x < t.len() {
            let st = match self {
                Component::Words { state } => state,
                Component::Word { state } => state,
                Component::Score { state } => state,
            };
            transform_row(t[x], st)
        } else {
            String::new()
        }
    }
}

/// Rows of a template and the length of its longest line.
fn get_unit_size(template: &Vec<&str>) -> (r: (u64, u64))
    ensures
        r.0 == template@.len(),
        r.1 == max_len(template@.map_values(|s: &str| s@)),
{
    let ghost lines = template@.map_values(|s: &str| s@);
    let mut best: u64 = 0;
    let mut i: usize = 0;
    while i < template.len()
        invariant
            i <= template@.len(),
            lines == template@.map_values(|s: &str| s@),
            best == max_len(lines.subrange(0, i as int)),
        decreases template@.len() - i,
    {
        proof {
            assert(lines.subrange(0, i + 1).drop_last() =~= lines.subrange(0, i as int));
            assert(lines[i as int] == template@[i as int]@);
        }
        let n = template[i].unicode_len() as u64;
        if n > best {
            best = n;
        }
        i = i + 1;
    }
    proof {
        assert(lines.subrange(0, i as int) =~= lines);
    }
    (template.len() as u64, best)
}

/// Height (tallest unit) and width (sum of unit widths) of a row of components.
fn get_row_size(units: &Vec<Component>) -> (r: (u64, u64))
    requires
        units@.len() <= 65535,
    ensures
        r.0 == row_rows(units@),
        r.1 == row_cols(units@),
{
    let mut rows: u64 = 0;
    let mut cols: u64 = 0;
    let mut i: usize = 0;
    while i < units.len()
        invariant
            i <= units@.len() <= 65535,
            rows == row_rows(units@.subrange(0, i as int)),
            cols == row_cols(units@.subrange(0, i as int)),
            rows <= 3,
            cols <= 200 * i,
        decreases units@.len() - i,
    {
        proof {
            assert(units@.subrange(0, i + 1).drop_last() =~= units@.subrange(0, i as int));
        }
        let (r, c) = units[i].size();
        proof {
            lemma_template_bounds(units@[i as int]);
        }
        if r > rows {
            rows = r;
        }
        cols = cols + c;
        i = i + 1;
    }
    proof {
        assert(units@.subrange(0, i as int) =~= units@);
    }
    (rows, cols)
}

pub(crate) proof fn lemma_template_bounds(c: Component)
    ensures
        c.template_spec().len() <= 3,
        lines_bounded(c.template_spec()),
        max_len(c.template_spec()) <= 200,
{
    reveal_strlit("");
    reveal_strlit("{{row1}}");
    reveal_strlit("{{row2}}");
    reveal_strlit("{{word}}");
    reveal_strlit("time: {{time}}s   correct: {{correct}}  incorrect: {{incorrect}}  accuracy: {{accuracy}}%  speed: {{wpm}}wpm");
    let t = c.template_spec();
    assert(lines_bounded(t));
    lemma_max_len_bounded(t);
}

/// `(r1, c1)` comes before `(r2, c2)` reading row by row.
pub open spec fn earlier(r1: int, c1: int, r2: int, c2: int) -> bool {
    r1 < r2 || (r1 == r2 && c1 < c2)
}

/// `(r, c)` is the first place in `l`, row by row, holding a component with id `id`.
pub open spec fn is_first(l: Seq<Seq<Component>>, id: Seq<char>, r: int, c: int) -> bool {
    &&& 0 <= r < l.len()
    &&& 0 <= c < l[r].len()
    &&& l[r][c].id_spec() == id
    &&& forall|r2: int, c2: int|
        0 <= r2 < l.len() && 0 <= c2 < l[r2].len() && earlier(r2, c2, r, c) ==> (#[trigger] l[r2][c2]).id_spec() != id
}

/// `after` is `before` with only the component at `(r, c)` changed, and that
/// one keeping its kind.
pub open spec fn changed_only_at(before: Seq<Seq<Component>>, after: Seq<Seq<Component>>, r: int, c: int) -> bool {
    &&& after.len() == before.len()
    &&& forall|r2: int| 0 <= r2 < before.len() ==> (#[trigger] after[r2]).len() == before[r2].len()
    &&& forall|r2: int, c2: int|
        0 <= r2 < before.len() && 0 <= c2 < before[r2].len() && (r2 != r || c2 != c) ==> (#[trigger] after[r2][c2]) == before[r2][c2]
    &&& after[r][c].id_spec() == before[r][c].id_spec()
    &&& after[r][c].template_spec() == before[r][c].template_spec()
}

/// Components arranged in rows.
pub struct Layout {
    pub layout: Vec<Vec<Component>>,
}

impl Layout {
    /// The components, row by row.
    pub open spec fn grid(&self) -> Seq<Seq<Component>> {
        self.layout@.map_values(|row: Vec<Component>| row@)
    }

    /// Few enough rows and components for the size arithmetic.
    pub open spec fn wf(&self) -> bool {
        &&& self.grid().len() <= 65535
        &&& forall|r: int| 0 <= r < self.grid().len() ==> (#[trigger] self.grid()[r]).len() <= 65535
    }

    /// Where the first component with id `component_id` stands.
    pub fn find(&self, component_id: &str) -> (r: Option<(usize, usize)>)
        ensures
            r is Some ==> is_first(self.grid(), component_id@, r->Some_0.0 as int, r->Some_0.1 as int),
            r is None ==> forall|r2: int, c2: int|
                0 <= r2 < self.grid().len() && 0 <= c2 < self.grid()[r2].len() ==> (#[trigger] self.grid()[r2][c2]).id_spec() != component_id@,
    {
        let mut r: usize = 0;
        while r < self.layout.len()
            invariant
                r <= self.grid().len(),
                forall|r2: int, c2: int|
                    0 <= r2 < r && 0 <= c2 < self.grid()[r2].len() ==> (#[trigger] self.grid()[r2][c2]).id_spec() != component_id@,
            decreases self.grid().len() - r,
        {
            let mut c: usize = 0;
            while c < self.layout[r].len()
                invariant
                    r < self.grid().len(),
                    c <= self.grid()[r as int].len(),
                    self.grid()[r as int] == self.layout@[r as int]@,
                    forall|r2: int, c2: int|
                        0 <= r2 < self.grid().len() && 0 <= c2 < self.grid()[r2].len() && earlier(r2, c2, r as int, c as int)
                            ==> (#[trigger] self.grid()[r2][c2]).id_spec() != component_id@,
                decreases self.grid()[r as int].len() - c,
            {
                if same_text(self.layout[r][c].id(), component_id) {
                    return Some((r, c));
                }
                c = c + 1;
            }
            r = r + 1;
        }
        None
    }

    /// Sets one placeholder value on the first component with id `component_id`;
    /// nothing changes when there is none.
    pub fn update(&mut self, component_id: &str, entry: (&str, &str))
        ensures
            (exists|r: int, c: int| #[trigger] is_first(old(self).grid(), component_id@, r, c)) ==> exists|r: int, c: int|
                #[trigger] is_first(old(self).grid(), component_id@, r, c) && changed_only_at(old(self).grid(), final(self).grid(), r, c)
                    && lookup(final(self).grid()[r][c].state_spec(), entry.0@) == Some(entry.1@)
                    && forall|k: Seq<char>| k != entry.0@ ==> #[trigger] lookup(final(self).grid()[r][c].state_spec(), k)
                        == lookup(old(self).grid()[r][c].state_spec(), k),
            !(exists|r: int, c: int| #[trigger] is_first(old(self).grid(), component_id@, r, c)) ==> final(self).grid() == old(self).grid(),
    {
        let (key, val) = entry;
        match self.find(component_id) {
            Some((r, c)) => {
                let mut state = self.layout[r][c].state();
                let ghost start = state;
                state.insert(String::from_str(key), String::from_str(val));
                self.layout[r][c].set_state(&state);
                proof {
                    let comp = self.grid()[r as int][c as int];
                    assert(comp == self.layout@[r as int]@[c as int]);
                    assert(comp.state_spec() == state.pairs());
                    assert(start.pairs() == old(self).grid()[r as int][c as int].state_spec());
                    assert(lookup(comp.state_spec(), key@) == Some(val@));
                    assert forall|k: Seq<char>| k != key@ implies #[trigger] lookup(comp.state_spec(), k)
                        == lookup(old(self).grid()[r as int][c as int].state_spec(), k) by {
                        assert(state.get_spec(k) == start.get_spec(k));
                    }
                    assert(changed_only_at(old(self).grid(), self.grid(), r as int, c as int));
                    assert(is_first(old(self).grid(), component_id@, r as int, c as int));
                }
            },
            None => {
                proof {
                    if exists|r: int, c: int| #[trigger] is_first(old(self).grid(), component_id@, r, c) {
                        let (r, c) = choose|r: int, c: int| #[trigger] is_first(old(self).grid(), component_id@, r, c);
                        assert(old(self).grid()[r][c].id_spec() == component_id@);
                    }
                }
            },
        }
    }

    /// Sets the whole state of the first component with id `component_id`;
    /// nothing changes when there is none.
    pub fn replace(&mut self, component_id: &str, state: &StateMap)
        ensures
            (exists|r: int, c: int| #[trigger] is_first(old(self).grid(), component_id@, r, c)) ==> exists|r: int, c: int|
                #[trigger] is_first(old(self).grid(), component_id@, r, c) && changed_only_at(old(self).grid(), final(self).grid(), r, c)
                    && final(self).grid()[r][c].state_spec() == state.pairs(),
            !(exists|r: int, c: int| #[trigger] is_first(old(self).grid(), component_id@, r, c)) ==> final(self).grid() == old(self).grid(),
    {
        match self.find(component_id) {
            Some((r, c)) => {
                self.layout[r][c].set_state(state);
                proof {
                    assert(changed_only_at(old(self).grid(), self.grid(), r as int, c as int));
                    assert(is_first(old(self).grid(), component_id@, r as int, c as int));
                }
            },
            None => {
                proof {
                    if exists|r: int, c: int| #[trigger] is_first(old(self).grid(), component_id@, r, c) {
                        let (r, c) = choose|r: int, c: int| #[trigger] is_first(old(self).grid(), component_id@, r, c);
                        assert(old(self).grid()[r][c].id_spec() == component_id@);
                    }
                }
            },
        }
    }

    /// Row `row`, if there is one.
    pub fn get_row(&self, row: usize) -> (r: Option<&Vec<Component>>)
        ensures
            r is Some <==> row < self.grid().len(),
            r is Some ==> r->Some_0@ == self.grid()[row as int],
    {
        if row < self.layout.len() {
            Some(&self.layout[row])
        } else {
            None
        }
    }

    /// Height and width of row `row`, if there is one.
    pub fn get_row_size(&self, row: usize) -> (r: Option<(u64, u64)>)
        requires
            self.wf(),
        ensures
            r is Some <==> row < self.grid().len(),
            r is Some ==> r->Some_0 == (row_rows(self.grid()[row as int]) as u64, row_cols(self.grid()[row as int]) as u64),
    {
        if row < self.layout.len() {
            proof {
                assert(self.grid()[row as int] == self.layout@[row as int]@);
            }
            let (a, b) = get_row_size(&self.layout[row]);
            Some((a, b))
        } else {
            None
        }
    }
}

} // verus!
