//! Templates with `{{key}}` placeholders, the state they are filled from,
//! and the sizes of the units a screen is built of.

use vstd::prelude::*;
use vstd::string::StringExecFns;
use vstd::string::StrSliceExecFns;

verus! {

/// The value stored under `k`: the last entry with that key wins.
pub open spec fn lookup(e: Seq<(Seq<char>, Seq<char>)>, k: Seq<char>) -> Option<Seq<char>>
    decreases e.len(),
{
    if e.len() == 0 {
        None
    } else if e.last().0 == k {
        Some(e.last().1)
    } else {
        lookup(e.drop_last(), k)
    }
}

/// Whether two strings hold the same characters.
pub fn same_text(a: &str, b: &str) -> (r: bool)
    ensures
        r == (a@ == b@),
{
    let n = a.unicode_len();
    if n != b.unicode_len() {
        return false;
    }
    let mut i: usize = 0;
    while i < n
        invariant
            n == a@.len(),
            n == b@.len(),
            i <= n,
            forall|j: int| 0 <= j < i ==> a@[j] == b@[j],
        decreases n - i,
    {
        if a.get_char(i) != b.get_char(i) {
            return false;
        }
        i = i + 1;
    }
    proof {
        assert(a@ =~= b@);
    }
    true
}

/// The text of each (key, value) pair.
pub open spec fn pairs_of(v: Seq<(String, String)>) -> Seq<(Seq<char>, Seq<char>)> {
    v.map_values(|p: (String, String)| (p.0@, p.1@))
}

/// Placeholder values by name.
pub struct StateMap {
    entries: Vec<(String, String)>,
}

impl StateMap {
    /// The entries as (key, value) pairs.
    pub closed spec fn pairs(&self) -> Seq<(Seq<char>, Seq<char>)> {
        pairs_of(self.entries@)
    }

    /// The value under `k`, if any.
    pub open spec fn get_spec(&self, k: Seq<char>) -> Option<Seq<char>> {
        lookup(self.pairs(), k)
    }

    /// No stored value holds a `{`.
    pub open spec fn values_plain(&self) -> bool {
        forall|i: int| 0 <= i < self.pairs().len() ==> !(#[trigger] self.pairs()[i]).1.contains('{')
    }

    pub fn new() -> (r: Self)
        ensures
            forall|k: Seq<char>| r.get_spec(k) is None,
            r.pairs().len() == 0,
    {
        StateMap { entries: Vec::new() }
    }

    /// The value under `key`, if any.
    pub fn get(&self, key: &str) -> (r: Option<String>)
        ensures
            r is Some == self.get_spec(key@) is Some,
            r is Some ==> r->Some_0@ == self.get_spec(key@)->Some_0,
    {
        let mut i: usize = self.entries.len();
        proof {
            assert(self.pairs().subrange(0, i as int) =~= self.pairs());
        }
        while i > 0
            invariant
                i <= self.entries@.len(),
                self.get_spec(key@) == lookup(self.pairs().subrange(0, i as int), key@),
            decreases i,
        {
            let ghost pre = self.pairs().subrange(0, i as int);
            proof {
                assert(pre.drop_last() =~= self.pairs().subrange(0, i - 1));
            }
            if same_text(self.entries[i - 1].0.as_str(), key) {
                return Some(self.entries[i - 1].1.clone());
            }
            i = i - 1;
        }
        None
    }

    /// Stores `value` under `key`, replacing what was there.
    pub fn insert(&mut self, key: String, value: String)
        ensures
            final(self).get_spec(key@) == Some(value@),
            forall|k: Seq<char>| k != key@ ==> #[trigger] final(self).get_spec(k) == old(self).get_spec(k),
            old(self).values_plain() && !value@.contains('{') ==> final(self).values_plain(),
    {
        let mut kept: Vec<(String, String)> = Vec::new();
        let mut i: usize = 0;
        let ghost src = self.pairs();
        while i < self.entries.len()
            invariant
                i <= self.entries@.len(),
                src == self.pairs(),
                kept@.len() <= i,
                forall|k: Seq<char>| k != key@ ==> #[trigger] lookup(pairs_of(kept@), k)
                    == lookup(src.subrange(0, i as int), k),
                lookup(pairs_of(kept@), key@) is None,
                forall|j: int| 0 <= j < kept@.len() ==> exists|m: int| 0 <= m < i && #[trigger] kept@[j].1@ == src[m].1,
            decreases self.entries@.len() - i,
        {
            let ghost before = pairs_of(kept@);
            let ghost before_kept = kept@;
            proof {
                assert(src.subrange(0, i + 1).drop_last() =~= src.subrange(0, i as int));
            }
            proof {
                assert(src.subrange(0, i + 1).last() == src[i as int]);
                assert(src[i as int] == (self.entries@[i as int].0@, self.entries@[i as int].1@));
            }
            if !same_text(self.entries[i].0.as_str(), key.as_str()) {
                let k = self.entries[i].0.clone();
                let v = self.entries[i].1.clone();
                kept.push((k, v));
                proof {
                    let now = pairs_of(kept@);
                    assert(now.drop_last() =~= before);
                    assert(now.last() == src[i as int]);
                    assert forall|k: Seq<char>| k != key@ implies #[trigger] lookup(pairs_of(kept@), k)
                        == lookup(src.subrange(0, i + 1), k) by {
                        if src[i as int].0 != k {
                            assert(lookup(src.subrange(0, i + 1), k) == lookup(src.subrange(0, i as int), k));
                            assert(lookup(before, k) == lookup(src.subrange(0, i as int), k));
                            assert(lookup(pairs_of(kept@), k) == lookup(before, k));
                        }
                    }
                    assert forall|j: int| 0 <= j < kept@.len() implies exists|m: int| 0 <= m < i + 1 && #[trigger] kept@[j].1@ == src[m].1 by {
                        if j < kept@.len() - 1 {
                            assert(kept@[j] == before_kept[j]);
                        } else {
                            assert(kept@[j].1@ == src[i as int].1);
                        }
                    }
                }
            }
            else {
                proof {
                    assert forall|k: Seq<char>| k != key@ implies #[trigger] lookup(pairs_of(kept@), k)
                        == lookup(src.subrange(0, i + 1), k) by {
                        assert(lookup(src.subrange(0, i + 1), k) == lookup(src.subrange(0, i as int), k));
                    }
                }
            }
            i = i + 1;
        }
        let ghost before = pairs_of(kept@);
        let ghost before_kept = kept@;
        kept.push((key, value));
        proof {
            let now = pairs_of(kept@);
            assert(now.drop_last() =~= before);
            assert(src.subrange(0, src.len() as int) =~= src);
            assert forall|k: Seq<char>| k != key@ implies #[trigger] lookup(now, k) == lookup(src, k) by {
                assert(lookup(now, k) == lookup(before, k));
            }
            if self.values_plain() && !value@.contains('{') {
                assert forall|j: int| 0 <= j < now.len() implies !(#[trigger] now[j]).1.contains('{') by {
                    if j < now.len() - 1 {
                        assert(kept@[j] == before_kept[j]);
                        let m = choose|m: int| 0 <= m < src.len() && before_kept[j].1@ == src[m].1;
                        assert(!src[m].1.contains('{'));
                    }
                }
            }
        }
        self.entries = kept;
    }

    /// A copy with the same entries.
    pub fn copy(&self) -> (r: Self)
        ensures
            r.pairs() == self.pairs(),
    {
        let mut out: Vec<(String, String)> = Vec::new();
        let mut i: usize = 0;
        while i < self.entries.len()
            invariant
                i <= self.entries@.len(),
                pairs_of(out@) =~= self.pairs().subrange(0, i as int),
            decreases self.entries@.len() - i,
        {
            let k = self.entries[i].0.clone();
            let v = self.entries[i].1.clone();
            let ghost before = out@;
            out.push((k, v));
            proof {
                assert(pairs_of(out@) =~= pairs_of(before).push(self.pairs()[i as int]));
            }
            i = i + 1;
        }
        StateMap { entries: out }
    }
}

/// Distance from `k` to the next `}}` in `t`, if there is one.
pub open spec fn close_dist(t: Seq<char>, k: int) -> Option<nat>
    decreases t.len() - k,
{
    if k < 0 || k + 1 >= t.len() {
        None
    } else if t[k] == '}' && t[k + 1] == '}' {
        Some(0)
    } else {
        match close_dist(t, k + 1) {
            Some(d) => Some(d + 1),
            None => None,
        }
    }
}

/// The key of a placeholder that opens at `i`, and the index just past it,
/// when a complete `{{key}}` starts there.
pub open spec fn placeholder_at(t: Seq<char>, i: int) -> Option<(Seq<char>, int)> {
    if 0 <= i && i + 1 < t.len() && t[i] == '{' && t[i + 1] == '{' && close_dist(t, i + 2) is Some {
        let j = i + 2 + close_dist(t, i + 2)->Some_0;
        Some((t.subrange(i + 2, j), j + 2))
    } else {
        None
    }
}

/// `t` from index `i` on with every `{{key}}` whose key has a value replaced
/// by that value, scanning left to right; other text is kept as it is.
pub open spec fn subst_from(t: Seq<char>, i: int, st: Seq<(Seq<char>, Seq<char>)>) -> Seq<char>
    decreases (if i < t.len() { t.len() - i } else { 0 }),
{
    if i < 0 || i >= t.len() {
        Seq::empty()
    } else if placeholder_at(t, i) is Some && lookup(st, placeholder_at(t, i)->Some_0.0) is Some {
        let d: nat = close_dist(t, i + 2)->Some_0;
        lookup(st, placeholder_at(t, i)->Some_0.0)->Some_0 + subst_from(t, i + 4 + d, st)
    } else {
        seq![t[i]] + subst_from(t, i + 1, st)
    }
}

/// Every `{` of `t` from `i` on opens a placeholder whose key has a value.
pub open spec fn all_known(t: Seq<char>, i: int, st: Seq<(Seq<char>, Seq<char>)>) -> bool
    decreases (if i < t.len() { t.len() - i } else { 0 }),
{
    if i < 0 || i >= t.len() {
        true
    } else if placeholder_at(t, i) is Some && lookup(st, placeholder_at(t, i)->Some_0.0) is Some {
        let d: nat = close_dist(t, i + 2)->Some_0;
        all_known(t, i + 4 + d, st)
    } else {
        t[i] != '{' && all_known(t, i + 1, st)
    }
}

/// Whether `s` holds `{{` anywhere.
pub open spec fn has_open(s: Seq<char>) -> bool {
    exists|k: int| 0 <= k < s.len() - 1 && #[trigger] s[k] == '{' && s[k + 1] == '{'
}

proof fn lemma_lookup_in(e: Seq<(Seq<char>, Seq<char>)>, k: Seq<char>)
    requires
        lookup(e, k) is Some,
    ensures
        exists|i: int| 0 <= i < e.len() && e[i].1 == lookup(e, k)->Some_0,
    decreases e.len(),
{
    if e.last().0 != k {
        lemma_lookup_in(e.drop_last(), k);
        let i = choose|i: int| 0 <= i < e.len() - 1 && e.drop_last()[i].1 == lookup(e, k)->Some_0;
        assert(e[i] == e.drop_last()[i]);
    }
}

proof fn lemma_subst_plain(t: Seq<char>, i: int, st: StateMap)
    requires
        all_known(t, i, st.pairs()),
        st.values_plain(),
    ensures
        !subst_from(t, i, st.pairs()).contains('{'),
    decreases (if i < t.len() { t.len() - i } else { 0 }),
{
    let e = st.pairs();
    if 0 <= i < t.len() {
        if placeholder_at(t, i) is Some && lookup(e, placeholder_at(t, i)->Some_0.0) is Some {
            let key = placeholder_at(t, i)->Some_0.0;
            let d: nat = close_dist(t, i + 2)->Some_0;
            let next = i + 4 + d;
            lemma_subst_plain(t, next, st);
            lemma_lookup_in(e, key);
            let m = choose|m: int| 0 <= m < e.len() && e[m].1 == lookup(e, key)->Some_0;
            assert(!e[m].1.contains('{'));
            let v = lookup(e, key)->Some_0;
            let rest = subst_from(t, next, e);
            assert forall|k: int| 0 <= k < (v + rest).len() implies (v + rest)[k] != '{' by {
                if k < v.len() {
                    assert(v[k] == (v + rest)[k]);
                } else {
                    assert(rest[k - v.len()] == (v + rest)[k]);
                }
            }
        } else {
            lemma_subst_plain(t, i + 1, st);
            let rest = subst_from(t, i + 1, e);
            assert forall|k: int| 0 <= k < (seq![t[i]] + rest).len() implies (seq![t[i]] + rest)[k] != '{' by {
                if k > 0 {
                    assert(rest[k - 1] == (seq![t[i]] + rest)[k]);
                }
            }
        }
    }
}

/// Filling a template from a state that has a value for each of its
/// placeholders, none of which holds a `{`, leaves no `{{` behind.
pub proof fn lemma_substitution_complete(t: Seq<char>, st: StateMap)
    requires
        all_known(t, 0, st.pairs()),
        st.values_plain(),
    ensures
        !has_open(subst_from(t, 0, st.pairs())),
{
    lemma_subst_plain(t, 0, st);
    let s = subst_from(t, 0, st.pairs());
    if has_open(s) {
        let k = choose|k: int| 0 <= k < s.len() - 1 && #[trigger] s[k] == '{' && s[k + 1] == '{';
        assert(s.contains('{'));
    }
}

/// Fills the placeholders of one template line from `state`.
pub fn transform_row(row: &str, state: &StateMap) -> (r: String)
    ensures
        r@ == subst_from(row@, 0, state.pairs()),
{
    let n = row.unicode_len();
    let mut buffer = String::new();
    let mut i: usize = 0;
    while i < n
        invariant
            n == row@.len(),
            i <= n,
            subst_from(row@, 0, state.pairs()) == buffer@ + subst_from(row@, i as int, state.pairs()),
        decreases n - i,
    {
        let ghost t = row@;
        let mut replaced = false;
        if i + 1 < n && row.get_char(i) == '{' && row.get_char(i + 1) == '{' {
            let mut j: usize = i + 2;
            while j < n - 1 && !(row.get_char(j) == '}' && row.get_char(j + 1) == '}')
                invariant
                    n == t.len(),
                    t == row@,
                    i + 2 <= j <= n,
                    i + 1 < n,
                    t[i as int] == '{' && t[i + 1] == '{',
                    close_dist(t, i + 2) == match close_dist(t, j as int) {
                        Some(d) => Some((d + j - (i + 2)) as nat),
                        None => None::<nat>,
                    },
                decreases n - j,
            {
                j = j + 1;
            }
            if j < n - 1 {
                let key = row.substring_char(i + 2, j);
                proof {
                    assert(close_dist(t, j as int) == Some(0nat));
                    assert(placeholder_at(t, i as int) == Some((t.subrange(i + 2, j as int), j + 2)));
                }
                let found = state.get(key);
                if let Some(value) = found {
                    let ghost old_buffer = buffer@;
                    buffer.append(value.as_str());
                    proof {
                        assert(buffer@ + subst_from(t, j + 2, state.pairs()) =~= old_buffer + subst_from(t, i as int, state.pairs()));
                    }
                    i = j + 2;
                    replaced = true;
                }
            } else {
                proof {
                    assert(close_dist(t, j as int) is None);
                }
            }
        }
        if !replaced {
            let ghost old_buffer = buffer@;
            buffer.append(row.substring_char(i, i + 1));
            proof {
                assert(placeholder_at(t, i as int) is None || lookup(state.pairs(), placeholder_at(t, i as int)->Some_0.0) is None);
                assert(buffer@ + subst_from(t, i + 1, state.pairs()) =~= old_buffer + subst_from(t, i as int, state.pairs()));
            }
            i = i + 1;
        }
    }
    proof {
        assert(buffer@ + subst_from(row@, i as int, state.pairs()) =~= buffer@);
    }
    buffer
}

} // verus!
