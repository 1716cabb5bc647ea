//! The ordered, deduplicated collection of choices, and the order it keeps:
//! choices sort by `(priority, id, text)`, never by insertion order.

use vstd::prelude::*;

use crate::types::Choice;

verus! {

/// The view of one choice: `(priority, id, text)`.
pub type ChoiceKey = (int, int, Seq<char>);

/// Lexicographic order on text, by character code.
pub open spec fn text_lt(a: Seq<char>, b: Seq<char>) -> bool
    decreases a.len(),
{
    if b.len() == 0 {
        false
    } else if a.len() == 0 {
        true
    } else if (a[0] as u32) < (b[0] as u32) {
        true
    } else if (b[0] as u32) < (a[0] as u32) {
        false
    } else {
        text_lt(a.drop_first(), b.drop_first())
    }
}

/// The strict order of the choice collection: priority first, then id, then text.
pub open spec fn key_lt(a: ChoiceKey, b: ChoiceKey) -> bool {
    ||| a.0 < b.0
    ||| (a.0 == b.0 && a.1 < b.1)
    ||| (a.0 == b.0 && a.1 == b.1 && text_lt(a.2, b.2))
}

/// `key_lt`, weakened to admit equality.
pub open spec fn key_le(a: ChoiceKey, b: ChoiceKey) -> bool {
    key_lt(a, b) || a == b
}

/// Exactly one of `text_lt(a, b)`, `text_lt(b, a)`, `a == b` holds.
pub proof fn lemma_text_lt_trichotomy(a: Seq<char>, b: Seq<char>)
    ensures
        text_lt(a, b) || text_lt(b, a) || a == b,
        text_lt(a, b) ==> !text_lt(b, a) && a != b,
        text_lt(b, a) ==> !text_lt(a, b) && a != b,
    decreases a.len(),
{
    if a.len() == 0 || b.len() == 0 {
        if a.len() == 0 && b.len() == 0 {
            assert(a =~= b);
        }
    } else if (a[0] as u32) == (b[0] as u32) {
        vstd::utf8::char_u32_cast(a[0], a[0] as u32);
        vstd::utf8::char_u32_cast(b[0], b[0] as u32);
        assert(a[0] == b[0]);
        lemma_text_lt_trichotomy(a.drop_first(), b.drop_first());
        if a.drop_first() == b.drop_first() {
            assert forall|k: int| 0 <= k < a.len() implies a[k] == b[k] by {
                if k > 0 {
                    assert(a[k] == a.drop_first()[k - 1]);
                    assert(b[k] == b.drop_first()[k - 1]);
                }
            }
            assert(a =~= b);
        }
        if a == b {
            assert(a.drop_first() =~= b.drop_first());
        }
    }
}

pub proof fn lemma_text_lt_transitive(a: Seq<char>, b: Seq<char>, c: Seq<char>)
    requires
        text_lt(a, b),
        text_lt(b, c),
    ensures
        text_lt(a, c),
    decreases a.len() + b.len() + c.len(),
{
    if a.len() != 0 && c.len() != 0 {
        if b.len() == 0 {
        } else {
            if (a[0] as u32) == (c[0] as u32) && (a[0] as u32) == (b[0] as u32) {
                lemma_text_lt_transitive(a.drop_first(), b.drop_first(), c.drop_first());
            }
        }
    }
}

pub proof fn lemma_key_lt_trichotomy(a: ChoiceKey, b: ChoiceKey)
    ensures
        key_lt(a, b) || key_lt(b, a) || a == b,
        key_lt(a, b) ==> !key_lt(b, a) && a != b,
        key_lt(b, a) ==> !key_lt(a, b) && a != b,
{
    lemma_text_lt_trichotomy(a.2, b.2);
    if a.0 == b.0 && a.1 == b.1 && a.2 == b.2 {
        assert(a == b);
    }
}

pub proof fn lemma_key_lt_transitive(a: ChoiceKey, b: ChoiceKey, c: ChoiceKey)
    requires
        key_lt(a, b),
        key_lt(b, c),
    ensures
        key_lt(a, c),
{
    if a.0 == b.0 && b.0 == c.0 && a.1 == b.1 && b.1 == c.1 {
        lemma_text_lt_transitive(a.2, b.2, c.2);
    }
}

/// Three-way comparison of two texts by character code.
///
/// Returns a negative, zero, or positive answer as `a` is below, equal to,
/// or above `b` in `text_lt`.
pub fn text_cmp(a: &str, b: &str) -> (r: i8)
    ensures
        -1 <= r <= 1,
        (r == -1) == text_lt(a@, b@),
        (r == 1) == text_lt(b@, a@),
        (r == 0) == (a@ == b@),
{
    proof {
        lemma_text_lt_trichotomy(a@, b@);
    }
    let a_len: usize = a.unicode_len();
    let b_len: usize = b.unicode_len();
    let mut i: usize = 0;
    loop
        invariant
            i <= a_len,
            i <= b_len,
            a_len == a@.len(),
            b_len == b@.len(),
            a@.take(i as int) =~= b@.take(i as int),
            text_lt(a@, b@) || text_lt(b@, a@) || a@ == b@,
            text_lt(a@, b@) ==> !text_lt(b@, a@) && a@ != b@,
            text_lt(b@, a@) ==> !text_lt(a@, b@) && a@ != b@,
        decreases a_len - i,
    {
        proof {
            lemma_text_lt_skip(a@, b@, i as int);
        }
        if i == a_len {
            if i == b_len {
                proof {
                    assert(a@.take(i as int) =~= a@);
                    assert(b@.take(i as int) =~= b@);
                    assert(a@ =~= b@);
                }
                return 0;
            }
            return -1;
        }
        if i == b_len {
            return 1;
        }
        let ca: char = a.get_char(i);
        let cb: char = b.get_char(i);
        if (ca as u32) < (cb as u32) {
            return -1;
        }
        if (cb as u32) < (ca as u32) {
            return 1;
        }
        proof {
            assert(ca == cb);
            assert(a@.take(i + 1) =~= b@.take(i + 1));
        }
        i = i + 1;
    }
}

/// Where two texts agree on a prefix, their order is decided past it.
proof fn lemma_text_lt_skip(a: Seq<char>, b: Seq<char>, i: int)
    requires
        0 <= i <= a.len(),
        i <= b.len(),
        a.take(i) =~= b.take(i),
    ensures
        text_lt(a, b) == text_lt(a.skip(i), b.skip(i)),
    decreases i,
{
    if i > 0 {
        assert(a.len() > 0 && b.len() > 0);
        assert(a.take(i)[0] == a[0]);
        assert(b.take(i)[0] == b[0]);
        assert(a[0] == b[0]);
        assert(a.drop_first().take(i - 1) =~= a.take(i).drop_first());
        assert(b.drop_first().take(i - 1) =~= b.take(i).drop_first());
        lemma_text_lt_skip(a.drop_first(), b.drop_first(), i - 1);
        assert(a.drop_first().skip(i - 1) =~= a.skip(i));
        assert(b.drop_first().skip(i - 1) =~= b.skip(i));
        assert(text_lt(a, b) == text_lt(a.drop_first(), b.drop_first()));
    } else {
        assert(a.skip(0) =~= a);
        assert(b.skip(0) =~= b);
    }
}

/// Three-way comparison of two choices in the collection order.
pub fn choice_cmp(a: &Choice, b: &Choice) -> (r: i8)
    ensures
        -1 <= r <= 1,
        (r == -1) == key_lt(a@, b@),
        (r == 1) == key_lt(b@, a@),
        (r == 0) == (a@ == b@),
{
    proof {
        lemma_key_lt_trichotomy(a@, b@);
    }
    if a.priority < b.priority {
        return -1;
    }
    if b.priority < a.priority {
        return 1;
    }
    if a.id < b.id {
        return -1;
    }
    if b.id < a.id {
        return 1;
    }
    text_cmp(a.text.as_str(), b.text.as_str())
}

/// The keys of a run of choices, in order.
pub open spec fn keys_of(options: Seq<Choice>) -> Seq<ChoiceKey> {
    options.map_values(|c: Choice| c@)
}

/// Strictly ascending in the collection order; strictness also rules out
/// duplicates.
pub open spec fn keys_sorted(ks: Seq<ChoiceKey>) -> bool {
    forall|i: int, j: int| 0 <= i < j < ks.len() ==> key_lt(#[trigger] ks[i], #[trigger] ks[j])
}

/// Whether some element of `ks` is `k`.
pub open spec fn has_key(ks: Seq<ChoiceKey>, k: ChoiceKey) -> bool {
    exists|i: int| 0 <= i < ks.len() && ks[i] == k
}

/// Two strictly sorted runs with the same members are the same run.
pub proof fn lemma_sorted_keys_unique(x: Seq<ChoiceKey>, y: Seq<ChoiceKey>)
    requires
        keys_sorted(x),
        keys_sorted(y),
        forall|k: ChoiceKey| has_key(x, k) == has_key(y, k),
    ensures
        x =~= y,
    decreases x.len(),
{
    if x.len() == 0 {
        if y.len() > 0 {
            assert(has_key(y, y[0]));
        }
    } else if y.len() == 0 {
        assert(has_key(x, x[0]));
    } else {
        assert(has_key(x, x[0]));
        assert(has_key(y, y[0]));
        let i = choose|i: int| 0 <= i < y.len() && y[i] == x[0];
        let j = choose|j: int| 0 <= j < x.len() && x[j] == y[0];
        lemma_key_lt_trichotomy(x[0], y[0]);
        if key_lt(x[0], y[0]) {
            assert(key_le(y[0], y[i]));
            lemma_key_lt_trichotomy(y[0], y[i]);
            assert(false);
        }
        if key_lt(y[0], x[0]) {
            assert(key_le(x[0], x[j]));
            lemma_key_lt_trichotomy(x[0], x[j]);
            assert(false);
        }
        assert(x[0] == y[0]);
        let xt = x.drop_first();
        let yt = y.drop_first();
        assert forall|k: ChoiceKey| has_key(xt, k) == has_key(yt, k) by {
            lemma_tail_membership(x, k);
            lemma_tail_membership(y, k);
        }
        lemma_sorted_keys_unique(xt, yt);
        assert forall|m: int| 0 <= m < x.len() implies x[m] == y[m] by {
            if m > 0 {
                assert(x[m] == xt[m - 1]);
                assert(y[m] == yt[m - 1]);
            }
        }
    }
}

/// In a strictly sorted, nonempty run, the tail holds exactly the members
/// other than the head.
proof fn lemma_tail_membership(x: Seq<ChoiceKey>, k: ChoiceKey)
    requires
        keys_sorted(x),
        x.len() > 0,
    ensures
        has_key(x.drop_first(), k) == (has_key(x, k) && k != x[0]),
{
    let xt = x.drop_first();
    if has_key(xt, k) {
        let i = choose|i: int| 0 <= i < xt.len() && xt[i] == k;
        assert(x[i + 1] == k);
        assert(key_lt(x[0], x[i + 1]));
        lemma_key_lt_trichotomy(x[0], k);
        assert(has_key(x, k));
    }
    if has_key(x, k) && k != x[0] {
        let i = choose|i: int| 0 <= i < x.len() && x[i] == k;
        assert(i > 0);
        assert(xt[i - 1] == k);
        assert(has_key(xt, k));
    }
}

/// An ordered, deduplicated collection of choices, with an optional selected
/// position into the order.
#[derive(Debug, Clone)]
pub struct ChoiceSet {
    pub options: Vec<Choice>,
    pub selected: Option<usize>,
}

impl ChoiceSet {
    /// The keys of the collection, in storage order.
    pub open spec fn keys(&self) -> Seq<ChoiceKey> {
        keys_of(self.options@)
    }

    /// A selected position, if any, points inside the collection.
    pub open spec fn selected_in_range(&self) -> bool {
        match self.selected {
            Some(s) => s < self.options.len(),
            None => true,
        }
    }

    /// Well-formed: strictly sorted (hence deduplicated), selection in range.
    pub open spec fn wf(&self) -> bool {
        keys_sorted(self.keys()) && self.selected_in_range()
    }

    pub fn new() -> (r: ChoiceSet)
        ensures
            r.options@.len() == 0,
            r.selected is None,
            r.wf(),
    {
        ChoiceSet { options: Vec::new(), selected: None }
    }

    pub fn len(&self) -> (r: usize)
        ensures
            r == self.options@.len(),
    {
        self.options.len()
    }

    pub fn is_empty(&self) -> (r: bool)
        ensures
            r == (self.options@.len() == 0),
    {
        self.options.len() == 0
    }

    /// Place one choice at its position in the order; a choice already
    /// present (same priority, id and text) is not added again.
    pub fn insert(&mut self, c: Choice)
        requires
            keys_sorted(old(self).keys()),
        ensures
            keys_sorted(final(self).keys()),
            forall|k: ChoiceKey|
                has_key(final(self).keys(), k) == (has_key(old(self).keys(), k) || k == c@),
            final(self).selected == old(self).selected,
    {
        let ghost old_keys = self.keys();
        let mut i: usize = 0;
        loop
            invariant
                keys_sorted(old_keys),
                old_keys == old(self).keys(),
                self == old(self),
                i <= old_keys.len(),
                forall|m: int| 0 <= m < i ==> key_lt(#[trigger] old_keys[m], c@),
            ensures
                self == old(self),
                i <= old_keys.len(),
                forall|m: int| 0 <= m < i ==> key_lt(#[trigger] old_keys[m], c@),
                i < old_keys.len() ==> key_lt(c@, old_keys[i as int]),
            decreases old_keys.len() - i,
        {
            if i == self.options.len() {
                break;
            }
            proof {
                assert(self.keys()[i as int] == self.options@[i as int]@);
            }
            let ord: i8 = choice_cmp(&self.options[i], &c);
            if ord == 0 {
                proof {
                    assert(old_keys[i as int] == c@);
                    assert(has_key(old_keys, c@));
                }
                return;
            }
            if ord == 1 {
                break;
            }
            i = i + 1;
        }
        proof {
            assert forall|m: int| i <= m < old_keys.len() implies key_lt(c@, #[trigger] old_keys[m]) by {
                if m > i {
                    assert(key_lt(old_keys[i as int], old_keys[m]));
                    lemma_key_lt_transitive(c@, old_keys[i as int], old_keys[m]);
                }
            }
        }
        self.options.insert(i, c);
        proof {
            old(self).options@.insert_ensures(i as int, c);
            let new_keys = self.keys();
            assert forall|m: int| 0 <= m < new_keys.len() implies #[trigger] new_keys[m] == (
            if m < i {
                old_keys[m]
            } else if m == i {
                c@
            } else {
                old_keys[m - 1]
            }) by {
                assert(new_keys[m] == self.options@[m]@);
                if m < i {
                    assert(self.options@[m] == old(self).options@[m]);
                    assert(old_keys[m] == old(self).options@[m]@);
                } else if m > i {
                    assert(self.options@[m] == old(self).options@[m - 1]);
                    assert(old_keys[m - 1] == old(self).options@[m - 1]@);
                }
            }
            assert forall|m: int, n: int| 0 <= m < n < new_keys.len() implies key_lt(
                new_keys[m],
                new_keys[n],
            ) by {
                if m < i {
                    assert(new_keys[m] == old_keys[m]);
                }
                if m > i {
                    assert(new_keys[m] == old_keys[m - 1]);
                }
                if n < i {
                    assert(new_keys[n] == old_keys[n]);
                }
                if n > i {
                    assert(new_keys[n] == old_keys[n - 1]);
                }
                if m < i && n > i {
                    lemma_key_lt_transitive(old_keys[m], c@, old_keys[n - 1]);
                }
            }
            assert forall|k: ChoiceKey|
                has_key(new_keys, k) == (has_key(old_keys, k) || k == c@) by {
                if has_key(new_keys, k) {
                    let m = choose|m: int| 0 <= m < new_keys.len() && new_keys[m] == k;
                    if m < i {
                        assert(old_keys[m] == k);
                    } else if m > i {
                        assert(old_keys[m - 1] == k);
                    }
                }
                if has_key(old_keys, k) {
                    let m = choose|m: int| 0 <= m < old_keys.len() && old_keys[m] == k;
                    if m < i {
                        assert(new_keys[m] == k);
                    } else {
                        assert(new_keys[m + 1] == k);
                    }
                }
                if k == c@ {
                    assert(new_keys[i as int] == k);
                }
            }
        }
    }

    /// Build the collection from choices in any order, dropping repeats;
    /// the selected position is taken as sent and checked only when applied.
    pub fn from_vec(v: Vec<Choice>, selected: Option<usize>) -> (r: ChoiceSet)
        ensures
            keys_sorted(r.keys()),
            forall|k: ChoiceKey| has_key(r.keys(), k) == has_key(keys_of(v@), k),
            r.selected == selected,
    {
        let mut r = ChoiceSet { options: Vec::new(), selected };
        let mut i: usize = 0;
        let v_len: usize = v.len();
        loop
            invariant
                i <= v@.len(),
                v_len == v@.len(),
                keys_sorted(r.keys()),
                r.selected == selected,
                forall|k: ChoiceKey| has_key(r.keys(), k) == has_key(keys_of(v@.take(i as int)), k),
            ensures
                keys_sorted(r.keys()),
                r.selected == selected,
                forall|k: ChoiceKey| has_key(r.keys(), k) == has_key(keys_of(v@), k),
            decreases v@.len() - i,
        {
            if i == v_len {
                proof {
                    assert(v@.take(i as int) =~= v@);
                }
                break;
            }
            let c: Choice = v[i].clone();
            proof {
                assert(c@ == v@[i as int]@);
            }
            r.insert(c);
            proof {
                let prefix = keys_of(v@.take(i as int));
                let next = keys_of(v@.take(i + 1));
                assert(next.len() == prefix.len() + 1);
                assert forall|m: int| 0 <= m < prefix.len() implies #[trigger] prefix[m] == v@[m]@ by {
                    assert(prefix[m] == v@.take(i as int)[m]@);
                }
                assert forall|m: int| 0 <= m < next.len() implies #[trigger] next[m] == v@[m]@ by {
                    assert(next[m] == v@.take(i + 1)[m]@);
                }
                assert forall|k: ChoiceKey| has_key(next, k) == (has_key(prefix, k) || k
                    == v@[i as int]@) by {
                    if has_key(next, k) {
                        let m = choose|m: int| 0 <= m < next.len() && next[m] == k;
                        if m < i {
                            assert(prefix[m] == k);
                        } else {
                            assert(next[m] == v@[i as int]@);
                        }
                    }
                    if has_key(prefix, k) {
                        let m = choose|m: int| 0 <= m < prefix.len() && prefix[m] == k;
                        assert(next[m] == k);
                    }
                    if k == v@[i as int]@ {
                        assert(next[i as int] == k);
                    }
                }
            }
            i = i + 1;
        }
        r
    }

    /// The selected position after the collection changed: positions past the
    /// end move to the last entry, and an empty collection clears it.
    pub open spec fn spec_clamp(selected: Option<usize>, len: nat) -> Option<usize> {
        match selected {
            Option::Some(s) => if len == 0 {
                Option::None
            } else if s >= len {
                Option::Some((len - 1) as usize)
            } else {
                Option::Some(s)
            },
            Option::None => Option::None,
        }
    }

    /// The rows as a list view shows them: each choice paired with its
    /// position and the selected position, in collection order.
    pub fn rows(&self) -> (r: Vec<(crate::types::Indices, Choice)>)
        ensures
            r@.len() == self.options@.len(),
            forall|m: int|
                0 <= m < r@.len() ==> {
                    &&& (#[trigger] r@[m]).0.current == m
                    &&& r@[m].0.selected == self.selected
                    &&& r@[m].1@ == self.options@[m]@
                },
    {
        let mut r: Vec<(crate::types::Indices, Choice)> = Vec::new();
        let n: usize = self.options.len();
        let mut i: usize = 0;
        while i < n
            invariant
                i <= n,
                n == self.options@.len(),
                r@.len() == i,
                forall|m: int|
                    0 <= m < i ==> {
                        &&& (#[trigger] r@[m]).0.current == m
                        &&& r@[m].0.selected == self.selected
                        &&& r@[m].1@ == self.options@[m]@
                    },
            decreases n - i,
        {
            r.push(
                (
                    crate::types::Indices { current: i, selected: self.selected },
                    self.options[i].clone(),
                ),
            );
            i = i + 1;
        }
        r
    }

    /// Re-clamp the selected position to the current membership.
    pub fn clamp_selected(&mut self)
        ensures
            final(self).options == old(self).options,
            final(self).selected == Self::spec_clamp(old(self).selected, old(self).options@.len()),
            final(self).selected_in_range(),
    {
        match self.selected {
            Some(s) => {
                if self.options.len() == 0 {
                    self.selected = None;
                } else if s >= self.options.len() {
                    self.selected = Some(self.options.len() - 1);
                }
            },
            None => {},
        }
    }
}

/// A request sent by the remote client for the interaction surface.
#[derive(Debug, Clone)]
pub enum ClientRequest {
    Stop,
    SetChoices(ChoiceSet),
    SetInput(String),
}

} // verus!
