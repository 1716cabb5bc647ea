//! Fuzzy re-ranking of the choice collection: every choice's priority is
//! rewritten to the negated match score of its text against the current
//! input, so that higher relevance sorts first and non-matches sort last.

use vstd::prelude::*;

use crate::choices::{
    has_key, keys_of, keys_sorted, lemma_sorted_keys_unique, ChoiceKey, ChoiceSet,
};
use crate::types::Choice;

verus! {

/// What the fuzzy matcher scores a text against a pattern; `None` is a
/// non-match. A function of the two texts alone.
pub uninterp spec fn fuzzy_score_of(text: Seq<char>, pattern: Seq<char>) -> Option<i64>;

/// Relies on fuzzy_matcher's `SkimMatcherV2::fuzzy_match` under the default
/// configuration: the score depends on the two texts alone.
#[verifier::external_body]
fn skim_score(text: &str, pattern: &str) -> (r: Option<i64>)
    ensures
        r == fuzzy_score_of(text@, pattern@),
{
    fuzzy_matcher::FuzzyMatcher::fuzzy_match(
        &fuzzy_matcher::skim::SkimMatcherV2::default(),
        text,
        pattern,
    )
}

/// The priority a score sorts under: the negated score, so that the most
/// relevant choice carries the smallest priority; a non-match sorts last.
pub open spec fn spec_priority(score: Option<i64>) -> int {
    match score {
        Option::Some(s) => if s == i64::MIN {
            i64::MAX as int
        } else {
            -(s as int)
        },
        Option::None => i64::MAX as int,
    }
}

fn score_priority(score: Option<i64>) -> (r: i64)
    ensures
        r as int == spec_priority(score),
{
    match score {
        Some(s) => if s == i64::MIN {
            i64::MAX
        } else {
            -s
        },
        None => i64::MAX,
    }
}

/// The key a choice carries after re-scoring against `pattern`: same id and
/// text, priority recomputed from the text alone.
pub open spec fn rescored_key(k: ChoiceKey, pattern: Seq<char>) -> ChoiceKey {
    (spec_priority(fuzzy_score_of(k.2, pattern)), k.1, k.2)
}

impl ChoiceSet {
    /// Re-score every choice against the current input and re-order the
    /// collection accordingly; the selected position is left as it was and
    /// is re-clamped by the caller once the order settles.
    pub fn fuzzy_sort(&mut self, input: &str)
        ensures
            keys_sorted(final(self).keys()),
            forall|k: ChoiceKey|
                has_key(final(self).keys(), k) == exists|j: ChoiceKey|
                    has_key(old(self).keys(), j) && k == #[trigger] rescored_key(j, input@),
            final(self).selected == old(self).selected,
    {
        let ghost orig = self.keys();
        let mut rebuilt = ChoiceSet { options: Vec::new(), selected: self.selected };
        let mut i: usize = 0;
        let n: usize = self.options.len();
        loop
            invariant
                *self == *old(self),
                orig == old(self).keys(),
                i <= n,
                n == self.options@.len(),
                keys_sorted(rebuilt.keys()),
                rebuilt.selected == old(self).selected,
                forall|k: ChoiceKey|
                    has_key(rebuilt.keys(), k) == exists|j: ChoiceKey|
                        has_key(orig.take(i as int), j) && k == #[trigger] rescored_key(j, input@),
            ensures
                *self == *old(self),
                keys_sorted(rebuilt.keys()),
                rebuilt.selected == old(self).selected,
                forall|k: ChoiceKey|
                    has_key(rebuilt.keys(), k) == exists|j: ChoiceKey|
                        has_key(orig, j) && k == #[trigger] rescored_key(j, input@),
            decreases n - i,
        {
            if i == n {
                proof {
                    assert(orig.take(i as int) =~= orig);
                }
                break;
            }
            let mut c: Choice = self.options[i].clone();
            proof {
                assert(self.keys()[i as int] == self.options@[i as int]@);
            }
            let ghost old_key = c@;
            c.priority = score_priority(skim_score(c.text.as_str(), input));
            proof {
                assert(c@ == rescored_key(old_key, input@));
            }
            let ghost before = rebuilt.keys();
            rebuilt.insert(c);
            proof {
                let prefix = orig.take(i as int);
                let next = orig.take(i + 1);
                assert(next[i as int] == orig[i as int]);
                assert(next[i as int] == old_key);
                assert forall|k: ChoiceKey|
                    #[trigger] has_key(rebuilt.keys(), k) == (exists|j: ChoiceKey|
                        has_key(next, j) && k == #[trigger] rescored_key(j, input@)) by {
                    if has_key(rebuilt.keys(), k) {
                        if has_key(before, k) {
                            let j = choose|j: ChoiceKey|
                                has_key(prefix, j) && k == #[trigger] rescored_key(j, input@);
                            let m = choose|m: int| 0 <= m < prefix.len() && prefix[m] == j;
                            assert(next[m] == j);
                            assert(has_key(next, j));
                        } else {
                            assert(k == c@);
                            assert(has_key(next, old_key));
                            assert(k == rescored_key(old_key, input@));
                        }
                    }
                    if exists|j: ChoiceKey|
                        has_key(next, j) && k == #[trigger] rescored_key(j, input@) {
                        let j = choose|j: ChoiceKey|
                            has_key(next, j) && k == #[trigger] rescored_key(j, input@);
                        let m = choose|m: int| 0 <= m < next.len() && next[m] == j;
                        if m < i {
                            assert(prefix[m] == j);
                            assert(has_key(prefix, j));
                            assert(has_key(before, k));
                        } else {
                            assert(j == old_key);
                            assert(k == c@);
                        }
                        assert(has_key(rebuilt.keys(), k));
                    }
                }
            }
            i = i + 1;
        }
        self.options = rebuilt.options;
        proof {
            assert(self.keys() == rebuilt.keys());
        }
    }
}

/// Fuzzy re-sorting is idempotent while the input text does not change:
/// re-ranking the outcome of a re-ranking against the same pattern gives
/// back exactly the same order. `once` and `twice` are the key runs of the
/// first and second outcome, each related to its source as `fuzzy_sort`
/// relates its result to its argument.
pub proof fn lemma_fuzzy_sort_idempotent(
    orig: Seq<ChoiceKey>,
    once: Seq<ChoiceKey>,
    twice: Seq<ChoiceKey>,
    pattern: Seq<char>,
)
    requires
        keys_sorted(once),
        keys_sorted(twice),
        forall|k: ChoiceKey|
            has_key(once, k) == exists|j: ChoiceKey|
                has_key(orig, j) && k == #[trigger] rescored_key(j, pattern),
        forall|k: ChoiceKey|
            has_key(twice, k) == exists|j: ChoiceKey|
                has_key(once, j) && k == #[trigger] rescored_key(j, pattern),
    ensures
        twice =~= once,
{
    assert forall|k: ChoiceKey| has_key(twice, k) == has_key(once, k) by {
        if has_key(twice, k) {
            let j = choose|j: ChoiceKey|
                has_key(once, j) && k == #[trigger] rescored_key(j, pattern);
            let m = choose|m: ChoiceKey|
                has_key(orig, m) && j == #[trigger] rescored_key(m, pattern);
            assert(j == rescored_key(j, pattern));
            assert(k == j);
        }
        if has_key(once, k) {
            let m = choose|m: ChoiceKey|
                has_key(orig, m) && k == #[trigger] rescored_key(m, pattern);
            assert(rescored_key(k, pattern) == k);
            assert(has_key(twice, k));
        }
    }
    lemma_sorted_keys_unique(twice, once);
}

} // verus!
