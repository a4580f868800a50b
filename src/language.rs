use vstd::prelude::*;

use crate::bundle::views_of;

verus! {

/// One confident guess of the language-identification primitive: a language
/// tag and a confidence weight.
pub struct LanguageGuess {
    pub tag: String,
    pub confidence: u32,
}

/// Running totals of guess confidence, by language tag. Reading the best
/// guess empties it.
pub struct LanguageAggregator {
    tags: Vec<String>,
    totals: Vec<u64>,
}

/// The map from each tag to its total, later entries over earlier ones.
pub open spec fn totals_map(tags: Seq<Seq<char>>, totals: Seq<u64>) -> Map<Seq<char>, u64>
    decreases tags.len(),
{
    if tags.len() == 0 || totals.len() == 0 {
        Map::empty()
    } else {
        totals_map(tags.drop_last(), totals.drop_last()).insert(tags.last(), totals.last())
    }
}

/// `a + b`, held at `u64::MAX`.
pub open spec fn saturated_sum(a: u64, b: u64) -> u64 {
    if a + b > u64::MAX {
        u64::MAX
    } else {
        (a + b) as u64
    }
}

/// The totals after recording `guess`: unchanged for no guess; otherwise
/// the guess's confidence added to its tag's total, from zero for a new tag.
pub open spec fn recorded(m: Map<Seq<char>, u64>, guess: Option<LanguageGuess>) -> Map<
    Seq<char>,
    u64,
> {
    match guess {
        None => m,
        Some(g) => {
            let before = if m.contains_key(g.tag@) {
                m[g.tag@]
            } else {
                0
            };
            m.insert(g.tag@, saturated_sum(before, g.confidence as u64))
        },
    }
}

/// `best` is what reading the totals `before` gives, and `after` is what
/// is left: nothing at all. There is no best for no totals; otherwise the
/// best is a tag with the highest total.
pub open spec fn consumed(
    before: Map<Seq<char>, u64>,
    after: Map<Seq<char>, u64>,
    best: Option<String>,
) -> bool {
    &&& after == Map::<Seq<char>, u64>::empty()
    &&& best is None <==> before.dom().is_empty()
    &&& best is Some ==> {
        &&& before.contains_key(best->0@)
        &&& forall|k: Seq<char>| #[trigger] before.contains_key(k) ==> before[k] <= before[best->0@]
    }
}

impl View for LanguageAggregator {
    type V = Map<Seq<char>, u64>;

    closed spec fn view(&self) -> Map<Seq<char>, u64> {
        totals_map(views_of(self.tags@), self.totals@)
    }
}

proof fn lemma_map_entries(tags: Seq<Seq<char>>, totals: Seq<u64>)
    requires
        tags.len() == totals.len(),
        forall|i: int, j: int| 0 <= i < j < tags.len() ==> tags[i] != tags[j],
    ensures
        forall|i: int| 0 <= i < tags.len() ==> #[trigger] totals_map(tags, totals).contains_key(tags[i])
            && totals_map(tags, totals)[tags[i]] == totals[i],
        forall|k: Seq<char>| #[trigger]
            totals_map(tags, totals).contains_key(k) ==> exists|i: int|
                0 <= i < tags.len() && tags[i] == k,
    decreases tags.len(),
{
    if tags.len() > 0 {
        let init = tags.drop_last();
        let inner = totals_map(init, totals.drop_last());
        lemma_map_entries(init, totals.drop_last());
        let m = totals_map(tags, totals);
        assert(m == inner.insert(tags.last(), totals.last()));
        assert forall|i: int| 0 <= i < tags.len() implies #[trigger] m.contains_key(tags[i])
            && m[tags[i]] == totals[i] by {
            if i < tags.len() - 1 {
                assert(init[i] == tags[i]);
                assert(inner.contains_key(init[i]));
            }
        }
        assert forall|k: Seq<char>| #[trigger] m.contains_key(k) implies exists|i: int|
            0 <= i < tags.len() && tags[i] == k by {
            if k != tags.last() {
                assert(inner.contains_key(k));
                let i = choose|i: int| 0 <= i < init.len() && init[i] == k;
                assert(tags[i] == k);
            } else {
                assert(tags[tags.len() - 1] == k);
            }
        }
    }
}

proof fn lemma_map_update(tags: Seq<Seq<char>>, totals: Seq<u64>, i: int, v: u64)
    requires
        tags.len() == totals.len(),
        0 <= i < tags.len(),
        forall|a: int, b: int| 0 <= a < b < tags.len() ==> tags[a] != tags[b],
    ensures
        totals_map(tags, totals.update(i, v)) == totals_map(tags, totals).insert(tags[i], v),
    decreases tags.len(),
{
    let t2 = totals.update(i, v);
    if i == tags.len() - 1 {
        assert(t2.drop_last() == totals.drop_last());
        assert(totals_map(tags, t2) =~= totals_map(tags, totals).insert(tags[i], v));
    } else {
        lemma_map_update(tags.drop_last(), totals.drop_last(), i, v);
        assert(t2.drop_last() == totals.drop_last().update(i, v));
        assert(tags[i] != tags.last());
        assert(totals_map(tags, t2) =~= totals_map(tags, totals).insert(tags[i], v));
    }
}

impl LanguageAggregator {
    /// Are the tags distinct, one total each?
    pub closed spec fn wf(&self) -> bool {
        &&& self.tags.len() == self.totals.len()
        &&& forall|i: int, j: int|
            0 <= i < j < self.tags.len() ==> self.tags@[i]@ != self.tags@[j]@
    }

    /// An aggregator with no totals.
    pub fn new() -> (r: Self)
        ensures
            r.wf(),
            r@ == Map::<Seq<char>, u64>::empty(),
    {
        LanguageAggregator { tags: Vec::new(), totals: Vec::new() }
    }

    /// Adds a guess of the language-identification primitive to the totals.
    /// No guess (no confident answer) changes nothing. Totals saturate at
    /// `u64::MAX`.
    pub fn record(&mut self, guess: Option<LanguageGuess>)
        requires
            old(self).wf(),
        ensures
            final(self).wf(),
            final(self)@ == recorded(old(self)@, guess),
    {
        let g = match guess {
            None => return,
            Some(g) => g,
        };
        let ghost tv = views_of(self.tags@);
        proof {
            lemma_map_entries(tv, self.totals@);
        }
        let n = self.tags.len();
        let mut i: usize = 0;
        while i < n
            invariant
                self.wf(),
                n == self.tags.len(),
                tv == views_of(self.tags@),
                self.tags@ == old(self).tags@,
                self.totals@ == old(self).totals@,
                guess == Some(g),
                i <= n,
                forall|j: int| 0 <= j < i ==> self.tags@[j]@ != g.tag@,
            decreases n - i,
        {
            if self.tags[i] == g.tag {
                let sum = self.totals[i].saturating_add(g.confidence as u64);
                proof {
                    lemma_map_entries(tv, self.totals@);
                    lemma_map_update(tv, self.totals@, i as int, sum);
                }
                self.totals.set(i, sum);
                return;
            }
            i = i + 1;
        }
        let ghost old_tags = self.tags@;
        let ghost old_totals = self.totals@;
        proof {
            lemma_map_entries(tv, self.totals@);
            assert(!self@.contains_key(g.tag@)) by {
                if self@.contains_key(g.tag@) {
                    let j = choose|j: int| 0 <= j < tv.len() && tv[j] == g.tag@;
                    assert(self.tags@[j]@ == g.tag@);
                }
            }
        }
        self.tags.push(g.tag);
        self.totals.push(g.confidence as u64);
        proof {
            assert(views_of(self.tags@).drop_last() == views_of(old_tags));
            assert(self.totals@.drop_last() == old_totals);
        }
    }

    /// The tag with the highest total, or none when there are no totals;
    /// either way the totals are emptied. Among equal totals the winner is
    /// the one recorded first.
    pub fn consume_best(&mut self) -> (best: Option<String>)
        requires
            old(self).wf(),
        ensures
            final(self).wf(),
            consumed(old(self)@, final(self)@, best),
    {
        let ghost tv = views_of(self.tags@);
        proof {
            lemma_map_entries(tv, self.totals@);
        }
        let n = self.tags.len();
        let mut best: Option<String> = None;
        if n > 0 {
            let mut top: usize = 0;
            let mut i: usize = 1;
            while i < n
                invariant
                    self.wf(),
                    n == self.tags.len(),
                    0 < n,
                    top < i <= n,
                    forall|j: int| 0 <= j < i ==> self.totals@[j] <= self.totals@[top as int],
                decreases n - i,
            {
                if self.totals[i] > self.totals[top] {
                    top = i;
                }
                i = i + 1;
            }
            best = Some(self.tags[top].clone());
            proof {
                lemma_map_entries(tv, self.totals@);
                let m = self@;
                assert(m.contains_key(tv[top as int]));
                assert forall|k: Seq<char>| #[trigger] m.contains_key(k) implies m[k] <= m[tv[top as int]] by {
                    let j = choose|j: int| 0 <= j < tv.len() && tv[j] == k;
                }
            }
        } else {
            proof {
                assert(self@ =~= Map::<Seq<char>, u64>::empty());
            }
        }
        self.tags = Vec::new();
        self.totals = Vec::new();
        best
    }
}

/// Once the best guess has been read, reading it again with nothing recorded
/// in between gives no guess.
pub proof fn lemma_consume_twice(
    first: Map<Seq<char>, u64>,
    between: Map<Seq<char>, u64>,
    last: Map<Seq<char>, u64>,
    best: Option<String>,
    again: Option<String>,
)
    requires
        consumed(first, between, best),
        consumed(between, last, again),
    ensures
        again is None,
{
}

} // verus!
