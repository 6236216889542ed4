//! Counting colours to find the most frequent one.

use crate::pixel::{lemma_key_identifies, Pixel};
use std::collections::HashMap;
use vstd::prelude::*;

verus! {

/// How often `p` occurs in `s`.
pub open spec fn occurrences(s: Seq<Pixel>, p: Pixel) -> nat
    decreases s.len(),
{
    if s.len() == 0 {
        0
    } else {
        occurrences(s.drop_last(), p) + if s.last() == p {
            1nat
        } else {
            0nat
        }
    }
}

/// The colours of `s`, each once, in the order in which they first appear.
pub open spec fn first_seen(s: Seq<Pixel>) -> Seq<Pixel>
    decreases s.len(),
{
    if s.len() == 0 {
        Seq::empty()
    } else {
        let before = first_seen(s.drop_last());
        if before.contains(s.last()) {
            before
        } else {
            before.push(s.last())
        }
    }
}

/// `m` is the place, among the colours of `s` in order of first appearance,
/// of the first colour that no other colour outnumbers.
pub open spec fn is_first_peak(s: Seq<Pixel>, m: int) -> bool {
    let d = first_seen(s);
    &&& 0 <= m < d.len()
    &&& forall|j: int| 0 <= j < d.len() ==> occurrences(s, #[trigger] d[j]) <= occurrences(s, d[m])
    &&& forall|j: int| 0 <= j < m ==> occurrences(s, #[trigger] d[j]) < occurrences(s, d[m])
}

/// The place of the most frequent colour of a non-empty `s`.
pub open spec fn first_peak(s: Seq<Pixel>) -> int {
    choose|m: int| is_first_peak(s, m)
}

/// The most frequent colour of `s`; among several equally frequent, the one
/// that appears first. `None` for an empty sequence.
pub open spec fn most_frequent(s: Seq<Pixel>) -> Option<Pixel> {
    if s.len() == 0 {
        None
    } else {
        Some(first_seen(s)[first_peak(s)])
    }
}

/// One more pixel raises the count of its own colour by one, and no other.
pub proof fn lemma_occurrences_push(s: Seq<Pixel>, x: Pixel, p: Pixel)
    ensures
        occurrences(s.push(x), p) == occurrences(s, p) + if x == p {
            1nat
        } else {
            0nat
        },
{
    assert(s.push(x).drop_last() =~= s);
}

/// A colour occurs at most as often as there are pixels, and at least once
/// exactly if it is among them.
pub proof fn lemma_occurrences_bounds(s: Seq<Pixel>, p: Pixel)
    ensures
        occurrences(s, p) <= s.len(),
        occurrences(s, p) > 0 <==> s.contains(p),
    decreases s.len(),
{
    if s.len() > 0 {
        let front = s.drop_last();
        lemma_occurrences_bounds(front, p);
        if s.last() == p {
            assert(s[s.len() - 1] == p);
        } else if front.contains(p) {
            let i = choose|i: int| 0 <= i < front.len() && front[i] == p;
            assert(s[i] == p);
        } else if s.contains(p) {
            let i = choose|i: int| 0 <= i < s.len() && s[i] == p;
            assert(front[i] == p);
        }
    }
}

/// The colours in order of first appearance are the colours of the sequence.
pub proof fn lemma_first_seen_contains(s: Seq<Pixel>, p: Pixel)
    ensures
        first_seen(s).contains(p) <==> s.contains(p),
    decreases s.len(),
{
    if s.len() > 0 {
        let front = s.drop_last();
        let before = first_seen(front);
        lemma_first_seen_contains(front, p);
        if s.contains(p) {
            let i = choose|i: int| 0 <= i < s.len() && s[i] == p;
            if i < s.len() - 1 {
                assert(front[i] == p);
                let k = choose|k: int| 0 <= k < before.len() && before[k] == p;
                assert(first_seen(s)[k] == p);
            } else if before.contains(p) {
            } else {
                assert(first_seen(s)[before.len() as int] == p);
            }
        }
        if first_seen(s).contains(p) {
            let k = choose|k: int| 0 <= k < first_seen(s).len() && first_seen(s)[k] == p;
            if k < before.len() {
                assert(before[k] == p);
                let i = choose|i: int| 0 <= i < front.len() && front[i] == p;
                assert(s[i] == p);
            } else {
                assert(s[s.len() - 1] == p);
            }
        }
    }
}

/// How one more pixel extends the colours in order of first appearance.
pub proof fn lemma_first_seen_push(s: Seq<Pixel>, x: Pixel)
    ensures
        first_seen(s.push(x)) == if first_seen(s).contains(x) {
            first_seen(s)
        } else {
            first_seen(s).push(x)
        },
{
    assert(s.push(x).drop_last() =~= s);
}

/// At most one place is the first peak.
pub proof fn lemma_first_peak_unique(s: Seq<Pixel>, m: int, n: int)
    requires
        is_first_peak(s, m),
        is_first_peak(s, n),
    ensures
        m == n,
{
    let d = first_seen(s);
    if m < n {
        assert(occurrences(s, d[m]) < occurrences(s, d[n]));
        assert(occurrences(s, d[n]) <= occurrences(s, d[m]));
    } else if n < m {
        assert(occurrences(s, d[n]) < occurrences(s, d[m]));
        assert(occurrences(s, d[m]) <= occurrences(s, d[n]));
    }
}

/// The most frequent colour of a non-empty sequence occurs in it, and no
/// colour occurs more often.
pub proof fn lemma_most_frequent(s: Seq<Pixel>)
    requires
        s.len() > 0,
    ensures
        most_frequent(s) is Some,
        is_first_peak(s, first_peak(s)),
        s.contains(most_frequent(s)->0),
        forall|q: Pixel| #[trigger] occurrences(s, q) <= occurrences(s, most_frequent(s)->0),
{
    let d = first_seen(s);
    assert(s.contains(s[0]));
    lemma_first_seen_contains(s, s[0]);
    lemma_peak_exists(s, d.len() as int);
    let m = first_peak(s);
    assert(d.contains(d[m]));
    lemma_first_seen_contains(s, d[m]);
    assert forall|q: Pixel| #[trigger] occurrences(s, q) <= occurrences(s, d[m]) by {
        lemma_occurrences_bounds(s, q);
        lemma_first_seen_contains(s, q);
        if s.contains(q) {
            let j = choose|j: int| 0 <= j < d.len() && d[j] == q;
            assert(occurrences(s, d[j]) <= occurrences(s, d[m]));
        }
    }
}

/// `m` is the first peak among the first `n` colours.
spec fn is_partial_peak(s: Seq<Pixel>, n: int, m: int) -> bool {
    let d = first_seen(s);
    &&& 0 <= m < n <= d.len()
    &&& forall|j: int| 0 <= j < n ==> occurrences(s, #[trigger] d[j]) <= occurrences(s, d[m])
    &&& forall|j: int| 0 <= j < m ==> occurrences(s, #[trigger] d[j]) < occurrences(s, d[m])
}

/// Among the first `n` colours there is a first peak.
proof fn lemma_partial_peak_exists(s: Seq<Pixel>, n: int) -> (m: int)
    requires
        0 < n <= first_seen(s).len(),
    ensures
        is_partial_peak(s, n, m),
    decreases n,
{
    let d = first_seen(s);
    if n == 1 {
        0
    } else {
        let before = lemma_partial_peak_exists(s, n - 1);
        if occurrences(s, d[n - 1]) > occurrences(s, d[before]) {
            n - 1
        } else {
            before
        }
    }
}

/// A sequence with at least one colour has a first peak.
proof fn lemma_peak_exists(s: Seq<Pixel>, n: int)
    requires
        n == first_seen(s).len(),
        n > 0,
    ensures
        is_first_peak(s, first_peak(s)),
{
    let m = lemma_partial_peak_exists(s, n);
    assert(is_first_peak(s, m));
}

/// The key of a colour as it is stored.
pub open spec fn key32(p: Pixel) -> u32 {
    p.spec_key() as u32
}

/// A running count of colours that remembers the order in which they first
/// appeared.
pub struct Tally {
    colours: Vec<Pixel>,
    counts: Vec<u64>,
    index: HashMap<u32, usize>,
    seen: Ghost<Seq<Pixel>>,
}

impl View for Tally {
    type V = Seq<Pixel>;

    /// The pixels counted so far, in the order in which they were added.
    closed spec fn view(&self) -> Seq<Pixel> {
        self.seen@
    }
}

impl Tally {
    /// The counts are those of the pixels added so far.
    pub closed spec fn wf(&self) -> bool {
        &&& self.colours@ == first_seen(self.seen@)
        &&& self.counts.len() == self.colours.len()
        &&& forall|i: int|
            0 <= i < self.colours.len() ==> #[trigger] self.counts[i] == occurrences(
                self.seen@,
                self.colours[i],
            )
        &&& forall|p: Pixel| #[trigger]
            self.index@.contains_key(key32(p)) ==> self.index@[key32(p)] < self.colours.len()
                && self.colours[self.index@[key32(p)] as int] == p
        &&& forall|i: int|
            0 <= i < self.colours.len() ==> self.index@.contains_key(
                key32(#[trigger] self.colours[i]),
            ) && self.index@[key32(self.colours[i])] == i
    }

    /// A tally of nothing.
    pub fn new() -> (tally: Tally)
        ensures
            tally.wf(),
            tally@ == Seq::<Pixel>::empty(),
    {
        Tally {
            colours: Vec::new(),
            counts: Vec::new(),
            index: HashMap::new(),
            seen: Ghost(Seq::empty()),
        }
    }

    /// Counts one more pixel.
    pub fn add(&mut self, px: Pixel)
        requires
            old(self).wf(),
            old(self)@.len() < u64::MAX,
        ensures
            final(self).wf(),
            final(self)@ == old(self)@.push(px),
    {
        broadcast use vstd::std_specs::hash::group_hash_axioms;

        let ghost before = self.seen@;
        let ghost after = before.push(px);
        let k: u32 = px.key();
        assert(k == key32(px));
        proof {
            lemma_first_seen_push(before, px);
            assert forall|q: Pixel| #[trigger] occurrences(after, q) == occurrences(before, q) + if px == q {
                1nat
            } else {
                0nat
            } by {
                lemma_occurrences_push(before, px, q);
            }
            lemma_occurrences_bounds(before, px);
            lemma_first_seen_contains(before, px);
        }
        let found: Option<usize> = match self.index.get(&k) {
            Some(i) => Some(*i),
            None => None,
        };
        match found {
            Some(i) => {
                assert(self.index@.contains_key(key32(px)));
                assert(self.colours[i as int] == px);
                assert(first_seen(before).contains(px));
                let count: u64 = self.counts[i];
                self.counts.set(i, count + 1);
                self.seen = Ghost(after);
                proof {
                    assert forall|j: int| 0 <= j < self.colours.len() implies #[trigger] self.counts[j]
                        == occurrences(after, self.colours[j]) by {
                        if self.colours[j] == px {
                            assert(self.index@[key32(self.colours[j])] == j);
                        }
                    }
                }
            },
            None => {
                assert(!self.index@.contains_key(key32(px)));
                proof {
                    if first_seen(before).contains(px) {
                        let j = choose|j: int|
                            0 <= j < self.colours.len() && self.colours[j] == px;
                        assert(self.index@.contains_key(key32(self.colours[j])));
                    }
                }
                let ghost old_index = self.index@;
                let ghost old_colours = self.colours@;
                let place: usize = self.colours.len();
                self.colours.push(px);
                self.counts.push(1);
                self.index.insert(k, place);
                self.seen = Ghost(after);
                proof {
                    assert forall|p: Pixel| #[trigger]
                        self.index@.contains_key(key32(p)) implies self.index@[key32(p)]
                        < self.colours.len() && self.colours[self.index@[key32(p)] as int] == p by {
                        if key32(p) == k {
                            lemma_key_identifies(p, px);
                        } else {
                            assert(old_index.contains_key(key32(p)));
                        }
                    }
                    assert forall|i: int| 0 <= i < self.colours.len() implies self.index@.contains_key(
                        key32(#[trigger] self.colours[i]),
                    ) && self.index@[key32(self.colours[i])] == i by {
                        if i < place {
                            assert(old_colours[i] == self.colours[i]);
                            assert(old_index.contains_key(key32(old_colours[i])));
                            if key32(self.colours[i]) == k {
                                lemma_key_identifies(self.colours[i], px);
                            }
                        }
                    }
                    assert forall|j: int| 0 <= j < self.colours.len() implies #[trigger] self.counts[j]
                        == occurrences(after, self.colours[j]) by {
                        if j < place {
                            assert(old_colours[j] == self.colours[j]);
                            if self.colours[j] == px {
                                assert(old_index.contains_key(key32(old_colours[j])));
                            }
                        }
                    }
                }
            },
        }
    }

    /// The most frequent of the colours counted; among several equally
    /// frequent, the one that was added first.
    pub fn most_frequent(&self) -> (winner: Option<Pixel>)
        requires
            self.wf(),
        ensures
            winner == most_frequent(self@),
    {
        let ghost s = self.seen@;
        let n: usize = self.colours.len();
        if n == 0 {
            proof {
                if s.len() > 0 {
                    assert(s.contains(s[0]));
                    lemma_first_seen_contains(s, s[0]);
                }
            }
            return None;
        }
        proof {
            if s.len() == 0 {
                assert(first_seen(s).len() == 0);
            }
        }
        let mut best: usize = 0;
        let mut i: usize = 1;
        while i < n
            invariant
                self.wf(),
                s == self.seen@,
                n == self.colours.len(),
                1 <= i <= n,
                is_partial_peak(s, i as int, best as int),
            decreases n - i,
        {
            if self.counts[i] > self.counts[best] {
                best = i;
            }
            i = i + 1;
        }
        proof {
            assert(is_first_peak(s, best as int));
            lemma_most_frequent(s);
            lemma_first_peak_unique(s, best as int, first_peak(s));
        }
        Some(self.colours[best])
    }
}

} // verus!
