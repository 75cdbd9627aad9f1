//! Append-only queue simulator.
//!
//! Folds a sequence of queries into a running digest (the "queue state")
//! and retains a checkpoint state for every prefix, so that later stages
//! can cut the queue anywhere and hand the proving backend the exact
//! boundary states.

use crate::queries::QueueItem;
use vstd::prelude::*;

verus! {

/// An accumulator value summarizing a prefix of a queue: a fixed-size
/// digest plus the number of absorbed items.
#[derive(Clone, Copy, PartialEq, Eq, Structural, Debug)]
pub struct QueueState {
    pub digest: u64,
    pub length: u64,
}

/// The state of a queue with nothing absorbed.
pub open spec fn empty_state() -> QueueState {
    QueueState { digest: 0, length: 0 }
}

/// One mixing step of the digest: absorbs a single word.
#[verifier::opaque]
pub open spec fn mix(d: u64, w: u64) -> u64 {
    d.wrapping_mul(0x9E3779B97F4A7C15).wrapping_add(w).wrapping_add(0xD1B54A32D192ED03)
}

/// Absorbs a sequence of words into the digest, first word first.
pub open spec fn fold_words(d: u64, ws: Seq<u64>) -> u64
    decreases ws.len(),
{
    if ws.len() == 0 {
        d
    } else {
        fold_words(mix(d, ws[0]), ws.drop_first())
    }
}

/// The transition function of the queue: absorbing one item.
pub open spec fn absorb<T: QueueItem>(s: QueueState, item: T) -> QueueState {
    QueueState {
        digest: fold_words(s.digest, item.encoding()),
        length: if s.length < u64::MAX {
            (s.length + 1) as u64
        } else {
            0
        },
    }
}

/// The state after absorbing `items` in order, starting from the empty
/// state.
pub open spec fn state_after<T: QueueItem>(items: Seq<T>) -> QueueState
    decreases items.len(),
{
    if items.len() == 0 {
        empty_state()
    } else {
        absorb(state_after(items.drop_last()), items.last())
    }
}

/// Absorbing one more word extends the fold on the right.
pub proof fn lemma_fold_words_push(d: u64, ws: Seq<u64>, w: u64)
    ensures
        fold_words(d, ws.push(w)) == mix(fold_words(d, ws), w),
    decreases ws.len(),
{
    let s = ws.push(w);
    assert(s.len() > 0);
    assert(fold_words(d, s) == fold_words(mix(d, s[0]), s.drop_first()));
    if ws.len() == 0 {
        assert(s[0] == w);
        assert(s.drop_first() =~= Seq::<u64>::empty());
        assert(fold_words(mix(d, w), s.drop_first()) == mix(d, w));
    } else {
        assert(s[0] == ws[0]);
        assert(s.drop_first() =~= ws.drop_first().push(w));
        lemma_fold_words_push(mix(d, ws[0]), ws.drop_first(), w);
    }
}

/// Absorbing one more item extends the state fold on the right.
pub proof fn lemma_state_after_push<T: QueueItem>(items: Seq<T>, q: T)
    ensures
        state_after(items.push(q)) == absorb(state_after(items), q),
{
    assert(items.push(q).drop_last() =~= items);
    assert(items.push(q).last() == q);
}

/// One executable mixing step of the digest.
pub fn mix_words(d: u64, w: u64) -> (r: u64)
    ensures
        r == mix(d, w),
{
    proof {
        reveal(mix);
    }
    d.wrapping_mul(0x9E3779B97F4A7C15).wrapping_add(w).wrapping_add(0xD1B54A32D192ED03)
}

/// Computes the word fold of the digest, one mixing step per word.
pub fn fold_digest(d0: u64, words: &Vec<u64>) -> (d: u64)
    ensures
        d == fold_words(d0, words@),
{
    let mut d = d0;
    let mut i: usize = 0;
    while i < words.len()
        invariant
            0 <= i <= words@.len(),
            d == fold_words(d0, words@.take(i as int)),
        decreases words@.len() - i,
    {
        proof {
            reveal(mix);
            assert(words@.take(i + 1) =~= words@.take(i as int).push(words@[i as int]));
            lemma_fold_words_push(d0, words@.take(i as int), words@[i as int]);
        }
        d = d.wrapping_mul(0x9E3779B97F4A7C15).wrapping_add(words[i]).wrapping_add(
            0xD1B54A32D192ED03,
        );
        i = i + 1;
    }
    proof {
        assert(words@.take(words@.len() as int) =~= words@);
    }
    d
}

/// Append-only accumulator for one query category: owns the growing
/// sequence of queries together with the checkpoint state recorded after
/// each of them. Past entries are never mutated.
pub struct QueueSimulator<T: QueueItem> {
    queries: Vec<T>,
    states: Vec<QueueState>,
    tail: QueueState,
}

impl<T: QueueItem + Copy> QueueSimulator<T> {
    /// The queries absorbed so far, in order.
    pub closed spec fn view(&self) -> Seq<T> {
        self.queries@
    }

    /// Well-formedness: one checkpoint per absorbed prefix, and the tail
    /// state summarizes the whole queue.
    pub closed spec fn wf(&self) -> bool {
        &&& self.states@.len() == self.queries@.len()
        &&& self.tail == state_after(self.queries@)
        &&& forall|i: int|
            0 <= i < self.states@.len() ==> #[trigger] self.states@[i] == state_after(
                self.queries@.take(i + 1),
            )
    }

    /// The state as of the prefix of length `n`.
    pub open spec fn spec_state_at(&self, n: int) -> QueueState {
        state_after(self.view().take(n))
    }

    /// Creates an empty queue.
    pub fn new() -> (r: Self)
        ensures
            r.wf(),
            r@ == Seq::<T>::empty(),
    {
        let r = QueueSimulator {
            queries: Vec::new(),
            states: Vec::new(),
            tail: QueueState { digest: 0, length: 0 },
        };
        proof {
            assert(r.queries@ =~= Seq::<T>::empty());
        }
        r
    }

    /// Number of queries absorbed so far.
    pub fn len(&self) -> (n: usize)
        requires
            self.wf(),
        ensures
            n == self@.len(),
    {
        self.queries.len()
    }

    /// The state summarizing the whole queue so far.
    pub fn tail_state(&self) -> (s: QueueState)
        requires
            self.wf(),
        ensures
            s == state_after(self@),
    {
        self.tail
    }

    /// Absorbs one query, records the resulting checkpoint, and returns
    /// the new state.
    pub fn append(&mut self, q: T) -> (s: QueueState)
        requires
            old(self).wf(),
        ensures
            final(self).wf(),
            final(self)@ == old(self)@.push(q),
            s == state_after(final(self)@),
    {
        let words = q.encode();
        let d = fold_digest(self.tail.digest, &words);
        let new_len = if self.tail.length < u64::MAX {
            self.tail.length + 1
        } else {
            0
        };
        let s = QueueState { digest: d, length: new_len };
        self.queries.push(q);
        self.states.push(s);
        self.tail = s;
        proof {
            let oldq = old(self).queries@;
            assert(self.queries@ == oldq.push(q));
            lemma_state_after_push(oldq, q);
            assert(s == absorb(state_after(oldq), q));
            assert forall|j: int| 0 <= j < self.states@.len() implies #[trigger] self.states@[j]
                == state_after(self.queries@.take(j + 1)) by {
                if j < self.states@.len() - 1 {
                    assert(self.queries@.take(j + 1) =~= oldq.take(j + 1));
                    assert(old(self).states@[j] == state_after(oldq.take(j + 1)));
                } else {
                    assert(self.queries@.take(j + 1) =~= self.queries@);
                }
            }
        }
        s
    }

    /// Read access to the absorbed queries, for stages that walk the
    /// queue again.
    pub fn items(&self) -> (r: &Vec<T>)
        ensures
            r@ == self@,
    {
        &self.queries
    }

    /// The checkpoint recorded after the first `index` queries, for
    /// callers that can show `index` is in range.
    pub fn checkpoint(&self, index: usize) -> (s: QueueState)
        requires
            self.wf(),
            index <= self@.len(),
        ensures
            s == self.spec_state_at(index as int),
    {
        if index == 0 {
            proof {
                assert(self@.take(0) =~= Seq::<T>::empty());
            }
            QueueState { digest: 0, length: 0 }
        } else {
            proof {
                assert(self@.take(index as int) =~= self.queries@.take((index - 1) + 1));
            }
            self.states[index - 1]
        }
    }

    /// Looks up the checkpoint recorded after the first `index` queries.
    /// Returns an out-of-range error when `index` exceeds the number of
    /// appended items.
    pub fn state_at(&self, index: usize) -> (r: Result<QueueState, OutOfRangeError>)
        requires
            self.wf(),
        ensures
            r is Ok <==> index <= self@.len(),
            r is Ok ==> r->Ok_0 == self.spec_state_at(index as int),
            r is Err ==> r->Err_0.requested == index && r->Err_0.length == self@.len(),
    {
        if index > self.queries.len() {
            Err(OutOfRangeError { requested: index, length: self.queries.len() })
        } else if index == 0 {
            proof {
                assert(self@.take(0) =~= Seq::<T>::empty());
            }
            Ok(QueueState { digest: 0, length: 0 })
        } else {
            proof {
                assert(self@.take(index as int) =~= self.queries@.take((index - 1) + 1));
            }
            Ok(self.states[index - 1])
        }
    }
}

/// A `state_at` request beyond the number of appended items.
#[derive(Clone, Copy, PartialEq, Eq, Structural, Debug)]
pub struct OutOfRangeError {
    /// The prefix length asked for.
    pub requested: usize,
    /// The number of items actually appended.
    pub length: usize,
}

/// The state recorded after `n` appends is a pure function of the first
/// `n` absorbed queries only: two queues that agree on their first `n`
/// queries agree on every checkpoint up to `n`, whatever was appended
/// afterwards and in whatever order.
pub proof fn lemma_state_at_depends_on_prefix_only<T: QueueItem + Copy>(
    a: QueueSimulator<T>,
    b: QueueSimulator<T>,
    n: int,
)
    requires
        0 <= n <= a@.len(),
        n <= b@.len(),
        a@.take(n) == b@.take(n),
    ensures
        a.spec_state_at(n) == b.spec_state_at(n),
{
}

} // verus!
