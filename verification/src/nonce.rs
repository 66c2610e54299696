//! A bounded single-use nonce window: the replay defence for control frames
//! that arrive with a nonce (adoption tickets, local control, signal-session
//! handshakes). Fixed capacity; the oldest entry is evicted.

use vstd::prelude::*;

use crate::text::bytes_eq;

verus! {

/// The last `n` entries of `s` (all of them when there are fewer).
pub open spec fn last_n(s: Seq<Seq<u8>>, n: nat) -> Seq<Seq<u8>> {
    if s.len() <= n {
        s
    } else {
        s.subrange(s.len() - n, s.len() as int)
    }
}

/// Remembers the last `N` nonces accepted since it was made or cleared.
#[derive(Clone)]
pub struct NonceWindow<const N: usize> {
    /// Ring storage: filled from the front, then overwritten at `next`.
    seen: Vec<[u8; 32]>,
    /// Where the next nonce goes once the ring is full.
    next: usize,
    /// Every nonce accepted since the window was made or cleared, in order.
    accepted: Ghost<Seq<Seq<u8>>>,
}

impl<const N: usize> NonceWindow<N> {
    /// The stored entries, each as bytes, in storage order.
    spec fn slots(&self) -> Seq<Seq<u8>> {
        self.seen@.map_values(|a: [u8; 32]| a@)
    }

    /// The window, oldest entry first.
    pub closed spec fn window(&self) -> Seq<Seq<u8>> {
        let s = self.slots();
        if s.len() < N {
            s
        } else {
            s.subrange(self.next as int, s.len() as int) + s.subrange(0, self.next as int)
        }
    }

    /// Every nonce accepted since the window was made or last cleared.
    pub closed spec fn accepted(&self) -> Seq<Seq<u8>> {
        self.accepted@
    }

    /// The ring is laid out as described, and its window is the last `N`
    /// accepted nonces.
    pub closed spec fn wf(&self) -> bool {
        &&& self.seen@.len() <= N
        &&& self.seen@.len() < N ==> self.next == self.seen@.len()
        &&& self.seen@.len() == N && N > 0 ==> self.next < N
        &&& self.window() == last_n(self.accepted@, N as nat)
        &&& self.window().no_duplicates()
    }

    /// An empty window.
    pub fn new() -> (r: Self)
        ensures
            r.wf(),
            r@ == Seq::<Seq<u8>>::empty(),
            r.accepted() == Seq::<Seq<u8>>::empty(),
    {
        let r = NonceWindow { seen: Vec::new(), next: 0, accepted: Ghost(Seq::empty()) };
        assert(r.slots() =~= Seq::<Seq<u8>>::empty());
        assert(r.window() =~= last_n(r.accepted@, N as nat));
        r
    }

    /// Every byte string stored in the ring is in the window, and the other
    /// way round.
    proof fn lemma_window_same_entries(&self, x: Seq<u8>)
        requires
            self.wf(),
        ensures
            self.window().contains(x) <==> self.slots().contains(x),
    {
        let s = self.slots();
        let w = self.window();
        if s.len() >= N {
            let k = self.next as int;
            if w.contains(x) {
                let i = choose|i: int| 0 <= i < w.len() && w[i] == x;
                if i < s.len() - k {
                    assert(s[k + i] == x);
                } else {
                    assert(s[i - (s.len() - k)] == x);
                }
            }
            if s.contains(x) {
                let j = choose|j: int| 0 <= j < s.len() && s[j] == x;
                if j >= k {
                    assert(w[j - k] == x);
                } else {
                    assert(w[s.len() - k + j] == x);
                }
            }
        }
    }

    /// True when `nonce` has been seen and is still in the window.
    pub fn contains(&self, nonce: &[u8; 32]) -> (r: bool)
        requires
            self.wf(),
        ensures
            r == self@.contains(nonce@),
    {
        let mut i: usize = 0;
        while i < self.seen.len()
            invariant
                self.wf(),
                i <= self.seen@.len(),
                forall|j: int| 0 <= j < i ==> self.slots()[j] != nonce@,
            decreases self.seen@.len() - i,
        {
            if bytes_eq(&self.seen[i], nonce) {
                assert(self.slots()[i as int] == nonce@);
                proof {
                    self.lemma_window_same_entries(nonce@);
                }
                return true;
            }
            i += 1;
        }
        proof {
            self.lemma_window_same_entries(nonce@);
            if self.slots().contains(nonce@) {
                let j = choose|j: int| 0 <= j < self.slots().len() && self.slots()[j] == nonce@;
                assert(self.slots()[j] != nonce@);
            }
        }
        false
    }

    /// Record `nonce`. Returns `false` (and records nothing) when it was
    /// already seen, or when the window holds nothing (`N == 0`): the caller
    /// must reject the frame.
    pub fn check_and_insert(&mut self, nonce: &[u8; 32]) -> (r: bool)
        requires
            old(self).wf(),
        ensures
            final(self).wf(),
            r == (N > 0 && !old(self)@.contains(nonce@)),
            r ==> final(self).accepted() == old(self).accepted().push(nonce@),
            r ==> final(self)@ == if old(self)@.len() < N {
                old(self)@.push(nonce@)
            } else {
                old(self)@.drop_first().push(nonce@)
            },
            !r ==> final(self).accepted() == old(self).accepted() && final(self)@ == old(self)@,
    {
        if N == 0 || self.contains(nonce) {
            return false;
        }
        let ghost old_w = self.window();
        let ghost old_s = self.slots();
        let ghost acc = self.accepted@;
        if self.seen.len() < N {
            self.seen.push(*nonce);
            assert(self.slots() =~= old_s.push(nonce@));
        } else {
            let k = self.next;
            self.seen.set(k, *nonce);
            assert(self.slots() =~= old_s.update(k as int, nonce@));
        }
        self.next = if self.next + 1 == N {
            0
        } else {
            self.next + 1
        };
        self.accepted = Ghost(acc.push(nonce@));
        proof {
            let s = self.slots();
            let na = acc.push(nonce@);
            if old_s.len() < N {
                if s.len() < N {
                    assert(last_n(na, N as nat) =~= last_n(acc, N as nat).push(nonce@));
                } else {
                    assert(self.next == 0);
                    assert(self.window() =~= s);
                    assert(s =~= old_w.push(nonce@));
                    assert(last_n(na, N as nat) =~= last_n(acc, N as nat).push(nonce@));
                }
            } else {
                assert(acc.len() >= N) by {
                    assert(last_n(acc, N as nat).len() == N);
                }
                assert(last_n(na, N as nat) =~= last_n(acc, N as nat).drop_first().push(
                    nonce@,
                ));
                assert(self.window() =~= old_w.drop_first().push(nonce@));
            }
            let w = self.window();
            assert forall|i: int, j: int| 0 <= i < w.len() && 0 <= j < w.len() && i != j
                implies w[i] != w[j] by {
                if i == w.len() - 1 || j == w.len() - 1 {
                    let k = if i == w.len() - 1 { j } else { i };
                    assert(w[k] == old_w[if old_s.len() < N { k } else { k + 1 }]);
                    assert(!old_w.contains(nonce@));
                } else {
                    assert(w[i] == old_w[if old_s.len() < N { i } else { i + 1 }]);
                    assert(w[j] == old_w[if old_s.len() < N { j } else { j + 1 }]);
                }
            }
        }
        true
    }

    /// Entries held.
    pub fn len(&self) -> (r: usize)
        requires
            self.wf(),
        ensures
            r == self@.len(),
    {
        self.seen.len()
    }

    /// True when nothing has been seen.
    pub fn is_empty(&self) -> (r: bool)
        requires
            self.wf(),
        ensures
            r == (self@.len() == 0),
    {
        self.seen.len() == 0
    }

    /// Forget everything.
    pub fn clear(&mut self)
        requires
            old(self).wf(),
        ensures
            final(self).wf(),
            final(self)@ == Seq::<Seq<u8>>::empty(),
            final(self).accepted() == Seq::<Seq<u8>>::empty(),
    {
        self.seen.clear();
        self.next = 0;
        self.accepted = Ghost(Seq::empty());
        assert(self.slots() =~= Seq::<Seq<u8>>::empty());
        assert(self.window() =~= last_n(self.accepted@, N as nat));
    }
}

impl<const N: usize> View for NonceWindow<N> {
    type V = Seq<Seq<u8>>;

    /// The nonces held, oldest first.
    closed spec fn view(&self) -> Seq<Seq<u8>> {
        self.window()
    }
}

impl<const N: usize> Default for NonceWindow<N> {
    fn default() -> (r: Self)
        ensures
            r.wf(),
            r@ == Seq::<Seq<u8>>::empty(),
            r.accepted() == Seq::<Seq<u8>>::empty(),
    {
        Self::new()
    }
}

/// **Replay is rejected until evicted.** A window holds exactly the last `N`
/// nonces it accepted: a nonce is refused while it is among them, and taken
/// again once `N` newer ones have pushed it out.
pub proof fn lemma_window_is_last_accepted<const N: usize>(w: NonceWindow<N>)
    requires
        w.wf(),
    ensures
        w@ == last_n(w.accepted(), N as nat),
        w@.len() <= N,
{
}

/// **The window never holds a nonce twice**, so its length is the number
/// of distinct nonces it holds, and a full window that takes a new nonce
/// forgets exactly the oldest one.
pub proof fn lemma_window_distinct<const N: usize>(w: NonceWindow<N>)
    requires
        w.wf(),
    ensures
        w@.no_duplicates(),
        w@.len() == w@.to_set().len(),
{
    w@.unique_seq_to_set();
}

} // verus!
