//! The ring topology: an ordered, cyclic sequence of node addresses with a
//! cursor. Index 0 is the coordinator's own address; `next` advances the
//! cursor cyclically and returns the address it lands on.

use vstd::prelude::*;

verus! {

/// Where the cursor moves on one advance: one step forward, wrapping to 0
/// past the end.
pub open spec fn next_cursor(c: int, len: int) -> int {
    if c + 1 >= len {
        0
    } else {
        c + 1
    }
}

/// The cursor after `k` advances from `c` in a ring of length `len`.
pub open spec fn kth_next_cursor(c: int, len: int, k: nat) -> int
    decreases k,
{
    if k == 0 {
        c
    } else {
        next_cursor(kth_next_cursor(c, len, (k - 1) as nat), len)
    }
}

pub struct RingBuffer {
    data: Vec<String>,
    current_index: usize,
}

impl RingBuffer {
    /// The addresses, in ring order.
    pub closed spec fn ring(&self) -> Seq<Seq<char>> {
        self.data@.map(|_i: int, s: String| s@)
    }

    pub closed spec fn cursor(&self) -> int {
        self.current_index as int
    }

    pub closed spec fn wf(&self) -> bool {
        if self.data.len() == 0 {
            self.current_index == 0
        } else {
            self.current_index < self.data.len()
        }
    }

    pub fn new(data: Vec<String>) -> (r: Self)
        ensures
            r.wf(),
            r.ring() == data@.map(|_i: int, s: String| s@),
            r.cursor() == 0,
    {
        Self { data, current_index: 0 }
    }

    /// Advance the cursor one position, wrapping past the end, and return
    /// the address now under it.
    pub fn next(&mut self) -> (r: String)
        requires
            old(self).wf(),
            old(self).ring().len() > 0,
        ensures
            final(self).wf(),
            final(self).ring() == old(self).ring(),
            final(self).cursor() == next_cursor(old(self).cursor(), old(self).ring().len() as int),
            r@ == old(self).ring()[final(self).cursor()],
    {
        if self.current_index + 1 >= self.data.len() {
            self.current_index = 0;
        } else {
            self.current_index = self.current_index + 1;
        }
        let r = self.data[self.current_index].clone();
        assert(r@ == self.ring()[self.cursor()]);
        r
    }

    pub fn len(&self) -> (r: usize)
        ensures
            r == self.ring().len(),
    {
        self.data.len()
    }

    pub fn at(&self, index: usize) -> (r: String)
        requires
            index < self.ring().len(),
        ensures
            r@ == self.ring()[index as int],
    {
        let r = self.data[index].clone();
        assert(r@ == self.ring()[index as int]);
        r
    }
}

impl Clone for RingBuffer {
    fn clone(&self) -> (r: Self)
        ensures
            r.ring() == self.ring(),
            r.cursor() == self.cursor(),
            r.wf() == self.wf(),
    {
        let data = self.data.clone();
        assert(data@ =~= self.data@);
        let r = RingBuffer { data, current_index: self.current_index };
        assert(r.ring() =~= self.ring());
        r
    }
}

/// After `k` advances the cursor stands at `(c + k) % len`.
pub proof fn lemma_kth_next_cursor_mod(c: int, len: int, k: nat)
    requires
        0 < len,
        0 <= c < len,
    ensures
        kth_next_cursor(c, len, k) == (c + k) % len,
    decreases k,
{
    if k == 0 {
        vstd::arithmetic::div_mod::lemma_small_mod(c as nat, len as nat);
    } else {
        lemma_kth_next_cursor_mod(c, len, (k - 1) as nat);
        let prev = kth_next_cursor(c, len, (k - 1) as nat);
        vstd::arithmetic::div_mod::lemma_mod_bound(c + k - 1, len);
        if prev + 1 >= len {
            assert(prev == len - 1);
            vstd::arithmetic::div_mod::lemma_add_mod_noop(c + k - 1, 1, len);
            if len == 1 {
                vstd::arithmetic::div_mod::lemma_mod_self_0(len);
                assert((c + k) % len == 0);
            } else {
                vstd::arithmetic::div_mod::lemma_small_mod(1 as nat, len as nat);
                vstd::arithmetic::div_mod::lemma_mod_self_0(len);
                assert(((c + k - 1) % len + 1int % len) % len == (c + k) % len);
                assert((prev + 1) % len == 0) by {
                    vstd::arithmetic::div_mod::lemma_mod_self_0(len);
                };
                assert((c + k) % len == 0);
            }
        } else {
            vstd::arithmetic::div_mod::lemma_add_mod_noop(c + k - 1, 1, len);
            if len == 1 {
                assert(false);
            } else {
                vstd::arithmetic::div_mod::lemma_small_mod(1 as nat, len as nat);
                vstd::arithmetic::div_mod::lemma_small_mod((prev + 1) as nat, len as nat);
            }
        }
    }
}

/// Advancing is cyclic: a full lap of `len` advances puts the cursor back
/// where it stood, so the address returned by advance `k + len` equals the
/// one returned by advance `k`, for every `k >= 1`. In particular, starting
/// from the coordinator at index 0, the first advance yields the address at
/// index 1 and so does advance `len + 1`: the sequence of returned
/// addresses repeats itself lap after lap.
pub proof fn lemma_advance_cycle(c: int, len: int, k: nat)
    requires
        0 < len,
        0 <= c < len,
    ensures
        kth_next_cursor(c, len, (k + len) as nat) == kth_next_cursor(c, len, k),
        kth_next_cursor(c, len, len as nat) == c,
{
    lemma_kth_next_cursor_mod(c, len, k);
    lemma_kth_next_cursor_mod(c, len, (k + len) as nat);
    lemma_kth_next_cursor_mod(c, len, len as nat);
    vstd::arithmetic::div_mod::lemma_mod_add_multiples_vanish(c + k, len);
    vstd::arithmetic::div_mod::lemma_mod_add_multiples_vanish(c, len);
    vstd::arithmetic::div_mod::lemma_small_mod(c as nat, len as nat);
}

/// The address the k-th advance returns, in a ring with the given
/// addresses and starting cursor.
pub open spec fn kth_advance_result(ring: Seq<Seq<char>>, c: int, k: nat) -> Seq<char> {
    ring[kth_next_cursor(c, ring.len() as int, k)]
}

/// The returned addresses repeat lap after lap: the advance after a full
/// lap returns the same address as the one a lap earlier. Starting at the
/// coordinator (cursor 0), the first advance returns the address at index
/// 1, and so does advance number `len + 1`.
pub proof fn lemma_advance_results_repeat(ring: Seq<Seq<char>>, c: int, k: nat)
    requires
        ring.len() > 0,
        0 <= c < ring.len(),
    ensures
        kth_advance_result(ring, c, (k + ring.len()) as nat) == kth_advance_result(ring, c, k),
{
    lemma_advance_cycle(c, ring.len() as int, k);
}

} // verus!
