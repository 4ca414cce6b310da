//! Fixed-capacity circular sample queue.
//!
//! The buffer holds `i32` fixed-point samples. Appending beyond the free
//! space silently drops the oldest unread samples — the producer never
//! blocks and receives no backpressure signal. The consumer advances the
//! read cursor with [`RingBuffer::discard`], reads the occupied region
//! without copying through [`RingBuffer::access`] (up to two contiguous
//! slices, because of wraparound), and may move the content into a larger
//! allocation with [`RingBuffer::grow`], which preserves the unread content
//! and its order in full.
//!
//! The abstract state is [`RingBuffer::contents`]: the sequence of unread
//! samples, oldest first.

use vstd::prelude::*;

verus! {

use vstd::arithmetic::div_mod::{lemma_add_mod_noop, lemma_mod_multiples_vanish, lemma_small_mod};
use vstd::slice::slice_subrange;

/// What appending `d` to a buffer with unread content `c` and capacity `cap`
/// leaves unread: everything, or the newest `cap` samples once the total
/// overflows.
pub open spec fn push_result(c: Seq<i32>, d: Seq<i32>, cap: int) -> Seq<i32> {
    if c.len() + d.len() <= cap {
        c + d
    } else {
        (c + d).skip(c.len() + d.len() - cap)
    }
}

/// Fixed-capacity circular queue of `i32` samples, lossy on overflow.
pub struct RingBuffer {
    storage: Vec<i32>,
    head: usize,
    size: usize,
}

impl RingBuffer {
    /// Internal consistency: the cursor lies inside the storage, the
    /// occupied length never exceeds the capacity, and the capacity is
    /// positive and small enough that index arithmetic cannot overflow.
    pub closed spec fn wf(&self) -> bool {
        &&& 1 <= self.storage@.len()
        &&& self.storage@.len() <= usize::MAX as int / 2
        &&& (self.head as int) < self.storage@.len()
        &&& self.size <= self.storage@.len()
    }

    /// Total number of samples the buffer can hold.
    pub closed spec fn capacity_spec(&self) -> int {
        self.storage@.len() as int
    }

    /// The unread samples, oldest first.
    pub closed spec fn contents(&self) -> Seq<i32> {
        let cap = self.storage@.len() as int;
        Seq::new(self.size as nat, |i: int| self.storage@[(self.head + i) % cap])
    }

    /// The occupied length never exceeds the capacity.
    pub proof fn lemma_len_le_capacity(&self)
        requires
            self.wf(),
        ensures
            self.contents().len() <= self.capacity_spec(),
    {
    }

    /// Creates a buffer of the given capacity, initially empty.
    pub fn new(capacity: usize) -> (r: RingBuffer)
        requires
            1 <= capacity <= usize::MAX / 2,
        ensures
            r.wf(),
            r.capacity_spec() == capacity,
            r.contents() == Seq::<i32>::empty(),
    {
        let mut storage: Vec<i32> = Vec::with_capacity(capacity);
        while storage.len() < capacity
            invariant
                storage@.len() <= capacity,
            decreases capacity - storage@.len(),
        {
            storage.push(0);
        }
        let r = RingBuffer { storage, head: 0, size: 0 };
        proof {
            assert(r.contents() =~= Seq::<i32>::empty());
        }
        r
    }

    /// Number of unread samples.
    pub fn len(&self) -> (r: usize)
        ensures
            r == self.contents().len(),
    {
        self.size
    }

    /// Total capacity.
    pub fn capacity(&self) -> (r: usize)
        ensures
            r == self.capacity_spec(),
    {
        self.storage.len()
    }

    /// Appends one sample, dropping the oldest unread sample if full.
    fn push_one(&mut self, v: i32)
        requires
            old(self).wf(),
        ensures
            final(self).wf(),
            final(self).capacity_spec() == old(self).capacity_spec(),
            final(self).contents() == (if old(self).contents().len() < old(self).capacity_spec() {
                old(self).contents().push(v)
            } else {
                old(self).contents().skip(1).push(v)
            }),
    {
        let ghost c = self.storage@.len() as int;
        let ghost h0 = self.head as int;
        let ghost s0 = self.size as int;
        let ghost old_contents = self.contents();
        let cap = self.storage.len();
        let dropped = self.size == cap;
        if dropped {
            self.head = if self.head + 1 == cap {
                0
            } else {
                self.head + 1
            };
            self.size = self.size - 1;
        }
        let ghost h1 = self.head as int;
        let pos = if self.head + self.size >= cap {
            self.head + self.size - cap
        } else {
            self.head + self.size
        };
        self.storage[pos] = v;
        self.size = self.size + 1;
        proof {
            let s = self.storage@;
            let goal = if old_contents.len() < c {
                old_contents.push(v)
            } else {
                old_contents.skip(1).push(v)
            };
            assert((h1 + (self.size - 1)) % c == pos as int) by {
                lemma_small_mod((pos as int) as nat, c as nat);
                if h1 + (self.size - 1) >= c {
                    lemma_mod_multiples_vanish(1, pos as int, c);
                }
            }
            assert forall|j: int| 0 <= j < self.size implies self.contents()[j] == goal[j] by {
                let off = if dropped {
                    j + 1
                } else {
                    j
                };
                assert((h1 + j) % c == (h0 + off) % c) by {
                    if h1 == h0 + 1 || !dropped {
                    } else {
                        lemma_mod_multiples_vanish(1, h1 + j, c);
                    }
                }
                if j < self.size - 1 {
                    assert((h0 + off) % c != pos as int) by {
                        lemma_small_mod((pos as int) as nat, c as nat);
                        if h0 + off < c {
                            lemma_small_mod((h0 + off) as nat, c as nat);
                        } else {
                            lemma_mod_multiples_vanish(1, (h0 + off) - c, c);
                            lemma_small_mod(((h0 + off) - c) as nat, c as nat);
                        }
                        if h1 + (self.size - 1) >= c {
                            lemma_mod_multiples_vanish(1, pos as int, c);
                        }
                    }
                    assert(self.contents()[j] == old_contents[off]);
                } else {
                    assert(self.contents()[j] == v);
                }
            }
            assert(self.contents() =~= goal);
        }
    }

    /// Appends a slice of samples in order; if there is not enough free
    /// space, the oldest unread samples are silently dropped so that the
    /// newest `capacity` samples remain.
    pub fn push(&mut self, data: &Vec<i32>)
        requires
            old(self).wf(),
        ensures
            final(self).wf(),
            final(self).capacity_spec() == old(self).capacity_spec(),
            final(self).contents() == push_result(
                old(self).contents(),
                data@,
                old(self).capacity_spec(),
            ),
    {
        let ghost c0 = old(self).contents();
        let ghost cap = old(self).capacity_spec();
        let len = data.len();
        let mut i: usize = 0;
        while i < len
            invariant
                i <= len,
                len == data@.len(),
                self.wf(),
                self.capacity_spec() == cap,
                self.contents() == push_result(c0, data@.take(i as int), cap),
            decreases len - i,
        {
            let ghost pre = self.contents();
            self.push_one(data[i]);
            proof {
                lemma_push_result_step(c0, data@, i as int, cap);
                if pre.len() < cap {
                    assert(self.contents() == pre.push(data@[i as int]));
                } else {
                    assert(self.contents() == pre.skip(1).push(data@[i as int]));
                }
            }
            i = i + 1;
        }
        proof {
            assert(data@.take(len as int) =~= data@);
        }
    }

    /// Advances the read cursor by `n`, permanently dropping the `n` oldest
    /// unread samples; the occupied length decreases by exactly `n`.
    pub fn discard(&mut self, n: usize)
        requires
            old(self).wf(),
            n <= old(self).contents().len(),
        ensures
            final(self).wf(),
            final(self).capacity_spec() == old(self).capacity_spec(),
            final(self).contents() == old(self).contents().skip(n as int),
            final(self).contents().len() == old(self).contents().len() - n,
    {
        let ghost c = self.storage@.len() as int;
        let ghost h0 = self.head as int;
        let ghost old_contents = self.contents();
        let cap = self.storage.len();
        let pos = if self.head + n >= cap {
            self.head + n - cap
        } else {
            self.head + n
        };
        self.head = pos;
        self.size = self.size - n;
        proof {
            assert((h0 + n) % c == pos as int) by {
                lemma_small_mod((pos as int) as nat, c as nat);
                if h0 + n >= c {
                    lemma_mod_multiples_vanish(1, pos as int, c);
                }
            }
            assert forall|j: int| 0 <= j < self.size implies self.contents()[j]
                == old_contents.skip(n as int)[j] by {
                lemma_add_mod_noop(h0 + n, j, c);
                lemma_small_mod(j as nat, c as nat);
                assert((pos as int + j) % c == ((h0 + n) % c + j % c) % c);
                assert((h0 + (n + j)) % c == ((h0 + n) + j) % c);
            }
            assert(self.contents() =~= old_contents.skip(n as int));
        }
    }

    /// Exposes the occupied region as up to two contiguous slices — the
    /// wrapped tail follows the part running to the end of the storage —
    /// without copying.
    pub fn access(&self) -> (r: (&[i32], &[i32]))
        requires
            self.wf(),
        ensures
            r.0@ + r.1@ == self.contents(),
    {
        let cap = self.storage.len();
        let end = self.head + self.size;
        if end <= cap {
            let a = slice_subrange(self.storage.as_slice(), self.head, end);
            let b = slice_subrange(self.storage.as_slice(), 0, 0);
            proof {
                assert forall|j: int| 0 <= j < self.size implies (a@ + b@)[j] == self.contents()[j] by {
                    lemma_small_mod((self.head + j) as nat, self.storage@.len() as nat);
                }
                assert(a@ + b@ =~= self.contents());
            }
            (a, b)
        } else {
            let a = slice_subrange(self.storage.as_slice(), self.head, cap);
            let b = slice_subrange(self.storage.as_slice(), 0, end - cap);
            proof {
                let c = self.storage@.len() as int;
                assert forall|j: int| 0 <= j < self.size implies (a@ + b@)[j] == self.contents()[j] by {
                    if self.head + j < c {
                        lemma_small_mod((self.head + j) as nat, c as nat);
                    } else {
                        lemma_mod_multiples_vanish(1, self.head + j - c, c);
                        lemma_small_mod((self.head + j - c) as nat, c as nat);
                    }
                }
                assert(a@ + b@ =~= self.contents());
            }
            (a, b)
        }
    }

    /// Moves all unread samples, preserving their order, into a fresh
    /// allocation of the given capacity.
    pub fn grow(&mut self, new_capacity: usize)
        requires
            old(self).wf(),
            old(self).contents().len() <= new_capacity,
            1 <= new_capacity <= usize::MAX / 2,
        ensures
            final(self).wf(),
            final(self).capacity_spec() == new_capacity,
            final(self).contents() == old(self).contents(),
    {
        let ghost old_contents = self.contents();
        let ghost c = self.storage@.len() as int;
        let cap = self.storage.len();
        let size = self.size;
        let mut ns: Vec<i32> = Vec::with_capacity(new_capacity);
        let mut i: usize = 0;
        while i < size
            invariant
                i <= size,
                self == old(self),
                self.wf(),
                size == self.size,
                cap == self.storage@.len(),
                c == self.storage@.len() as int,
                old_contents == self.contents(),
                ns@.len() == i,
                forall|j: int| 0 <= j < i ==> ns@[j] == old_contents[j],
            decreases size - i,
        {
            let pos = if self.head + i >= cap {
                self.head + i - cap
            } else {
                self.head + i
            };
            proof {
                if self.head + i < c {
                    lemma_small_mod((self.head + i) as nat, c as nat);
                } else {
                    lemma_mod_multiples_vanish(1, self.head + i - c, c);
                    lemma_small_mod((self.head + i - c) as nat, c as nat);
                }
            }
            let v = self.storage[pos];
            ns.push(v);
            i = i + 1;
        }
        while ns.len() < new_capacity
            invariant
                size <= ns@.len() <= new_capacity,
                forall|j: int| 0 <= j < size ==> ns@[j] == old_contents[j],
            decreases new_capacity - ns@.len(),
        {
            ns.push(0);
        }
        self.storage = ns;
        self.head = 0;
        proof {
            assert forall|j: int| 0 <= j < self.size implies self.contents()[j] == old_contents[j] by {
                lemma_small_mod(j as nat, self.storage@.len() as nat);
            }
            assert(self.contents() =~= old_contents);
        }
    }
}

/// One elementwise step of [`push_result`]: appending the next sample to the
/// intermediate state is the intermediate state of the longer prefix.
proof fn lemma_push_result_step(c: Seq<i32>, d: Seq<i32>, i: int, cap: int)
    requires
        0 <= i < d.len(),
        cap >= 1,
    ensures
        push_result(c, d.take(i + 1), cap) == (if push_result(c, d.take(i), cap).len() < cap {
            push_result(c, d.take(i), cap).push(d[i])
        } else {
            push_result(c, d.take(i), cap).skip(1).push(d[i])
        }),
{
    let s = push_result(c, d.take(i), cap);
    let t = push_result(c, d.take(i + 1), cap);
    assert(d.take(i + 1) =~= d.take(i).push(d[i]));
    assert(c + d.take(i + 1) =~= (c + d.take(i)).push(d[i]));
    if c.len() + i < cap {
        assert(t =~= s.push(d[i]));
    } else {
        let k = c.len() + i - cap;
        assert(s =~= (c + d.take(i)).skip(k));
        assert(t =~= (c + d.take(i + 1)).skip(k + 1));
        assert forall|j: int| 0 <= j < t.len() implies t[j] == s.skip(1).push(d[i])[j] by {
            if j < t.len() - 1 {
                assert(t[j] == (c + d.take(i + 1))[k + 1 + j]);
                assert(s.skip(1)[j] == (c + d.take(i))[k + 1 + j]);
            }
        }
        assert(t =~= s.skip(1).push(d[i]));
    }
}

} // verus!
