//! The buffer recycler: two fixed-role byte-array slots, *active* (loaned to
//! the next I/O read) and *holding* (older, not-yet-consumed leftover bytes),
//! with ownership handoff and in-place compaction done through safe copies.
//!
//! The unconsumed bytes of a buffer are, in logical order, the holding slot's
//! content followed by the active slot's content; that sequence is the view
//! (`@`) all contracts speak of.

use vstd::prelude::*;
use vstd::slice::slice_subrange;

verus! {

/// A byte array handed out of the recycler together with the cursor and
/// length that delimit its meaningful content.
#[derive(Debug)]
pub struct Buffer {
    pub inner: Vec<u8>,
    pub ptr: usize,
    pub len: usize,
}

impl Buffer {
    pub open spec fn wf(self) -> bool {
        self.ptr + self.len <= self.inner@.len()
    }
}

impl View for Buffer {
    type V = Seq<u8>;

    open spec fn view(&self) -> Seq<u8> {
        self.inner@.subrange(self.ptr as int, self.ptr + self.len)
    }
}

impl Buffer {
    /// The meaningful content as a slice.
    pub fn as_slice(&self) -> (r: &[u8])
        requires
            self.wf(),
        ensures
            r@ == self@,
    {
        proof {
            assert(self.inner.len() == self.inner@.len());
        }
        slice_subrange(self.inner.as_slice(), self.ptr, self.ptr + self.len)
    }
}

/// A borrowed counterpart of [`Buffer`]: a view into one slot's array without
/// copying it.
#[derive(Debug)]
pub struct BufferRef<'a> {
    pub inner: &'a Vec<u8>,
    pub ptr: usize,
    pub len: usize,
}

impl<'a> BufferRef<'a> {
    pub open spec fn wf(self) -> bool {
        self.ptr + self.len <= self.inner@.len()
    }
}

impl<'a> View for BufferRef<'a> {
    type V = Seq<u8>;

    open spec fn view(&self) -> Seq<u8> {
        self.inner@.subrange(self.ptr as int, self.ptr + self.len)
    }
}

impl<'a> BufferRef<'a> {
    /// The referenced content as a slice.
    pub fn as_slice(&self) -> (r: &[u8])
        requires
            self.wf(),
        ensures
            r@ == self@,
    {
        proof {
            assert(self.inner.len() == self.inner@.len());
        }
        slice_subrange(self.inner.as_slice(), self.ptr, self.ptr + self.len)
    }
}

/// The recycler itself: `buffer` is the active slot's array, `temp` the
/// holding slot's, each with a read cursor and a valid length.
pub struct DualRingBuffer {
    buffer: Vec<u8>,
    buffer_len: usize,
    buffer_ptr: usize,
    temp: Vec<u8>,
    temp_len: usize,
    temp_ptr: usize,
    capacity: usize,
}

impl View for DualRingBuffer {
    type V = Seq<u8>;

    /// All unconsumed bytes in logical order: holding first, then active.
    open spec fn view(&self) -> Seq<u8> {
        self.holding_view() + self.active_view()
    }
}

impl DualRingBuffer {
    /// Each slot's cursor and length stay inside its array, and the aggregate
    /// length fits a `usize`.
    pub closed spec fn wf(self) -> bool {
        &&& self.buffer_ptr + self.buffer_len <= self.buffer@.len()
        &&& self.temp_ptr + self.temp_len <= self.temp@.len()
        &&& self.temp_len + self.buffer_len <= usize::MAX
    }

    /// The fixed capacity reads are issued with.
    pub closed spec fn cap(self) -> nat {
        self.capacity as nat
    }

    /// The active slot's unconsumed content.
    pub closed spec fn active_view(self) -> Seq<u8> {
        self.buffer@.subrange(self.buffer_ptr as int, self.buffer_ptr + self.buffer_len)
    }

    /// The holding slot's unconsumed content.
    pub closed spec fn holding_view(self) -> Seq<u8> {
        self.temp@.subrange(self.temp_ptr as int, self.temp_ptr + self.temp_len)
    }

    pub fn new(capacity: usize) -> (r: DualRingBuffer)
        ensures
            r.wf(),
            r.cap() == capacity,
            r@ == Seq::<u8>::empty(),
            r.holding_view() == Seq::<u8>::empty(),
            r.active_view() == Seq::<u8>::empty(),
            r.holding_array_len() == capacity,
            r.active_array_len() == capacity,
    {
        let r = DualRingBuffer {
            buffer: vec![0u8; capacity],
            buffer_len: 0,
            buffer_ptr: 0,
            temp: vec![0u8; capacity],
            temp_len: 0,
            temp_ptr: 0,
            capacity,
        };
        proof {
            assert(r@ =~= Seq::<u8>::empty());
            assert(r.holding_view() =~= Seq::<u8>::empty());
            assert(r.active_view() =~= Seq::<u8>::empty());
        }
        r
    }

    /// Aggregate buffered length.
    pub fn len(&self) -> (r: usize)
        requires
            self.wf(),
        ensures
            r == self@.len(),
    {
        self.buffer_len + self.temp_len
    }

    /// The fixed capacity reads are issued with.
    pub fn capacity(&self) -> (r: usize)
        ensures
            r == self.cap(),
    {
        self.capacity
    }

    /// Whether nothing is buffered.
    pub fn is_empty(&self) -> (r: bool)
        requires
            self.wf(),
        ensures
            r == (self@.len() == 0),
    {
        self.buffer_len == 0 && self.temp_len == 0
    }

    /// True iff the holding slot is empty, so the next read can target the
    /// active slot directly with no merge needed.
    pub fn should_fill(&self) -> (r: bool)
        requires
            self.wf(),
        ensures
            r == (self.holding_view().len() == 0),
    {
        self.temp_len == 0
    }

    /// The oldest unconsumed bytes, without copying, and whether they come
    /// from the active slot (`true`) or the holding slot (`false`).
    pub fn peek(&self) -> (r: (bool, BufferRef<'_>))
        requires
            self.wf(),
        ensures
            r.1.wf(),
            r.0 == (self.holding_view().len() == 0),
            r.0 ==> r.1@ == self.active_view(),
            !r.0 ==> r.1@ == self.holding_view(),
    {
        if self.temp_len == 0 {
            (
                true,
                BufferRef { inner: &self.buffer, ptr: self.buffer_ptr, len: self.buffer_len },
            )
        } else {
            (false, BufferRef { inner: &self.temp, ptr: self.temp_ptr, len: self.temp_len })
        }
    }

    /// Both slots' unconsumed content in logical order, without copying:
    /// holding first, then active.
    pub fn peek_all(&self) -> (r: (&[u8], &[u8]))
        requires
            self.wf(),
        ensures
            r.0@ == self.holding_view(),
            r.1@ == self.active_view(),
            r.0@ + r.1@ == self@,
            r.0@.len() + r.1@.len() <= usize::MAX,
    {
        proof {
            assert(self.temp.len() == self.temp@.len());
            assert(self.buffer.len() == self.buffer@.len());
        }
        let h = slice_subrange(self.temp.as_slice(), self.temp_ptr, self.temp_ptr + self.temp_len);
        let a = slice_subrange(
            self.buffer.as_slice(),
            self.buffer_ptr,
            self.buffer_ptr + self.buffer_len,
        );
        (h, a)
    }

    /// Advance the holding slot's cursor by `len` bytes.
    fn consume_temp(&mut self, len: usize) -> (r: usize)
        requires
            old(self).wf(),
            len <= old(self).holding_view().len(),
        ensures
            final(self).wf(),
            r == len,
            final(self).cap() == old(self).cap(),
            final(self).holding_view() == old(self).holding_view().skip(len as int),
            final(self).active_view() == old(self).active_view(),
    {
        proof {
            assert(self.temp.len() == self.temp@.len());
        }
        self.temp_ptr = self.temp_ptr + len;
        self.temp_len = self.temp_len - len;
        proof {
            assert(final(self).holding_view() =~= old(self).holding_view().skip(len as int));
        }
        len
    }

    /// Advance the active slot's cursor by `len` bytes.
    fn consume_buf(&mut self, len: usize) -> (r: usize)
        requires
            old(self).wf(),
            len <= old(self).active_view().len(),
        ensures
            final(self).wf(),
            r == len,
            final(self).cap() == old(self).cap(),
            final(self).holding_view() == old(self).holding_view(),
            final(self).active_view() == old(self).active_view().skip(len as int),
    {
        proof {
            assert(self.buffer.len() == self.buffer@.len());
        }
        self.buffer_ptr = self.buffer_ptr + len;
        self.buffer_len = self.buffer_len - len;
        proof {
            assert(final(self).active_view() =~= old(self).active_view().skip(len as int));
        }
        len
    }

    /// Advance the consumption cursor by `len` bytes across the slots, holding
    /// slot first; returns the number of bytes consumed.
    pub fn consume(&mut self, len: usize) -> (r: usize)
        requires
            old(self).wf(),
            len <= old(self)@.len(),
        ensures
            final(self).wf(),
            r == len,
            final(self).cap() == old(self).cap(),
            final(self)@ == old(self)@.skip(len as int),
            len <= old(self).holding_view().len() ==> {
                &&& final(self).holding_view() == old(self).holding_view().skip(len as int)
                &&& final(self).active_view() == old(self).active_view()
            },
            len > old(self).holding_view().len() ==> {
                &&& final(self).holding_view().len() == 0
                &&& final(self).active_view() == old(self).active_view().skip(
                    len - old(self).holding_view().len(),
                )
            },
    {
        if len <= self.temp_len {
            let r = self.consume_temp(len);
            proof {
                assert(final(self)@ =~= old(self)@.skip(len as int));
            }
            r
        } else {
            let temp_consume = self.consume_temp(self.temp_len);
            let remains = len - temp_consume;
            let r = temp_consume + self.consume_buf(remains);
            proof {
                assert(final(self)@ =~= old(self)@.skip(len as int));
            }
            r
        }
    }

    /// Install `data`, whose first `len` bytes are meaningful, as the active
    /// slot's array; the holding slot is untouched. Returns whether any bytes
    /// were installed, so a `false` from a completed read means end-of-stream.
    pub fn push_buf(&mut self, data: Vec<u8>, len: usize) -> (r: bool)
        requires
            old(self).wf(),
            len <= data@.len(),
            old(self).holding_view().len() + len <= usize::MAX,
        ensures
            final(self).wf(),
            r == (len != 0),
            final(self).cap() == old(self).cap(),
            final(self).holding_view() == old(self).holding_view(),
            final(self).active_view() == data@.take(len as int),
            final(self)@ == old(self).holding_view() + data@.take(len as int),
            final(self).holding_array_len() == old(self).holding_array_len(),
            final(self).active_array_len() == data@.len(),
    {
        self.buffer = data;
        self.buffer_ptr = 0;
        self.buffer_len = len;
        proof {
            assert(final(self).active_view() =~= data@.take(len as int));
        }
        self.buffer_len != 0
    }

    /// The size of the active slot's backing array.
    pub closed spec fn active_array_len(self) -> nat {
        self.buffer@.len()
    }

    /// The size of the holding slot's backing array.
    pub closed spec fn holding_array_len(self) -> nat {
        self.temp@.len()
    }
}

/// Copy `n` bytes from `src[s0..s0 + n]` into `dst[d0..d0 + n]`.
fn copy_bytes(dst: &mut Vec<u8>, d0: usize, src: &[u8], s0: usize, n: usize)
    requires
        d0 + n <= old(dst)@.len(),
        s0 + n <= src@.len(),
    ensures
        final(dst)@ == old(dst)@.take(d0 as int) + src@.subrange(s0 as int, s0 + n) + old(
            dst,
        )@.skip(d0 + n),
        final(dst)@.len() == old(dst)@.len(),
{
    let dn = dst.len();
    let sn = src.len();
    let mut i: usize = 0;
    while i < n
        invariant
            i <= n,
            d0 + n <= dn,
            s0 + n <= sn,
            d0 + n <= dst@.len(),
            s0 + n <= src@.len(),
            dst@.len() == old(dst)@.len(),
            forall|j: int| 0 <= j < d0 ==> dst@[j] == old(dst)@[j],
            forall|j: int| d0 <= j < d0 + i ==> dst@[j] == src@[j - d0 + s0],
            forall|j: int| d0 + i <= j < dst@.len() ==> dst@[j] == old(dst)@[j],
        decreases n - i,
    {
        let b = src[s0 + i];
        dst[d0 + i] = b;
        i = i + 1;
    }
    proof {
        assert(final(dst)@ =~= old(dst)@.take(d0 as int) + src@.subrange(s0 as int, s0 + n)
            + old(dst)@.skip(d0 + n));
    }
}

/// Move `n` bytes from `v[s0..s0 + n]` to the front of `v`. The copy runs
/// forward, so the destination never overruns the source.
fn compact_front(v: &mut Vec<u8>, s0: usize, n: usize)
    requires
        s0 + n <= old(v)@.len(),
    ensures
        final(v)@.len() == old(v)@.len(),
        final(v)@.take(n as int) == old(v)@.subrange(s0 as int, s0 + n),
{
    let vn = v.len();
    let mut i: usize = 0;
    while i < n
        invariant
            i <= n,
            s0 + n <= vn,
            s0 + n <= v@.len(),
            v@.len() == old(v)@.len(),
            forall|j: int| 0 <= j < i ==> v@[j] == old(v)@[s0 + j],
            forall|j: int| s0 + i <= j < v@.len() ==> v@[j] == old(v)@[j],
        decreases n - i,
    {
        let b = v[s0 + i];
        v[i] = b;
        i = i + 1;
    }
    proof {
        assert(final(v)@.take(n as int) =~= old(v)@.subrange(s0 as int, s0 + n));
    }
}

/// The size a slot's array grows to when `need` bytes outgrow its `cur`
/// bytes: at least doubled, so repeated merges stay amortized.
pub open spec fn grow_size(cur: nat, need: nat) -> nat {
    let doubled = if cur <= usize::MAX / 2 {
        2 * cur
    } else {
        usize::MAX as nat
    };
    if doubled >= need {
        doubled
    } else {
        need
    }
}

/// The holding slot's array size after a prepare-for-read, from the slot
/// contents and array sizes before it: unchanged when the active slot has
/// nothing to move; on a transfer into an empty holding slot, the active
/// slot's array (a swap) when the holding array already has the fixed
/// capacity, else a fresh array of the fixed capacity (or larger, if the
/// active content demands it); on a merge, grown exactly when the combined
/// content outgrows it.
pub open spec fn prepared_holding_len(
    holding_bytes: nat,
    active_bytes: nat,
    holding_arr: nat,
    active_arr: nat,
    cap: nat,
) -> nat {
    if active_bytes == 0 {
        holding_arr
    } else if holding_bytes == 0 {
        if holding_arr >= cap {
            active_arr
        } else if cap >= active_bytes {
            cap
        } else {
            active_bytes
        }
    } else {
        let need = holding_bytes + active_bytes;
        if need > holding_arr {
            grow_size(holding_arr, need)
        } else {
            holding_arr
        }
    }
}

impl DualRingBuffer {
    /// Prepare for an I/O read: the active slot's unconsumed bytes move to
    /// the holding slot — by an array swap when the holding slot is empty and
    /// its array already has the fixed capacity, otherwise by a merge-copy
    /// that compacts the holding content to the front of its array and copies
    /// the active leftover in right after, growing the array when the
    /// combined length demands it. Returns an empty, fixed-capacity array for
    /// the read; the buffered bytes are unchanged and all of them end up in
    /// the holding slot.
    pub fn prep_read(&mut self) -> (r: Vec<u8>)
        requires
            old(self).wf(),
        ensures
            final(self).wf(),
            final(self).cap() == old(self).cap(),
            r@.len() == old(self).cap(),
            final(self)@ == old(self)@,
            final(self).holding_view() == old(self)@,
            final(self).active_view().len() == 0,
            final(self).holding_array_len() == prepared_holding_len(
                old(self).holding_view().len(),
                old(self).active_view().len(),
                old(self).holding_array_len(),
                old(self).active_array_len(),
                old(self).cap(),
            ),
            final(self).active_array_len() == 0,
    {
        let cap = self.capacity;
        if self.buffer_len > 0 {
            if self.temp_len == 0 {
                if self.temp.len() >= cap {
                    // a cheap array swap: the holding slot takes over the
                    // active slot's array together with its cursors
                    self.temp_ptr = self.buffer_ptr;
                    self.temp_len = self.buffer_len;
                    core::mem::swap(&mut self.buffer, &mut self.temp);
                    self.buffer_ptr = 0;
                    self.buffer_len = 0;
                } else {
                    // the holding array is under the fixed capacity: copy the
                    // leftover into a newly sized array instead
                    let blen = self.buffer_len;
                    let size = if cap >= blen {
                        cap
                    } else {
                        blen
                    };
                    let mut v: Vec<u8> = vec![0u8; size];
                    copy_bytes(&mut v, 0, self.buffer.as_slice(), self.buffer_ptr, blen);
                    self.temp = v;
                    self.temp_ptr = 0;
                    self.temp_len = blen;
                    self.buffer_len = 0;
                    self.buffer_ptr = 0;
                }
            } else {
                // merge: compact the holding content to the front of its
                // array, then copy the active leftover in right after
                let tlen = self.temp_len;
                let blen = self.buffer_len;
                let tptr = self.temp_ptr;
                compact_front(&mut self.temp, tptr, tlen);
                self.temp_ptr = 0;
                let need = tlen + blen;
                if need > self.temp.len() {
                    // grow: at least double, so merges stay amortized
                    let doubled = if self.temp.len() <= usize::MAX / 2 {
                        self.temp.len() * 2
                    } else {
                        usize::MAX
                    };
                    let size = if doubled >= need {
                        doubled
                    } else {
                        need
                    };
                    let mut v: Vec<u8> = vec![0u8; size];
                    copy_bytes(&mut v, 0, self.temp.as_slice(), 0, tlen);
                    self.temp = v;
                }
                copy_bytes(&mut self.temp, tlen, self.buffer.as_slice(), self.buffer_ptr, blen);
                self.temp_len = need;
                self.buffer_len = 0;
                self.buffer_ptr = 0;
            }
        }
        // hand out the spare active array, normalized to the fixed capacity
        let mut out: Vec<u8> = Vec::new();
        core::mem::swap(&mut self.buffer, &mut out);
        self.buffer_ptr = 0;
        self.buffer_len = 0;
        if out.len() > cap {
            out.truncate(cap);
        } else if out.len() < cap {
            out = vec![0u8; cap];
        }
        proof {
            assert(final(self).active_view() =~= Seq::<u8>::empty());
            assert(final(self)@ =~= final(self).holding_view());
            assert(final(self).holding_view() =~= old(self)@);
        }
        out
    }

    /// Inject bytes directly, with no I/O, for priming and testing: the bytes
    /// land in a freshly prepared active array, so every append with leftover
    /// content forces the same merge a read would.
    pub fn append(&mut self, data: &[u8])
        requires
            old(self).wf(),
            data@.len() <= old(self).cap(),
            old(self)@.len() + data@.len() <= usize::MAX,
        ensures
            final(self).wf(),
            final(self).cap() == old(self).cap(),
            final(self)@ == old(self)@ + data@,
            final(self).holding_view() == old(self)@,
            final(self).active_view() == data@,
            final(self).holding_array_len() == prepared_holding_len(
                old(self).holding_view().len(),
                old(self).active_view().len(),
                old(self).holding_array_len(),
                old(self).active_array_len(),
                old(self).cap(),
            ),
            final(self).active_array_len() == old(self).cap(),
    {
        let mut buf = self.prep_read();
        let n = data.len();
        copy_bytes(&mut buf, 0, data, 0, n);
        self.push_buf(buf, n);
        proof {
            assert(final(self)@ =~= old(self)@ + data@);
            assert(final(self).active_view() =~= data@);
        }
    }

    /// Copy up to `target.len()` unconsumed bytes into the front of `target`,
    /// in logical order, advancing the consumption cursors; returns the count
    /// copied.
    pub fn read(&mut self, target: &mut Vec<u8>) -> (r: usize)
        requires
            old(self).wf(),
        ensures
            final(self).wf(),
            final(self).cap() == old(self).cap(),
            r == if old(target)@.len() <= old(self)@.len() {
                old(target)@.len()
            } else {
                old(self)@.len()
            },
            final(target)@ == old(self)@.take(r as int) + old(target)@.skip(r as int),
            final(self)@ == old(self)@.skip(r as int),
    {
        let tcap = target.len();
        // copy from the holding slot first
        let n1 = if tcap <= self.temp_len {
            tcap
        } else {
            self.temp_len
        };
        copy_bytes(target, 0, self.temp.as_slice(), self.temp_ptr, n1);
        // then from the active slot
        let rem = tcap - n1;
        let n2 = if rem <= self.buffer_len {
            rem
        } else {
            self.buffer_len
        };
        copy_bytes(target, n1, self.buffer.as_slice(), self.buffer_ptr, n2);
        let total = n1 + n2;
        self.consume(total);
        proof {
            assert(final(target)@ =~= old(self)@.take(total as int) + old(target)@.skip(
                total as int,
            ));
        }
        total
    }

    /// Exchange `data` for whichever slot is not about to be loaned to I/O:
    /// the holding slot when it has content, else the active slot. The slot's
    /// prior array and cursors come back as a [`Buffer`]; the slot is left
    /// empty, holding `data` if it has the fixed capacity and a freshly
    /// allocated fixed-capacity array otherwise.
    pub fn try_swap(&mut self, data: Vec<u8>) -> (r: Buffer)
        requires
            old(self).wf(),
        ensures
            final(self).wf(),
            final(self).cap() == old(self).cap(),
            r.wf(),
            old(self).holding_view().len() > 0 ==> {
                &&& r@ == old(self).holding_view()
                &&& r.inner@.len() == old(self).holding_array_len()
                &&& final(self)@ == old(self).active_view()
                &&& final(self).holding_view().len() == 0
                &&& final(self).active_view() == old(self).active_view()
                &&& final(self).active_array_len() == old(self).active_array_len()
                &&& final(self).holding_array_len() == if data@.len() == old(self).cap() {
                    data@.len()
                } else {
                    old(self).cap()
                }
            },
            old(self).holding_view().len() == 0 ==> {
                &&& r@ == old(self)@
                &&& r.inner@.len() == old(self).active_array_len()
                &&& final(self)@.len() == 0
                &&& final(self).holding_view() == old(self).holding_view()
                &&& final(self).holding_array_len() == old(self).holding_array_len()
                &&& final(self).active_array_len() == if data@.len() == old(self).cap() {
                    data@.len()
                } else {
                    old(self).cap()
                }
            },
    {
        let mut inner: Vec<u8> = if data.len() != self.capacity {
            vec![0u8; self.capacity]
        } else {
            data
        };
        if self.temp_len == 0 {
            core::mem::swap(&mut self.buffer, &mut inner);
            let ptr = self.buffer_ptr;
            let len = self.buffer_len;
            self.buffer_ptr = 0;
            self.buffer_len = 0;
            proof {
                assert(final(self)@ =~= Seq::<u8>::empty());
                assert(old(self)@ =~= old(self).active_view());
            }
            Buffer { inner, ptr, len }
        } else {
            core::mem::swap(&mut self.temp, &mut inner);
            let ptr = self.temp_ptr;
            let len = self.temp_len;
            self.temp_ptr = 0;
            self.temp_len = 0;
            proof {
                assert(final(self)@ =~= old(self).active_view());
            }
            Buffer { inner, ptr, len }
        }
    }
}

/// How many bytes one `read` with target capacity `m` consumes of content
/// `v`, mirroring `read`'s contract.
pub open spec fn read_count(v: Seq<u8>, m: int) -> int {
    if m <= v.len() {
        m
    } else {
        v.len() as int
    }
}

/// What that read copies out.
pub open spec fn read_returns(v: Seq<u8>, m: int) -> Seq<u8> {
    v.take(read_count(v, m))
}

/// What that read leaves buffered.
pub open spec fn read_leaves(v: Seq<u8>, m: int) -> Seq<u8> {
    v.skip(read_count(v, m))
}

/// The concatenation of what successive reads with target capacities `ms`
/// copy out of content `v`, each read advancing past what it copied.
pub open spec fn reads_concat(v: Seq<u8>, ms: Seq<int>) -> Seq<u8>
    decreases ms.len(),
{
    if ms.len() == 0 {
        Seq::empty()
    } else {
        read_returns(v, ms[0]) + reads_concat(read_leaves(v, ms[0]), ms.drop_first())
    }
}

/// The total byte count those reads consume.
pub open spec fn reads_total(v: Seq<u8>, ms: Seq<int>) -> int
    decreases ms.len(),
{
    if ms.len() == 0 {
        0
    } else {
        read_count(v, ms[0]) + reads_total(read_leaves(v, ms[0]), ms.drop_first())
    }
}

/// Successive `read` calls drain the buffered bytes strictly in order: their
/// results concatenate to exactly the prefix of the content that they
/// consumed, nothing reordered, skipped or duplicated.
pub proof fn lemma_successive_reads(v: Seq<u8>, ms: Seq<int>)
    requires
        forall|i: int| 0 <= i < ms.len() ==> ms[i] >= 0,
    ensures
        0 <= reads_total(v, ms) <= v.len(),
        reads_concat(v, ms) == v.take(reads_total(v, ms)),
    decreases ms.len(),
{
    if ms.len() == 0 {
        assert(reads_concat(v, ms) =~= v.take(0));
    } else {
        let n0 = read_count(v, ms[0]);
        lemma_successive_reads(read_leaves(v, ms[0]), ms.drop_first());
        let t = reads_total(read_leaves(v, ms[0]), ms.drop_first());
        assert(v.take(n0) + v.skip(n0).take(t) =~= v.take(n0 + t));
    }
}

/// For any sequence of appended chunks, the bytes obtained by successive
/// `read` calls equal the concatenation of all appended chunks in order:
/// `append`'s contract grows the content chunk by chunk to the flattened
/// chunks, and reads whose capacities cover that content return all of it.
pub proof fn lemma_reads_return_appended_chunks(chunks: Seq<Seq<u8>>, ms: Seq<int>)
    requires
        forall|i: int| 0 <= i < ms.len() ==> ms[i] >= 0,
        reads_total(chunks.flatten(), ms) == chunks.flatten().len(),
    ensures
        reads_concat(chunks.flatten(), ms) == chunks.flatten(),
        forall|c: Seq<u8>| #[trigger] chunks.push(c).flatten() == chunks.flatten() + c,
{
    let v = chunks.flatten();
    lemma_successive_reads(v, ms);
    assert(v.take(v.len() as int) =~= v);
    assert forall|c: Seq<u8>| #[trigger] chunks.push(c).flatten() == chunks.flatten() + c by {
        chunks.lemma_flatten_push(c);
    }
}

} // verus!
