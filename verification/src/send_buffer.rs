//! Store-and-forward send buffer.
//!
//! When a peer is temporarily unreachable, outbound frames are held in a
//! bounded priority queue instead of being dropped.  When the peer reconnects
//! the buffer is drained and frames are delivered in priority order:
//!
//! 1. **Control** (`FrameType::Control`, `FrameType::Handshake`) — highest
//! 2. **Route** (`FrameType::RouteUpdate`)
//! 3. **Data** (everything else) — lowest
//!
//! On overflow the lowest-priority frame is evicted first.  Frames that have
//! been waiting `timeout` or longer are silently dropped on access.
//!
//! Time is a monotonic nanosecond counter handed in by the caller; a frame's
//! age is `now - enqueued_at`, saturating at zero.
use vstd::prelude::*;

use crate::frame::{FrameType, TransportFrame};
use crate::node_id::NodeId;
use std::collections::HashMap;
use vstd::std_specs::iter::IteratorSpec;

verus! {

// ── Priority ──────────────────────────────────────────────────────────────────
/// Priority level for buffered frames (lower rank = delivered first).
#[derive(Debug, Clone, Copy, PartialEq, Eq, Structural, PartialOrd, Ord)]
pub enum Priority {
    Control,
    Route,
    Data,
}

/// Numeric rank of a priority: 0 is delivered first.
pub open spec fn rank(p: Priority) -> int {
    match p {
        Priority::Control => 0,
        Priority::Route => 1,
        Priority::Data => 2,
    }
}

/// The priority class of a frame type.
pub open spec fn priority_of(frame_type: FrameType) -> Priority {
    match frame_type {
        FrameType::Control | FrameType::Handshake => Priority::Control,
        FrameType::RouteUpdate => Priority::Route,
        _ => Priority::Data,
    }
}

impl Priority {
    /// Numeric rank (0 = Control, 1 = Route, 2 = Data).
    pub fn rank(&self) -> (r: u8)
        ensures
            r as int == rank(*self),
    {
        match self {
            Priority::Control => 0,
            Priority::Route => 1,
            Priority::Data => 2,
        }
    }

    /// Classify a frame by its `FrameType`.
    pub fn of(frame_type: FrameType) -> (p: Priority)
        ensures
            p == priority_of(frame_type),
    {
        match frame_type {
            FrameType::Control | FrameType::Handshake => Priority::Control,
            FrameType::RouteUpdate => Priority::Route,
            _ => Priority::Data,
        }
    }
}

/// Returns `true` if a frame should be buffered (not silently dropped) when the
/// peer's send queue is congested: every class more important than Data.
pub fn should_buffer_under_congestion(frame_type: FrameType) -> (b: bool)
    ensures
        b == (rank(priority_of(frame_type)) < rank(Priority::Data)),
        b == (frame_type == FrameType::Control || frame_type == FrameType::Handshake
            || frame_type == FrameType::RouteUpdate),
{
    Priority::of(frame_type).rank() < Priority::Data.rank()
}

// ── Constants ─────────────────────────────────────────────────────────────────
/// Default per-peer buffer capacity in frames.
pub const DEFAULT_CAPACITY: usize = 256;

/// Default frame timeout before a buffered frame is discarded (30 s, in ns).
pub const DEFAULT_TIMEOUT_NS: u64 = 30_000_000_000;

// ── Buffered frames and their order ──────────────────────────────────────────
/// One frame waiting in a peer buffer.
pub struct BufferedFrame {
    pub enqueued_at: u64,
    pub priority: Priority,
    pub frame: TransportFrame,
}

/// Age of a buffered frame at time `now` (zero when `now` precedes it).
pub open spec fn age(f: BufferedFrame, now: u64) -> int {
    if now >= f.enqueued_at {
        now - f.enqueued_at
    } else {
        0
    }
}

/// A frame is still deliverable while its age is below the timeout.
pub open spec fn is_fresh(f: BufferedFrame, now: u64, timeout: u64) -> bool {
    age(f, now) < timeout
}

/// The deliverable frames of `s`, in their stored order.
pub open spec fn fresh_frames(s: Seq<BufferedFrame>, now: u64, timeout: u64) -> Seq<BufferedFrame> {
    s.filter(|f: BufferedFrame| is_fresh(f, now, timeout))
}

/// Storage order: by priority rank, then by enqueue time.
pub open spec fn key_le(a: BufferedFrame, b: BufferedFrame) -> bool {
    rank(a.priority) < rank(b.priority) || (rank(a.priority) == rank(b.priority)
        && a.enqueued_at <= b.enqueued_at)
}

/// `s` is sorted by (priority rank, enqueue time).
pub open spec fn sorted_by_key(s: Seq<BufferedFrame>) -> bool {
    forall|i: int, j: int| 0 <= i < j < s.len() ==> key_le(#[trigger] s[i], #[trigger] s[j])
}

/// The frames handed out by a drain, in delivery order.
pub open spec fn frames_of(s: Seq<BufferedFrame>) -> Seq<TransportFrame> {
    s.map_values(|f: BufferedFrame| f.frame)
}

/// `post` is `base` with `x` inserted at the unique place that keeps the
/// (priority, time) order: after every frame ordered at or before it, before
/// every frame ordered after it.
pub open spec fn inserted_in_order(base: Seq<BufferedFrame>, x: BufferedFrame, post: Seq<
    BufferedFrame,
>) -> bool {
    exists|p: int|
        0 <= p <= base.len() && post == base.take(p).push(x) + base.skip(p) && (forall|i: int|
            0 <= i < p ==> key_le(#[trigger] base[i], x)) && (forall|i: int|
            p <= i < base.len() ==> !key_le(#[trigger] base[i], x))
}

/// Whether a `push` of `x` onto stored frames `pre` keeps the new frame:
/// there is room once expired frames are gone, or the least important stored
/// frame is no more important than `x` and can be evicted.
pub open spec fn push_accepts(pre: Seq<BufferedFrame>, x: BufferedFrame, capacity: nat, timeout: u64) -> bool {
    let kept = fresh_frames(pre, x.enqueued_at, timeout);
    kept.len() < capacity || (kept.len() > 0 && rank(kept.last().priority) >= rank(x.priority))
}

/// What one `push` of `x` does to the stored frames `pre` of a buffer with
/// the given capacity and timeout, at time `x.enqueued_at`: expired frames go,
/// then either `x` is dropped, or it is inserted in order (after evicting the
/// least important stored frame when the buffer is full).
pub open spec fn push_result(
    pre: Seq<BufferedFrame>,
    x: BufferedFrame,
    capacity: nat,
    timeout: u64,
    post: Seq<BufferedFrame>,
) -> bool {
    let kept = fresh_frames(pre, x.enqueued_at, timeout);
    if !push_accepts(pre, x, capacity, timeout) {
        post == kept
    } else if kept.len() >= capacity {
        inserted_in_order(kept.drop_last(), x, post)
    } else {
        inserted_in_order(kept, x, post)
    }
}

proof fn lemma_fresh_sorted(s: Seq<BufferedFrame>, now: u64, timeout: u64)
    requires
        sorted_by_key(s),
    ensures
        sorted_by_key(fresh_frames(s, now, timeout)),
        fresh_frames(s, now, timeout).len() <= s.len(),
        forall|i: int|
            0 <= i < fresh_frames(s, now, timeout).len() ==> is_fresh(
                #[trigger] fresh_frames(s, now, timeout)[i],
                now,
                timeout,
            ),
    decreases s.len(),
{
    let pred = |f: BufferedFrame| is_fresh(f, now, timeout);
    reveal(Seq::filter);
    broadcast use vstd::seq_lib::group_filter_ensures;

    if s.len() > 0 {
        let t = s.drop_last();
        assert(sorted_by_key(t));
        lemma_fresh_sorted(t, now, timeout);
        let ft = fresh_frames(t, now, timeout);
        if pred(s.last()) {
            assert forall|i: int| 0 <= i < ft.len() implies key_le(#[trigger] ft[i], s.last()) by {
                assert(ft.contains(ft[i]));
                t.lemma_filter_contains_rev(pred, ft[i]);
                let k = choose|k: int| 0 <= k < t.len() && t[k] == ft[i];
                assert(s[k] == t[k]);
                assert(key_le(s[k], s[s.len() - 1]));
            }
            assert(fresh_frames(s, now, timeout) == ft.push(s.last()));
        } else {
            assert(fresh_frames(s, now, timeout) == ft);
        }
    }
}

proof fn lemma_fresh_all(s: Seq<BufferedFrame>, now: u64, timeout: u64)
    requires
        forall|i: int| 0 <= i < s.len() ==> is_fresh(#[trigger] s[i], now, timeout),
    ensures
        fresh_frames(s, now, timeout) == s,
    decreases s.len(),
{
    reveal(Seq::filter);
    if s.len() > 0 {
        lemma_fresh_all(s.drop_last(), now, timeout);
        assert(s.drop_last().push(s.last()) =~= s);
    }
}

proof fn lemma_fresh_push(s: Seq<BufferedFrame>, x: BufferedFrame, now: u64, timeout: u64)
    ensures
        fresh_frames(s.push(x), now, timeout) == if is_fresh(x, now, timeout) {
            fresh_frames(s, now, timeout).push(x)
        } else {
            fresh_frames(s, now, timeout)
        },
{
    reveal(Seq::filter);
    assert(s.push(x).drop_last() =~= s);
}

// ── PeerBuffer ────────────────────────────────────────────────────────────────
/// The sorted frame list behind a [`PeerBuffer`].
struct FrameList {
    frames: Vec<BufferedFrame>,
    capacity: usize,
    timeout: u64,
}

impl FrameList {
    /// The stored frames, highest priority first.
    spec fn frames(&self) -> Seq<BufferedFrame> {
        self.frames@
    }

    spec fn capacity(&self) -> nat {
        self.capacity as nat
    }

    spec fn timeout(&self) -> u64 {
        self.timeout
    }

    /// Storage invariant: sorted by (priority, time) and within capacity.
    spec fn wf(&self) -> bool {
        &&& sorted_by_key(self.frames())
        &&& self.frames().len() <= self.capacity()
    }

    fn new(capacity: usize, timeout: u64) -> (b: FrameList)
        ensures
            b.wf(),
            b.frames() == Seq::<BufferedFrame>::empty(),
            b.capacity() == capacity,
            b.timeout() == timeout,
    {
        FrameList { frames: Vec::new(), capacity, timeout }
    }

    /// Drop every frame whose age has reached the timeout, keeping order.
    fn retain_fresh(&mut self, now: u64)
        requires
            old(self).wf(),
        ensures
            final(self).wf(),
            final(self).frames() == fresh_frames(old(self).frames(), now, old(self).timeout()),
            final(self).capacity() == old(self).capacity(),
            final(self).timeout() == old(self).timeout(),
    {
        let timeout = self.timeout;
        let ghost pre = self.frames@;
        let mut old_frames: Vec<BufferedFrame> = Vec::new();
        std::mem::swap(&mut old_frames, &mut self.frames);
        let mut kept: Vec<BufferedFrame> = Vec::new();
        for f in it: old_frames.into_iter()
            invariant
                it.seq() == pre,
                kept@ == fresh_frames(pre.take(it.index() as int), now, timeout),
                sorted_by_key(pre),
                timeout == self.timeout,
        {
            proof {
                assert(pre.take(it.index() + 1) =~= pre.take(it.index() as int).push(f));
                lemma_fresh_push(pre.take(it.index() as int), f, now, timeout);
            }
            let fresh = if now >= f.enqueued_at {
                now - f.enqueued_at < timeout
            } else {
                0 < timeout
            };
            if fresh {
                kept.push(f);
            }
        }
        proof {
            assert(pre.take(pre.len() as int) =~= pre);
            lemma_fresh_sorted(pre, now, timeout);
        }
        self.frames = kept;
    }

    /// Position at which `x` keeps the (priority, time) order.
    fn insert_position(&self, priority: Priority, at: u64) -> (p: usize)
        requires
            sorted_by_key(self.frames()),
        ensures
            p <= self.frames().len(),
            forall|i: int|
                0 <= i < p ==> key_le(
                    #[trigger] self.frames()[i],
                    BufferedFrame { enqueued_at: at, priority, frame: self.frames()[i].frame },
                ),
            forall|i: int|
                p <= i < self.frames().len() ==> !key_le(
                    #[trigger] self.frames()[i],
                    BufferedFrame { enqueued_at: at, priority, frame: self.frames()[i].frame },
                ),
    {
        let r = priority.rank();
        let mut lo: usize = 0;
        while lo < self.frames.len()
            invariant
                lo <= self.frames@.len(),
                r as int == rank(priority),
                sorted_by_key(self.frames@),
                forall|i: int|
                    0 <= i < lo ==> #[trigger] rank(self.frames@[i].priority) < rank(priority) || (
                    rank(self.frames@[i].priority) == rank(priority) && self.frames@[i].enqueued_at
                        <= at),
            decreases self.frames@.len() - lo,
        {
            let fr = self.frames[lo].priority.rank();
            let before = fr < r || (fr == r && self.frames[lo].enqueued_at <= at);
            if !before {
                proof {
                    assert forall|i: int| lo <= i < self.frames@.len() implies !(#[trigger] rank(
                        self.frames@[i].priority,
                    ) < rank(priority) || (rank(self.frames@[i].priority) == rank(priority)
                        && self.frames@[i].enqueued_at <= at)) by {
                        if i > lo {
                            assert(key_le(self.frames@[lo as int], self.frames@[i]));
                        }
                    }
                }
                return lo;
            }
            lo = lo + 1;
        }
        lo
    }

    /// Buffer `frame` with `priority` at time `now`.  Expired frames are
    /// dropped first; at capacity the lowest-priority frame is evicted when
    /// the incoming one is at least as important, otherwise the incoming frame
    /// is dropped.
    fn push(&mut self, priority: Priority, frame: TransportFrame, now: u64)
        requires
            old(self).wf(),
        ensures
            final(self).wf(),
            final(self).capacity() == old(self).capacity(),
            final(self).timeout() == old(self).timeout(),
            push_result(
                old(self).frames(),
                BufferedFrame { enqueued_at: now, priority, frame },
                old(self).capacity(),
                old(self).timeout(),
                final(self).frames(),
            ),
    {
        let ghost x = BufferedFrame { enqueued_at: now, priority, frame };
        self.retain_fresh(now);
        let ghost kept = self.frames@;
        if self.frames.len() >= self.capacity {
            let len = self.frames.len();
            if len == 0 {
                return;
            }
            let worst = self.frames[len - 1].priority.rank();
            if worst >= priority.rank() {
                self.frames.pop();
                assert(self.frames@ == kept.drop_last());
            } else {
                return;
            }
        }
        let ghost base = self.frames@;
        let pos = self.insert_position(priority, now);
        let bf = BufferedFrame { enqueued_at: now, priority, frame };
        self.frames.insert(pos, bf);
        proof {
            assert(self.frames@ =~= base.take(pos as int).push(x) + base.skip(pos as int));
            assert forall|i: int| 0 <= i < pos implies key_le(#[trigger] base[i], x) by {
                assert(key_le(
                    base[i],
                    BufferedFrame { enqueued_at: now, priority, frame: base[i].frame },
                ));
            }
            assert forall|i: int| pos <= i < base.len() implies !key_le(#[trigger] base[i], x) by {
                assert(!key_le(
                    base[i],
                    BufferedFrame { enqueued_at: now, priority, frame: base[i].frame },
                ));
            }
            let post = self.frames@;
            assert forall|i: int, j: int| 0 <= i < j < post.len() implies key_le(
                #[trigger] post[i],
                #[trigger] post[j],
            ) by {
                if j < pos {
                } else if j == pos {
                    assert(post[i] == base[i]);
                } else if i < pos {
                    assert(post[j] == base[j - 1]);
                    assert(post[i] == base[i]);
                    if j - 1 >= pos {
                        assert(!key_le(base[j - 1], x));
                    }
                } else if i == pos {
                    assert(post[j] == base[j - 1]);
                    assert(!key_le(base[j - 1], x));
                } else {
                    assert(post[j] == base[j - 1]);
                    assert(post[i] == base[i - 1]);
                }
            }
            assert(inserted_in_order(base, x, post));
        }
    }

    /// Drain all non-expired frames, highest priority first; the buffer is
    /// left empty.
    fn drain(&mut self, now: u64) -> (out: Vec<TransportFrame>)
        requires
            old(self).wf(),
        ensures
            final(self).wf(),
            final(self).frames() == Seq::<BufferedFrame>::empty(),
            final(self).capacity() == old(self).capacity(),
            final(self).timeout() == old(self).timeout(),
            out@ == frames_of(fresh_frames(old(self).frames(), now, old(self).timeout())),
    {
        self.retain_fresh(now);
        let ghost kept = self.frames@;
        let mut old_frames: Vec<BufferedFrame> = Vec::new();
        std::mem::swap(&mut old_frames, &mut self.frames);
        let mut out: Vec<TransportFrame> = Vec::new();
        for f in it: old_frames.into_iter()
            invariant
                it.seq() == kept,
                out@ == frames_of(kept.take(it.index() as int)),
        {
            proof {
                assert(kept.take(it.index() + 1) =~= kept.take(it.index() as int).push(f));
                assert(frames_of(kept.take(it.index() + 1)) =~= frames_of(
                    kept.take(it.index() as int),
                ).push(f.frame));
            }
            out.push(f.frame);
        }
        proof {
            assert(kept.take(kept.len() as int) =~= kept);
        }
        out
    }

    /// Remove expired frames.  Returns the count removed.
    fn expire(&mut self, now: u64) -> (removed: usize)
        requires
            old(self).wf(),
        ensures
            final(self).wf(),
            final(self).frames() == fresh_frames(old(self).frames(), now, old(self).timeout()),
            final(self).capacity() == old(self).capacity(),
            final(self).timeout() == old(self).timeout(),
            removed == old(self).frames().len() - final(self).frames().len(),
    {
        let before = self.frames.len();
        self.retain_fresh(now);
        before - self.frames.len()
    }

    /// Number of stored frames (expired ones included until next access).
    fn len(&self) -> (n: usize)
        ensures
            n == self.frames().len(),
    {
        self.frames.len()
    }

    fn is_empty(&self) -> (b: bool)
        ensures
            b == (self.frames().len() == 0),
    {
        self.frames.len() == 0
    }
}

/// Bounded per-peer send buffer, sorted by ascending priority rank and then by
/// enqueue time (FIFO within the same priority level).
pub struct PeerBuffer {
    list: FrameList,
}

impl PeerBuffer {
    #[verifier::type_invariant]
    spec fn inv(&self) -> bool {
        self.list.wf()
    }

    /// Storage order: sorted by (priority, time) and within capacity.
    /// Every buffer keeps it.
    pub open spec fn wf(&self) -> bool {
        &&& sorted_by_key(self.frames())
        &&& self.frames().len() <= self.capacity()
    }

    fn take_list(&mut self) -> (l: FrameList)
        ensures
            l.wf(),
            l == old(self).list,
    {
        proof {
            use_type_invariant(&*self);
        }
        let mut l = FrameList::new(0, 0);
        std::mem::swap(&mut l, &mut self.list);
        l
    }

    /// The stored frames, highest priority first.
    pub closed spec fn frames(&self) -> Seq<BufferedFrame> {
        self.list.frames()
    }

    pub closed spec fn capacity(&self) -> nat {
        self.list.capacity()
    }

    pub closed spec fn timeout(&self) -> u64 {
        self.list.timeout()
    }

    pub fn new(capacity: usize, timeout: u64) -> (b: PeerBuffer)
        ensures
            b.wf(),
            b.frames() == Seq::<BufferedFrame>::empty(),
            b.capacity() == capacity,
            b.timeout() == timeout,
    {
        PeerBuffer { list: FrameList::new(capacity, timeout) }
    }

    /// Buffer `frame` with `priority` at time `now`.  Expired frames are
    /// dropped first; at capacity the lowest-priority frame is evicted when
    /// the incoming one is at least as important, otherwise the incoming frame
    /// is dropped.
    pub fn push(&mut self, priority: Priority, frame: TransportFrame, now: u64)
        ensures
            final(self).wf(),
            final(self).capacity() == old(self).capacity(),
            final(self).timeout() == old(self).timeout(),
            push_result(
                old(self).frames(),
                BufferedFrame { enqueued_at: now, priority, frame },
                old(self).capacity(),
                old(self).timeout(),
                final(self).frames(),
            ),
    {
        let mut l = self.take_list();
        l.push(priority, frame, now);
        self.list = l;
    }

    /// Drain all non-expired frames, highest priority first; the buffer is
    /// left empty.
    pub fn drain(&mut self, now: u64) -> (out: Vec<TransportFrame>)
        ensures
            final(self).wf(),
            final(self).frames() == Seq::<BufferedFrame>::empty(),
            final(self).capacity() == old(self).capacity(),
            final(self).timeout() == old(self).timeout(),
            out@ == frames_of(fresh_frames(old(self).frames(), now, old(self).timeout())),
    {
        let mut l = self.take_list();
        let r = l.drain(now);
        self.list = l;
        r
    }

    /// Remove expired frames.  Returns the count removed.
    pub fn expire(&mut self, now: u64) -> (removed: usize)
        ensures
            final(self).wf(),
            final(self).frames() == fresh_frames(old(self).frames(), now, old(self).timeout()),
            final(self).capacity() == old(self).capacity(),
            final(self).timeout() == old(self).timeout(),
            removed == old(self).frames().len() - final(self).frames().len(),
    {
        let mut l = self.take_list();
        let r = l.expire(now);
        self.list = l;
        r
    }

    /// Number of stored frames (expired ones included until next access).
    pub fn len(&self) -> (n: usize)
        ensures
            n == self.frames().len(),
    {
        proof {
            use_type_invariant(self);
        }
        self.list.len()
    }

    pub fn is_empty(&self) -> (b: bool)
        ensures
            b == (self.frames().len() == 0),
    {
        proof {
            use_type_invariant(self);
        }
        self.list.is_empty()
    }
}

// ── Laws ──────────────────────────────────────────────────────────────────────
/// A drain hands out frames in priority order: the frames it delivers never
/// go from a less important class back to a more important one.
pub proof fn lemma_drain_in_priority_order(buf: PeerBuffer, now: u64)
    requires
        buf.wf(),
    ensures
        forall|i: int, j: int|
            0 <= i < j < fresh_frames(buf.frames(), now, buf.timeout()).len() ==> rank(
                (#[trigger] fresh_frames(buf.frames(), now, buf.timeout())[i]).priority,
            ) <= rank((#[trigger] fresh_frames(buf.frames(), now, buf.timeout())[j]).priority),
{
    lemma_fresh_sorted(buf.frames(), now, buf.timeout());
}

proof fn lemma_fresh_times(s: Seq<BufferedFrame>, now: u64, timeout: u64, bound: u64)
    requires
        forall|i: int| 0 <= i < s.len() ==> (#[trigger] s[i]).enqueued_at <= bound,
    ensures
        forall|i: int|
            0 <= i < fresh_frames(s, now, timeout).len() ==> (#[trigger] fresh_frames(
                s,
                now,
                timeout,
            )[i]).enqueued_at <= bound,
{
    let pred = |f: BufferedFrame| is_fresh(f, now, timeout);
    let fs = fresh_frames(s, now, timeout);
    assert forall|i: int| 0 <= i < fs.len() implies (#[trigger] fs[i]).enqueued_at <= bound by {
        assert(fs.contains(fs[i]));
        s.lemma_filter_contains_rev(pred, fs[i]);
    }
}

/// `post[p]` is `x`, everything before it is at most as important as `x`'s
/// class allows, and everything after it belongs to a less important class.
pub open spec fn placed_at_class_end(post: Seq<BufferedFrame>, x: BufferedFrame, p: int) -> bool {
    &&& 0 <= p < post.len()
    &&& post[p] == x
    &&& forall|i: int| 0 <= i < p ==> rank((#[trigger] post[i]).priority) <= rank(x.priority)
    &&& forall|i: int| p < i < post.len() ==> rank((#[trigger] post[i]).priority) > rank(x.priority)
}

/// Frames pushed in time order are delivered first-in first-out within one
/// priority class: when every stored frame was enqueued no later than the new
/// one, an accepted frame lands after every stored frame of its own or a more
/// important class, and before every frame of a less important class.
pub proof fn lemma_push_fifo_within_priority(
    pre: Seq<BufferedFrame>,
    x: BufferedFrame,
    capacity: nat,
    timeout: u64,
    post: Seq<BufferedFrame>,
)
    requires
        forall|i: int| 0 <= i < pre.len() ==> (#[trigger] pre[i]).enqueued_at <= x.enqueued_at,
        push_result(pre, x, capacity, timeout, post),
        push_accepts(pre, x, capacity, timeout),
    ensures
        exists|p: int| placed_at_class_end(post, x, p),
{
    let now = x.enqueued_at;
    let kept = fresh_frames(pre, now, timeout);
    lemma_fresh_times(pre, now, timeout, now);
    let base = if kept.len() >= capacity {
        kept.drop_last()
    } else {
        kept
    };
    assert forall|i: int| 0 <= i < base.len() implies (#[trigger] base[i]).enqueued_at <= now by {
        assert(base[i] == kept[i]);
    }
    assert(inserted_in_order(base, x, post));
    let p = choose|p: int|
        0 <= p <= base.len() && post == base.take(p).push(x) + base.skip(p) && (forall|i: int|
            0 <= i < p ==> key_le(#[trigger] base[i], x)) && (forall|i: int|
            p <= i < base.len() ==> !key_le(#[trigger] base[i], x));
    lemma_inserted_after_class(base, x, post, p);
}

proof fn lemma_inserted_after_class(
    base: Seq<BufferedFrame>,
    x: BufferedFrame,
    post: Seq<BufferedFrame>,
    p: int,
)
    requires
        forall|i: int| 0 <= i < base.len() ==> (#[trigger] base[i]).enqueued_at <= x.enqueued_at,
        0 <= p <= base.len(),
        post == base.take(p).push(x) + base.skip(p),
        forall|i: int| 0 <= i < p ==> key_le(#[trigger] base[i], x),
        forall|i: int| p <= i < base.len() ==> !key_le(#[trigger] base[i], x),
    ensures
        placed_at_class_end(post, x, p),
{
    assert(post.len() == base.len() + 1);
    assert(post[p] == x);
    assert forall|i: int| 0 <= i < p implies rank((#[trigger] post[i]).priority) <= rank(
        x.priority,
    ) by {
        assert(post[i] == base[i]);
        assert(key_le(base[i], x));
    }
    assert forall|i: int| p < i < post.len() implies rank((#[trigger] post[i]).priority) > rank(
        x.priority,
    ) by {
        assert(post[i] == base[i - 1]);
        assert(!key_le(base[i - 1], x));
        assert(base[i - 1].enqueued_at <= x.enqueued_at);
    }
}

// ── SendBuffer ────────────────────────────────────────────────────────────────
/// The stored frames of each peer's buffer, by peer key.
pub open spec fn frames_by_peer(m: Map<u128, PeerBuffer>) -> Map<u128, Seq<BufferedFrame>> {
    m.map_values(|b: PeerBuffer| b.frames())
}

/// Total number of frames stored in a finite map of buffers.
pub open spec fn map_total(m: Map<u128, Seq<BufferedFrame>>) -> int
    decreases m.dom().len(),
    when m.dom().finite()
{
    if m.dom().len() == 0 {
        0
    } else {
        let k = m.dom().choose();
        m[k].len() + map_total(m.remove(k))
    }
}

proof fn lemma_map_total_remove(m: Map<u128, Seq<BufferedFrame>>, k: u128)
    requires
        m.dom().finite(),
        m.contains_key(k),
    ensures
        map_total(m) == m[k].len() + map_total(m.remove(k)),
    decreases m.dom().len(),
{
    let c = m.dom().choose();
    if c != k {
        let mc = m.remove(c);
        let mk = m.remove(k);
        lemma_map_total_remove(mc, k);
        lemma_map_total_remove(mk, c);
        assert(mc.remove(k) =~= mk.remove(c));
    }
}

proof fn lemma_map_total_nonneg(m: Map<u128, Seq<BufferedFrame>>)
    requires
        m.dom().finite(),
    ensures
        map_total(m) >= 0,
    decreases m.dom().len(),
{
    if m.dom().len() > 0 {
        lemma_map_total_nonneg(m.remove(m.dom().choose()));
    }
}

/// The buffers left by an expiry sweep at `now`: each keeps its fresh
/// frames, and peers left without frames disappear.
pub open spec fn expired_map(m: Map<u128, Seq<BufferedFrame>>, now: u64, timeout: u64) -> Map<
    u128,
    Seq<BufferedFrame>,
> {
    Map::new(
        |k: u128| m.contains_key(k) && fresh_frames(m[k], now, timeout).len() > 0,
        |k: u128| fresh_frames(m[k], now, timeout),
    )
}

/// The per-peer buffers behind a [`SendBuffer`].
struct Slots {
    peers: HashMap<u128, PeerBuffer>,
    capacity_per_peer: usize,
    timeout: u64,
}

impl Slots {
    spec fn view(&self) -> Map<u128, Seq<BufferedFrame>> {
        frames_by_peer(self.peers@)
    }

    spec fn wf(&self) -> bool {
        &&& self.peers@.dom().finite()
        &&& forall|k: u128|
            #[trigger] self.peers@.contains_key(k) ==> {
                &&& self.peers@[k].wf()
                &&& self.peers@[k].capacity() == self.capacity_per_peer
                &&& self.peers@[k].timeout() == self.timeout
            }
    }

    fn new(capacity_per_peer: usize, timeout: u64) -> (s: Slots)
        ensures
            s.wf(),
            s.view() == Map::<u128, Seq<BufferedFrame>>::empty(),
            s.capacity_per_peer == capacity_per_peer,
            s.timeout == timeout,
    {
        let s = Slots { peers: HashMap::new(), capacity_per_peer, timeout };
        proof {
            assert(s.view() =~= Map::<u128, Seq<BufferedFrame>>::empty());
        }
        s
    }
}

/// Global store-and-forward buffer: one [`PeerBuffer`] per destination peer.
pub struct SendBuffer {
    slots: Slots,
}

impl SendBuffer {
    #[verifier::type_invariant]
    spec fn inv(&self) -> bool {
        self.slots.wf()
    }

    /// Stored frames per peer key.
    pub closed spec fn view(&self) -> Map<u128, Seq<BufferedFrame>> {
        self.slots.view()
    }

    /// Maximum age (ns) before a buffered frame is discarded.
    pub closed spec fn timeout_ns(&self) -> u64 {
        self.slots.timeout
    }

    pub closed spec fn capacity_per_peer(&self) -> nat {
        self.slots.capacity_per_peer as nat
    }

    /// Every per-peer buffer is sorted by priority and within capacity.
    /// Every buffer keeps it.
    pub open spec fn wf(&self) -> bool {
        &&& self@.dom().finite()
        &&& forall|k: u128|
            #[trigger] self@.contains_key(k) ==> sorted_by_key(self@[k]) && self@[k].len()
                <= self.capacity_per_peer()
    }

    proof fn lemma_wf(&self)
        requires
            self.slots.wf(),
        ensures
            self.wf(),
    {
        assert(self@.dom() =~= self.slots.peers@.dom());
        assert forall|k: u128| #[trigger] self@.contains_key(k) implies sorted_by_key(self@[k])
            && self@[k].len() <= self.capacity_per_peer() by {
            assert(self.slots.peers@.contains_key(k));
        }
    }

    fn take_slots(&mut self) -> (l: Slots)
        ensures
            l.wf(),
            l == old(self).slots,
    {
        proof {
            use_type_invariant(&*self);
        }
        let mut l = Slots::new(0, 0);
        std::mem::swap(&mut l, &mut self.slots);
        l
    }

    pub fn timeout(&self) -> (t: u64)
        ensures
            t == self.timeout_ns(),
    {
        self.slots.timeout
    }

    pub fn new(capacity_per_peer: usize, timeout: u64) -> (b: SendBuffer)
        ensures
            b.wf(),
            b@ == Map::<u128, Seq<BufferedFrame>>::empty(),
            b.capacity_per_peer() == capacity_per_peer,
            b.timeout_ns() == timeout,
    {
        let b = SendBuffer { slots: Slots::new(capacity_per_peer, timeout) };
        proof {
            b.lemma_wf();
        }
        b
    }

    /// Buffer `frame` for `peer` with `priority` at time `now`, in the
    /// peer's buffer (a new one when the peer had none).
    pub fn push(&mut self, peer: NodeId, priority: Priority, frame: TransportFrame, now: u64)
        ensures
            final(self).wf(),
            final(self).capacity_per_peer() == old(self).capacity_per_peer(),
            final(self).timeout_ns() == old(self).timeout_ns(),
            final(self)@.contains_key(peer.key()),
            final(self)@ == old(self)@.insert(peer.key(), final(self)@[peer.key()]),
            push_result(
                if old(self)@.contains_key(peer.key()) {
                    old(self)@[peer.key()]
                } else {
                    Seq::empty()
                },
                BufferedFrame { enqueued_at: now, priority, frame },
                old(self).capacity_per_peer(),
                old(self).timeout_ns(),
                final(self)@[peer.key()],
            ),
    {
        let mut l = self.take_slots();
        let ghost pre = l.peers@;
        let k = peer.key_value();
        let mut b = match l.peers.remove(&k) {
            Some(b) => b,
            None => PeerBuffer::new(l.capacity_per_peer, l.timeout),
        };
        proof {
            if pre.contains_key(k) {
                assert(b == pre[k]);
            }
        }
        b.push(priority, frame, now);
        l.peers.insert(k, b);
        proof {
            assert forall|j: u128| #[trigger] l.peers@.contains_key(j) implies {
                &&& l.peers@[j].wf()
                &&& l.peers@[j].capacity() == l.capacity_per_peer
                &&& l.peers@[j].timeout() == l.timeout
            } by {
                if j != k {
                    assert(pre.contains_key(j));
                }
            }
            assert(frames_by_peer(l.peers@) =~= frames_by_peer(pre).insert(k, b.frames()));
        }
        self.slots = l;
        proof {
            self.lemma_wf();
        }
    }

    /// Drain all non-expired frames for `peer`, highest priority first; the
    /// peer's buffer goes.
    pub fn drain(&mut self, peer: &NodeId, now: u64) -> (out: Vec<TransportFrame>)
        ensures
            final(self).wf(),
            final(self).capacity_per_peer() == old(self).capacity_per_peer(),
            final(self).timeout_ns() == old(self).timeout_ns(),
            old(self)@.contains_key(peer.key()) ==> out@ == frames_of(
                fresh_frames(old(self)@[peer.key()], now, old(self).timeout_ns()),
            ) && final(self)@ == old(self)@.remove(peer.key()),
            !old(self)@.contains_key(peer.key()) ==> out@.len() == 0 && final(self)@ == old(self)@,
    {
        let mut l = self.take_slots();
        let ghost pre = l.peers@;
        let k = peer.key_value();
        let out = match l.peers.remove(&k) {
            Some(mut b) => {
                proof {
                    assert(b == pre[k]);
                }
                b.drain(now)
            },
            None => Vec::new(),
        };
        proof {
            assert forall|j: u128| #[trigger] l.peers@.contains_key(j) implies {
                &&& l.peers@[j].wf()
                &&& l.peers@[j].capacity() == l.capacity_per_peer
                &&& l.peers@[j].timeout() == l.timeout
            } by {
                assert(pre.contains_key(j));
            }
            assert(frames_by_peer(l.peers@) =~= frames_by_peer(pre).remove(k));
        }
        self.slots = l;
        proof {
            self.lemma_wf();
        }
        out
    }

    /// Expire stale frames across all peer buffers and drop peers left
    /// without frames.  Returns the total number of frames removed.
    pub fn expire_all(&mut self, now: u64) -> (removed: usize)
        requires
            map_total(old(self)@) <= usize::MAX,
        ensures
            final(self).wf(),
            final(self).capacity_per_peer() == old(self).capacity_per_peer(),
            final(self).timeout_ns() == old(self).timeout_ns(),
            final(self)@ == expired_map(old(self)@, now, old(self).timeout_ns()),
            removed == map_total(old(self)@) - map_total(final(self)@),
    {
        let mut l = self.take_slots();
        let ghost pre = l.peers@;
        let ghost old_view = frames_by_peer(pre);
        let timeout = l.timeout;
        let mut keys: Vec<u128> = Vec::new();
        let ghost listed = vstd::std_specs::hash::spec_keys_iter(&l.peers).remaining().unref();
        proof {
            broadcast use vstd::std_specs::hash::group_hash_axioms;
        }
        for k in it: l.peers.keys()
            invariant
                it.seq().unref() == listed,
                keys@ == it.seq().unref().take(it.index() as int),
        {
            proof {
                assert(it.seq().unref().take(it.index() + 1) =~= it.seq().unref().take(it.index() as int).push(*k));
            }
            keys.push(*k);
        }
        let ghost ks = keys@;
        proof {
            broadcast use vstd::std_specs::hash::group_hash_axioms;
            assert(ks =~= listed);
            assert(ks.to_set() == pre.dom());
            assert(ks.no_duplicates());
        }
        let mut removed: usize = 0;
        let mut i: usize = 0;
        while i < keys.len()
            invariant
                keys@ == ks,
                ks.no_duplicates(),
                ks.to_set() == pre.dom(),
                i <= ks.len(),
                old_view == frames_by_peer(pre),
                map_total(old_view) <= usize::MAX,
                l.wf(),
                l.timeout == timeout,
                l.capacity_per_peer == old(self).slots.capacity_per_peer,
                pre.dom().finite(),
                frames_by_peer(l.peers@) == Map::new(
                    |k: u128| old_view.contains_key(k) && (!ks.take(i as int).contains(k) || fresh_frames(
                        old_view[k],
                        now,
                        timeout,
                    ).len() > 0),
                    |k: u128| if ks.take(i as int).contains(k) {
                        fresh_frames(old_view[k], now, timeout)
                    } else {
                        old_view[k]
                    },
                ),
                removed == map_total(old_view) - map_total(frames_by_peer(l.peers@)),
            decreases ks.len() - i,
        {
            let k = keys[i];
            let ghost cur = frames_by_peer(l.peers@);
            let ghost cur_peers = l.peers@;
            proof {
                assert(ks.to_set().contains(k));
                assert(!ks.take(i as int).contains(k)) by {
                    if ks.take(i as int).contains(k) {
                        let j = choose|j: int| 0 <= j < i && ks.take(i as int)[j] == k;
                        assert(ks[j] == ks[i as int]);
                    }
                }
                assert(cur.dom() =~= cur_peers.dom());
                assert(cur.contains_key(k));
                assert(cur_peers.contains_key(k));
                assert(ks.take(i + 1) =~= ks.take(i as int).push(k));
                lemma_map_total_remove(cur, k);
                lemma_map_total_nonneg(cur.remove(k));
            }
            match l.peers.remove(&k) {
                Some(mut b) => {
                    proof {
                        assert(b == cur_peers[k]);
                        assert(b.frames() == old_view[k]);
                    }
                    let r = b.expire(now);
                    removed = removed + r;
                    if !b.is_empty() {
                        l.peers.insert(k, b);
                        proof {
                            let nxt = frames_by_peer(l.peers@);
                            assert(nxt =~= cur.remove(k).insert(k, b.frames()));
                            assert(nxt.dom() =~= cur.dom());
                            lemma_map_total_remove(nxt, k);
                            assert(nxt.remove(k) =~= cur.remove(k));
                        }
                    } else {
                        proof {
                            assert(frames_by_peer(l.peers@) =~= cur.remove(k));
                        }
                    }
                },
                None => {},
            }
            proof {
                assert forall|j: u128| #[trigger] l.peers@.contains_key(j) implies {
                    &&& l.peers@[j].wf()
                    &&& l.peers@[j].capacity() == l.capacity_per_peer
                    &&& l.peers@[j].timeout() == l.timeout
                } by {
                    if j != k {
                        assert(cur_peers.contains_key(j));
                    }
                }
                let tgt = Map::new(
                    |x: u128| old_view.contains_key(x) && (!ks.take(i + 1).contains(x) || fresh_frames(
                        old_view[x],
                        now,
                        timeout,
                    ).len() > 0),
                    |x: u128| if ks.take(i + 1).contains(x) {
                        fresh_frames(old_view[x], now, timeout)
                    } else {
                        old_view[x]
                    },
                );
                assert forall|x: u128| x != k implies (#[trigger] ks.take(i + 1).contains(x)) == ks.take(i as int).contains(x) by {
                    if ks.take(i + 1).contains(x) {
                        let j = choose|j: int| 0 <= j < i + 1 && #[trigger] ks.take(i + 1)[j] == x;
                        assert(j < i);
                        assert(ks.take(i as int)[j] == x);
                    }
                    if ks.take(i as int).contains(x) {
                        let j = choose|j: int| 0 <= j < i && #[trigger] ks.take(i as int)[j] == x;
                        assert(ks.take(i + 1)[j] == x);
                    }
                }
                assert(ks.take(i + 1).contains(k)) by {
                    assert(ks.take(i + 1)[i as int] == k);
                }
                assert(frames_by_peer(l.peers@) =~= tgt);
                assert(frames_by_peer(l.peers@) =~= Map::new(
                    |x: u128| old_view.contains_key(x) && (!ks.take(i + 1).contains(x) || fresh_frames(
                        old_view[x],
                        now,
                        timeout,
                    ).len() > 0),
                    |x: u128| if ks.take(i + 1).contains(x) {
                        fresh_frames(old_view[x], now, timeout)
                    } else {
                        old_view[x]
                    },
                ));
            }
            i = i + 1;
        }
        proof {
            assert(ks.take(ks.len() as int) =~= ks);
            assert(frames_by_peer(l.peers@) =~= expired_map(old_view, now, timeout));
        }
        self.slots = l;
        proof {
            self.lemma_wf();
        }
        removed
    }

    /// Number of peers that currently have a buffer.
    pub fn peer_count(&self) -> (n: usize)
        ensures
            n == self@.dom().len(),
    {
        proof {
            use_type_invariant(self);
            assert(self@.dom() =~= self.slots.peers@.dom());
        }
        self.slots.peers.len()
    }

    /// Number of buffered frames for a specific peer.
    pub fn frame_count(&self, peer: &NodeId) -> (n: usize)
        ensures
            n == (if self@.contains_key(peer.key()) {
                self@[peer.key()].len()
            } else {
                0
            }),
    {
        proof {
            use_type_invariant(self);
        }
        let k = peer.key_value();
        match self.slots.peers.get(&k) {
            Some(b) => b.len(),
            None => 0,
        }
    }
}

} // verus!
