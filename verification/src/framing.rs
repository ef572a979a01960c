//! Line framing over byte streams, and the small allocators that the socket
//! layer is built from.
//!
//! Every wire message is a single line terminated by `\n` (byte 10); a
//! payload must not contain that byte.  [`LineBuffer`] accumulates received
//! bytes and hands out one whole line at a time, without the terminator.
//! [`SendBuffer`] accumulates outgoing bytes until the stream can take them.
//! [`TokenPool`] hands out registration tokens round-robin and [`PendingQueue`]
//! is a FIFO with set-based deduplication over those tokens.

use vstd::prelude::*;

verus! {

broadcast use vstd::std_specs::vec::group_vec_axioms;

/// The line terminator: `\n`.
pub const LINE_END: u8 = 10;

/// Frames `payload` as one line: the payload followed by the terminator.
/// Rejected exactly when the payload already contains the terminator.
pub fn frame_line(payload: &[u8]) -> (r: Option<Vec<u8>>)
    ensures
        payload@.contains(LINE_END) <==> r is None,
        r matches Some(framed) ==> framed@ == payload@.push(LINE_END),
{
    let mut out: Vec<u8> = Vec::new();
    let mut i: usize = 0;
    while i < payload.len()
        invariant
            0 <= i <= payload@.len(),
            out@ == payload@.take(i as int),
            forall|k: int| 0 <= k < i ==> payload@[k] != LINE_END,
        decreases payload@.len() - i,
    {
        if payload[i] == LINE_END {
            assert(payload@[i as int] == LINE_END);
            return None;
        }
        out.push(payload[i]);
        assert(out@ =~= payload@.take(i + 1));
        i += 1;
    }
    assert(!payload@.contains(LINE_END));
    assert(out@ =~= payload@);
    out.push(LINE_END);
    Some(out)
}

/// A growable receive buffer.  Bytes arrive at `offset`; complete lines are
/// consumed from `next_line_start`.
pub struct LineBuffer {
    pub buf: Vec<u8>,
    pub offset: usize,
    pub next_line_start: usize,
}

impl LineBuffer {
    /// The buffer is consistent: the cursor never passes the fill level and
    /// the fill level never passes the storage.
    pub open spec fn wf(&self) -> bool {
        self.next_line_start <= self.offset && self.offset <= self.buf@.len()
    }

    pub fn new() -> (r: LineBuffer)
        ensures
            r.wf(),
            r.offset == 0,
            r.next_line_start == 0,
    {
        LineBuffer { buf: Vec::new(), offset: 0, next_line_start: 0 }
    }

    /// Appends received bytes after the current fill level.
    pub fn append_received(&mut self, data: &[u8])
        requires
            old(self).wf(),
            old(self).offset + data@.len() <= usize::MAX,
        ensures
            final(self).wf(),
            final(self).next_line_start == old(self).next_line_start,
            final(self).offset == old(self).offset + data@.len(),
            final(self).buf@.take(final(self).offset as int) == old(self).buf@.take(
                old(self).offset as int,
            ) + data@,
    {
        self.buf.truncate(self.offset);
        let mut i: usize = 0;
        while i < data.len()
            invariant
                0 <= i <= data@.len(),
                self.buf@ == old(self).buf@.take(old(self).offset as int) + data@.take(i as int),
                self.offset == old(self).offset,
                self.next_line_start == old(self).next_line_start,
                self.offset + data@.len() <= usize::MAX,
                self.wf(),
            decreases data@.len() - i,
        {
            self.buf.push(data[i]);
            assert(self.buf@ =~= old(self).buf@.take(old(self).offset as int) + data@.take(
                i + 1,
            ));
            i += 1;
        }
        self.offset = self.offset + data.len();
        assert(data@.take(data@.len() as int) =~= data@);
        assert(self.buf@.take(self.offset as int) =~= self.buf@);
    }

    /// Returns the byte range of the next complete line, if one is present,
    /// and advances the cursor past its terminator.  The range never contains
    /// the terminator.
    pub fn next_line_range(&mut self) -> (r: Option<(usize, usize)>)
        requires
            old(self).wf(),
        ensures
            final(self).wf(),
            final(self).buf@ == old(self).buf@,
            final(self).offset == old(self).offset,
            r matches Some(range) ==> {
                &&& old(self).next_line_start <= range.0 <= range.1 < old(self).offset
                &&& range.0 == old(self).next_line_start
                &&& final(self).buf@[range.1 as int] == LINE_END
                &&& forall|k: int| range.0 <= k < range.1 ==> final(self).buf@[k] != LINE_END
                &&& final(self).next_line_start == range.1 + 1
            },
            r is None ==> {
                &&& final(self).next_line_start == old(self).next_line_start
                &&& forall|k: int|
                    old(self).next_line_start <= k < old(self).offset ==> old(self).buf@[k]
                        != LINE_END
            },
    {
        let start = self.next_line_start;
        let mut i: usize = start;
        while i < self.offset
            invariant
                self.wf(),
                self.buf@ == old(self).buf@,
                self.offset == old(self).offset,
                self.next_line_start == old(self).next_line_start,
                start == old(self).next_line_start,
                start <= i <= self.offset,
                forall|k: int| start <= k < i ==> self.buf@[k] != LINE_END,
            decreases self.offset - i,
        {
            if self.buf[i] == LINE_END {
                self.next_line_start = i + 1;
                return Some((start, i));
            }
            i += 1;
        }
        None
    }

    /// Drops the consumed prefix, moving the remaining bytes to the front.
    pub fn compact_if_needed(&mut self)
        requires
            old(self).wf(),
        ensures
            final(self).wf(),
            final(self).next_line_start == 0,
            final(self).offset == old(self).offset - old(self).next_line_start,
            final(self).buf@.take(final(self).offset as int) == old(self).buf@.subrange(
                old(self).next_line_start as int,
                old(self).offset as int,
            ),
    {
        if self.next_line_start > 0 {
            let count = self.offset - self.next_line_start;
            let mut i: usize = 0;
            while i < count
                invariant
                    self.next_line_start == old(self).next_line_start,
                    self.offset == old(self).offset,
                    self.buf@.len() == old(self).buf@.len(),
                    0 < self.next_line_start,
                    self.wf(),
                    0 <= i <= count,
                    count == self.offset - self.next_line_start,
                    forall|k: int|
                        0 <= k < i ==> self.buf@[k] == old(self).buf@[
                            old(self).next_line_start + k
                        ],
                    forall|k: int|
                        self.next_line_start + i <= k < self.offset ==> self.buf@[k] == old(
                            self,
                        ).buf@[k],
                decreases count - i,
            {
                assert(self.buf@[self.next_line_start + i] == old(self).buf@[
                    self.next_line_start + i
                ]);
                let b = self.buf[self.next_line_start + i];
                self.buf.set(i, b);
                i += 1;
            }
            self.offset = count;
            self.next_line_start = 0;
            assert(self.buf@.take(self.offset as int) =~= old(self).buf@.subrange(
                old(self).next_line_start as int,
                old(self).offset as int,
            ));
        } else {
            assert(self.buf@.take(self.offset as int) =~= old(self).buf@.subrange(
                0,
                old(self).offset as int,
            ));
        }
    }

    /// True iff any received bytes are waiting in the buffer.
    pub fn has_pending(&self) -> (r: bool)
        ensures
            r == (self.offset != 0),
    {
        self.offset > 0
    }

    /// The bytes of a line previously located by `next_line_range`.
    pub fn line_slice(&self, start: usize, end: usize) -> (r: &[u8])
        requires
            self.wf(),
            start <= end <= self.buf@.len(),
        ensures
            r@ == self.buf@.subrange(start as int, end as int),
    {
        slice_subrange(self.buf.as_slice(), start, end)
    }
}

/// Copies the subrange `[from, to)` out of a slice.
fn slice_subrange<'a>(s: &'a [u8], from: usize, to: usize) -> (r: &'a [u8])
    requires
        from <= to <= s@.len(),
    ensures
        r@ == s@.subrange(from as int, to as int),
{
    vstd::slice::slice_subrange(s, from, to)
}

/// A growable send buffer: bytes queue at the tail and drain from `offset`.
pub struct SendBuffer {
    pub buf: Vec<u8>,
    pub offset: usize,
}

impl SendBuffer {
    pub open spec fn wf(&self) -> bool {
        self.offset <= self.buf@.len()
    }

    pub fn new() -> (r: SendBuffer)
        ensures
            r.wf(),
            r.buf@.len() == 0,
            r.offset == 0,
    {
        SendBuffer { buf: Vec::new(), offset: 0 }
    }

    pub fn is_empty(&self) -> (r: bool)
        ensures
            r == (self.buf@.len() == 0),
    {
        self.buf.len() == 0
    }

    /// Appends one framed line to the queue.
    pub fn enqueue(&mut self, framed: &[u8])
        requires
            old(self).wf(),
            old(self).buf@.len() + framed@.len() <= usize::MAX,
        ensures
            final(self).wf(),
            final(self).offset == old(self).offset,
            final(self).buf@ == old(self).buf@ + framed@,
    {
        let mut i: usize = 0;
        while i < framed.len()
            invariant
                0 <= i <= framed@.len(),
                self.buf@ == old(self).buf@ + framed@.take(i as int),
                self.offset == old(self).offset,
                self.buf@.len() + framed@.len() <= usize::MAX + i,
            decreases framed@.len() - i,
        {
            self.buf.push(framed[i]);
            assert(self.buf@ =~= old(self).buf@ + framed@.take(i + 1));
            i += 1;
        }
        assert(framed@.take(framed@.len() as int) =~= framed@);
    }

    /// Records that `n` queued bytes were written out, compacting once more
    /// than half of the queue has drained.
    pub fn mark_sent(&mut self, n: usize)
        requires
            old(self).wf(),
            old(self).offset + n <= old(self).buf@.len(),
        ensures
            final(self).wf(),
            final(self).buf@.skip(final(self).offset as int) == old(self).buf@.skip(
                old(self).offset as int + n,
            ),
    {
        let cap = self.buf.len();
        assert(self.offset + n <= cap);
        self.offset = self.offset + n;
        if self.offset > self.buf.len() / 2 {
            let count = self.buf.len() - self.offset;
            let mut i: usize = 0;
            while i < count
                invariant
                    self.offset == old(self).offset + n,
                    self.buf@.len() == old(self).buf@.len(),
                    self.wf(),
                    0 <= i <= count,
                    count == self.buf@.len() - self.offset,
                    forall|k: int|
                        0 <= k < i ==> self.buf@[k] == old(self).buf@[self.offset + k],
                    forall|k: int|
                        self.offset + i <= k < self.buf@.len() ==> self.buf@[k] == old(
                            self,
                        ).buf@[k],
                decreases count - i,
            {
                assert(self.offset + i < self.buf@.len());
                assert(self.buf@[self.offset + i] == old(self).buf@[self.offset + i]);
                let idx = self.offset + i;
                let b = self.buf[idx];
                self.buf.set(i, b);
                i += 1;
            }
            self.buf.truncate(count);
            self.offset = 0;
            assert(self.buf@.skip(0) =~= old(self).buf@.skip(old(self).offset as int + n));
        } else {
            assert(self.buf@.skip(self.offset as int) =~= old(self).buf@.skip(
                old(self).offset as int + n,
            ));
        }
    }

    /// True iff the connection should watch for writability: either it is not
    /// yet connected, or bytes are waiting.
    pub fn needs_writable(&self, is_connected: bool) -> (r: bool)
        ensures
            r == (!is_connected || self.buf@.len() != 0),
    {
        !is_connected || self.buf.len() != 0
    }

    /// How many queued bytes have not been written out yet.
    pub fn pending_bytes(&self) -> (r: usize)
        requires
            self.wf(),
        ensures
            r == self.buf@.len() - self.offset,
    {
        self.buf.len() - self.offset
    }
}

/// A fixed-capacity pool of registration tokens `start..start+len`, handed
/// out round-robin.
pub struct TokenPool {
    pub start: usize,
    pub len: usize,
    pub next: usize,
    pub used: Vec<bool>,
    pub used_count: usize,
}

impl TokenPool {
    pub open spec fn wf(&self) -> bool {
        &&& self.used@.len() == self.len
        &&& self.next < self.len
        &&& self.used_count == self.used@.filter(|b: bool| b).len()
        &&& self.start + self.len <= usize::MAX
    }

    /// A pool over the token range `[start, end_exclusive)`; the range must
    /// hold at least one token.
    pub fn new(start: usize, end_exclusive: usize) -> (r: Option<TokenPool>)
        ensures
            r is None <==> end_exclusive <= start,
            r matches Some(pool) ==> {
                &&& pool.wf()
                &&& pool.start == start
                &&& pool.len == end_exclusive - start
                &&& pool.used_count == 0
                &&& forall|k: int| 0 <= k < pool.len ==> !pool.used@[k]
            },
    {
        if end_exclusive <= start {
            return None;
        }
        let len = end_exclusive - start;
        let mut used: Vec<bool> = Vec::new();
        let mut i: usize = 0;
        while i < len
            invariant
                0 <= i <= len,
                used@.len() == i,
                forall|k: int| 0 <= k < i ==> !used@[k],
            decreases len - i,
        {
            used.push(false);
            i += 1;
        }
        proof {
            lemma_filter_all_false(used@);
        }
        Some(TokenPool { start, len, next: 0, used, used_count: 0 })
    }

    /// Hands out a free token, or `None` when the pool is exhausted.  The
    /// returned token is in range and was free; it is marked used.
    pub fn allocate(&mut self) -> (r: Option<usize>)
        requires
            old(self).wf(),
        ensures
            final(self).wf(),
            final(self).start == old(self).start,
            final(self).len == old(self).len,
            r is None ==> *final(self) == *old(self) && old(self).used_count == old(self).len,
            r matches Some(token) ==> {
                &&& old(self).start <= token < old(self).start + old(self).len
                &&& !old(self).used@[token - old(self).start]
                &&& final(self).used@ == old(self).used@.update(
                    token - old(self).start,
                    true,
                )
                &&& final(self).used_count == old(self).used_count + 1
            },
    {
        if self.used_count >= self.len {
            proof {
                lemma_filter_count_full(self.used@);
            }
            return None;
        }
        let first = self.next;
        let mut i: usize = first;
        while i < self.len
            invariant
                self == old(self),
                self.wf(),
                self.used_count < self.len,
                first == self.next,
                first <= i <= self.len,
                forall|k: int| first <= k < i ==> self.used@[k],
            decreases self.len - i,
        {
            if !self.used[i] {
                return self.take_token(i);
            }
            i += 1;
        }
        let mut j: usize = 0;
        while j < first
            invariant
                self == old(self),
                self.wf(),
                self.used_count < self.len,
                first == self.next,
                first <= self.len,
                0 <= j <= first,
                forall|k: int| first <= k < self.len ==> self.used@[k],
                forall|k: int| 0 <= k < j ==> self.used@[k],
            decreases first - j,
        {
            if !self.used[j] {
                return self.take_token(j);
            }
            j += 1;
        }
        proof {
            assert(forall|k: int| 0 <= k < self.used@.len() ==> self.used@[k]);
            lemma_filter_count_has_false(self.used@);
        }
        None
    }

    /// Marks the free slot `i` used and returns its token, advancing the
    /// round-robin cursor past it.
    fn take_token(&mut self, i: usize) -> (r: Option<usize>)
        requires
            old(self).wf(),
            i < old(self).len,
            !old(self).used@[i as int],
        ensures
            final(self).wf(),
            final(self).start == old(self).start,
            final(self).len == old(self).len,
            r matches Some(token) && token == old(self).start + i,
            final(self).used@ == old(self).used@.update(i as int, true),
            final(self).used_count == old(self).used_count + 1,
    {
        let ghost prev = self.used@;
        self.used.set(i, true);
        proof {
            lemma_filter_update_true(prev, i as int);
        }
        self.used_count = self.used_count + 1;
        self.next = if i + 1 >= self.len {
            0
        } else {
            i + 1
        };
        Some(self.start + i)
    }

    /// Returns a token to the pool; a token outside the range or already free
    /// is ignored.
    pub fn release(&mut self, token: usize)
        requires
            old(self).wf(),
        ensures
            final(self).wf(),
            final(self).start == old(self).start,
            final(self).len == old(self).len,
            (old(self).start <= token < old(self).start + old(self).len && old(self).used@[
                token - old(self).start
            ]) ==> {
                &&& final(self).used@ == old(self).used@.update(
                    token - old(self).start,
                    false,
                )
                &&& final(self).used_count == old(self).used_count - 1
            },
            !(old(self).start <= token < old(self).start + old(self).len && old(self).used@[
                token - old(self).start
            ]) ==> *final(self) == *old(self),
    {
        if token >= self.start {
            let i = token - self.start;
            if i < self.len {
                if self.used[i] {
                    let ghost prev = self.used@;
                    self.used.set(i, false);
                    proof {
                        lemma_filter_update_false(prev, i as int);
                    }
                    self.used_count = self.used_count - 1;
                }
            }
        }
    }
}

proof fn lemma_filter_all_false(s: Seq<bool>)
    requires
        forall|k: int| 0 <= k < s.len() ==> !s[k],
    ensures
        s.filter(|b: bool| b).len() == 0,
    decreases s.len(),
{
    reveal(Seq::filter);
    if s.len() > 0 {
        lemma_filter_all_false(s.drop_last());
    }
}

proof fn lemma_filter_count_full(s: Seq<bool>)
    requires
        s.filter(|b: bool| b).len() >= s.len(),
    ensures
        forall|k: int| 0 <= k < s.len() ==> s[k],
    decreases s.len(),
{
    reveal(Seq::filter);
    if s.len() > 0 {
        s.drop_last().filter_lemma(|b: bool| b);
        lemma_filter_count_full(s.drop_last());
        assert forall|k: int| 0 <= k < s.len() implies s[k] by {
            if k < s.len() - 1 {
                assert(s.drop_last()[k]);
            } else {
                assert(s.filter(|b: bool| b).len() >= s.len());
                if !s.last() {
                    assert(s.filter(|b: bool| b) == s.drop_last().filter(|b: bool| b));
                    s.drop_last().filter_lemma(|b: bool| b);
                    assert(s.drop_last().filter(|b: bool| b).len() <= s.drop_last().len());
                }
            }
        }
    }
}

proof fn lemma_filter_count_has_false(s: Seq<bool>)
    requires
        forall|k: int| 0 <= k < s.len() ==> s[k],
    ensures
        s.filter(|b: bool| b).len() == s.len(),
    decreases s.len(),
{
    reveal(Seq::filter);
    if s.len() > 0 {
        assert(forall|k: int| 0 <= k < s.drop_last().len() ==> s.drop_last()[k]);
        lemma_filter_count_has_false(s.drop_last());
    }
}

proof fn lemma_filter_update_true(s: Seq<bool>, i: int)
    requires
        0 <= i < s.len(),
        !s[i],
    ensures
        s.update(i, true).filter(|b: bool| b).len() == s.filter(|b: bool| b).len() + 1,
    decreases s.len(),
{
    reveal(Seq::filter);
    if s.len() > 0 {
        if i == s.len() - 1 {
            assert(s.update(i, true).drop_last() =~= s.drop_last());
            assert(s.update(i, true).last());
        } else {
            assert(s.update(i, true).drop_last() =~= s.drop_last().update(i, true));
            lemma_filter_update_true(s.drop_last(), i);
            assert(s.update(i, true).last() == s.last());
        }
    }
}

proof fn lemma_filter_update_false(s: Seq<bool>, i: int)
    requires
        0 <= i < s.len(),
        s[i],
    ensures
        s.update(i, false).filter(|b: bool| b).len() == s.filter(|b: bool| b).len() - 1,
    decreases s.len(),
{
    reveal(Seq::filter);
    if s.len() > 0 {
        if i == s.len() - 1 {
            assert(s.update(i, false).drop_last() =~= s.drop_last());
            assert(!s.update(i, false).last());
        } else {
            assert(s.update(i, false).drop_last() =~= s.drop_last().update(i, false));
            lemma_filter_update_false(s.drop_last(), i);
            assert(s.update(i, false).last() == s.last());
        }
    }
}

/// A FIFO over tokens with deduplication: pushing a token already queued
/// has no effect, and a removed token leaves its place in the order.
pub struct PendingQueue {
    pub queue: Vec<usize>,
}

impl PendingQueue {
    /// The queued tokens, front first: the order `pop` delivers them in.
    pub open spec fn members(&self) -> Seq<usize> {
        self.queue@
    }

    /// No token is queued twice.
    pub open spec fn wf(&self) -> bool {
        forall|i: int, j: int|
            0 <= i < j < self.queue@.len() ==> self.queue@[i] != self.queue@[j]
    }

    pub fn new() -> (r: PendingQueue)
        ensures
            r.wf(),
            r.members().len() == 0,
    {
        PendingQueue { queue: Vec::new() }
    }

    fn index_of(&self, token: usize) -> (r: Option<usize>)
        ensures
            r matches Some(i) ==> i < self.queue@.len() && self.queue@[i as int] == token,
            r is None ==> !self.queue@.contains(token),
    {
        let mut i: usize = 0;
        while i < self.queue.len()
            invariant
                0 <= i <= self.queue@.len(),
                forall|k: int| 0 <= k < i ==> self.queue@[k] != token,
            decreases self.queue@.len() - i,
        {
            if self.queue[i] == token {
                return Some(i);
            }
            i += 1;
        }
        proof {
            if self.queue@.contains(token) {
                let w = choose|w: int| 0 <= w < self.queue@.len() && self.queue@[w] == token;
                assert(self.queue@[w] != token);
            }
        }
        None
    }

    /// Queues a token at the back unless it is already queued, which
    /// leaves the queue as it stands.
    pub fn push(&mut self, token: usize)
        requires
            old(self).wf(),
        ensures
            final(self).wf(),
            old(self).members().contains(token) ==> final(self).members() == old(
                self,
            ).members(),
            !old(self).members().contains(token) ==> final(self).members() == old(
                self,
            ).members().push(token),
    {
        if self.index_of(token).is_none() {
            self.queue.push(token);
        }
    }

    /// Discards a queued token, keeping every other token in its order; an
    /// absent token leaves the queue as it stands.
    pub fn remove(&mut self, token: usize)
        requires
            old(self).wf(),
        ensures
            final(self).wf(),
            !final(self).members().contains(token),
            old(self).members().contains(token) ==> exists|i: int|
                0 <= i < old(self).members().len() && old(self).members()[i] == token
                    && final(self).members() == old(self).members().remove(i),
            !old(self).members().contains(token) ==> final(self).members() == old(
                self,
            ).members(),
    {
        let found = self.index_of(token);
        if let Some(i) = found {
            let ghost prev = self.queue@;
            self.queue.remove(i);
            proof {
                assert(self.queue@ =~= prev.remove(i as int));
                assert forall|a: int, b: int|
                    0 <= a < b < self.queue@.len() implies self.queue@[a] != self.queue@[b] by {
                    if a < i {
                        assert(self.queue@[a] == prev[a]);
                    } else {
                        assert(self.queue@[a] == prev[a + 1]);
                    }
                    if b < i {
                        assert(self.queue@[b] == prev[b]);
                    } else {
                        assert(self.queue@[b] == prev[b + 1]);
                    }
                }
                assert(!self.queue@.contains(token)) by {
                    if self.queue@.contains(token) {
                        let w = choose|w: int|
                            0 <= w < self.queue@.len() && self.queue@[w] == token;
                        if w < i {
                            assert(prev[w] == token);
                        } else {
                            assert(prev[w + 1] == token);
                            assert(prev[i as int] == token);
                        }
                    }
                }
            }
        }
    }

    /// The token at the front, without removing it; `None` when empty.
    pub fn peek(&self) -> (r: Option<usize>)
        ensures
            r matches Some(token) ==> self.members().len() > 0 && token == self.members()[0],
            r is None ==> self.members().len() == 0,
    {
        if self.queue.len() == 0 {
            None
        } else {
            Some(self.queue[0])
        }
    }

    /// Removes and returns the front token, or `None` when empty.
    pub fn pop(&mut self) -> (r: Option<usize>)
        requires
            old(self).wf(),
        ensures
            final(self).wf(),
            r matches Some(token) ==> old(self).members().len() > 0 && token == old(
                self,
            ).members()[0] && final(self).members() == old(self).members().skip(1),
            r is None ==> old(self).members().len() == 0 && final(self).members() == old(
                self,
            ).members(),
    {
        if self.queue.len() == 0 {
            return None;
        }
        let ghost prev = self.queue@;
        let token = self.queue.remove(0);
        proof {
            assert(self.queue@ =~= prev.skip(1));
            assert forall|a: int, b: int|
                0 <= a < b < self.queue@.len() implies self.queue@[a] != self.queue@[b] by {
                assert(self.queue@[a] == prev[a + 1]);
                assert(self.queue@[b] == prev[b + 1]);
            }
        }
        Some(token)
    }
}

} // verus!
