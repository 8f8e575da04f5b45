//! The byte ring buffer that holds log output until a sink takes it.
use vstd::prelude::*;
use vstd::utf8::{valid_utf8, decode_utf8};
use vstd::string::StringSliceAdditionalSpecFns;

verus! {

/// Bytes of storage; the buffer holds at most one byte less.
pub const RING_CAPACITY: usize = 64 * 1024;

/// A byte queue over a fixed array: bytes are read from `tail` and written at
/// `head`.  When a write makes `head` reach `tail`, the oldest byte is dropped.
pub struct RingBuffer {
    buffer: Vec<u8>,
    head: usize,
    tail: usize,
}

/// Decodes `bytes` as UTF-8 text (`String::from_utf8`); `None` when they
/// are not valid UTF-8.  The contract states std's documented behaviour:
/// success exactly for valid UTF-8, with the text the bytes encode.
#[verifier::external_body]
fn utf8_text(bytes: Vec<u8>) -> (r: Option<String>)
    ensures
        r is Some <==> valid_utf8(bytes@),
        r matches Some(s) ==> s@ == decode_utf8(bytes@),
{
    String::from_utf8(bytes).ok()
}

/// Number of queued bytes between `tail` and `head`.
pub open spec fn ring_len(head: int, tail: int) -> nat {
    if head >= tail {
        (head - tail) as nat
    } else {
        (head + RING_CAPACITY - tail) as nat
    }
}

/// Position `x` taken around the end of the storage once.
pub open spec fn wrap(x: int) -> int {
    if x < RING_CAPACITY {
        x
    } else {
        x - RING_CAPACITY
    }
}

proof fn lemma_next_slot(x: usize)
    requires
        x < RING_CAPACITY,
    ensures
        (x + 1) % (RING_CAPACITY as int) == wrap(x + 1),
{
    if x + 1 < RING_CAPACITY {
        vstd::arithmetic::div_mod::lemma_small_mod((x + 1) as nat, RING_CAPACITY as nat);
    } else {
        vstd::arithmetic::div_mod::lemma_mod_self_0(RING_CAPACITY as int);
    }
}

/// Length of the line at the front of `s` read with room for `max` bytes:
/// up to and including the first newline, at most `max` bytes.
pub open spec fn line_len(s: Seq<u8>, max: nat) -> nat
    decreases s.len(),
{
    if max == 0 || s.len() == 0 {
        0
    } else if s[0] == 10 {
        1
    } else {
        1 + line_len(s.drop_first(), (max - 1) as nat)
    }
}

impl RingBuffer {
    /// The storage has its full size and both positions lie in it.
    pub closed spec fn wf(&self) -> bool {
        &&& self.buffer.len() == RING_CAPACITY
        &&& self.head < RING_CAPACITY
        &&& self.tail < RING_CAPACITY
    }

    /// The queued bytes, oldest first.
    pub closed spec fn view(&self) -> Seq<u8> {
        Seq::new(ring_len(self.head as int, self.tail as int), |k: int| self.buffer@[wrap(self.tail + k)])
    }

    /// A well-formed buffer holds fewer than `RING_CAPACITY` bytes, so a
    /// written byte is kept and, while there is room, nothing is dropped.
    pub proof fn lemma_wf_bounds_len(&self)
        requires
            self.wf(),
        ensures
            self@.len() <= RING_CAPACITY - 1,
    {
    }

    /// An empty buffer.
    pub fn new() -> (r: Self)
        ensures
            r.wf(),
            r@ == Seq::<u8>::empty(),
    {
        let r = RingBuffer { buffer: vec![0u8; RING_CAPACITY], head: 0, tail: 0 };
        assert(r@ =~= Seq::<u8>::empty());
        r
    }

    /// Queues `byte`; when the buffer is full the oldest byte is dropped.
    pub fn push_byte(&mut self, byte: u8)
        requires
            old(self).wf(),
        ensures
            final(self).wf(),
            old(self)@.len() < RING_CAPACITY - 1 ==> final(self)@ == old(self)@.push(byte),
            old(self)@.len() == RING_CAPACITY - 1 ==> final(self)@ == old(self)@.drop_first().push(
                byte,
            ),
            final(self)@.len() <= RING_CAPACITY - 1,
    {
        let ghost old_view = self@;
        let ghost c = RING_CAPACITY as int;
        let ghost t = self.tail as int;
        let ghost h = self.head as int;
        let ghost len = ring_len(h, t) as int;
        proof {
            lemma_next_slot(self.head);
            lemma_next_slot(self.tail);
        }
        self.buffer.set(self.head, byte);
        self.head = (self.head + 1) % self.buffer.len();
        if self.head == self.tail {
            self.tail = (self.tail + 1) % self.buffer.len();
        }
        proof {
            assert(h == wrap(t + len));
            if wrap(h + 1) != t {
                assert(self@.len() == len + 1);
                assert forall|k: int| 0 <= k < self@.len() implies #[trigger] self@[k]
                    == old_view.push(byte)[k] by {
                    if k < len {
                        assert(wrap(t + k) != h);
                    }
                }
                assert(self@ =~= old_view.push(byte));
            } else {
                assert(len == c - 1);
                assert(self@.len() == c - 1);
                assert forall|k: int| 0 <= k < self@.len() implies #[trigger] self@[k]
                    == old_view.drop_first().push(byte)[k] by {
                    assert(wrap(wrap(t + 1) + k) == wrap(t + (k + 1)));
                    if k < c - 2 {
                        assert(wrap(t + 1 + k) != h);
                    }
                }
                assert(self@ =~= old_view.drop_first().push(byte));
            }
        }
    }

    /// Takes the oldest byte, or `None` when the buffer is empty.
    pub fn pop(&mut self) -> (r: Option<u8>)
        requires
            old(self).wf(),
        ensures
            final(self).wf(),
            old(self)@.len() == 0 ==> r is None && final(self)@ == old(self)@,
            old(self)@.len() > 0 ==> r == Some(old(self)@[0]) && final(self)@ == old(self)@.drop_first(),
    {
        let ghost old_view = self@;
        let ghost c = RING_CAPACITY as int;
        let ghost t = self.tail as int;
        proof {
            lemma_next_slot(self.tail);
        }
        if self.tail == self.head {
            return None;
        }
        let data = self.buffer[self.tail];
        self.tail = (self.tail + 1) % self.buffer.len();
        proof {
            assert forall|k: int| 0 <= k < self@.len() implies #[trigger] self@[k]
                == old_view.drop_first()[k] by {
                assert(wrap(wrap(t + 1) + k) == wrap(t + (k + 1)));
            }
            assert(self@ =~= old_view.drop_first());
        }
        Some(data)
    }

    /// Queues the bytes of `data` in order.
    pub fn push(&mut self, data: &str)
        requires
            old(self).wf(),
        ensures
            final(self).wf(),
            final(self)@ == pushed_all(old(self)@, data.spec_bytes()),
    {
        let bytes = data.as_bytes();
        let mut i: usize = 0;
        while i < bytes.len()
            invariant
                self.wf(),
                0 <= i <= bytes@.len(),
                bytes@ == data.spec_bytes(),
                self@ == pushed_all(old(self)@, bytes@.subrange(0, i as int)),
            decreases bytes@.len() - i,
        {
            let ghost before = self@;
            self.push_byte(bytes[i]);
            proof {
                assert(bytes@.subrange(0, i + 1) =~= bytes@.subrange(0, i as int).push(bytes@[i as int]));
                lemma_pushed_all_push(old(self)@, bytes@.subrange(0, i as int), bytes@[i as int]);
            }
            i = i + 1;
        }
        proof {
            assert(bytes@.subrange(0, bytes@.len() as int) =~= bytes@);
        }
    }

    /// Takes the line at the front: bytes up to and including the first
    /// newline, at most `buffer.len()` of them, copied to the start of
    /// `buffer` (the rest of it is left as it was).  Returns the line as
    /// text, or `None` when the queue is empty, `buffer` is empty, or the
    /// bytes taken are not valid UTF-8 (they are taken and copied all the
    /// same).
    pub fn popln(&mut self, buffer: &mut [u8]) -> (r: Option<String>)
        requires
            old(self).wf(),
        ensures
            final(self).wf(),
            ({
                let n = line_len(old(self)@, old(buffer)@.len());
                let line = old(self)@.subrange(0, n as int);
                &&& final(self)@ == old(self)@.skip(n as int)
                &&& final(buffer)@ == line + old(buffer)@.skip(n as int)
                &&& r is Some <==> (n > 0 && valid_utf8(line))
                &&& r matches Some(s) ==> s@ == decode_utf8(line)
            }),
    {
        let ghost buf0 = buffer@;
        let max_len = buffer.len();
        if self.head == self.tail {
            proof {
                assert(self@.len() == 0);
                assert(self@ =~= self@.skip(0));
                assert(buffer@ =~= self@.subrange(0, 0) + buf0.skip(0));
            }
            return None;
        }
        let mut taken: Vec<u8> = Vec::new();
        let mut idx: usize = 0;
        while idx < max_len
            invariant_except_break
                self.wf(),
                idx <= max_len,
                max_len == buf0.len(),
                buffer@.len() == buf0.len(),
                taken.len() == idx,
                buffer@ == taken@ + buf0.skip(idx as int),
                line_len(old(self)@, max_len as nat) == idx + line_len(self@, (max_len - idx) as nat),
                old(self)@ == taken@ + self@,
                forall|k: int| 0 <= k < idx ==> taken@[k] != 10,
            ensures
                self.wf(),
                taken.len() == idx,
                buffer@ == taken@ + buf0.skip(idx as int),
                line_len(old(self)@, max_len as nat) == idx,
                old(self)@ == taken@ + self@,
            decreases max_len - idx,
        {
            let ghost before = self@;
            if let Some(byte) = self.pop() {
                let ghost buf_before = buffer@;
                buffer[idx] = byte;
                taken.push(byte);
                idx = idx + 1;
                proof {
                    assert(before =~= seq![byte] + self@);
                    assert(old(self)@ =~= taken@ + self@);
                    assert(buffer@ =~= taken@ + buf0.skip(idx as int));
                }
                if byte == 10u8 {
                    break;
                }
            } else {
                break;
            }
        }
        proof {
            assert(taken@ =~= old(self)@.subrange(0, idx as int));
            assert(self@ =~= old(self)@.skip(idx as int));
        }
        if idx == 0 {
            return None;
        }
        utf8_text(taken)
    }
}

/// `q` after queuing each byte of `bytes` in order.
pub open spec fn pushed_all(q: Seq<u8>, bytes: Seq<u8>) -> Seq<u8>
    decreases bytes.len(),
{
    if bytes.len() == 0 {
        q
    } else {
        let before = pushed_all(q, bytes.drop_last());
        let b = bytes.last();
        if before.len() < RING_CAPACITY - 1 {
            before.push(b)
        } else {
            before.drop_first().push(b)
        }
    }
}

proof fn lemma_pushed_all_push(q: Seq<u8>, bytes: Seq<u8>, b: u8)
    ensures
        pushed_all(q, bytes.push(b)) == ({
            let before = pushed_all(q, bytes);
            if before.len() < RING_CAPACITY - 1 {
                before.push(b)
            } else {
                before.drop_first().push(b)
            }
        }),
{
    assert(bytes.push(b).drop_last() =~= bytes);
}

/// Writing keeps the newest bytes: after queuing `bytes` behind `q` the
/// buffer holds the last `RING_CAPACITY - 1` bytes of `q` followed by
/// `bytes` (all of them when they fit), oldest first.
pub proof fn lemma_push_keeps_newest(q: Seq<u8>, bytes: Seq<u8>)
    requires
        q.len() <= RING_CAPACITY - 1,
    ensures
        pushed_all(q, bytes) == (q + bytes).skip(kept_from(q.len() + bytes.len())),
    decreases bytes.len(),
{
    let cap = RING_CAPACITY - 1;
    if bytes.len() == 0 {
        assert((q + bytes).skip(0) =~= q);
    } else {
        let rest = bytes.drop_last();
        let b = bytes.last();
        lemma_push_keeps_newest(q, rest);
        let d = kept_from(q.len() + rest.len());
        let before = pushed_all(q, rest);
        assert(before == (q + rest).skip(d));
        if before.len() < cap {
            assert(before.push(b) =~= (q + bytes).skip(kept_from(q.len() + bytes.len())));
        } else {
            assert(before.drop_first().push(b) =~= (q + bytes).skip(kept_from(q.len() + bytes.len())));
        }
    }
}

/// How many of the oldest bytes are dropped when `total` bytes were queued.
pub open spec fn kept_from(total: nat) -> int {
    if total <= RING_CAPACITY - 1 {
        0
    } else {
        total - (RING_CAPACITY - 1)
    }
}

/// What a read gives back of a write: while there is room, queuing `bytes`
/// behind `q` leaves `q` followed by `bytes`, so reads return the bytes in
/// the order they were written.
pub proof fn lemma_push_then_read_in_order(q: Seq<u8>, bytes: Seq<u8>)
    requires
        q.len() + bytes.len() <= RING_CAPACITY - 1,
    ensures
        pushed_all(q, bytes) == q + bytes,
{
    lemma_push_keeps_newest(q, bytes);
    assert((q + bytes).skip(0) =~= q + bytes);
}

} // verus!
