//! The kernel logger: text is queued in a ring buffer and handed, line by
//! line, to the registered sinks.
use vstd::prelude::*;
use vstd::utf8::{valid_utf8, decode_utf8};
use vstd::string::StringSliceAdditionalSpecFns;
use crate::ring_buffer::{RingBuffer, line_len, pushed_all};

verus! {

/// Room the logger reads a line into.
pub const SCRATCH_LEN: usize = 1024;

/// Room a flush reads a line into.
pub const FLUSH_LINE_LEN: usize = 1000;

/// Something that can be told apart from the other sinks by an id.
pub trait SinkEntity {
    spec fn sink_id(&self) -> usize;

    fn get_id(&self) -> (r: usize)
        ensures
            r == self.sink_id(),
    ;
}

/// The texts a sink has been handed by `write_str`, oldest first.  A sink
/// keeps one and notes each text it is handed (`note`); the record exists
/// for proofs only and takes no room at run time.
#[derive(Clone, Copy)]
pub struct SinkLog {
    texts: Ghost<Seq<Seq<char>>>,
}

impl SinkLog {
    /// The texts, oldest first.
    pub closed spec fn texts(&self) -> Seq<Seq<char>> {
        self.texts@
    }

    /// A log of no text.
    pub fn new() -> (r: Self)
        ensures
            r.texts() == Seq::<Seq<char>>::empty(),
    {
        SinkLog { texts: Ghost(Seq::empty()) }
    }

    /// Notes that `text` was handed to the sink.
    pub fn note(&mut self, text: &str)
        ensures
            final(self).texts() == old(self).texts().push(text@),
    {
        let ghost texts = self.texts@.push(text@);
        self.texts = Ghost(texts);
    }
}

/// A destination for log text.
pub trait WriteSink: SinkEntity {
    /// The texts handed to this sink by `write_str`, oldest first, whatever
    /// each call answered: the sink's own `SinkLog`, in which `write_str`
    /// notes each text.
    spec fn received(&self) -> SinkLog;

    /// Takes `s`; the answer says whether the sink could write it.
    fn write_str(&mut self, s: &str) -> (ok: bool)
        ensures
            final(self).received().texts() == old(self).received().texts().push(s@),
    ;
}

/// The sinks' logs after each was handed `text`.
pub open spec fn all_received<S: WriteSink>(before: Seq<S>, after: Seq<S>, texts: Seq<Seq<char>>) -> bool {
    &&& after.len() == before.len()
    &&& forall|i: int|
        0 <= i < before.len() ==> #[trigger] after[i].received().texts() == before[i].received().texts()
            + texts
}

/// `sinks` without the ones whose id is `sink_id`, order kept.
pub open spec fn without_sink<S: SinkEntity>(sinks: Seq<S>, sink_id: usize) -> Seq<S>
    decreases sinks.len(),
{
    if sinks.len() == 0 {
        sinks
    } else if sinks[0].sink_id() == sink_id {
        without_sink(sinks.drop_first(), sink_id)
    } else {
        seq![sinks[0]] + without_sink(sinks.drop_first(), sink_id)
    }
}

/// Position of the first sink whose id is `sink_id`.
pub open spec fn is_first_with_id<S: SinkEntity>(sinks: Seq<S>, sink_id: usize, i: int) -> bool {
    &&& 0 <= i < sinks.len()
    &&& sinks[i].sink_id() == sink_id
    &&& forall|k: int| 0 <= k < i ==> #[trigger] sinks[k].sink_id() != sink_id
}

/// The first sink whose id is `sink_id` (meaningful when there is one).
pub open spec fn first_with_id<S: SinkEntity>(sinks: Seq<S>, sink_id: usize) -> int {
    choose|i: int| is_first_with_id(sinks, sink_id, i)
}

proof fn lemma_first_with_id_unique<S: SinkEntity>(sinks: Seq<S>, sink_id: usize, i: int)
    requires
        is_first_with_id(sinks, sink_id, i),
    ensures
        first_with_id(sinks, sink_id) == i,
{
    let c = first_with_id(sinks, sink_id);
    assert(is_first_with_id(sinks, sink_id, c));
    if c < i {
        assert(sinks[c].sink_id() != sink_id);
    } else if i < c {
        assert(sinks[i].sink_id() != sink_id);
    }
}

/// Registration is never undone: once a sink was registered, `after` has a
/// sink list (possibly emptied) as `before` had.
pub open spec fn registration_kept<S: WriteSink>(before: &Logger<S>, after: &Logger<S>) -> bool {
    before.sinks() is Some ==> after.sinks() is Some
}

/// Registration being kept step by step, it is kept over any run of steps.
pub proof fn lemma_registration_kept_trans<S: WriteSink>(a: &Logger<S>, b: &Logger<S>, c: &Logger<S>)
    requires
        registration_kept(a, b),
        registration_kept(b, c),
    ensures
        registration_kept(a, c),
{
}

/// The kernel logger: queued text and the sinks it goes to (none registered before the first).
pub struct Logger<S: WriteSink> {
    sinks: Option<Vec<S>>,
    buffer: RingBuffer,
}

impl<S: WriteSink> Logger<S> {
    /// The queue is well formed.
    pub closed spec fn wf(&self) -> bool {
        self.buffer.wf()
    }

    /// The queued text, oldest byte first.
    pub closed spec fn queued(&self) -> Seq<u8> {
        self.buffer@
    }

    /// The registered sinks, or `None` before the first one.
    pub closed spec fn sinks(&self) -> Option<Seq<S>> {
        match self.sinks {
            Some(v) => Some(v@),
            None => None,
        }
    }

    /// A logger with nothing queued and no sinks.
    pub fn new() -> (r: Self)
        ensures
            r.wf(),
            r.queued() == Seq::<u8>::empty(),
            r.sinks() is None,
    {
        Logger { sinks: None, buffer: RingBuffer::new() }
    }

    /// Takes the next line (at most `SCRATCH_LEN` bytes) from the queue.
    pub fn read(&mut self) -> (r: Option<String>)
        requires
            old(self).wf(),
        ensures
            registration_kept(old(self), final(self)),
            final(self).wf(),
            final(self).sinks() == old(self).sinks(),
            ({
                let n = line_len(old(self).queued(), SCRATCH_LEN as nat);
                let line = old(self).queued().subrange(0, n as int);
                &&& final(self).queued() == old(self).queued().skip(n as int)
                &&& r is Some <==> (n > 0 && valid_utf8(line))
                &&& r matches Some(s) ==> s@ == decode_utf8(line)
            }),
    {
        let mut scratch = vec![0u8; SCRATCH_LEN];
        self.buffer.popln(scratch.as_mut_slice())
    }

    /// A sink was registered at some point.
    pub fn is_sinks_inited(&self) -> (r: bool)
        ensures
            r == self.sinks() is Some,
    {
        self.sinks.is_some()
    }

    /// Registers `writer` after the sinks already there.
    pub fn init_sink(&mut self, writer: S)
        ensures
            registration_kept(old(self), final(self)),
            final(self).wf() == old(self).wf(),
            final(self).queued() == old(self).queued(),
            final(self).sinks() == Some(
                match old(self).sinks() {
                    Some(v) => v.push(writer),
                    None => seq![writer],
                },
            ),
    {
        match self.sinks.take() {
            None => {
                let mut vector = Vec::new();
                vector.push(writer);
                proof {
                    assert(vector@ =~= seq![writer]);
                }
                self.sinks = Some(vector);
            },
            Some(mut vector) => {
                vector.push(writer);
                self.sinks = Some(vector);
            },
        }
    }

    /// Drops every sink whose id is `sink_id`.
    pub fn remove_sink(&mut self, sink_id: usize)
        ensures
            registration_kept(old(self), final(self)),
            final(self).wf() == old(self).wf(),
            final(self).queued() == old(self).queued(),
            final(self).sinks() == match old(self).sinks() {
                Some(v) => Some(without_sink(v, sink_id)),
                None => None,
            },
    {
        match self.sinks.take() {
            None => {},
            Some(mut rest) => {
                let ghost all = rest@;
                let mut kept: Vec<S> = Vec::new();
                while rest.len() > 0
                    invariant
                        kept@ + without_sink(rest@, sink_id) == without_sink(all, sink_id),
                    decreases rest.len(),
                {
                    let ghost before = rest@;
                    let s = rest.remove(0);
                    proof {
                        assert(before.drop_first() =~= rest@);
                    }
                    if s.get_id() != sink_id {
                        kept.push(s);
                        proof {
                            assert(kept@ + without_sink(rest@, sink_id) =~= (kept@.drop_last() + (
                            seq![s] + without_sink(rest@, sink_id))));
                        }
                    }
                }
                proof {
                    assert(kept@ + without_sink(rest@, sink_id) =~= kept@);
                }
                self.sinks = Some(kept);
            },
        }
    }

    /// Removes and returns the first sink whose id is `sink_id`.
    pub fn extract_sink(&mut self, sink_id: usize) -> (r: Option<S>)
        ensures
            registration_kept(old(self), final(self)),
            final(self).wf() == old(self).wf(),
            final(self).queued() == old(self).queued(),
            old(self).sinks() is None ==> r is None && final(self).sinks() is None,
            old(self).sinks() matches Some(v) ==> (r is None <==> forall|k: int|
                0 <= k < v.len() ==> #[trigger] v[k].sink_id() != sink_id),
            old(self).sinks() matches Some(v) ==> r is None ==> final(self).sinks() == Some(v),
            old(self).sinks() matches Some(v) ==> r is Some ==> {
                let i = first_with_id(v, sink_id);
                &&& is_first_with_id(v, sink_id, i)
                &&& r == Some(v[i])
                &&& final(self).sinks() == Some(v.remove(i))
            },
    {
        match self.sinks.take() {
            None => None,
            Some(mut vec) => {
                let ghost v0 = vec@;
                let mut pos: usize = 0;
                while pos < vec.len()
                    invariant
                        0 <= pos <= vec.len(),
                        vec@ == v0,
                        old(self).sinks() == Some(v0),
                        self.sinks is None,
                        self.buffer == old(self).buffer,
                        forall|k: int| 0 <= k < pos ==> #[trigger] vec@[k].sink_id() != sink_id,
                    decreases vec.len() - pos,
                {
                    if vec[pos].get_id() == sink_id {
                        let ghost before = vec@;
                        let s = vec.remove(pos);
                        proof {
                            assert(is_first_with_id(before, sink_id, pos as int));
                        }
                        self.sinks = Some(vec);
                        proof {
                            assert(self.sinks() == Some(before.remove(pos as int)));
                            assert(s == before[pos as int]);
                            assert(before[pos as int].sink_id() == sink_id);
                            assert(!(forall|k: int| 0 <= k < before.len() ==> #[trigger] before[k].sink_id() != sink_id));
                            assert(before == v0);
                            lemma_first_with_id_unique(v0, sink_id, pos as int);
                            let v = old(self).sinks()->0;
                            assert(v == v0);
                            assert(v[pos as int].sink_id() == sink_id);
                        }
                        return Some(s);
                    }
                    pos = pos + 1;
                }
                self.sinks = Some(vec);
                None
            },
        }
    }

    /// Queues the bytes of `s`.
    pub fn write_str(&mut self, s: &str)
        requires
            old(self).wf(),
        ensures
            registration_kept(old(self), final(self)),
            final(self).wf(),
            final(self).sinks() == old(self).sinks(),
            final(self).queued() == pushed_all(old(self).queued(), s.spec_bytes()),
    {
        self.buffer.push(s);
    }

    /// Hands the next line (at most `FLUSH_LINE_LEN` bytes; empty text when
    /// none can be read) to every sink.  Nothing happens while no sink is
    /// registered.
    pub fn flush(&mut self)
        requires
            old(self).wf(),
        ensures
            registration_kept(old(self), final(self)),
            final(self).wf(),
            match old(self).sinks() {
                Some(v) => {
                    &&& final(self).sinks() is Some
                    &&& final(self).sinks()->0.len() == v.len()
                    &&& v.len() == 0 ==> final(self).queued() == old(self).queued()
                    &&& v.len() > 0 ==> final(self).queued() == old(self).queued().skip(
                        line_len(old(self).queued(), FLUSH_LINE_LEN as nat) as int,
                    )
                    &&& v.len() > 0 ==> all_received(v, final(self).sinks()->0, seq![flush_text(old(self).queued())])
                    &&& v.len() == 0 ==> final(self).sinks() == Some(v)
                },
                None => final(self).sinks() is None && final(self).queued() == old(self).queued(),
            },
    {
        match self.sinks.take() {
            None => {},
            Some(mut sinks) => {
                if sinks.len() == 0 {
                    self.sinks = Some(sinks);
                    return;
                }
                let mut line_buffer = vec![0u8; FLUSH_LINE_LEN];
                let line = match self.buffer.popln(line_buffer.as_mut_slice()) {
                    Some(text) => text,
                    None => String::new(),
                };
                proof {
                    assert(line@ == flush_text(old(self).queued()));
                }
                write_to_all(&mut sinks, line.as_str());
                self.sinks = Some(sinks);
            },
        }
    }

    /// Hands every readable line to every sink, until the queue is empty or
    /// a line is not valid UTF-8 (that line is dropped).  Nothing happens
    /// while no sink is registered.
    pub fn flush_all(&mut self)
        requires
            old(self).wf(),
        ensures
            registration_kept(old(self), final(self)),
            final(self).wf(),
            match old(self).sinks() {
                Some(v) => {
                    &&& final(self).sinks() is Some
                    &&& final(self).sinks()->0.len() == v.len()
                    &&& v.len() == 0 ==> final(self).queued() == old(self).queued()
                    &&& v.len() > 0 ==> final(self).queued() == flushed(old(self).queued())
                    &&& v.len() > 0 ==> all_received(v, final(self).sinks()->0, flushed_lines(old(self).queued()))
                    &&& v.len() == 0 ==> final(self).sinks() == Some(v)
                },
                None => final(self).sinks() is None && final(self).queued() == old(self).queued(),
            },
    {
        match self.sinks.take() {
            None => {},
            Some(mut sinks) => {
                if sinks.len() == 0 {
                    self.sinks = Some(sinks);
                    return;
                }
                let ghost v0 = sinks@;
                let ghost mut done: Seq<Seq<char>> = Seq::empty();
                loop
                    invariant
                        self.wf(),
                        self.sinks is None,
                        sinks.len() == v0.len(),
                        v0.len() > 0,
                        old(self).sinks() == Some(v0),
                        flushed(self.buffer@) == flushed(old(self).queued()),
                        done + flushed_lines(self.buffer@) == flushed_lines(old(self).queued()),
                        all_received(v0, sinks@, done),
                    decreases self.buffer@.len(),
                {
                    let ghost before = self.buffer@;
                    let ghost sinks_before = sinks@;
                    let mut line_buffer = vec![0u8; FLUSH_LINE_LEN];
                    match self.buffer.popln(line_buffer.as_mut_slice()) {
                        Some(text) => {
                            write_to_all(&mut sinks, text.as_str());
                            proof {
                                lemma_line_len_positive(before, FLUSH_LINE_LEN as nat);
                                let n = line_len(before, FLUSH_LINE_LEN as nat);
                                assert(flushed_lines(before) == seq![text@] + flushed_lines(before.skip(n as int)));
                                assert(done + seq![text@] + flushed_lines(self.buffer@) =~= done + flushed_lines(before));
                                assert forall|i: int| 0 <= i < v0.len() implies #[trigger] sinks@[i].received().texts()
                                    == v0[i].received().texts() + (done + seq![text@]) by {
                                    assert(sinks_before[i].received().texts() == v0[i].received().texts() + done);
                                    assert(v0[i].received().texts() + done + seq![text@] =~= v0[i].received().texts()
                                        + (done + seq![text@]));
                                }
                                done = done + seq![text@];
                            }
                        },
                        None => {
                            proof {
                                assert(flushed_lines(before) =~= Seq::<Seq<char>>::empty());
                                assert(done =~= done + flushed_lines(before));
                            }
                            self.sinks = Some(sinks);
                            return;
                        },
                    }
                }
            },
        }
    }
}

/// The text one flush hands to the sinks: the next line (at most
/// `FLUSH_LINE_LEN` bytes) decoded, or empty text when there is none or it
/// is not valid UTF-8.
pub open spec fn flush_text(q: Seq<u8>) -> Seq<char> {
    let n = line_len(q, FLUSH_LINE_LEN as nat);
    let line = q.subrange(0, n as int);
    if n > 0 && valid_utf8(line) {
        decode_utf8(line)
    } else {
        Seq::empty()
    }
}

/// The lines a full flush hands to the sinks, in order: the readable lines
/// from the front of the queue, up to the queue's end or the first line
/// that is not valid UTF-8.
pub open spec fn flushed_lines(q: Seq<u8>) -> Seq<Seq<char>>
    decreases q.len(),
{
    let n = line_len(q, FLUSH_LINE_LEN as nat);
    if n == 0 {
        Seq::empty()
    } else if !valid_utf8(q.subrange(0, n as int)) {
        Seq::empty()
    } else {
        proof {
            lemma_line_len_positive(q, FLUSH_LINE_LEN as nat);
        }
        seq![decode_utf8(q.subrange(0, n as int))] + flushed_lines(q.skip(n as int))
    }
}

/// The queue after every readable line was flushed: lines are taken from
/// the front until the queue is empty or a line is not valid UTF-8, which is
/// dropped as well.
pub open spec fn flushed(q: Seq<u8>) -> Seq<u8>
    decreases q.len(),
{
    let n = line_len(q, FLUSH_LINE_LEN as nat);
    if n == 0 {
        q
    } else if !valid_utf8(q.subrange(0, n as int)) {
        q.skip(n as int)
    } else {
        proof {
            lemma_line_len_positive(q, FLUSH_LINE_LEN as nat);
        }
        flushed(q.skip(n as int))
    }
}

/// A line read from a non-empty queue with room for at least one byte is
/// not empty.
pub proof fn lemma_line_len_positive(s: Seq<u8>, max: nat)
    requires
        line_len(s, max) > 0,
    ensures
        s.skip(line_len(s, max) as int).len() < s.len(),
    decreases s.len(),
{
    if max > 0 && s.len() > 0 && s[0] != 10 {
        if line_len(s.drop_first(), (max - 1) as nat) > 0 {
            lemma_line_len_positive(s.drop_first(), (max - 1) as nat);
        }
    }
    lemma_line_len_bound(s, max);
}

proof fn lemma_line_len_bound(s: Seq<u8>, max: nat)
    ensures
        line_len(s, max) <= s.len(),
    decreases s.len(),
{
    if max > 0 && s.len() > 0 && s[0] != 10 {
        lemma_line_len_bound(s.drop_first(), (max - 1) as nat);
    }
}

/// Writes `text` to each sink in turn: each is handed it once.
fn write_to_all<S: WriteSink>(sinks: &mut Vec<S>, text: &str)
    ensures
        all_received(old(sinks)@, final(sinks)@, seq![text@]),
{
    let mut i: usize = 0;
    while i < sinks.len()
        invariant
            sinks.len() == old(sinks).len(),
            0 <= i <= sinks.len(),
            forall|k: int| 0 <= k < i ==> #[trigger] sinks@[k].received().texts() == old(sinks)@[k].received().texts() + seq![text@],
            forall|k: int| i <= k < sinks.len() ==> #[trigger] sinks@[k] == old(sinks)@[k],
        decreases sinks.len() - i,
    {
        let _ = sinks[i].write_str(text);
        proof {
            assert(sinks@[i as int].received().texts() =~= old(sinks)@[i as int].received().texts() + seq![text@]);
        }
        i = i + 1;
    }
}

/// Registers `sink` with `logger`, after the sinks already there.
pub fn add_sink<S: WriteSink>(logger: &mut Logger<S>, sink: S)
    ensures
        final(logger).wf() == old(logger).wf(),
        final(logger).queued() == old(logger).queued(),
        final(logger).sinks() == Some(
            match old(logger).sinks() {
                Some(v) => v.push(sink),
                None => seq![sink],
            },
        ),
{
    logger.init_sink(sink);
}

} // verus!
