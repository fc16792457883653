use vstd::prelude::*;

verus! {

/// Number of samples in a full audio chunk.
pub const CHUNK_SIZE: usize = 4096;

/// What one attempt to read the next sample from a source produced.
pub enum SampleEvent<T> {
    /// A sample was read.
    Sample(T),
    /// The source failed (a read error, or a disconnected channel).
    Failed,
    /// The source has no more samples.
    Exhausted,
}

/// A chunk that is being filled, sample by sample.
pub struct ChunkReader<T> {
    samples: Vec<T>,
}

/// What a chunk reader does after it has been handed an event.
pub enum ChunkProgress<T> {
    /// The chunk is not complete: read another sample.
    Reading(ChunkReader<T>),
    /// Reading is over: the chunk that came out, if any.
    Done(Option<Vec<T>>),
}

/// What reading yields when a reader holding `pending` is handed `events` in
/// turn: samples are collected in order until `CHUNK_SIZE` of them have been
/// read; a failure discards everything; the end of the source yields what was
/// read, unless that is nothing. `None` means that the events ran out before
/// reading ended; `Some(None)` that no chunk came out; `Some(Some(c))` that
/// chunk `c` came out.
pub open spec fn read_outcome<T>(pending: Seq<T>, events: Seq<SampleEvent<T>>) -> Option<
    Option<Seq<T>>,
>
    decreases events.len(),
{
    if events.len() == 0 {
        None
    } else {
        match events[0] {
            SampleEvent::Sample(x) => {
                let next = pending.push(x);
                if next.len() >= CHUNK_SIZE {
                    Some(Some(next))
                } else {
                    read_outcome(next, events.drop_first())
                }
            },
            SampleEvent::Failed => Some(None),
            SampleEvent::Exhausted => {
                if pending.len() == 0 {
                    Some(None)
                } else {
                    Some(Some(pending))
                }
            },
        }
    }
}

/// What reading goes on to yield after a step, given the events that follow.
pub open spec fn progress_outcome<T>(p: ChunkProgress<T>, rest: Seq<SampleEvent<T>>) -> Option<
    Option<Seq<T>>,
> {
    match p {
        ChunkProgress::Reading(r) => read_outcome(r.pending(), rest),
        ChunkProgress::Done(Some(c)) => Some(Some(c@)),
        ChunkProgress::Done(None) => Some(None),
    }
}

/// A chunk that reading yields is never empty and never longer than
/// `CHUNK_SIZE`; it starts with the samples that were already pending and
/// goes on with the samples of the events, in the order they were read.
pub proof fn lemma_chunk_shape<T>(pending: Seq<T>, events: Seq<SampleEvent<T>>)
    requires
        pending.len() < CHUNK_SIZE,
    ensures
        read_outcome(pending, events) matches Some(Some(c)) ==> {
            &&& 0 < c.len() <= CHUNK_SIZE
            &&& pending.len() <= c.len() <= pending.len() + events.len()
            &&& c.take(pending.len() as int) == pending
            &&& forall|i: int|
                pending.len() <= i < c.len() ==> events[i - pending.len()] == SampleEvent::Sample(
                    c[i],
                )
        },
    decreases events.len(),
{
    if events.len() > 0 {
        if let SampleEvent::Sample(x) = events[0] {
            let next = pending.push(x);
            if next.len() < CHUNK_SIZE {
                lemma_chunk_shape(next, events.drop_first());
                if let Some(Some(c)) = read_outcome(pending, events) {
                    assert(c.take(pending.len() as int) =~= pending) by {
                        assert(c.take(next.len() as int) =~= next);
                        assert forall|i: int| 0 <= i < pending.len() implies c[i] == pending[i] by {
                            assert(c.take(next.len() as int)[i] == next[i]);
                        }
                    }
                    assert forall|i: int| pending.len() <= i < c.len() implies events[i
                        - pending.len()] == SampleEvent::Sample(c[i]) by {
                        if i == pending.len() {
                            assert(c.take(next.len() as int)[i] == next[i]);
                        } else {
                            assert(events.drop_first()[i - next.len()] == events[i - pending.len()]);
                        }
                    }
                }
            } else {
                assert(next.take(pending.len() as int) =~= pending);
            }
        } else {
            if let Some(Some(c)) = read_outcome(pending, events) {
                assert(c.take(pending.len() as int) =~= pending);
            }
        }
    }
}

/// A source that neither fails nor ends for `CHUNK_SIZE` reads yields a full
/// chunk of exactly `CHUNK_SIZE` samples.
pub proof fn lemma_uninterrupted_chunk_is_full<T>(pending: Seq<T>, events: Seq<SampleEvent<T>>)
    requires
        pending.len() < CHUNK_SIZE,
        pending.len() + events.len() >= CHUNK_SIZE,
        forall|i: int| 0 <= i < events.len() ==> events[i] is Sample,
    ensures
        read_outcome(pending, events) matches Some(Some(c)) && c.len() == CHUNK_SIZE,
    decreases events.len(),
{
    if let SampleEvent::Sample(x) = events[0] {
        let next = pending.push(x);
        if next.len() < CHUNK_SIZE {
            assert forall|i: int| 0 <= i < events.drop_first().len() implies events.drop_first()[i] is Sample by {
                assert(events[i + 1] is Sample);
            }
            lemma_uninterrupted_chunk_is_full(next, events.drop_first());
        }
    } else {
        assert(events[0] is Sample);
    }
}

/// The events a source yields when it holds the samples `s`, all readable:
/// each sample, then the end of the source.
pub open spec fn source_events<T>(s: Seq<T>) -> Seq<SampleEvent<T>> {
    s.map_values(|x: T| SampleEvent::Sample(x)).push(SampleEvent::Exhausted)
}

/// Reading one chunk from a source that holds `s`, with `pending` already
/// read: the first `CHUNK_SIZE` samples of `pending + s`, or all of them if
/// there are fewer; no chunk if there is nothing at all.
pub proof fn lemma_read_from_source<T>(pending: Seq<T>, s: Seq<T>)
    requires
        pending.len() < CHUNK_SIZE,
    ensures
        read_outcome(pending, source_events(s)) == if pending.len() + s.len() == 0 {
            Some(None::<Seq<T>>)
        } else if pending.len() + s.len() <= CHUNK_SIZE {
            Some(Some(pending + s))
        } else {
            Some(Some((pending + s).take(CHUNK_SIZE as int)))
        },
    decreases s.len(),
{
    let ev = source_events(s);
    if s.len() == 0 {
        assert(ev[0] == SampleEvent::<T>::Exhausted);
        assert(pending + s =~= pending);
    } else {
        assert(ev[0] == SampleEvent::Sample(s[0]));
        let next = pending.push(s[0]);
        assert(ev.drop_first() =~= source_events(s.drop_first()));
        assert(next + s.drop_first() =~= pending + s);
        if next.len() < CHUNK_SIZE {
            lemma_read_from_source(next, s.drop_first());
        } else {
            assert((pending + s).take(CHUNK_SIZE as int) =~= next);
            if pending.len() + s.len() <= CHUNK_SIZE {
                assert(pending + s =~= next);
            }
        }
    }
}

/// The chunks that successive reads hand out, from fresh readers, until the
/// first read that hands out none, from a source holding the samples `s`:
/// after a chunk of `k` samples, the source holds what follows them.
pub open spec fn successive_reads<T>(s: Seq<T>) -> Seq<Seq<T>>
    decreases s.len(),
{
    match read_outcome(Seq::<T>::empty(), source_events(s)) {
        Some(Some(c)) => if 0 < c.len() <= s.len() {
            seq![c] + successive_reads(s.skip(c.len() as int))
        } else {
            Seq::empty()
        },
        _ => Seq::empty(),
    }
}

/// Reading a whole source chunk by chunk: the chunks, joined, are the
/// source's samples in order; every chunk but the last holds `CHUNK_SIZE`
/// samples; no chunk is empty or longer than `CHUNK_SIZE`; and there are as
/// many chunks as `CHUNK_SIZE` goes into the number of samples, rounded up.
pub proof fn lemma_successive_reads<T>(s: Seq<T>)
    ensures
        ({
            let r = successive_reads(s);
            &&& r.flatten() == s
            &&& forall|i: int| 0 <= i < r.len() ==> 0 < #[trigger] r[i].len() <= CHUNK_SIZE
            &&& forall|i: int| 0 <= i < r.len() - 1 ==> #[trigger] r[i].len() == CHUNK_SIZE
            &&& r.len() == (s.len() + CHUNK_SIZE - 1) / (CHUNK_SIZE as int)
        }),
    decreases s.len(),
{
    let empty = Seq::<T>::empty();
    lemma_read_from_source(empty, s);
    assert(empty + s =~= s);
    let r = successive_reads(s);
    if s.len() == 0 {
        assert(r =~= Seq::<Seq<T>>::empty());
    } else {
        let k: int = if s.len() <= CHUNK_SIZE { s.len() as int } else { CHUNK_SIZE as int };
        let c = s.take(k);
        assert(s.len() <= CHUNK_SIZE ==> c =~= s);
        let rest = s.skip(k);
        lemma_successive_reads(rest);
        let tail = successive_reads(rest);
        assert(r == seq![c] + tail);
        assert(r.drop_first() =~= tail);
        assert(r.flatten() == c + tail.flatten());
        assert(c + rest =~= s);
        assert forall|i: int| 0 <= i < r.len() implies 0 < #[trigger] r[i].len() <= CHUNK_SIZE by {
            if i > 0 {
                assert(r[i] == tail[i - 1]);
            }
        }
        assert forall|i: int| 0 <= i < r.len() - 1 implies #[trigger] r[i].len() == CHUNK_SIZE by {
            if i > 0 {
                assert(r[i] == tail[i - 1]);
            } else if s.len() <= CHUNK_SIZE {
                assert(rest.len() == 0);
                assert(tail.len() == 0);
            }
        }
        if s.len() <= CHUNK_SIZE {
            assert(rest.len() == 0);
            assert(tail.len() == 0);
        }
    }
}

impl<T> ChunkReader<T> {
    /// The samples read so far.
    pub closed spec fn pending(&self) -> Seq<T> {
        self.samples@
    }

    /// A reader never holds a full chunk: a full chunk is handed out at once.
    #[verifier::type_invariant]
    closed spec fn wf(&self) -> bool {
        self.samples@.len() < CHUNK_SIZE
    }

    /// An empty reader.
    pub fn new() -> (r: ChunkReader<T>)
        ensures
            r.pending() == Seq::<T>::empty(),
    {
        ChunkReader { samples: Vec::new() }
    }

    /// Number of samples read so far.
    pub fn len(&self) -> (n: usize)
        ensures
            n == self.pending().len(),
    {
        self.samples.len()
    }

    /// Hands the reader the result of reading one more sample.
    pub fn feed(self, event: SampleEvent<T>) -> (p: ChunkProgress<T>)
        ensures
            self.pending().len() < CHUNK_SIZE,
            match event {
                SampleEvent::Sample(x) => {
                    let next = self.pending().push(x);
                    if next.len() == CHUNK_SIZE {
                        p matches ChunkProgress::Done(Some(c)) && c@ == next
                    } else {
                        p matches ChunkProgress::Reading(r) && r.pending() == next
                    }
                },
                SampleEvent::Failed => p matches ChunkProgress::Done(None),
                SampleEvent::Exhausted => if self.pending().len() == 0 {
                    p matches ChunkProgress::Done(None)
                } else {
                    p matches ChunkProgress::Done(Some(c)) && c@ == self.pending()
                },
            },
            forall|rest: Seq<SampleEvent<T>>|
                #[trigger] read_outcome(self.pending(), seq![event].add(rest)) == progress_outcome(
                    p,
                    rest,
                ),
    {
        let ghost ev = event;
        proof {
            use_type_invariant(&self);
            assert forall|rest: Seq<SampleEvent<T>>|
                #[trigger] seq![ev].add(rest).drop_first() == rest && seq![ev].add(rest)[0] == ev
                by {
                assert(seq![ev].add(rest).drop_first() =~= rest);
            }
        }
        let mut samples = self.samples;
        match event {
            SampleEvent::Sample(x) => {
                samples.push(x);
                if samples.len() == CHUNK_SIZE {
                    ChunkProgress::Done(Some(samples))
                } else {
                    ChunkProgress::Reading(ChunkReader { samples })
                }
            },
            SampleEvent::Failed => ChunkProgress::Done(None),
            SampleEvent::Exhausted => {
                if samples.len() == 0 {
                    ChunkProgress::Done(None)
                } else {
                    ChunkProgress::Done(Some(samples))
                }
            },
        }
    }
}

/// The first channel of interleaved audio: the first sample of every complete
/// frame of `channels` samples. Samples of an incomplete frame at the end are
/// dropped.
pub fn first_channel<T: Copy>(data: &[T], channels: usize) -> (r: Vec<T>)
    requires
        channels > 0,
    ensures
        r@.len() == data@.len() / (channels as nat),
        forall|i: int| 0 <= i < r@.len() ==> r@[i] == data@[i * channels],
{
    let mut r: Vec<T> = Vec::new();
    let mut pos: usize = 0;
    let len: usize = data.len();
    assert(r@.len() * channels == 0) by (nonlinear_arith)
        requires
            r@.len() == 0,
    ;
    while pos <= len && len - pos >= channels
        invariant
            len == data@.len(),
            channels > 0,
            pos <= len,
            pos == r@.len() * channels,
            forall|i: int| 0 <= i < r@.len() ==> r@[i] == data@[i * channels],
        decreases len - pos,
    {
        r.push(data[pos]);
        proof {
            assert((r@.len() - 1) * channels + channels == r@.len() * channels) by (nonlinear_arith);
        }
        pos = pos + channels;
    }
    proof {
        let k = r@.len() as int;
        let c = channels as int;
        let n = len as int;
        assert(n / c == k) by (nonlinear_arith)
            requires
                c > 0,
                k * c <= n,
                n < k * c + c,
        {
            vstd::arithmetic::div_mod::lemma_fundamental_div_mod(n, c);
        }
    }
    r
}

} // verus!
