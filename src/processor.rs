use vstd::prelude::*;
use crate::codec::{CodecError, TrackCodec, track_decode_spec, codec_of_payload};
use crate::frame::{AudioFrame, Samples};

verus! {

/// A failure that a processor reports for one frame.
pub struct ProcessorError {
    pub message: String,
}

/// Why one frame's processing stopped.
pub enum ChainError {
    /// The frame's payload could not be decoded.
    Codec(CodecError),
    /// A processor failed; the processors after it did not run.
    Processor(ProcessorError),
}

/// A transformation of frames, supplied by the chain's users.
pub trait Processor {
    /// What an implementation promises of one call: that it turned `before`
    /// into `after` and returned `r`.
    spec fn step(&self, before: AudioFrame, after: AudioFrame, r: Result<(), ProcessorError>) -> bool;

    fn process_frame(&self, frame: &mut AudioFrame) -> (r: Result<(), ProcessorError>)
        ensures
            self.step(*old(frame), *final(frame), r),
    ;
}

/// `frames` records a run of the first `n` processors of `ps` in which each
/// succeeded, processor `j` turning `frames[j]` into `frames[j + 1]`.
pub open spec fn ran_ok<P: Processor>(ps: Seq<P>, frames: Seq<AudioFrame>, n: int) -> bool {
    &&& 0 <= n <= ps.len()
    &&& frames.len() == n + 1
    &&& forall|j: int| 0 <= j < n ==> #[trigger] ps[j].step(frames[j], frames[j + 1], Ok(()))
}

/// The payload type and payload of a frame that the decode step turns into
/// samples: a transport payload of an audio codec.
pub open spec fn audio_payload(f: AudioFrame) -> Option<(u8, Seq<u8>)> {
    match f.samples {
        Samples::RTP { payload_type, payload } => if codec_of_payload(payload_type) is Some {
            Some((payload_type, payload@))
        } else {
            None
        },
        _ => None,
    }
}

/// `after` is `before` with its audio replaced by the samples `s` at `rate`.
pub open spec fn decoded_into(before: AudioFrame, after: AudioFrame, s: Seq<i16>, rate: u32) -> bool {
    &&& after.samples is PCM
    &&& after.samples->PCM_samples@ == s
    &&& after.sample_rate == rate
    &&& after.track_id == before.track_id
    &&& after.timestamp == before.timestamp
}

/// Filtering one more element of a sequence's prefix.
proof fn lemma_filter_step<A>(s: Seq<A>, j: int, pred: spec_fn(A) -> bool)
    requires
        0 <= j < s.len(),
    ensures
        s.subrange(0, j + 1).filter(pred) == (if pred(s[j]) {
            s.subrange(0, j).filter(pred).push(s[j])
        } else {
            s.subrange(0, j).filter(pred)
        }),
{
    reveal(Seq::filter);
    assert(s.subrange(0, j + 1).drop_last() =~= s.subrange(0, j));
}

/// An ordered chain of processors, each registered under a kind, with the
/// codec that decodes transport payloads before they run.
pub struct ProcessorChain<P: Processor> {
    processors: Vec<(u32, P)>,
    codec: TrackCodec,
    sample_rate: u32,
    pub force_decode: bool,
}

impl<P: Processor> ProcessorChain<P> {
    /// The registered processors with their kinds, in running order.
    pub closed spec fn entries(&self) -> Seq<(u32, P)> {
        self.processors@
    }

    /// Kinds of the registered processors, in running order.
    pub closed spec fn kinds(&self) -> Seq<u32> {
        self.processors@.map_values(|e: (u32, P)| e.0)
    }

    /// The registered processors, in running order.
    pub closed spec fn processors(&self) -> Seq<P> {
        self.processors@.map_values(|e: (u32, P)| e.1)
    }

    /// The rate that decoded frames are given.
    pub closed spec fn rate(&self) -> u32 {
        self.sample_rate
    }

    /// Whether frames are decoded even with no processor registered.
    pub closed spec fn forced(&self) -> bool {
        self.force_decode
    }

    pub closed spec fn wf(&self) -> bool {
        self.codec.wf()
    }

    /// Whether a processor of the kind is registered.
    pub open spec fn holds_kind(&self, kind: u32) -> bool {
        self.kinds().contains(kind)
    }

    /// Whether `process_frame` returns at once, without touching the frame.
    pub open spec fn fast_exit(&self) -> bool {
        !self.forced() && self.kinds().len() == 0
    }

    pub fn new(sample_rate: u32) -> (r: Self)
        ensures
            r.wf(),
            r.kinds() == Seq::<u32>::empty(),
            r.processors() == Seq::<P>::empty(),
            r.rate() == sample_rate,
            r.forced(),
    {
        let r = ProcessorChain {
            processors: Vec::new(),
            codec: TrackCodec::new(),
            sample_rate,
            force_decode: true,
        };
        assert(r.kinds() =~= Seq::<u32>::empty());
        assert(r.processors() =~= Seq::<P>::empty());
        r
    }

    /// Registers a processor to run before all others.
    pub fn insert_processor(&mut self, kind: u32, processor: P)
        ensures
            final(self).wf() == old(self).wf(),
            final(self).kinds() == seq![kind] + old(self).kinds(),
            final(self).holds_kind(kind),
            final(self).processors() == seq![processor] + old(self).processors(),
            final(self).rate() == old(self).rate(),
            final(self).forced() == old(self).forced(),
    {
        let ghost before = self.processors@;
        self.processors.insert(0, (kind, processor));
        assert(self.kinds() =~= seq![kind] + before.map_values(|e: (u32, P)| e.0));
        assert(self.kinds()[0] == kind);
        assert(self.processors() =~= seq![processor] + before.map_values(|e: (u32, P)| e.1));
    }

    /// Registers a processor to run after all others.
    pub fn append_processor(&mut self, kind: u32, processor: P)
        ensures
            final(self).wf() == old(self).wf(),
            final(self).kinds() == old(self).kinds().push(kind),
            final(self).holds_kind(kind),
            final(self).processors() == old(self).processors().push(processor),
            final(self).rate() == old(self).rate(),
            final(self).forced() == old(self).forced(),
    {
        let ghost before = self.processors@;
        self.processors.push((kind, processor));
        assert(self.kinds() =~= before.map_values(|e: (u32, P)| e.0).push(kind));
        assert(self.kinds()[self.kinds().len() - 1] == kind);
        assert(self.processors() =~= before.map_values(|e: (u32, P)| e.1).push(processor));
    }

    /// Turns frames' decoding on or off where no processor is registered.
    pub fn set_force_decode(&mut self, force_decode: bool)
        ensures
            final(self).wf() == old(self).wf(),
            final(self).entries() == old(self).entries(),
            final(self).rate() == old(self).rate(),
            final(self).forced() == force_decode,
    {
        self.force_decode = force_decode;
    }

    /// Unregisters every processor of the kind; the others keep their order.
    pub fn remove_processor(&mut self, kind: u32)
        ensures
            final(self).wf() == old(self).wf(),
            final(self).entries() == old(self).entries().filter(|e: (u32, P)| e.0 != kind),
            !final(self).holds_kind(kind),
            final(self).rate() == old(self).rate(),
            final(self).forced() == old(self).forced(),
    {
        let ghost orig = self.processors@;
        let ghost pred = |e: (u32, P)| e.0 != kind;
        let mut i: usize = 0;
        let mut j: usize = 0;
        let n: usize = self.processors.len();
        while j < n
            invariant
                n == orig.len(),
                j <= orig.len(),
                orig == old(self).processors@,
                pred == (|e: (u32, P)| e.0 != kind),
                i as int == orig.subrange(0, j as int).filter(pred).len(),
                self.processors@ == orig.subrange(0, j as int).filter(pred) + orig.subrange(
                    j as int,
                    orig.len() as int,
                ),
                forall|t: int| 0 <= t < i ==> self.processors@[t].0 != kind,
                self.codec == old(self).codec,
                self.sample_rate == old(self).sample_rate,
                self.force_decode == old(self).force_decode,
            decreases orig.len() - j,
        {
            proof {
                lemma_filter_step(orig, j as int, pred);
            }
            assert(self.processors@[i as int] == orig[j as int]);
            if self.processors[i].0 == kind {
                self.processors.remove(i);
            } else {
                i = i + 1;
            }
            j = j + 1;
            assert(self.processors@ =~= orig.subrange(0, j as int).filter(pred) + orig.subrange(
                j as int,
                orig.len() as int,
            ));
        }
        assert(orig.subrange(0, orig.len() as int) =~= orig);
        assert(self.processors@ =~= orig.filter(pred));
        assert forall|t: int| 0 <= t < self.kinds().len() implies self.kinds()[t] != kind by {}
    }

    /// Whether a processor of the kind is registered.
    pub fn has_processor(&self, kind: u32) -> (r: bool)
        ensures
            r == self.holds_kind(kind),
    {
        let mut i: usize = 0;
        while i < self.processors.len()
            invariant
                i <= self.processors@.len(),
                forall|j: int| 0 <= j < i ==> self.kinds()[j] != kind,
            decreases self.processors@.len() - i,
        {
            if self.processors[i].0 == kind {
                assert(self.kinds()[i as int] == kind);
                return true;
            }
            i = i + 1;
        }
        false
    }

    /// The frame that the processors receive: `f` with a transport payload
    /// of an audio codec decoded at the chain's rate.
    pub open spec fn entry_frame(&self, f: AudioFrame, g: AudioFrame) -> bool {
        match audio_payload(f) {
            Some((pt, pl)) => match track_decode_spec(pt, pl, self.rate()) {
                Ok(s) => decoded_into(f, g, s, self.rate()),
                Err(_) => false,
            },
            None => g == f,
        }
    }

    /// Whether the decode step fails on the frame.
    pub open spec fn decode_fails(&self, f: AudioFrame) -> bool {
        audio_payload(f) is Some && track_decode_spec(
            audio_payload(f).unwrap().0,
            audio_payload(f).unwrap().1,
            self.rate(),
        ) is Err
    }

    /// Decodes a transport payload of an audio codec into samples at the
    /// chain's rate; any other frame is left as it is.
    pub fn decode_frame(&self, frame: &mut AudioFrame) -> (r: Result<(), CodecError>)
        requires
            self.wf(),
        ensures
            !self.decode_fails(*old(frame)) ==> r is Ok && self.entry_frame(*old(frame), *final(frame)),
            self.decode_fails(*old(frame)) ==> *final(frame) == *old(frame) && r == Err::<(), CodecError>(
                track_decode_spec(
                    audio_payload(*old(frame)).unwrap().0,
                    audio_payload(*old(frame)).unwrap().1,
                    self.rate(),
                )->Err_0,
            ),
    {
        let decoded: Option<Vec<i16>> = match &frame.samples {
            Samples::RTP { payload_type, payload } => {
                if TrackCodec::is_audio(*payload_type) {
                    match self.codec.decode(*payload_type, payload.as_slice(), self.sample_rate) {
                        Ok(s) => Some(s),
                        Err(e) => return Err(e),
                    }
                } else {
                    None
                }
            },
            _ => None,
        };
        if let Some(samples) = decoded {
            frame.samples = Samples::PCM { samples };
            frame.sample_rate = self.sample_rate;
        }
        Ok(())
    }

    /// Runs one frame through the chain: decodes it, then runs the
    /// processors in order on it, stopping at the first that fails.
    pub fn process_frame(&self, frame: &mut AudioFrame) -> (r: Result<(), ChainError>)
        requires
            self.wf(),
        ensures
            self.fast_exit() ==> r is Ok && *final(frame) == *old(frame),
            !self.fast_exit() && self.decode_fails(*old(frame)) ==> *final(frame) == *old(frame)
                && r == Err::<(), ChainError>(
                ChainError::Codec(
                    track_decode_spec(
                        audio_payload(*old(frame)).unwrap().0,
                        audio_payload(*old(frame)).unwrap().1,
                        self.rate(),
                    )->Err_0,
                ),
            ),
            (r is Err && r->Err_0 is Codec) ==> !self.fast_exit() && self.decode_fails(*old(frame)),
            (r is Err && r->Err_0 is Processor) ==> !self.fast_exit() && !self.decode_fails(
                *old(frame),
            ) && exists|frames: Seq<AudioFrame>, k: int|
                #[trigger] ran_ok(self.processors(), frames, k) && k < self.processors().len()
                    && self.entry_frame(*old(frame), frames[0]) && self.processors()[k].step(
                    frames[k],
                    *final(frame),
                    Err(r->Err_0->Processor_0),
                ),
            r is Ok && !self.fast_exit() ==> !self.decode_fails(*old(frame)) && exists|
                frames: Seq<AudioFrame>,
            |
                #[trigger] ran_ok(self.processors(), frames, self.processors().len() as int)
                    && self.entry_frame(*old(frame), frames[0]) && frames.last() == *final(frame),
    {
        if !self.force_decode && self.processors.len() == 0 {
            return Ok(());
        }
        match self.decode_frame(frame) {
            Ok(()) => {},
            Err(e) => return Err(ChainError::Codec(e)),
        }
        let ghost ps = self.processors();
        let ghost mut frames: Seq<AudioFrame> = seq![*frame];
        let mut i: usize = 0;
        while i < self.processors.len()
            invariant
                i <= self.processors@.len(),
                ps == self.processors(),
                ps.len() == self.processors@.len(),
                !self.fast_exit(),
                !self.decode_fails(*old(frame)),
                ran_ok(ps, frames, i as int),
                self.entry_frame(*old(frame), frames[0]),
                frames[i as int] == *frame,
            decreases self.processors@.len() - i,
        {
            let ghost before = *frame;
            assert(ps[i as int] == self.processors@[i as int].1);
            let res = self.processors[i].1.process_frame(frame);
            assert(ps[i as int].step(before, *frame, res));
            if let Err(e) = res {
                assert(ran_ok(ps, frames, i as int));
                return Err(ChainError::Processor(e));
            }
            assert(res is Ok);
            assert(res->Ok_0 == ());
            assert(res == Ok::<(), ProcessorError>(()));
            proof {
                let ghost prev = frames;
                frames = frames.push(*frame);
                assert(frames[i as int] == before);
                assert(frames[i + 1] == *frame);
                assert(forall|j: int| 0 <= j <= i ==> frames[j] == prev[j]);
                assert forall|j: int| 0 <= j < i + 1 implies #[trigger] ps[j].step(
                    frames[j],
                    frames[j + 1],
                    Ok(()),
                ) by {
                    if j < i {
                        assert(ps[j].step(prev[j], prev[j + 1], Ok(())));
                    } else {
                        assert(j == i);
                        assert(ps[j].step(frames[j], frames[j + 1], res));
                    }
                }
            }
            i = i + 1;
        }
        assert(ran_ok(ps, frames, ps.len() as int));
        Ok(())
    }
}

/// A kind just registered is held; a kind just removed is not, and every
/// other kind is held exactly as before the removal.
pub proof fn lemma_register_then_remove<P: Processor>(
    before: ProcessorChain<P>,
    after: ProcessorChain<P>,
    kind: u32,
    other: u32,
)
    requires
        after.entries() == before.entries().filter(|e: (u32, P)| e.0 != kind),
        other != kind,
    ensures
        !after.holds_kind(kind),
        after.holds_kind(other) == before.holds_kind(other),
{
    let pred = |e: (u32, P)| e.0 != kind;
    let f = before.entries().filter(pred);
    if before.holds_kind(other) {
        let j = choose|j: int| 0 <= j < before.kinds().len() && before.kinds()[j] == other;
        before.entries().lemma_filter_contains(pred, j);
        let t = choose|t: int| 0 <= t < f.len() && f[t] == before.entries()[j];
        assert(after.kinds()[t] == other);
    }
    if after.holds_kind(other) {
        let t = choose|t: int| 0 <= t < after.kinds().len() && after.kinds()[t] == other;
        assert(f.contains(f[t]));
        lemma_filter_member(before.entries(), pred, f[t]);
        let j = choose|j: int| 0 <= j < before.entries().len() && before.entries()[j] == f[t];
        assert(before.kinds()[j] == other);
    }
    if after.holds_kind(kind) {
        let t = choose|t: int| 0 <= t < after.kinds().len() && after.kinds()[t] == kind;
        before.entries().lemma_filter_pred(pred, t);
    }
}

/// What a filter keeps comes from the filtered sequence.
proof fn lemma_filter_member<A>(s: Seq<A>, pred: spec_fn(A) -> bool, x: A)
    requires
        s.filter(pred).contains(x),
    ensures
        s.contains(x),
    decreases s.len(),
{
    reveal(Seq::filter);
    if s.len() > 0 {
        let sub = s.drop_last().filter(pred);
        if sub.contains(x) {
            lemma_filter_member(s.drop_last(), pred, x);
            let j = choose|j: int| 0 <= j < s.drop_last().len() && s.drop_last()[j] == x;
            assert(s[j] == x);
        } else {
            let t = choose|t: int| 0 <= t < s.filter(pred).len() && s.filter(pred)[t] == x;
            assert(pred(s.last()) && s.filter(pred) == sub.push(s.last()));
            if t < sub.len() {
                assert(sub[t] == x);
            }
            assert(s[s.len() - 1] == x);
        }
    }
}

} // verus!
