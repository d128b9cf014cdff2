//! The voice-activity segmenter: a state machine that accumulates
//! converted samples into an utterance buffer and decides, from amplitude
//! thresholds and sustained quiet, when a complete utterance is ready for
//! the recognizer.
//!
//! The machine is pure: it takes one sample at a time and reports whether
//! an utterance just opened and whether one is ready to transcribe.  The
//! recognizer itself is an external collaborator and is invoked by the
//! caller on each flushed buffer.

use vstd::prelude::*;

verus! {

/// Tunable segmentation policy.  Quiet is counted in samples; a wall-clock
/// policy is expressed by converting a duration at the target rate with
/// [`SegmenterConfig::from_duration`].
#[derive(Clone, Copy, Debug, PartialEq, Eq, Structural)]
pub struct SegmenterConfig {
    /// Absolute amplitude above which a sample counts as voiced.
    pub threshold: i16,
    /// Number of consecutive quiet samples that ends an open utterance.
    pub silence_limit: usize,
}

impl SegmenterConfig {
    /// A policy is usable when its threshold is a meaningful amplitude
    /// bound and its silence limit leaves room for the quiet counter.
    pub open spec fn wf(self) -> bool {
        self.threshold >= 0 && self.silence_limit < usize::MAX
    }

    /// Sample-count silence policy: the utterance ends after more than
    /// `silence_limit` consecutive quiet samples.
    pub fn from_sample_count(threshold: i16, silence_limit: usize) -> (c: SegmenterConfig)
        requires
            threshold >= 0,
            silence_limit < usize::MAX,
        ensures
            c.wf(),
            c.threshold == threshold,
            c.silence_limit == silence_limit,
    {
        SegmenterConfig { threshold, silence_limit }
    }

    /// Wall-clock silence policy: the utterance ends after more than
    /// `silence_secs` seconds of continuous quiet at `target_rate`
    /// samples per second.
    pub fn from_duration(threshold: i16, silence_secs: usize, target_rate: usize) -> (c:
        SegmenterConfig)
        requires
            threshold >= 0,
            silence_secs * target_rate < usize::MAX,
        ensures
            c.wf(),
            c.threshold == threshold,
            c.silence_limit == silence_secs * target_rate,
    {
        SegmenterConfig { threshold, silence_limit: silence_secs * target_rate }
    }
}

/// A sample is voiced when its amplitude strictly exceeds the threshold.
pub open spec fn is_voiced_spec(s: i16, threshold: i16) -> bool {
    s as int > threshold as int || (s as int) < -(threshold as int)
}

/// Every sample of `input` is below or at the threshold.
pub open spec fn all_quiet(input: Seq<i16>, threshold: i16) -> bool {
    forall|i: int| 0 <= i < input.len() ==> !is_voiced_spec(#[trigger] input[i], threshold)
}

/// Every sample of `input` exceeds the threshold.
pub open spec fn all_voiced(input: Seq<i16>, threshold: i16) -> bool {
    forall|i: int| 0 <= i < input.len() ==> is_voiced_spec(#[trigger] input[i], threshold)
}

/// Classify one sample against the activity threshold.
pub fn is_voiced(s: i16, threshold: i16) -> (b: bool)
    requires
        threshold >= 0,
    ensures
        b == is_voiced_spec(s, threshold),
{
    s > threshold || s < -threshold
}

/// The abstract segmentation state: whether an utterance is open, how many
/// consecutive quiet samples it currently ends with, and the samples
/// accumulated for it.
pub ghost struct SegModel {
    pub talking: bool,
    pub silence: nat,
    pub buffer: Seq<i16>,
}

/// The state before any speech: no open utterance, nothing buffered.
pub open spec fn init_model() -> SegModel {
    SegModel { talking: false, silence: 0, buffer: Seq::<i16>::empty() }
}

/// States the machine actually reaches: the buffer is non-empty exactly
/// while an utterance is open, an open utterance holds at least one voiced
/// sample, and the quiet counter never runs past the limit.
pub open spec fn model_wf(cfg: SegmenterConfig, m: SegModel) -> bool {
    &&& (m.buffer.len() > 0 <==> m.talking)
    &&& (m.talking ==> exists|i: int|
        0 <= i < m.buffer.len() && is_voiced_spec(#[trigger] m.buffer[i], cfg.threshold))
    &&& (!m.talking ==> m.silence == 0)
    &&& m.silence <= cfg.silence_limit
}

/// One transition of the segmenter on sample `s`: the successor state,
/// whether this sample opened an utterance, and the utterance flushed by
/// this sample, if any.
pub open spec fn step_spec(cfg: SegmenterConfig, m: SegModel, s: i16) -> (SegModel, bool, Option<
    Seq<i16>,
>) {
    if is_voiced_spec(s, cfg.threshold) {
        (SegModel { talking: true, silence: 0, buffer: m.buffer.push(s) }, !m.talking, None)
    } else if m.talking {
        if m.silence + 1 > cfg.silence_limit {
            (init_model(), false, Some(m.buffer.push(s)))
        } else {
            (
                SegModel { talking: true, silence: m.silence + 1, buffer: m.buffer.push(s) },
                false,
                None,
            )
        }
    } else {
        (m, false, None)
    }
}

/// The machine run over a whole sample sequence: the final state and the
/// flushed utterances in order.
pub open spec fn run_spec(cfg: SegmenterConfig, m: SegModel, input: Seq<i16>) -> (SegModel, Seq<
    Seq<i16>,
>)
    decreases input.len(),
{
    if input.len() == 0 {
        (m, Seq::<Seq<i16>>::empty())
    } else {
        let first = step_spec(cfg, m, input[0]);
        let rest = run_spec(cfg, first.0, input.skip(1));
        (
            rest.0,
            match first.2 {
                Some(u) => seq![u] + rest.1,
                None => rest.1,
            },
        )
    }
}

/// The voice-activity segmenter.
pub struct Segmenter {
    config: SegmenterConfig,
    talking: bool,
    silence: usize,
    had_voiced: bool,
    buffer: Vec<i16>,
}

impl Segmenter {
    /// The abstract state this segmenter is in.
    pub closed spec fn model(self) -> SegModel {
        SegModel { talking: self.talking, silence: self.silence as nat, buffer: self.buffer@ }
    }

    /// The policy this segmenter was created with.
    pub closed spec fn config_spec(self) -> SegmenterConfig {
        self.config
    }

    /// A usable policy and a reachable abstract state.
    pub closed spec fn wf(self) -> bool {
        &&& self.config.wf()
        &&& model_wf(self.config, self.model())
        &&& self.had_voiced == self.talking
    }

    /// A fresh segmenter in the silent state.
    pub fn new(config: SegmenterConfig) -> (seg: Segmenter)
        requires
            config.wf(),
        ensures
            seg.wf(),
            seg.config_spec() == config,
            seg.model() == init_model(),
    {
        let seg = Segmenter {
            config,
            talking: false,
            silence: 0,
            had_voiced: false,
            buffer: Vec::new(),
        };
        proof {
            assert(seg.model().buffer =~= init_model().buffer);
        }
        seg
    }

    /// Feed one converted sample.  Returns whether this sample opened an
    /// utterance ("talking started") and, if this sample closed one, the
    /// complete utterance to hand to the recognizer.  The buffer is
    /// cleared on flush, and a purely-quiet buffer is never flushed.
    pub fn push_sample(&mut self, s: i16) -> (r: (bool, Option<Vec<i16>>))
        requires
            old(self).wf(),
        ensures
            final(self).wf(),
            final(self).config_spec() == old(self).config_spec(),
            ({
                let (m2, started, flushed) = step_spec(
                    old(self).config_spec(),
                    old(self).model(),
                    s,
                );
                &&& final(self).model() == m2
                &&& r.0 == started
                &&& (flushed is None <==> r.1 is None)
                &&& (flushed matches Some(fs) ==> r.1 matches Some(u) && u@ == fs)
            }),
    {
        let voiced: bool = is_voiced(s, self.config.threshold);
        if voiced {
            let started: bool = !self.talking;
            self.talking = true;
            self.had_voiced = true;
            self.silence = 0;
            self.buffer.push(s);
            proof {
                let gb = self.buffer@;
                assert(is_voiced_spec(gb[gb.len() - 1], self.config.threshold));
            }
            (started, None)
        } else if self.talking {
            self.buffer.push(s);
            proof {
                let ob = old(self).model().buffer;
                let i = choose|i: int|
                    0 <= i < ob.len() && is_voiced_spec(#[trigger] ob[i], self.config.threshold);
                assert(is_voiced_spec(self.buffer@[i], self.config.threshold));
            }
            self.silence = self.silence + 1;
            if self.silence > self.config.silence_limit && self.buffer.len() > 0
                && self.had_voiced {
                let mut flushed: Vec<i16> = Vec::new();
                core::mem::swap(&mut self.buffer, &mut flushed);
                self.talking = false;
                self.had_voiced = false;
                self.silence = 0;
                proof {
                    assert(self.model().buffer =~= init_model().buffer);
                }
                (false, Some(flushed))
            } else {
                (false, None)
            }
        } else {
            (false, None)
        }
    }

    /// Feed a batch of converted samples in order, collecting every
    /// utterance flushed along the way.
    pub fn push_samples(&mut self, samples: &Vec<i16>) -> (flushes: Vec<Vec<i16>>)
        requires
            old(self).wf(),
        ensures
            final(self).wf(),
            final(self).config_spec() == old(self).config_spec(),
            ({
                let r = run_spec(old(self).config_spec(), old(self).model(), samples@);
                &&& final(self).model() == r.0
                &&& flushes@.len() == r.1.len()
                &&& (forall|i: int| 0 <= i < r.1.len() ==> #[trigger] flushes@[i]@ == r.1[i])
            }),
    {
        let ghost cfg = self.config;
        let ghost m0 = self.model();
        let mut flushes: Vec<Vec<i16>> = Vec::new();
        let mut i: usize = 0;
        let n: usize = samples.len();
        while i < n
            invariant
                i <= n,
                n == samples@.len(),
                self.wf(),
                self.config_spec() == cfg,
                m0 == old(self).model(),
                cfg == old(self).config_spec(),
                ({
                    let r = run_spec(cfg, m0, samples@.take(i as int));
                    &&& self.model() == r.0
                    &&& flushes@.len() == r.1.len()
                    &&& (forall|k: int| 0 <= k < r.1.len() ==> #[trigger] flushes@[k]@ == r.1[k])
                }),
            decreases n - i,
        {
            proof {
                assert(samples@.take(i + 1) =~= samples@.take(i as int).push(samples@[i as int]));
                lemma_run_snoc(cfg, m0, samples@.take(i as int), samples@[i as int]);
            }
            let (_started, flushed) = self.push_sample(samples[i]);
            if let Some(u) = flushed {
                flushes.push(u);
            }
            i = i + 1;
        }
        proof {
            assert(samples@.take(n as int) =~= samples@);
        }
        flushes
    }

    /// How many samples the open utterance currently holds.
    pub fn buffered_len(&self) -> (n: usize)
        ensures
            n == self.model().buffer.len(),
    {
        self.buffer.len()
    }

    /// Whether an utterance is currently open.
    pub fn is_talking(&self) -> (b: bool)
        ensures
            b == self.model().talking,
    {
        self.talking
    }
}

/// Running one more sample equals running the prefix and then stepping on
/// that sample.
pub proof fn lemma_run_snoc(cfg: SegmenterConfig, m: SegModel, input: Seq<i16>, s: i16)
    ensures
        ({
            let r = run_spec(cfg, m, input);
            let st = step_spec(cfg, r.0, s);
            &&& run_spec(cfg, m, input.push(s)).0 == st.0
            &&& run_spec(cfg, m, input.push(s)).1 == (match st.2 {
                Some(u) => r.1 + seq![u],
                None => r.1,
            })
        }),
    decreases input.len(),
{
    reveal_with_fuel(run_spec, 3);
    if input.len() == 0 {
        assert(input.push(s)[0] == s);
        assert(input.push(s).skip(1) =~= Seq::<i16>::empty());
        let first = step_spec(cfg, m, s);
        match first.2 {
            Some(u) => {
                assert(seq![u] + Seq::<Seq<i16>>::empty() =~= Seq::<Seq<i16>>::empty() + seq![u]);
            },
            None => {
                assert(Seq::<Seq<i16>>::empty() + Seq::<Seq<i16>>::empty()
                    =~= Seq::<Seq<i16>>::empty());
            },
        }
    } else {
        assert(input.push(s)[0] == input[0]);
        assert(input.push(s).skip(1) =~= input.skip(1).push(s));
        let first = step_spec(cfg, m, input[0]);
        lemma_run_snoc(cfg, first.0, input.skip(1), s);
        let rrest = run_spec(cfg, first.0, input.skip(1));
        let st = step_spec(cfg, rrest.0, s);
        match first.2 {
            Some(u) => {
                match st.2 {
                    Some(v) => {
                        assert(seq![u] + (rrest.1 + seq![v]) =~= (seq![u] + rrest.1) + seq![v]);
                    },
                    None => {},
                }
            },
            None => {},
        }
    }
}

/// Running a concatenation equals running the parts in order.
pub proof fn lemma_run_append(cfg: SegmenterConfig, m: SegModel, a: Seq<i16>, b: Seq<i16>)
    ensures
        ({
            let ra = run_spec(cfg, m, a);
            let rb = run_spec(cfg, ra.0, b);
            &&& run_spec(cfg, m, a + b).0 == rb.0
            &&& run_spec(cfg, m, a + b).1 == ra.1 + rb.1
        }),
    decreases a.len(),
{
    let ra = run_spec(cfg, m, a);
    let rb = run_spec(cfg, ra.0, b);
    if a.len() == 0 {
        assert(a + b =~= b);
        assert(ra.1 + rb.1 =~= rb.1);
    } else {
        assert((a + b)[0] == a[0]);
        assert((a + b).skip(1) =~= a.skip(1) + b);
        let first = step_spec(cfg, m, a[0]);
        lemma_run_append(cfg, first.0, a.skip(1), b);
        match first.2 {
            Some(u) => {
                assert(seq![u] + (run_spec(cfg, first.0, a.skip(1)).1 + rb.1) =~= (seq![u]
                    + run_spec(cfg, first.0, a.skip(1)).1) + rb.1);
            },
            None => {},
        }
    }
}

/// Law: a sequence entirely below the threshold, of any length, leaves a
/// silent segmenter silent and never triggers a flush.
pub proof fn lemma_no_silent_only_flush(cfg: SegmenterConfig, input: Seq<i16>)
    requires
        all_quiet(input, cfg.threshold),
    ensures
        run_spec(cfg, init_model(), input).0 == init_model(),
        run_spec(cfg, init_model(), input).1.len() == 0,
    decreases input.len(),
{
    if input.len() > 0 {
        assert(!is_voiced_spec(input[0], cfg.threshold));
        assert forall|i: int| 0 <= i < input.skip(1).len() implies !is_voiced_spec(
            #[trigger] input.skip(1)[i],
            cfg.threshold,
        ) by {
            assert(input.skip(1)[i] == input[i + 1]);
        }
        lemma_no_silent_only_flush(cfg, input.skip(1));
    }
}

/// Voiced samples keep (or open) an utterance: they are all appended, the
/// quiet counter ends at zero, and nothing is flushed.
pub proof fn lemma_voiced_run(cfg: SegmenterConfig, m: SegModel, v: Seq<i16>)
    requires
        v.len() > 0,
        all_voiced(v, cfg.threshold),
    ensures
        ({
            let r = run_spec(cfg, m, v);
            &&& r.0 == (SegModel { talking: true, silence: 0, buffer: m.buffer + v })
            &&& r.1.len() == 0
        }),
    decreases v.len(),
{
    reveal_with_fuel(run_spec, 2);
    assert(is_voiced_spec(v[0], cfg.threshold));
    let m1 = step_spec(cfg, m, v[0]).0;
    if v.len() == 1 {
        assert(v.skip(1) =~= Seq::<i16>::empty());
        assert(m.buffer.push(v[0]) =~= m.buffer + v);
    } else {
        assert forall|i: int| 0 <= i < v.skip(1).len() implies is_voiced_spec(
            #[trigger] v.skip(1)[i],
            cfg.threshold,
        ) by {
            assert(v.skip(1)[i] == v[i + 1]);
        }
        lemma_voiced_run(cfg, m1, v.skip(1));
        assert(m.buffer.push(v[0]) + v.skip(1) =~= m.buffer + v);
    }
}

/// Quiet samples that stay within the silence limit are appended to the
/// open utterance without flushing it.
pub proof fn lemma_quiet_run_keeps_talking(cfg: SegmenterConfig, m: SegModel, q: Seq<i16>)
    requires
        m.talking,
        all_quiet(q, cfg.threshold),
        m.silence + q.len() <= cfg.silence_limit,
    ensures
        ({
            let r = run_spec(cfg, m, q);
            &&& r.0 == (SegModel {
                talking: true,
                silence: (m.silence + q.len()) as nat,
                buffer: m.buffer + q,
            })
            &&& r.1.len() == 0
        }),
    decreases q.len(),
{
    if q.len() == 0 {
        assert(m.buffer + q =~= m.buffer);
        assert(m == (SegModel {
            talking: true,
            silence: (m.silence + q.len()) as nat,
            buffer: m.buffer + q,
        }));
    } else {
        assert(!is_voiced_spec(q[0], cfg.threshold));
        let m1 = step_spec(cfg, m, q[0]).0;
        assert forall|i: int| 0 <= i < q.skip(1).len() implies !is_voiced_spec(
            #[trigger] q.skip(1)[i],
            cfg.threshold,
        ) by {
            assert(q.skip(1)[i] == q[i + 1]);
        }
        lemma_quiet_run_keeps_talking(cfg, m1, q.skip(1));
        assert(m.buffer.push(q[0]) + q.skip(1) =~= m.buffer + q);
    }
}

/// Quiet samples that cross the silence limit flush exactly once: the
/// utterance flushed holds the buffered samples plus the quiet samples up
/// to and including the one that crossed the limit, and the machine
/// returns to the initial state.
pub proof fn lemma_quiet_run_flush(cfg: SegmenterConfig, m: SegModel, q: Seq<i16>)
    requires
        m.talking,
        all_quiet(q, cfg.threshold),
        m.silence <= cfg.silence_limit,
        m.silence + q.len() > cfg.silence_limit,
    ensures
        ({
            let k = cfg.silence_limit - m.silence + 1;
            let r = run_spec(cfg, m, q);
            &&& r.0 == init_model()
            &&& r.1 == seq![m.buffer + q.take(k)]
        }),
    decreases q.len(),
{
    let k = cfg.silence_limit - m.silence + 1;
    assert(q.len() > 0);
    assert(!is_voiced_spec(q[0], cfg.threshold));
    assert forall|i: int| 0 <= i < q.skip(1).len() implies !is_voiced_spec(
        #[trigger] q.skip(1)[i],
        cfg.threshold,
    ) by {
        assert(q.skip(1)[i] == q[i + 1]);
    }
    if m.silence == cfg.silence_limit {
        let first = step_spec(cfg, m, q[0]);
        assert(first.0 == init_model());
        lemma_no_silent_only_flush(cfg, q.skip(1));
        assert(m.buffer.push(q[0]) =~= m.buffer + q.take(1));
        assert(seq![m.buffer.push(q[0])] + run_spec(cfg, init_model(), q.skip(1)).1
            =~= seq![m.buffer + q.take(k)]);
    } else {
        let m1 = step_spec(cfg, m, q[0]).0;
        lemma_quiet_run_flush(cfg, m1, q.skip(1));
        assert(m.buffer.push(q[0]) + q.skip(1).take(k - 1) =~= m.buffer + q.take(k));
    }
}

/// Law: voiced samples followed by quiet past the silence limit flush
/// exactly once, and the flushed utterance holds exactly the samples
/// appended between utterance start and the limit being crossed,
/// trailing quiet included.
pub proof fn lemma_single_flush_per_utterance(
    cfg: SegmenterConfig,
    voiced: Seq<i16>,
    quiet: Seq<i16>,
)
    requires
        voiced.len() > 0,
        all_voiced(voiced, cfg.threshold),
        all_quiet(quiet, cfg.threshold),
        quiet.len() > cfg.silence_limit,
    ensures
        ({
            let r = run_spec(cfg, init_model(), voiced + quiet);
            &&& r.1.len() == 1
            &&& r.1[0] == voiced + quiet.take(cfg.silence_limit + 1)
            &&& r.0 == init_model()
        }),
{
    lemma_run_append(cfg, init_model(), voiced, quiet);
    lemma_voiced_run(cfg, init_model(), voiced);
    let m1 = SegModel {
        talking: true,
        silence: 0,
        buffer: init_model().buffer + voiced,
    };
    assert(m1.buffer =~= voiced);
    lemma_quiet_run_flush(cfg, m1, quiet);
    let r = run_spec(cfg, init_model(), voiced + quiet);
    assert(r.1 =~= seq![m1.buffer + quiet.take(cfg.silence_limit + 1)]);
    assert(m1.buffer + quiet.take(cfg.silence_limit + 1) =~= voiced + quiet.take(
        cfg.silence_limit + 1,
    ));
}

/// Law: a flushing step leaves the machine in the initial state with an
/// empty buffer, and the next voiced sample opens a fresh single-sample
/// utterance independent of anything before the flush.
pub proof fn lemma_buffer_reset_post_flush(cfg: SegmenterConfig, m: SegModel, s: i16, v: i16)
    requires
        step_spec(cfg, m, s).2 is Some,
        is_voiced_spec(v, cfg.threshold),
    ensures
        ({
            let m1 = step_spec(cfg, m, s).0;
            let nxt = step_spec(cfg, m1, v);
            &&& m1 == init_model()
            &&& m1.buffer.len() == 0
            &&& nxt.1
            &&& nxt.0.talking
            &&& nxt.0.buffer == seq![v]
            &&& nxt.2 is None
        }),
{
    assert(init_model().buffer.push(v) =~= seq![v]);
}

} // verus!
