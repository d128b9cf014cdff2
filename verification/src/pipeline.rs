//! The processing loop's core: each raw sample popped from the transfer
//! ring is rate-converted and the converted samples run through the
//! segmenter.  Whatever utterances fall out are handed back for the
//! recognizer.

use vstd::prelude::*;
use crate::resample::RateConverter;
use crate::resample::resampled_spec;
use crate::segment::SegModel;
use crate::segment::Segmenter;
use crate::segment::SegmenterConfig;
use crate::segment::init_model;
use crate::segment::lemma_run_append;
use crate::segment::run_spec;

verus! {

/// Rate conversion and segmentation chained behind one feed.
pub struct Pipeline {
    converter: RateConverter,
    segmenter: Segmenter,
}

impl Pipeline {
    /// Every source-rate sample fed so far.
    pub closed spec fn source_seq(self) -> Seq<i16> {
        self.converter.source_seq()
    }

    /// The segmentation policy in force.
    pub closed spec fn config_spec(self) -> SegmenterConfig {
        self.segmenter.config_spec()
    }

    /// The source rate in samples per second.
    pub closed spec fn src(self) -> nat {
        self.converter.src()
    }

    /// The target rate in samples per second.
    pub closed spec fn dst(self) -> nat {
        self.converter.dst()
    }

    /// The target-rate stream the segmenter has consumed: the converted
    /// source sequence.
    pub open spec fn converted(self) -> Seq<i16> {
        resampled_spec(self.source_seq(), self.src(), self.dst())
    }

    /// The segmenter state after the converted stream so far.
    pub open spec fn seg_model(self) -> SegModel {
        run_spec(self.config_spec(), init_model(), self.converted()).0
    }

    /// Components well-formed and the segmenter exactly caught up with
    /// the converted stream.
    pub closed spec fn wf(self) -> bool {
        &&& self.converter.wf()
        &&& self.segmenter.wf()
        &&& self.converter.outputs() == self.converted()
        &&& self.segmenter.model() == run_spec(
            self.segmenter.config_spec(),
            init_model(),
            self.converter.outputs(),
        ).0
    }

    /// Room in the conversion arithmetic for one more source sample.
    pub open spec fn can_accept(self) -> bool {
        (self.source_seq().len() as int) * (self.dst() as int) + (self.src() as int)
            <= 0xFFFF_FFFF_FFFF_FFFF
    }

    /// A fresh pipeline that has seen no samples.
    pub fn new(src_rate: u32, dst_rate: u32, config: SegmenterConfig) -> (p: Pipeline)
        requires
            src_rate >= 1,
            dst_rate >= 1,
            config.wf(),
        ensures
            p.wf(),
            p.source_seq() == Seq::<i16>::empty(),
            p.config_spec() == config,
            p.src() == src_rate,
            p.dst() == dst_rate,
    {
        let p = Pipeline {
            converter: RateConverter::new(src_rate, dst_rate),
            segmenter: Segmenter::new(config),
        };
        p
    }

    /// Feed one raw sample at the source rate.  Returns the utterances
    /// completed by this sample, in order: exactly the next entries of
    /// the segmenter run over the whole converted stream.
    pub fn process_sample(&mut self, s: i16) -> (flushes: Vec<Vec<i16>>)
        requires
            old(self).wf(),
            old(self).can_accept(),
        ensures
            final(self).wf(),
            final(self).config_spec() == old(self).config_spec(),
            final(self).src() == old(self).src(),
            final(self).dst() == old(self).dst(),
            final(self).source_seq() == old(self).source_seq().push(s),
            ({
                let before = run_spec(
                    old(self).config_spec(),
                    init_model(),
                    old(self).converted(),
                );
                let after = run_spec(
                    old(self).config_spec(),
                    init_model(),
                    final(self).converted(),
                );
                &&& after.1.len() == before.1.len() + flushes@.len()
                &&& (forall|k: int| 0 <= k < before.1.len() ==> after.1[k] == #[trigger] before.1[k])
                &&& (forall|k: int|
                    0 <= k < flushes@.len() ==> #[trigger] flushes@[k]@ == after.1[
                        before.1.len() + k
                    ])
            }),
    {
        let ghost out_old = self.converter.outputs();
        let chunk: Vec<i16> = self.converter.push_source(s);
        proof {
            lemma_run_append(self.segmenter.config_spec(), init_model(), out_old, chunk@);
        }
        let flushes: Vec<Vec<i16>> = self.segmenter.push_samples(&chunk);
        flushes
    }

    /// Whether an utterance is currently open.
    pub fn is_talking(&self) -> (b: bool)
        requires
            self.wf(),
        ensures
            b == self.seg_model().talking,
    {
        self.segmenter.is_talking()
    }

    /// How many converted samples the open utterance currently holds.
    pub fn buffered_len(&self) -> (n: usize)
        requires
            self.wf(),
        ensures
            n == self.seg_model().buffer.len(),
    {
        self.segmenter.buffered_len()
    }
}

} // verus!
