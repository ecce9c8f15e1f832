use vstd::prelude::*;
use vstd::arithmetic::div_mod::lemma_fundamental_div_mod_converse;
use vstd::arithmetic::div_mod::lemma_div_is_ordered;
use crate::energy::all_finite;
use crate::energy::block_is_silent;
use crate::energy::lemma_all_finite_push;
use crate::energy::sum_squares;
use crate::energy::EnergyMeter;
use crate::energy::Normalizable;
use crate::energy::SilenceThreshold;
use crate::machine::RunState;
use crate::machine::SplitConfig;
use crate::segmenter::Segment;
use crate::segmenter::Segmenter;
use crate::stream::block_count;
use crate::stream::closed_after;
use crate::stream::lemma_open_start_bound;
use crate::stream::lemma_runs_step;
use crate::stream::open_start;
use crate::stream::runs_after;
use crate::stream::segments_match;
use crate::stream::segments_of;

verus! {

/// How each whole block of a stream is classified: entry `k` is true where
/// block `k` is silence under `threshold`.
pub open spec fn block_classes<T: Normalizable>(
    samples: Seq<T>,
    block_len: nat,
    threshold: SilenceThreshold,
) -> Seq<bool> {
    Seq::new(
        block_count(samples.len(), block_len),
        |k: int| block_is_silent(samples.subrange(k * block_len, (k + 1) * block_len), threshold),
    )
}

/// Splits a stream of samples as they arrive: meters each block,
/// classifies it when it is full and lets the segmenter decide.
pub struct PcmSplitter<T> {
    seg: Segmenter<T>,
    meter: EnergyMeter,
    threshold: SilenceThreshold,
}

impl<T: Normalizable> PcmSplitter<T> {
    pub closed spec fn config(&self) -> SplitConfig {
        self.seg.config()
    }

    pub closed spec fn block_len(&self) -> nat {
        self.seg.block_len()
    }

    pub closed spec fn threshold(&self) -> SilenceThreshold {
        self.threshold
    }

    pub closed spec fn runs(&self) -> RunState {
        self.seg.runs()
    }

    /// The samples of the open segment.
    pub closed spec fn pending(&self) -> Seq<T> {
        self.seg.pending()
    }

    /// The samples of the block in progress.
    pub closed spec fn block(&self) -> Seq<T> {
        self.seg.block()
    }

    pub closed spec fn emitted(&self) -> nat {
        self.seg.emitted()
    }

    /// The meter holds the sum over the block in progress, which never
    /// reaches the length of a block.
    pub closed spec fn well_formed(&self) -> bool {
        &&& self.seg.well_formed()
        &&& self.meter.well_formed()
        &&& self.meter.count() == self.seg.block().len()
        &&& self.meter.total() == sum_squares(self.seg.block())
        &&& self.meter.tainted() == !all_finite(self.seg.block())
        &&& self.seg.block().len() <= self.seg.pending().len()
        &&& self.seg.block_len() > 0 ==> self.seg.block().len() < self.seg.block_len()
    }

    pub fn new(cfg: SplitConfig, block_len: usize, threshold: SilenceThreshold) -> (sp: PcmSplitter<T>)
        ensures
            sp.well_formed(),
            sp.config() == cfg,
            sp.block_len() == block_len,
            sp.threshold() == threshold,
            sp.runs() == RunState::initial(),
            sp.pending() == Seq::<T>::empty(),
            sp.block() == Seq::<T>::empty(),
            sp.emitted() == 0,
    {
        PcmSplitter { seg: Segmenter::new(cfg, block_len), meter: EnergyMeter::new(), threshold }
    }

    /// Number of samples in the open segment.
    pub fn pending_len(&self) -> (n: usize)
        ensures
            n == self.pending().len(),
    {
        self.seg.pending_len()
    }

    /// Number of segments closed so far.
    pub fn segments_emitted(&self) -> (n: u64)
        ensures
            n == self.emitted(),
    {
        self.seg.segments_emitted()
    }

    /// Takes the next sample of the stream. The sample joins the open
    /// segment; where it fills a block, the block is classified and the
    /// machine takes its step, which may close the segment.
    pub fn feed(&mut self, sample: T) -> (out: Option<Segment<T>>)
        requires
            old(self).well_formed(),
            old(self).emitted() < u64::MAX,
        ensures
            final(self).well_formed(),
            final(self).config() == old(self).config(),
            final(self).block_len() == old(self).block_len(),
            final(self).threshold() == old(self).threshold(),
            ({
                let block = old(self).block().push(sample);
                let silent = block_is_silent(block, old(self).threshold());
                if block.len() == old(self).block_len() {
                    &&& final(self).runs() == old(self).runs().next(old(self).config(), silent)
                    &&& final(self).block() == Seq::<T>::empty()
                    &&& if old(self).runs().closes(old(self).config(), silent) {
                        &&& out.is_some()
                        &&& out.unwrap().samples@ == old(self).pending().push(sample)
                        &&& out.unwrap().index == old(self).emitted()
                        &&& final(self).pending() == Seq::<T>::empty()
                        &&& final(self).emitted() == old(self).emitted() + 1
                    } else {
                        &&& out.is_none()
                        &&& final(self).pending() == old(self).pending().push(sample)
                        &&& final(self).emitted() == old(self).emitted()
                    }
                } else {
                    &&& out.is_none()
                    &&& final(self).runs() == old(self).runs()
                    &&& final(self).pending() == old(self).pending().push(sample)
                    &&& final(self).emitted() == old(self).emitted()
                    &&& final(self).block() == block
                }
            }),
    {
        let ghost before = self.seg.block();
        let full: bool = self.seg.push(sample);
        let len: usize = self.seg.pending_len();
        let a = sample.normalize();
        proof {
            assert(before.push(sample).drop_last() =~= before);
            self.seg.lemma_block_is_tail();
            lemma_all_finite_push(before, sample);
            let v = sample.level();
            if a.is_none() {
                assert(v * v == 0) by (nonlinear_arith)
                    requires
                        v == 0,
                ;
            }
        }
        self.meter.add(a);
        if full {
            let silent: bool = match a {
                Some(scale) => self.meter.is_below(&scale, &self.threshold),
                None => false,
            };
            self.meter = EnergyMeter::new();
            self.seg.end_block(silent)
        } else {
            None
        }
    }

    /// Ends the stream: what is left in the open segment, a last short
    /// block included, becomes the last segment.
    pub fn finish(self) -> (out: Option<Segment<T>>)
        ensures
            self.pending().len() > 0 ==> out.is_some() && out.unwrap().samples@ == self.pending()
                && out.unwrap().index == self.emitted(),
            self.pending().len() == 0 ==> out.is_none(),
    {
        self.seg.finish()
    }
}

/// Splits a whole stream of samples into its segments.
pub fn split_samples<T: Normalizable>(
    samples: &[T],
    block_len: usize,
    cfg: &SplitConfig,
    threshold: &SilenceThreshold,
) -> (out: Vec<Segment<T>>)
    ensures
        segments_match(
            out@,
            segments_of(
                samples@,
                *cfg,
                block_classes(samples@, block_len as nat, *threshold),
                block_len as nat,
            ),
        ),
{
    let n: usize = samples.len();
    let ghost bl = block_len as nat;
    let ghost classes = block_classes(samples@, bl, *threshold);
    let mut sp: PcmSplitter<T> = PcmSplitter::new(*cfg, block_len, *threshold);
    let mut out: Vec<Segment<T>> = Vec::new();
    let mut i: usize = 0;
    let ghost mut k: nat = 0;
    while i < n
        invariant
            n == samples@.len(),
            bl == block_len,
            classes == block_classes(samples@, bl, *threshold),
            classes.len() == block_count(n as nat, bl),
            i <= n,
            sp.well_formed(),
            sp.config() == *cfg,
            sp.block_len() == bl,
            sp.threshold() == *threshold,
            k * bl <= i,
            bl > 0 ==> i < k * bl + bl,
            bl == 0 ==> k == 0,
            k <= classes.len(),
            sp.block() == samples@.subrange((k * bl) as int, i as int),
            sp.runs() == runs_after(*cfg, classes.take(k as int)),
            sp.emitted() == out@.len(),
            out@.len() <= k,
            open_start(*cfg, classes, bl, k) <= k * bl,
            sp.pending() == samples@.subrange(open_start(*cfg, classes, bl, k) as int, i as int),
            segments_match(out@, closed_after(samples@, *cfg, classes, bl, k)),
        decreases n - i,
    {
        let ghost start = open_start(*cfg, classes, bl, k);
        proof {
            assert(samples@.subrange(start as int, i as int).push(samples@[i as int])
                =~= samples@.subrange(start as int, i + 1));
            assert(samples@.subrange((k * bl) as int, i as int).push(samples@[i as int])
                =~= samples@.subrange((k * bl) as int, i + 1));
            assert((k + 1) * bl == k * bl + bl) by (nonlinear_arith);
            if bl > 0 {
                assert(k <= k * bl) by (nonlinear_arith)
                    requires
                        bl > 0,
                ;
                if i + 1 == k * bl + bl {
                    lemma_fundamental_div_mod_converse(i + 1, bl as int, (k + 1) as int, 0);
                    lemma_div_is_ordered(i + 1, n as int, bl as int);
                    lemma_runs_step(*cfg, classes, k as int);
                    lemma_open_start_bound(*cfg, classes, bl, k + 1);
                }
            }
        }
        match sp.feed(samples[i]) {
            Some(s) => {
                out.push(s);
            },
            None => {},
        }
        i += 1;
        proof {
            if bl > 0 && i == k * bl + bl {
                k = k + 1;
                assert(samples@.subrange((k * bl) as int, i as int) =~= Seq::<T>::empty());
            }
        }
    }
    proof {
        if bl > 0 {
            lemma_fundamental_div_mod_converse(n as int, bl as int, k as int, i - k * bl);
        }
        assert(classes.take(k as int) =~= classes);
    }
    match sp.finish() {
        Some(s) => {
            out.push(s);
        },
        None => {},
    }
    out
}

} // verus!
