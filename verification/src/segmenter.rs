use vstd::prelude::*;
use vstd::slice::slice_subrange;
use crate::machine::RunState;
use crate::machine::SplitConfig;

verus! {

/// One region of the stream, closed and handed out.
#[derive(Debug)]
pub struct Segment<T> {
    /// Position of the segment in emission order, from zero.
    pub index: u64,
    /// Its samples, interleaved as in the stream.
    pub samples: Vec<T>,
}

/// The segmentation state of one run: the boundary machine together with
/// the samples of the segment that is open.
///
/// Samples are pushed one by one. When a push fills a block, the caller
/// classifies the block and reports the outcome. The segmenter never
/// looks into a sample, so it carries any kind of them.
pub struct Segmenter<T> {
    cfg: SplitConfig,
    block_len: usize,
    runs: RunState,
    buffer: Vec<T>,
    fill: usize,
    emitted: u64,
}

impl<T: Copy> Segmenter<T> {
    /// The durations the segmenter was made with.
    pub closed spec fn config(&self) -> SplitConfig {
        self.cfg
    }

    /// Number of samples that make a block.
    pub closed spec fn block_len(&self) -> nat {
        self.block_len as nat
    }

    /// The state of the boundary machine.
    pub closed spec fn runs(&self) -> RunState {
        self.runs
    }

    /// The samples of the open segment.
    pub closed spec fn pending(&self) -> Seq<T> {
        self.buffer@
    }

    /// The samples pushed since the last block ended: the tail of the open
    /// segment.
    pub closed spec fn block(&self) -> Seq<T> {
        self.buffer@.subrange(self.buffer@.len() - self.fill, self.buffer@.len() as int)
    }

    /// How many segments were closed so far.
    pub closed spec fn emitted(&self) -> nat {
        self.emitted as nat
    }

    /// The block in progress lies inside the open segment.
    pub closed spec fn well_formed(&self) -> bool {
        self.fill <= self.buffer@.len()
    }

    /// The block in progress is the end of the open segment.
    pub proof fn lemma_block_is_tail(&self)
        requires
            self.well_formed(),
        ensures
            self.block().len() <= self.pending().len(),
            self.block() == self.pending().subrange(
                self.pending().len() - self.block().len(),
                self.pending().len() as int,
            ),
    {
    }

    pub fn new(cfg: SplitConfig, block_len: usize) -> (seg: Segmenter<T>)
        ensures
            seg.well_formed(),
            seg.config() == cfg,
            seg.block_len() == block_len,
            seg.runs() == RunState::initial(),
            seg.pending() == Seq::<T>::empty(),
            seg.block() == Seq::<T>::empty(),
            seg.emitted() == 0,
    {
        let seg = Segmenter {
            cfg,
            block_len,
            runs: RunState::new(),
            buffer: Vec::new(),
            fill: 0,
            emitted: 0,
        };
        assert(seg.block() =~= Seq::<T>::empty());
        seg
    }

    /// Number of samples in the open segment.
    pub fn pending_len(&self) -> (n: usize)
        ensures
            n == self.pending().len(),
    {
        self.buffer.len()
    }

    /// Number of segments closed so far, which is the index the next one
    /// will carry.
    pub fn segments_emitted(&self) -> (n: u64)
        ensures
            n == self.emitted(),
    {
        self.emitted
    }

    /// Whether the machine is in the state Silence.
    pub fn in_silence(&self) -> (silence: bool)
        ensures
            silence == self.runs().keep_silence,
    {
        self.runs.keep_silence
    }

    /// The samples of the block in progress.
    pub fn block_samples(&self) -> (block: &[T])
        requires
            self.well_formed(),
        ensures
            block@ == self.block(),
    {
        let len: usize = self.buffer.len();
        slice_subrange(self.buffer.as_slice(), len - self.fill, len)
    }

    /// Appends a sample to the open segment and says whether it fills the
    /// block in progress. Every sample of the stream goes in, whatever its
    /// block turns out to be.
    pub fn push(&mut self, sample: T) -> (full: bool)
        requires
            old(self).well_formed(),
        ensures
            final(self).well_formed(),
            final(self).pending() == old(self).pending().push(sample),
            final(self).block() == old(self).block().push(sample),
            final(self).runs() == old(self).runs(),
            final(self).config() == old(self).config(),
            final(self).block_len() == old(self).block_len(),
            final(self).emitted() == old(self).emitted(),
            full == (final(self).block().len() == final(self).block_len()),
    {
        self.buffer.push(sample);
        let len: usize = self.buffer.len();
        assert(self.fill < len);
        self.fill = self.fill + 1;
        assert(self.block() =~= old(self).block().push(sample));
        self.fill == self.block_len
    }

    /// Ends the block in progress with its classification. The open
    /// segment is handed out when the machine closes it and it holds any
    /// sample.
    pub fn end_block(&mut self, silent: bool) -> (out: Option<Segment<T>>)
        requires
            old(self).well_formed(),
            old(self).emitted() < u64::MAX,
        ensures
            final(self).well_formed(),
            final(self).config() == old(self).config(),
            final(self).block_len() == old(self).block_len(),
            final(self).runs() == old(self).runs().next(old(self).config(), silent),
            final(self).block() == Seq::<T>::empty(),
            old(self).runs().closes(old(self).config(), silent) && old(self).pending().len() > 0
                ==> out.is_some() && out.unwrap().samples@ == old(self).pending()
                && out.unwrap().index == old(self).emitted()
                && final(self).pending() == Seq::<T>::empty()
                && final(self).emitted() == old(self).emitted() + 1,
            !(old(self).runs().closes(old(self).config(), silent) && old(self).pending().len() > 0)
                ==> out.is_none() && final(self).pending() == old(self).pending()
                && final(self).emitted() == old(self).emitted(),
    {
        let close: bool = self.runs.step(&self.cfg, silent);
        self.fill = 0;
        assert(self.block() =~= Seq::<T>::empty());
        if close && self.buffer.len() > 0 {
            let mut samples: Vec<T> = Vec::new();
            core::mem::swap(&mut self.buffer, &mut samples);
            let index: u64 = self.emitted;
            self.emitted = self.emitted + 1;
            assert(self.block() =~= Seq::<T>::empty());
            Some(Segment { index, samples })
        } else {
            None
        }
    }

    /// Ends the stream: what is left in the open segment, a last short
    /// block included, becomes the last segment, whatever state the
    /// machine is in.
    pub fn finish(self) -> (out: Option<Segment<T>>)
        ensures
            self.pending().len() > 0 ==> out.is_some() && out.unwrap().samples@ == self.pending()
                && out.unwrap().index == self.emitted(),
            self.pending().len() == 0 ==> out.is_none(),
    {
        if self.buffer.len() > 0 {
            Some(Segment { index: self.emitted, samples: self.buffer })
        } else {
            None
        }
    }
}

} // verus!
