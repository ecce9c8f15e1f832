use vstd::prelude::*;
use vstd::arithmetic::div_mod::lemma_fundamental_div_mod_converse;
use crate::machine::RunState;
use crate::machine::SplitConfig;
use crate::segmenter::Segment;
use crate::segmenter::Segmenter;

verus! {

/// The state of the boundary machine after it has seen blocks classified
/// as `classes`, in that order.
pub open spec fn runs_after(cfg: SplitConfig, classes: Seq<bool>) -> RunState
    decreases classes.len(),
{
    if classes.len() == 0 {
        RunState::initial()
    } else {
        runs_after(cfg, classes.drop_last()).next(cfg, classes.last())
    }
}

/// Whether the open segment ends with block `k`.
pub open spec fn closes_at(cfg: SplitConfig, classes: Seq<bool>, k: int) -> bool {
    runs_after(cfg, classes.take(k)).closes(cfg, classes[k])
}

/// Where the segment that is open after `k` blocks begins: behind the last
/// block that closed one, or at the start of the stream.
pub open spec fn open_start(cfg: SplitConfig, classes: Seq<bool>, block_len: nat, k: nat) -> nat
    decreases k,
{
    if k == 0 {
        0
    } else if closes_at(cfg, classes, k - 1) {
        k * block_len
    } else {
        open_start(cfg, classes, block_len, (k - 1) as nat)
    }
}

/// The segments closed by the first `k` blocks, oldest first.
pub open spec fn closed_after<T>(
    samples: Seq<T>,
    cfg: SplitConfig,
    classes: Seq<bool>,
    block_len: nat,
    k: nat,
) -> Seq<Seq<T>>
    decreases k,
{
    if k == 0 {
        Seq::empty()
    } else {
        let earlier = closed_after(samples, cfg, classes, block_len, (k - 1) as nat);
        if closes_at(cfg, classes, k - 1) {
            earlier.push(
                samples.subrange(
                    open_start(cfg, classes, block_len, (k - 1) as nat) as int,
                    (k * block_len) as int,
                ),
            )
        } else {
            earlier
        }
    }
}

/// Number of whole blocks in a stream of `len` samples. With a block
/// length of zero no block ever fills.
pub open spec fn block_count(len: nat, block_len: nat) -> nat {
    if block_len == 0 {
        0
    } else {
        len / block_len
    }
}

/// The segments of a whole stream: those closed by its blocks, and what
/// remains open at the end, if anything does. `classes` holds one entry
/// for each whole block.
pub open spec fn segments_of<T>(
    samples: Seq<T>,
    cfg: SplitConfig,
    classes: Seq<bool>,
    block_len: nat,
) -> Seq<Seq<T>> {
    let closed = closed_after(samples, cfg, classes, block_len, classes.len());
    let start = open_start(cfg, classes, block_len, classes.len());
    if start < samples.len() {
        closed.push(samples.subrange(start as int, samples.len() as int))
    } else {
        closed
    }
}

/// `segments` holds exactly the sample runs `expected`, numbered from zero.
pub open spec fn segments_match<T>(segments: Seq<Segment<T>>, expected: Seq<Seq<T>>) -> bool {
    &&& segments.len() == expected.len()
    &&& forall|i: int|
        0 <= i < segments.len() ==> (#[trigger] segments[i]).samples@ == expected[i]
            && segments[i].index == i
}

/// The open segment never begins behind the blocks seen so far.
pub proof fn lemma_open_start_bound(cfg: SplitConfig, classes: Seq<bool>, block_len: nat, k: nat)
    ensures
        open_start(cfg, classes, block_len, k) <= k * block_len,
    decreases k,
{
    if k > 0 {
        lemma_open_start_bound(cfg, classes, block_len, (k - 1) as nat);
        assert((k - 1) * block_len <= k * block_len) by (nonlinear_arith);
    }
}

/// Seeing one more block is one more step of the machine.
pub proof fn lemma_runs_step(cfg: SplitConfig, classes: Seq<bool>, k: int)
    requires
        0 <= k < classes.len(),
    ensures
        runs_after(cfg, classes.take(k + 1)) == runs_after(cfg, classes.take(k)).next(
            cfg,
            classes[k],
        ),
{
    assert(classes.take(k + 1).drop_last() =~= classes.take(k));
    assert(classes.take(k + 1).last() == classes[k]);
}

/// Splits a whole stream whose blocks were classified elsewhere. Entry `k`
/// of `classes` says whether block `k` is silence. `None` where `classes`
/// does not hold one entry for each whole block.
pub fn split_blocks<T: Copy>(
    samples: &[T],
    classes: &[bool],
    block_len: usize,
    cfg: &SplitConfig,
) -> (out: Option<Vec<Segment<T>>>)
    ensures
        out.is_some() <==> classes@.len() == block_count(samples@.len(), block_len as nat),
        out.is_some() ==> segments_match(
            out.unwrap()@,
            segments_of(samples@, *cfg, classes@, block_len as nat),
        ),
{
    let n: usize = samples.len();
    let blocks: usize = if block_len == 0 {
        0
    } else {
        n / block_len
    };
    if classes.len() != blocks {
        return None;
    }
    let ghost bl = block_len as nat;
    let mut seg: Segmenter<T> = Segmenter::new(*cfg, block_len);
    let mut out: Vec<Segment<T>> = Vec::new();
    let mut i: usize = 0;
    let mut k: usize = 0;
    while i < n
        invariant
            n == samples@.len(),
            bl == block_len,
            classes@.len() == block_count(n as nat, bl),
            i <= n,
            k * bl <= i,
            bl > 0 ==> i < k * bl + bl,
            bl == 0 ==> k == 0,
            k <= classes@.len(),
            seg.well_formed(),
            seg.config() == *cfg,
            seg.block_len() == bl,
            seg.block() == samples@.subrange((k * bl) as int, i as int),
            seg.runs() == runs_after(*cfg, classes@.take(k as int)),
            seg.emitted() == out@.len(),
            out@.len() <= k,
            open_start(*cfg, classes@, bl, k as nat) <= k * bl,
            seg.pending() == samples@.subrange(
                open_start(*cfg, classes@, bl, k as nat) as int,
                i as int,
            ),
            segments_match(out@, closed_after(samples@, *cfg, classes@, bl, k as nat)),
        decreases n - i,
    {
        let ghost start = open_start(*cfg, classes@, bl, k as nat);
        proof {
            assert(samples@.subrange(start as int, i as int).push(samples@[i as int])
                =~= samples@.subrange(start as int, i + 1));
            assert(samples@.subrange((k * bl) as int, i as int).push(samples@[i as int])
                =~= samples@.subrange((k * bl) as int, i + 1));
            assert((k + 1) * bl == k * bl + bl) by (nonlinear_arith);
            if bl > 0 {
                assert(k <= k * bl) by (nonlinear_arith)
                    requires
                        bl > 0,
                ;
                if i + 1 == k * bl + bl {
                    lemma_fundamental_div_mod_converse(i + 1, bl as int, k + 1, 0);
                    vstd::arithmetic::div_mod::lemma_div_is_ordered(i + 1, n as int, bl as int);
                    lemma_runs_step(*cfg, classes@, k as int);
                    lemma_open_start_bound(*cfg, classes@, bl, (k + 1) as nat);
                }
            }
        }
        let full: bool = seg.push(samples[i]);
        i += 1;
        if full {
            let silent: bool = classes[k];
            match seg.end_block(silent) {
                Some(s) => {
                    out.push(s);
                },
                None => {},
            }
            k += 1;
            proof {
                assert(samples@.subrange((k * bl) as int, i as int) =~= Seq::<T>::empty());
            }
        }
    }
    proof {
        if bl > 0 {
            lemma_fundamental_div_mod_converse(n as int, bl as int, k as int, i - k * bl);
        }
        assert(classes@.take(k as int) =~= classes@);
    }
    match seg.finish() {
        Some(s) => {
            out.push(s);
        },
        None => {},
    }
    Some(out)
}

} // verus!
