use vstd::prelude::*;
use crate::machine::capped;
use crate::machine::RunState;
use crate::machine::SplitConfig;
use crate::stream::block_count;
use crate::stream::closed_after;
use crate::stream::closes_at;
use crate::stream::lemma_open_start_bound;
use crate::stream::lemma_runs_step;
use crate::stream::open_start;
use crate::stream::runs_after;
use crate::stream::segments_of;

verus! {

/// What the first `k` blocks closed, put end to end, is the stream up to
/// the start of the open segment, and none of it is empty.
pub proof fn lemma_closed_cover<T>(
    samples: Seq<T>,
    cfg: SplitConfig,
    classes: Seq<bool>,
    block_len: nat,
    k: nat,
)
    requires
        k <= classes.len(),
        block_len > 0,
        classes.len() * block_len <= samples.len(),
    ensures
        closed_after(samples, cfg, classes, block_len, k).flatten() == samples.subrange(
            0,
            open_start(cfg, classes, block_len, k) as int,
        ),
        forall|i: int|
            0 <= i < closed_after(samples, cfg, classes, block_len, k).len() ==> (
            #[trigger] closed_after(samples, cfg, classes, block_len, k)[i]).len() > 0,
    decreases k,
{
    if k == 0 {
        assert(Seq::<Seq<T>>::empty().flatten() =~= samples.subrange(0, 0));
    } else {
        let j = (k - 1) as nat;
        lemma_closed_cover(samples, cfg, classes, block_len, j);
        lemma_open_start_bound(cfg, classes, block_len, j);
        assert(j * block_len + block_len == k * block_len) by (nonlinear_arith)
            requires
                j + 1 == k,
        ;
        assert(k * block_len <= classes.len() * block_len) by (nonlinear_arith)
            requires
                k <= classes.len(),
        ;
        if closes_at(cfg, classes, k - 1) {
            let earlier = closed_after(samples, cfg, classes, block_len, j);
            let start = open_start(cfg, classes, block_len, j) as int;
            let piece = samples.subrange(start, (k * block_len) as int);
            earlier.lemma_flatten_push(piece);
            assert(samples.subrange(0, start) + piece =~= samples.subrange(
                0,
                (k * block_len) as int,
            ));
        }
    }
}

/// The segments of a stream, put end to end in the order of their indices,
/// are the stream: no sample is lost, doubled or moved, and no segment is
/// empty.
pub proof fn segments_cover_stream<T>(
    samples: Seq<T>,
    cfg: SplitConfig,
    classes: Seq<bool>,
    block_len: nat,
)
    requires
        classes.len() == block_count(samples.len(), block_len),
    ensures
        segments_of(samples, cfg, classes, block_len).flatten() == samples,
        forall|i: int|
            0 <= i < segments_of(samples, cfg, classes, block_len).len() ==> (
            #[trigger] segments_of(samples, cfg, classes, block_len)[i]).len() > 0,
{
    let n = classes.len();
    let closed = closed_after(samples, cfg, classes, block_len, n);
    let start = open_start(cfg, classes, block_len, n) as int;
    if block_len > 0 {
        vstd::arithmetic::div_mod::lemma_fundamental_div_mod(
            samples.len() as int,
            block_len as int,
        );
        vstd::arithmetic::div_mod::lemma_mod_bound(samples.len() as int, block_len as int);
        assert(n * block_len == block_len * n) by (nonlinear_arith);
        lemma_closed_cover(samples, cfg, classes, block_len, n);
        lemma_open_start_bound(cfg, classes, block_len, n);
    } else {
        assert(closed.flatten() =~= samples.subrange(0, start));
    }
    if start < samples.len() {
        let rest = samples.subrange(start, samples.len() as int);
        closed.lemma_flatten_push(rest);
        assert(samples.subrange(0, start) + rest =~= samples);
    } else {
        assert(samples.subrange(0, start) =~= samples);
    }
}

/// While every block is silence the machine stays in the state Silence
/// and closes nothing.
pub proof fn lemma_silence_keeps_silence(cfg: SplitConfig, classes: Seq<bool>, k: nat)
    requires
        k <= classes.len(),
        forall|i: int| 0 <= i < classes.len() ==> classes[i],
    ensures
        runs_after(cfg, classes.take(k as int)).keep_silence,
        forall|j: int| 0 <= j < k ==> !closes_at(cfg, classes, j),
    decreases k,
{
    if k > 0 {
        lemma_silence_keeps_silence(cfg, classes, (k - 1) as nat);
        lemma_runs_step(cfg, classes, k - 1);
    }
}

/// A stream that is silence throughout is never cut: no segment ends at a
/// block, and an empty stream yields no segment at all. What a stream that
/// is not empty leaves open is handed out whole when it ends.
pub proof fn silent_stream_is_never_cut<T>(
    samples: Seq<T>,
    cfg: SplitConfig,
    classes: Seq<bool>,
    block_len: nat,
)
    requires
        forall|i: int| 0 <= i < classes.len() ==> classes[i],
    ensures
        closed_after(samples, cfg, classes, block_len, classes.len()) == Seq::<Seq<T>>::empty(),
        samples.len() == 0 ==> segments_of(samples, cfg, classes, block_len) == Seq::<
            Seq<T>,
        >::empty(),
        samples.len() > 0 ==> segments_of(samples, cfg, classes, block_len) == seq![samples],
{
    lemma_silence_keeps_silence(cfg, classes, classes.len());
    lemma_never_closed(samples, cfg, classes, block_len, classes.len());
    if samples.len() > 0 {
        assert(samples.subrange(0, samples.len() as int) =~= samples);
        assert(Seq::<Seq<T>>::empty().push(samples) =~= seq![samples]);
    }
}

/// Where no block among the first `k` closes a segment, nothing is closed
/// and the open segment begins with the stream.
pub proof fn lemma_never_closed<T>(
    samples: Seq<T>,
    cfg: SplitConfig,
    classes: Seq<bool>,
    block_len: nat,
    k: nat,
)
    requires
        forall|j: int| 0 <= j < k ==> !closes_at(cfg, classes, j),
    ensures
        closed_after(samples, cfg, classes, block_len, k) == Seq::<Seq<T>>::empty(),
        open_start(cfg, classes, block_len, k) == 0,
    decreases k,
{
    if k > 0 {
        lemma_never_closed(samples, cfg, classes, block_len, (k - 1) as nat);
    }
}

/// Where block `p` is the only one among the first `k` that closes a
/// segment, that segment runs from the start of the stream to the end of
/// block `p`, and the open one begins there.
pub proof fn lemma_closed_once<T>(
    samples: Seq<T>,
    cfg: SplitConfig,
    classes: Seq<bool>,
    block_len: nat,
    p: nat,
    k: nat,
)
    requires
        p < k,
        forall|j: int| 0 <= j < k ==> closes_at(cfg, classes, j) == (j == p),
    ensures
        closed_after(samples, cfg, classes, block_len, k) == seq![
            samples.subrange(0, ((p + 1) * block_len) as int),
        ],
        open_start(cfg, classes, block_len, k) == (p + 1) * block_len,
    decreases k,
{
    if k == p + 1 {
        lemma_never_closed(samples, cfg, classes, block_len, p);
        assert(Seq::<Seq<T>>::empty().push(samples.subrange(0, ((p + 1) * block_len) as int))
            =~= seq![samples.subrange(0, ((p + 1) * block_len) as int)]);
    } else {
        lemma_closed_once(samples, cfg, classes, block_len, p, (k - 1) as nat);
    }
}

/// A stretch of `a` blocks of sound, then `b` of silence, then `c` of
/// sound.
pub open spec fn sound_silence_sound(a: nat, b: nat, c: nat) -> Seq<bool> {
    Seq::new(a + b + c, |k: int| a <= k < a + b)
}

/// How many blocks of silence it takes to outlast the minimum silence.
pub open spec fn blocks_to_outlast(cfg: SplitConfig) -> nat {
    (cfg.min_silence_ms / cfg.chunk_ms + 1) as nat
}

/// The machine over sound, silence, sound: it turns to Sound during the
/// first stretch and closes a segment once, with the block of silence
/// that outlasts the minimum.
pub proof fn lemma_sound_silence_sound_runs(cfg: SplitConfig, a: nat, b: nat, c: nat, k: nat)
    requires
        k <= a + b + c,
        a * cfg.chunk_ms <= u64::MAX,
        b * cfg.chunk_ms <= u64::MAX,
        a * cfg.chunk_ms > cfg.min_sound_ms,
        b * cfg.chunk_ms > cfg.min_silence_ms,
    ensures
        blocks_to_outlast(cfg) <= b,
        k <= a ==> runs_after(cfg, sound_silence_sound(a, b, c).take(k as int)) == (RunState {
            silence_run: 0,
            sound_run: (k * cfg.chunk_ms) as u64,
            keep_silence: !(k * cfg.chunk_ms > cfg.min_sound_ms),
        }),
        a <= k < a + blocks_to_outlast(cfg) ==> runs_after(
            cfg,
            sound_silence_sound(a, b, c).take(k as int),
        ) == (RunState {
            silence_run: ((k - a) * cfg.chunk_ms) as u64,
            sound_run: (a * cfg.chunk_ms) as u64,
            keep_silence: false,
        }),
        a + blocks_to_outlast(cfg) <= k <= a + b ==> runs_after(
            cfg,
            sound_silence_sound(a, b, c).take(k as int),
        ).keep_silence,
        forall|i: int|
            0 <= i < k ==> #[trigger] closes_at(cfg, sound_silence_sound(a, b, c), i) == (i == a
                + blocks_to_outlast(cfg) - 1),
    decreases k,
{
    let classes = sound_silence_sound(a, b, c);
    let chunk = cfg.chunk_ms as int;
    let quiet = cfg.min_silence_ms as int;
    let j = blocks_to_outlast(cfg) as int;
    assert(chunk > 0) by (nonlinear_arith)
        requires
            a * chunk > cfg.min_sound_ms,
            chunk >= 0,
    ;
    vstd::arithmetic::div_mod::lemma_fundamental_div_mod(quiet, chunk);
    vstd::arithmetic::div_mod::lemma_mod_bound(quiet, chunk);
    vstd::arithmetic::div_mod::lemma_div_pos_is_pos(quiet, chunk);
    assert((j - 1) * chunk <= quiet < j * chunk) by (nonlinear_arith)
        requires
            quiet == chunk * (quiet / chunk) + quiet % chunk,
            0 <= quiet % chunk < chunk,
            j == quiet / chunk + 1,
    ;
    assert(j <= b) by (nonlinear_arith)
        requires
            (j - 1) * chunk <= quiet,
            quiet < b * chunk,
            chunk > 0,
    ;
    assert(a > 0) by (nonlinear_arith)
        requires
            a * chunk > 0,
            a >= 0,
    ;
    assert((k - a) * chunk == 0 <==> k == a) by (nonlinear_arith)
        requires
            chunk > 0,
    ;
    if k > 0 {
        let h = (k - 1) as nat;
        lemma_sound_silence_sound_runs(cfg, a, b, c, h);
        lemma_runs_step(cfg, classes, h as int);
        let before = runs_after(cfg, classes.take(h as int));
        assert(h * chunk + chunk == k * chunk) by (nonlinear_arith)
            requires
                h + 1 == k,
        ;
        if k <= a {
            assert(k * chunk <= a * chunk) by (nonlinear_arith)
                requires
                    k <= a,
                    chunk > 0,
            ;
            assert(0 <= h * chunk) by (nonlinear_arith)
                requires
                    chunk > 0,
            ;
        } else if k < a + j {
            assert((h - a) * chunk + chunk == (k - a) * chunk) by (nonlinear_arith)
                requires
                    h + 1 == k,
            ;
            assert((k - a) * chunk <= (j - 1) * chunk) by (nonlinear_arith)
                requires
                    k - a <= j - 1,
                    chunk > 0,
            ;
            assert(0 <= (h - a) * chunk) by (nonlinear_arith)
                requires
                    h >= a,
                    chunk > 0,
            ;
        } else if k == a + j {
            assert((h - a) * chunk + chunk == j * chunk) by (nonlinear_arith)
                requires
                    h + 1 == a + j,
            ;
            assert(j * chunk <= b * chunk) by (nonlinear_arith)
                requires
                    j <= b,
                    chunk > 0,
            ;
            assert(0 <= (h - a) * chunk) by (nonlinear_arith)
                requires
                    h >= a,
                    chunk > 0,
            ;
            assert(capped(before.silence_run + cfg.chunk_ms) == j * chunk);
        }
    }
}

/// Sound, then silence, then sound again gives exactly two segments,
/// provided the first sound lasts longer than the minimum sound and the
/// silence longer than the minimum silence. The first segment takes the
/// sound and the silence up to the block that outlasts the minimum; the
/// second takes all the rest.
pub proof fn sound_silence_sound_gives_two_segments<T>(
    samples: Seq<T>,
    cfg: SplitConfig,
    block_len: nat,
    a: nat,
    b: nat,
    c: nat,
)
    requires
        block_len > 0,
        c > 0,
        block_count(samples.len(), block_len) == a + b + c,
        a * cfg.chunk_ms <= u64::MAX,
        b * cfg.chunk_ms <= u64::MAX,
        a * cfg.chunk_ms > cfg.min_sound_ms,
        b * cfg.chunk_ms > cfg.min_silence_ms,
    ensures
        blocks_to_outlast(cfg) <= b,
        ({
            let cut = ((a + blocks_to_outlast(cfg)) * block_len) as int;
            &&& cut < samples.len()
            &&& segments_of(samples, cfg, sound_silence_sound(a, b, c), block_len) == seq![
                samples.subrange(0, cut),
                samples.subrange(cut, samples.len() as int),
            ]
        }),
{
    let classes = sound_silence_sound(a, b, c);
    let n = a + b + c;
    let j = blocks_to_outlast(cfg);
    let p = (a + j - 1) as nat;
    lemma_sound_silence_sound_runs(cfg, a, b, c, n);
    lemma_closed_once(samples, cfg, classes, block_len, p, n);
    let cut = ((a + j) * block_len) as int;
    vstd::arithmetic::div_mod::lemma_fundamental_div_mod(samples.len() as int, block_len as int);
    vstd::arithmetic::div_mod::lemma_mod_bound(samples.len() as int, block_len as int);
    assert((a + j) * block_len < block_len * n) by (nonlinear_arith)
        requires
            a + j < n,
            block_len > 0,
    ;
    let first = samples.subrange(0, cut);
    let rest = samples.subrange(cut, samples.len() as int);
    assert(seq![first].push(rest) =~= seq![first, rest]);
}

} // verus!
