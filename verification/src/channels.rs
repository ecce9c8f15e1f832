use vstd::prelude::*;

verus! {

/// Number of frames that channel `c` has in an interleaved stream of `len`
/// samples over `channels` channels.
pub open spec fn frames_of(len: nat, channels: nat, c: nat) -> nat {
    if c < len {
        ((len - c - 1) / channels as int + 1) as nat
    } else {
        0
    }
}

/// The samples of channel `c` in an interleaved stream: every
/// `channels`-th sample, from the one at `c` on.
pub open spec fn channel_of<T>(samples: Seq<T>, channels: nat, c: nat) -> Seq<T> {
    Seq::new(frames_of(samples.len(), channels, c), |k: int| samples[k * channels + c])
}

/// Length of the shortest of the channels; zero where there is none.
pub open spec fn shortest<T>(channels: Seq<Vec<T>>) -> nat
    decreases channels.len(),
{
    if channels.len() == 0 {
        0
    } else if channels.len() == 1 {
        channels[0]@.len()
    } else {
        let rest = shortest(channels.drop_last());
        if channels.last()@.len() < rest {
            channels.last()@.len()
        } else {
            rest
        }
    }
}

/// The channels woven into one stream, frame by frame, as far as the
/// shortest of them goes.
pub open spec fn interleaved<T>(channels: Seq<Vec<T>>) -> Seq<T> {
    Seq::new(
        shortest(channels) * channels.len(),
        |i: int| channels[i % channels.len() as int]@[i / channels.len() as int],
    )
}

/// The last frame of a channel lies inside the stream.
pub proof fn lemma_frame_in_stream(len: nat, channels: nat, c: nat, k: nat)
    requires
        channels > 0,
        k < frames_of(len, channels, c),
    ensures
        k * channels + c < len,
{
    let span = len - c - 1;
    vstd::arithmetic::div_mod::lemma_fundamental_div_mod(span, channels as int);
    vstd::arithmetic::div_mod::lemma_mod_bound(span, channels as int);
    assert(k * channels <= span) by (nonlinear_arith)
        requires
            k <= span / channels as int,
            span == channels * (span / channels as int) + span % channels as int,
            0 <= span % channels as int,
            channels > 0,
    ;
}

/// No channel is shorter than the shortest.
pub proof fn lemma_shortest_bound<T>(channels: Seq<Vec<T>>, c: int)
    requires
        0 <= c < channels.len(),
    ensures
        shortest(channels) <= channels[c]@.len(),
    decreases channels.len(),
{
    if channels.len() > 1 && c < channels.len() - 1 {
        lemma_shortest_bound(channels.drop_last(), c);
    }
}

/// Where the stream holds whole frames only, every channel has as many
/// frames as the stream.
pub proof fn lemma_whole_frames(len: nat, channels: nat, c: nat)
    requires
        c < channels,
        len % channels == 0,
    ensures
        frames_of(len, channels, c) == len / channels,
{
    let f = len / channels;
    vstd::arithmetic::div_mod::lemma_fundamental_div_mod(len as int, channels as int);
    if f == 0 {
        assert(channels * 0 == 0);
    } else {
        assert(channels * f == channels * (f - 1) + channels) by (nonlinear_arith);
        assert(channels * (f - 1) >= 0) by (nonlinear_arith)
            requires
                f >= 1,
                channels > 0,
        ;
        vstd::arithmetic::div_mod::lemma_fundamental_div_mod_converse(
            len - c - 1,
            channels as int,
            f - 1,
            channels - 1 - c,
        );
    }
}

/// Channels of one length have the shortest among them of that length.
pub proof fn lemma_shortest_of_even<T>(channels: Seq<Vec<T>>, frames: nat)
    requires
        channels.len() > 0,
        forall|c: int| 0 <= c < channels.len() ==> (#[trigger] channels[c])@.len() == frames,
    ensures
        shortest(channels) == frames,
    decreases channels.len(),
{
    if channels.len() > 1 {
        let rest = channels.drop_last();
        assert forall|c: int| 0 <= c < rest.len() implies (#[trigger] rest[c])@.len() == frames by {
            assert(rest[c] == channels[c]);
        }
        lemma_shortest_of_even(rest, frames);
    }
}

/// Weaving the channels of a stream of whole frames together again gives
/// the stream back.
pub proof fn interleave_undoes_deinterleave<T>(samples: Seq<T>, channels: Seq<Vec<T>>)
    requires
        channels.len() > 0,
        samples.len() % channels.len() == 0,
        forall|c: int|
            0 <= c < channels.len() ==> (#[trigger] channels[c])@ == channel_of(
                samples,
                channels.len(),
                c as nat,
            ),
    ensures
        interleaved(channels) == samples,
        forall|c: int|
            0 <= c < channels.len() ==> (#[trigger] channels[c])@.len() == samples.len()
                / channels.len(),
{
    let count = channels.len();
    let frames = samples.len() / count;
    assert forall|c: int| 0 <= c < count implies (#[trigger] channels[c])@.len() == frames by {
        lemma_whole_frames(samples.len(), count, c as nat);
    }
    lemma_shortest_of_even(channels, frames);
    vstd::arithmetic::div_mod::lemma_fundamental_div_mod(samples.len() as int, count as int);
    assert(frames * count == count * frames) by (nonlinear_arith);
    assert forall|i: int| 0 <= i < samples.len() implies channels[i % count as int]@[i
        / count as int] == samples[i] by {
        vstd::arithmetic::div_mod::lemma_fundamental_div_mod(i, count as int);
        vstd::arithmetic::div_mod::lemma_mod_bound(i, count as int);
        vstd::arithmetic::div_mod::lemma_div_is_ordered(i, samples.len() as int, count as int);
        let c = i % count as int;
        let k = i / count as int;
        assert(0 <= k) by {
            vstd::arithmetic::div_mod::lemma_div_pos_is_pos(i, count as int);
        }
        assert(k < frames) by (nonlinear_arith)
            requires
                i == count * k + c,
                0 <= c,
                i < count * frames,
                count > 0,
        ;
        assert(channels[c]@ == channel_of(samples, count, c as nat));
        assert(k * count + c == i) by (nonlinear_arith)
            requires
                i == count * k + c,
        ;
    }
    assert(interleaved(channels) =~= samples);
}

/// Pulls an interleaved stream apart into its channels.
pub fn deinterleave<T: Copy>(samples: &[T], channels: usize) -> (out: Vec<Vec<T>>)
    ensures
        out@.len() == channels,
        forall|c: int|
            0 <= c < channels ==> (#[trigger] out@[c])@ == channel_of(
                samples@,
                channels as nat,
                c as nat,
            ),
{
    let len: usize = samples.len();
    let mut out: Vec<Vec<T>> = Vec::new();
    let mut c: usize = 0;
    while c < channels
        invariant
            len == samples@.len(),
            c <= channels,
            out@.len() == c,
            forall|d: int|
                0 <= d < c ==> (#[trigger] out@[d])@ == channel_of(
                    samples@,
                    channels as nat,
                    d as nat,
                ),
        decreases channels - c,
    {
        let frames: usize = if c < len {
            (len - c - 1) / channels + 1
        } else {
            0
        };
        let mut channel: Vec<T> = Vec::new();
        let mut k: usize = 0;
        while k < frames
            invariant
                len == samples@.len(),
                channels > 0,
                c < channels,
                frames == frames_of(len as nat, channels as nat, c as nat),
                k <= frames,
                channel@.len() == k,
                forall|j: int| 0 <= j < k ==> #[trigger] channel@[j] == samples@[j * channels + c],
            decreases frames - k,
        {
            proof {
                lemma_frame_in_stream(len as nat, channels as nat, c as nat, k as nat);
                assert(0 <= k * channels) by (nonlinear_arith);
            }
            let at: usize = k * channels + c;
            channel.push(samples[at]);
            k += 1;
        }
        proof {
            assert(channel@ =~= channel_of(samples@, channels as nat, c as nat));
        }
        out.push(channel);
        c += 1;
    }
    out
}

/// Weaves channels into one interleaved stream. Frames that not every
/// channel has are left out.
pub fn interleave<T: Copy>(channels: &Vec<Vec<T>>) -> (out: Vec<T>)
    ensures
        out@ == interleaved(channels@),
{
    let count: usize = channels.len();
    if count == 0 {
        let out: Vec<T> = Vec::new();
        proof {
            assert(shortest(channels@) * 0 == 0);
            assert(out@ =~= interleaved(channels@));
        }
        return out;
    }
    let mut frames: usize = channels[0].len();
    let mut c: usize = 1;
    proof {
        assert(channels@.take(1).len() == 1);
    }
    while c < count
        invariant
            count == channels@.len(),
            1 <= c <= count,
            frames == shortest(channels@.take(c as int)),
        decreases count - c,
    {
        proof {
            assert(channels@.take(c + 1).drop_last() =~= channels@.take(c as int));
        }
        if channels[c].len() < frames {
            frames = channels[c].len();
        }
        c += 1;
    }
    proof {
        assert(channels@.take(count as int) =~= channels@);
    }
    let mut out: Vec<T> = Vec::new();
    let mut k: usize = 0;
    while k < frames
        invariant
            count == channels@.len(),
            count > 0,
            frames == shortest(channels@),
            k <= frames,
            out@.len() == k * count,
            forall|i: int|
                0 <= i < out@.len() ==> #[trigger] out@[i] == channels@[i % count as int]@[i
                    / count as int],
        decreases frames - k,
    {
        let mut c: usize = 0;
        while c < count
            invariant
                count == channels@.len(),
                count > 0,
                frames == shortest(channels@),
                k < frames,
                c <= count,
                out@.len() == k * count + c,
                forall|i: int|
                    0 <= i < out@.len() ==> #[trigger] out@[i] == channels@[i % count as int]@[i
                        / count as int],
            decreases count - c,
        {
            proof {
                lemma_shortest_bound(channels@, c as int);
                vstd::arithmetic::div_mod::lemma_fundamental_div_mod_converse(
                    k * count + c,
                    count as int,
                    k as int,
                    c as int,
                );
            }
            let channel = &channels[c];
            out.push(channel[k]);
            c += 1;
        }
        proof {
            assert(k * count + count == (k + 1) * count) by (nonlinear_arith);
        }
        k += 1;
    }
    proof {
        assert(out@ =~= interleaved(channels@));
    }
    out
}

} // verus!
