use vstd::prelude::*;
use crate::delta::{block_count, lemma_block_count};
use crate::sequence::YmFrame;

verus! {

/// The volume of channel `ch` (0 to 2) of a frame, zero when unset.
pub open spec fn channel_volume(f: YmFrame, ch: int) -> u8 {
    if ch == 0 {
        f.volume_a.unwrap_or(0)
    } else if ch == 1 {
        f.volume_b.unwrap_or(0)
    } else {
        f.volume_c.unwrap_or(0)
    }
}

/// The loudest volume of channel `ch` over the frames `lo..hi`, zero for none.
pub open spec fn peak_volume(fs: Seq<YmFrame>, lo: int, hi: int, ch: int) -> u8
    decreases hi - lo,
{
    if lo >= hi {
        0
    } else {
        let v = channel_volume(fs[hi - 1], ch);
        let p = peak_volume(fs, lo, hi - 1, ch);
        if v > p {
            v
        } else {
            p
        }
    }
}

/// The frames that rendering keeps of the first `limit`: every `step`-th one,
/// each with its volumes raised to the peak of the frames it stands for.
pub open spec fn decimated(fs: Seq<YmFrame>, step: nat, limit: nat) -> Seq<YmFrame> {
    Seq::new(
        block_count(limit, step),
        |j: int|
            {
                let i = j * step;
                let end = if i + step < limit {
                    i + step
                } else {
                    limit as int
                };
                YmFrame {
                    volume_a: Some(peak_volume(fs, i, end, 0)),
                    volume_b: Some(peak_volume(fs, i, end, 1)),
                    volume_c: Some(peak_volume(fs, i, end, 2)),
                    ..fs[i]
                }
            },
    )
}

/// The peak over `lo..hi` is at least the volume of each of those frames,
/// and, when there is one, it is the volume of one of them (returned).
proof fn lemma_peak_volume(fs: Seq<YmFrame>, lo: int, hi: int, ch: int) -> (w: int)
    requires
        0 <= lo <= hi <= fs.len(),
    ensures
        forall|k: int| lo <= k < hi ==> channel_volume(#[trigger] fs[k], ch) <= peak_volume(fs, lo, hi, ch),
        lo < hi ==> lo <= w < hi && channel_volume(fs[w], ch) == peak_volume(fs, lo, hi, ch),
    decreases hi - lo,
{
    if lo >= hi {
        lo
    } else {
        let w0 = lemma_peak_volume(fs, lo, hi - 1, ch);
        let v = channel_volume(fs[hi - 1], ch);
        if v > peak_volume(fs, lo, hi - 1, ch) || lo == hi - 1 {
            hi - 1
        } else {
            w0
        }
    }
}

/// Frame `j` that rendering keeps stands for the frames `j * step` up to
/// `min((j + 1) * step, limit)`: it is frame `j * step` with, on each channel,
/// a volume that is at least the volume of every frame of that window and is
/// the volume of one of them. There are `ceil(limit / step)` kept frames.
pub proof fn law_decimation_window_peaks(fs: Seq<YmFrame>, step: nat, limit: nat, j: int, ch: int)
    requires
        step > 0,
        limit <= fs.len(),
        0 <= j < (limit + step - 1) / step as int,
        0 <= ch < 3,
    ensures
        ({
            let out = decimated(fs, step, limit);
            let lo = j * step;
            let hi = if lo + step < limit {
                lo + step
            } else {
                limit as int
            };
            &&& out.len() == (limit + step - 1) / step as int
            &&& 0 <= lo < hi <= limit
            &&& out[j].volume_a is Some && out[j].volume_b is Some && out[j].volume_c is Some
            &&& out[j] == YmFrame {
                volume_a: out[j].volume_a,
                volume_b: out[j].volume_b,
                volume_c: out[j].volume_c,
                ..fs[lo]
            }
            &&& forall|k: int| lo <= k < hi ==> channel_volume(#[trigger] fs[k], ch) <= channel_volume(out[j], ch)
            &&& exists|k: int| lo <= k < hi && channel_volume(#[trigger] fs[k], ch) == channel_volume(out[j], ch)
        }),
{
    let out = decimated(fs, step, limit);
    let lo = j * step;
    let hi = if lo + step < limit {
        lo + step
    } else {
        limit as int
    };
    assert(limit > 0) by {
        if limit == 0 {
            assert((step - 1) as int / step as int == 0) by (nonlinear_arith)
                requires
                    step > 0,
            ;
        }
    }
    lemma_block_count(limit, step, j);
    assert(lo >= 0) by (nonlinear_arith)
        requires
            lo == j * step,
            j >= 0,
    ;
    let w = lemma_peak_volume(fs, lo, hi, ch);
    assert(channel_volume(out[j], ch) == peak_volume(fs, lo, hi, ch));
    assert(channel_volume(fs[w], ch) == channel_volume(out[j], ch));
}

/// The number of frames rendering looks at: all of them, or the first
/// `max_frames` when that is fewer.
pub open spec fn frame_limit(n: nat, max_frames: Option<usize>) -> nat {
    match max_frames {
        Some(m) => if m < n {
            m as nat
        } else {
            n
        },
        None => n,
    }
}

fn window_peaks(frames: &Vec<YmFrame>, lo: usize, hi: usize) -> (r: (u8, u8, u8))
    requires
        lo <= hi <= frames@.len(),
    ensures
        r.0 == peak_volume(frames@, lo as int, hi as int, 0),
        r.1 == peak_volume(frames@, lo as int, hi as int, 1),
        r.2 == peak_volume(frames@, lo as int, hi as int, 2),
{
    let mut a: u8 = 0;
    let mut b: u8 = 0;
    let mut c: u8 = 0;
    let mut k = lo;
    while k < hi
        invariant
            lo <= k <= hi,
            hi <= frames@.len(),
            a == peak_volume(frames@, lo as int, k as int, 0),
            b == peak_volume(frames@, lo as int, k as int, 1),
            c == peak_volume(frames@, lo as int, k as int, 2),
        decreases hi - k,
    {
        let f = frames[k];
        let va = f.volume_a.unwrap_or(0);
        let vb = f.volume_b.unwrap_or(0);
        let vc = f.volume_c.unwrap_or(0);
        if va > a {
            a = va;
        }
        if vb > b {
            b = vb;
        }
        if vc > c {
            c = vc;
        }
        k = k + 1;
    }
    (a, b, c)
}

/// Downsamples frames for rendering (see [`decimated`]): keeps every `step`-th
/// frame of the first `max_frames` (or of all), each with the peak volumes of
/// the frames up to the next one kept.
pub fn decimate_frames(frames: &Vec<YmFrame>, step: usize, max_frames: Option<usize>) -> (r: Vec<
    YmFrame,
>)
    requires
        step > 0 || frame_limit(frames@.len(), max_frames) == 0,
    ensures
        r@ == decimated(frames@, step as nat, frame_limit(frames@.len(), max_frames)),
{
    let n = frames.len();
    let limit = match max_frames {
        Some(m) => if m < n {
            m
        } else {
            n
        },
        None => n,
    };
    let ghost want = decimated(frames@, step as nat, limit as nat);
    let mut out: Vec<YmFrame> = Vec::new();
    if limit == 0 {
        proof {
            if step > 0 {
                let q = (step - 1) as int / step as int;
                assert(q == 0) by (nonlinear_arith)
                    requires
                        q == (step - 1) as int / step as int,
                        step > 0,
                ;
            }
        }
        assert(out@ =~= want);
        return out;
    }
    proof {
        lemma_block_count(limit as nat, step as nat, 0);
    }
    let mut i: usize = 0;
    let mut more = true;
    while more
        invariant
            limit <= frames@.len(),
            limit > 0,
            step > 0,
            want == decimated(frames@, step as nat, limit as nat),
            out@.len() <= block_count(limit as nat, step as nat),
            more ==> i == out@.len() * step && i < limit,
            !more ==> out@.len() == block_count(limit as nat, step as nat),
            forall|j: int| 0 <= j < out@.len() ==> #[trigger] out@[j] == want[j],
        decreases block_count(limit as nat, step as nat) - out@.len(),
    {
        proof {
            lemma_block_count(limit as nat, step as nat, out@.len() as int);
        }
        let end = if limit - i > step {
            i + step
        } else {
            limit
        };
        let (a, b, c) = window_peaks(frames, i, end);
        let base = frames[i];
        let frame = YmFrame { volume_a: Some(a), volume_b: Some(b), volume_c: Some(c), ..base };
        assert(frame == want[out@.len() as int]);
        out.push(frame);
        if limit - i <= step {
            more = false;
        } else {
            i = i + step;
            assert(i == out@.len() * step) by (nonlinear_arith)
                requires
                    i == (out@.len() - 1) * step + step,
            ;
        }
    }
    assert(out@ =~= want);
    out
}

} // verus!
