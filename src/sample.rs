//! Samplers: turn sparse keyframes into one value per frame.
//!
//! The keyframe that governs frame `f` is the last one whose time is at most
//! `f`; so of two keyframes at the same time the later is authoritative.

use crate::keyframe::{sorted_times, Interpolation};
use vstd::prelude::*;

verus! {

/// The sampled value of one frame of an interpolated channel.
///
/// `Blend` stands for `from + (to - from) * step / span`, evaluated per component;
/// `step < span` always holds.
#[derive(Clone, Copy, Debug, PartialEq, Eq)]
pub enum Sample<T> {
    Exact(T),
    Blend { from: T, to: T, step: u32, span: u32 },
}

/// Index of the keyframe that governs frame `f`, or -1 before the first keyframe.
pub open spec fn governing(times: Seq<u32>, f: int) -> int
    decreases times.len(),
{
    if times.len() == 0 {
        -1
    } else if times.last() <= f {
        times.len() - 1
    } else {
        governing(times.drop_last(), f)
    }
}

/// Step-hold sampling: the governing keyframe's value, or the default before
/// the first keyframe.
pub open spec fn step_value<T>(times: Seq<u32>, values: Seq<T>, default: T, f: int) -> T {
    let g = governing(times, f);
    if g < 0 {
        default
    } else {
        values[g]
    }
}

/// Interpolated sampling of frame `f`: the default before the first keyframe, the
/// last keyframe's value after it, and in between the hold or the linear blend
/// that the governing keyframe declares.
pub open spec fn blended_value<T>(
    times: Seq<u32>,
    interps: Seq<Interpolation>,
    values: Seq<T>,
    default: T,
    f: int,
) -> Sample<T> {
    let g = governing(times, f);
    if g < 0 {
        Sample::Exact(default)
    } else if g + 1 >= times.len() {
        Sample::Exact(values[g])
    } else if interps[g] is Linear {
        Sample::Blend {
            from: values[g],
            to: values[g + 1],
            step: (f - times[g]) as u32,
            span: (times[g + 1] - times[g]) as u32,
        }
    } else {
        Sample::Exact(values[g])
    }
}

/// Keyframe `i` starts an interval that some sampled frame falls in, and its
/// interpolation cannot be sampled.
pub open spec fn blocks_sampling(
    times: Seq<u32>,
    interps: Seq<Interpolation>,
    frame_count: int,
    i: int,
) -> bool {
    &&& 0 <= i
    &&& i + 1 < times.len()
    &&& times[i] < times[i + 1]
    &&& times[i] < frame_count
    &&& !interps[i].supported()
}

/// On sorted times, the keyframes before `k` are the ones at or before frame `f`
/// exactly when `k - 1` governs `f`.
pub proof fn lemma_governing(times: Seq<u32>, f: int, k: int)
    requires
        sorted_times(times),
        0 <= k <= times.len(),
        forall|j: int| 0 <= j < k ==> times[j] <= f,
        k == times.len() || times[k] > f,
    ensures
        governing(times, f) == k - 1,
    decreases times.len(),
{
    if times.len() > 0 && k < times.len() {
        let d = times.drop_last();
        assert(times.last() >= times[k]);
        assert(sorted_times(d));
        lemma_governing(d, f, k);
    }
}

/// Step-hold sampling of `frame_count` frames.
pub fn sample_steps<T: Copy>(times: &Vec<u32>, values: &Vec<T>, default: T, frame_count: u32) -> (r:
    Vec<T>)
    requires
        times.len() == values.len(),
        sorted_times(times@),
    ensures
        r.len() == frame_count,
        forall|f: int| 0 <= f < frame_count ==> r[f] == step_value(times@, values@, default, f),
{
    let mut r: Vec<T> = Vec::new();
    let mut k: usize = 0;
    let mut f: u32 = 0;
    while f < frame_count
        invariant
            times.len() == values.len(),
            sorted_times(times@),
            f <= frame_count,
            r.len() == f,
            k <= times.len(),
            forall|j: int| 0 <= j < k ==> times[j] <= f,
            forall|g: int| 0 <= g < f ==> r[g] == step_value(times@, values@, default, g),
        decreases frame_count - f,
    {
        while k < times.len() && times[k] <= f
            invariant
                k <= times.len(),
                forall|j: int| 0 <= j < k ==> times[j] <= f,
            decreases times.len() - k,
        {
            k += 1;
        }
        proof {
            lemma_governing(times@, f as int, k as int);
        }
        if k == 0 {
            r.push(default);
        } else {
            r.push(values[k - 1]);
        }
        f += 1;
    }
    r
}

/// Whether some keyframe blocks sampling; if so, the first such.
fn find_blocking(times: &Vec<u32>, interps: &Vec<Interpolation>, frame_count: u32) -> (r: Option<
    usize,
>)
    requires
        times.len() == interps.len(),
    ensures
        match r {
            Some(i) => blocks_sampling(times@, interps@, frame_count as int, i as int) && forall|
                j: int,
            | 0 <= j < i ==> !blocks_sampling(times@, interps@, frame_count as int, j),
            None => forall|j: int| !blocks_sampling(times@, interps@, frame_count as int, j),
        },
{
    let mut i: usize = 0;
    while i < times.len() && i + 1 < times.len()
        invariant
            times.len() == interps.len(),
            i <= times.len(),
            forall|j: int| 0 <= j < i ==> !blocks_sampling(times@, interps@, frame_count as int, j),
        decreases times.len() - i,
    {
        let m = interps[i];
        if times[i] < times[i + 1] && times[i] < frame_count && !(matches!(m, Interpolation::Step)
            || matches!(m, Interpolation::Linear)) {
            return Some(i);
        }
        i += 1;
    }
    None
}

/// Interpolated sampling of `frame_count` frames. Fails with the first keyframe
/// whose interval is sampled under an interpolation that needs curve data.
pub fn sample_blended<T: Copy>(
    times: &Vec<u32>,
    interps: &Vec<Interpolation>,
    values: &Vec<T>,
    default: T,
    frame_count: u32,
) -> (r: Result<Vec<Sample<T>>, usize>)
    requires
        times.len() == values.len(),
        times.len() == interps.len(),
        sorted_times(times@),
    ensures
        match r {
            Ok(v) => {
                &&& forall|j: int| !blocks_sampling(times@, interps@, frame_count as int, j)
                &&& v.len() == frame_count
                &&& forall|f: int|
                    0 <= f < frame_count ==> v[f] == blended_value(
                        times@,
                        interps@,
                        values@,
                        default,
                        f,
                    )
            },
            Err(i) => blocks_sampling(times@, interps@, frame_count as int, i as int) && forall|
                j: int,
            | 0 <= j < i ==> !blocks_sampling(times@, interps@, frame_count as int, j),
        },
{
    if let Some(i) = find_blocking(times, interps, frame_count) {
        return Err(i);
    }
    let mut r: Vec<Sample<T>> = Vec::new();
    let mut k: usize = 0;
    let mut f: u32 = 0;
    while f < frame_count
        invariant
            times.len() == values.len(),
            times.len() == interps.len(),
            sorted_times(times@),
            forall|j: int| !blocks_sampling(times@, interps@, frame_count as int, j),
            f <= frame_count,
            r.len() == f,
            k <= times.len(),
            forall|j: int| 0 <= j < k ==> times[j] <= f,
            forall|g: int|
                0 <= g < f ==> r[g] == blended_value(times@, interps@, values@, default, g),
        decreases frame_count - f,
    {
        while k < times.len() && times[k] <= f
            invariant
                k <= times.len(),
                forall|j: int| 0 <= j < k ==> times[j] <= f,
            decreases times.len() - k,
        {
            k += 1;
        }
        proof {
            lemma_governing(times@, f as int, k as int);
        }
        if k == 0 {
            r.push(Sample::Exact(default));
        } else if k == times.len() {
            r.push(Sample::Exact(values[k - 1]));
        } else {
            let g = k - 1;
            match interps[g] {
                Interpolation::Linear => {
                    r.push(
                        Sample::Blend {
                            from: values[g],
                            to: values[k],
                            step: f - times[g],
                            span: times[k] - times[g],
                        },
                    );
                },
                _ => {
                    proof {
                        assert(!blocks_sampling(times@, interps@, frame_count as int, g as int));
                    }
                    r.push(Sample::Exact(values[g]));
                },
            }
        }
        f += 1;
    }
    Ok(r)
}

/// A track with a single keyframe at frame 0 holds its value on every frame,
/// whatever interpolation the keyframe declares, and never needs curve data.
pub proof fn lemma_single_keyframe_holds<T>(interpolation: Interpolation, v: T, default: T, frame_count: int, f: int)
    requires
        0 <= f,
    ensures
        blended_value(seq![0u32], seq![interpolation], seq![v], default, f) == Sample::Exact(v),
        step_value(seq![0u32], seq![v], default, f) == v,
        forall|j: int| !blocks_sampling(seq![0u32], seq![interpolation], frame_count, j),
{
    let times = seq![0u32];
    assert(times.last() == 0);
    assert(governing(times, f) == 0);
}

/// From the last keyframe on, every frame holds the last keyframe's value.
pub proof fn lemma_hold_after_last_keyframe<T>(
    times: Seq<u32>,
    interps: Seq<Interpolation>,
    values: Seq<T>,
    default: T,
    f: int,
)
    requires
        times.len() > 0,
        times.len() == interps.len(),
        times.len() == values.len(),
        f >= times.last(),
    ensures
        blended_value(times, interps, values, default, f) == Sample::Exact(values.last()),
        step_value(times, values, default, f) == values.last(),
{
    assert(governing(times, f) == times.len() - 1);
}

} // verus!
