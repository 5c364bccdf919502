//! Ordering of ASCII frames between the transform workers, the sender and
//! the renderer.

use vstd::prelude::*;

verus! {

pub const FPS: u64 = 24;

/// Milliseconds between two frames.
pub const FRAME_RATE: u64 = 1000 / FPS;

/// Frames with their text as a sequence of characters.
pub open spec fn frames_view<K>(frames: Seq<(String, K)>) -> Seq<(Seq<char>, K)> {
    frames.map_values(|f: (String, K)| (f.0@, f.1))
}

/// Removes and returns the frame with the smallest sequence number (the
/// head after an ascending sort); `None` when there is none.
pub fn take_earliest_frame(frames: &mut Vec<(String, u128)>) -> (r: Option<(String, u128)>)
    ensures
        old(frames)@.len() == 0 ==> r is None && final(frames)@ == old(frames)@,
        old(frames)@.len() > 0 ==> exists|i: int|
            0 <= i < old(frames)@.len() && r == Some(old(frames)@[i]) && final(frames)@ == old(
                frames,
            )@.remove(i) && forall|j: int|
                0 <= j < old(frames)@.len() ==> old(frames)@[i].1 <= #[trigger] old(frames)@[j].1,
{
    if frames.len() == 0 {
        return None;
    }
    let mut best: usize = 0;
    let mut k: usize = 1;
    while k < frames.len()
        invariant
            frames@ == old(frames)@,
            0 <= best < k <= frames@.len(),
            forall|j: int| 0 <= j < k ==> frames@[best as int].1 <= #[trigger] frames@[j].1,
        decreases frames@.len() - k,
    {
        if frames[k].1 < frames[best].1 {
            best = k;
        }
        k = k + 1;
    }
    let f = frames.remove(best);
    Some(f)
}

/// Removes and returns the frame with the largest sequence number (the
/// head after a descending sort); `None` when there is none.
pub fn take_latest_frame(frames: &mut Vec<(String, u32)>) -> (r: Option<(String, u32)>)
    ensures
        old(frames)@.len() == 0 ==> r is None && final(frames)@ == old(frames)@,
        old(frames)@.len() > 0 ==> exists|i: int|
            0 <= i < old(frames)@.len() && r == Some(old(frames)@[i]) && final(frames)@ == old(
                frames,
            )@.remove(i) && forall|j: int|
                0 <= j < old(frames)@.len() ==> #[trigger] old(frames)@[j].1 <= old(frames)@[i].1,
{
    if frames.len() == 0 {
        return None;
    }
    let mut best: usize = 0;
    let mut k: usize = 1;
    while k < frames.len()
        invariant
            frames@ == old(frames)@,
            0 <= best < k <= frames@.len(),
            forall|j: int| 0 <= j < k ==> #[trigger] frames@[j].1 <= frames@[best as int].1,
        decreases frames@.len() - k,
    {
        if frames[k].1 > frames[best].1 {
            best = k;
        }
        k = k + 1;
    }
    let f = frames.remove(best);
    Some(f)
}

} // verus!
