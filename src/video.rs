use vstd::prelude::*;

use crate::image::{mirror_pixels, rgba_pixels, Image};
use crate::point::Point;

verus! {

/// A cyclic sequence of frames with the index of the frame shown next.
pub struct Video {
    pub frame: usize,
    pub images: Vec<Image>,
}

/// The frame that follows `frame` in a cycle of `len` frames.
pub open spec fn next_frame(frame: int, len: int) -> int {
    (frame + 1) % len
}

/// The frame index after `n` advances from the first frame of a cycle of `len` frames.
pub open spec fn frame_after(n: nat, len: int) -> int
    decreases n,
{
    if n == 0 {
        0
    } else {
        next_frame(frame_after((n - 1) as nat, len), len)
    }
}

impl Video {
    /// The frame index points at a frame, or the video has none and the index is 0.
    pub open spec fn wf(&self) -> bool {
        if self.images@.len() == 0 {
            self.frame == 0
        } else {
            self.frame < self.images@.len()
        }
    }

    /// The video whose frames are the raw `(width, height, RGBA bytes)` triples, starting at
    /// the first frame.
    pub fn from_raw(raw_video: Vec<(u32, u32, Vec<u8>)>) -> (v: Video)
        ensures
            v.frame == 0,
            v.images@.len() == raw_video@.len(),
            forall|i: int| 0 <= i < raw_video@.len() ==> {
                &&& (#[trigger] v.images@[i]).size == (Point { x: raw_video@[i].0 as i32, y: raw_video@[i].1 as i32 })
                &&& v.images@[i].pixels@ == rgba_pixels(raw_video@[i].2@)
            },
    {
        let ghost raw = raw_video@;
        let total = raw_video.len();
        let mut images: Vec<Image> = Vec::new();
        let mut rest = raw_video;
        let mut i: usize = 0;
        while rest.len() > 0
            invariant
                i + rest@.len() == raw.len(),
                raw.len() == total,
                rest@ =~= raw.subrange(i as int, raw.len() as int),
                images@.len() == i,
                forall|k: int| 0 <= k < i ==> {
                    &&& (#[trigger] images@[k]).size == (Point { x: raw[k].0 as i32, y: raw[k].1 as i32 })
                    &&& images@[k].pixels@ == rgba_pixels(raw[k].2@)
                },
            decreases rest@.len(),
        {
            let (w, h, bytes) = rest.remove(0);
            images.push(Image::from_raw(w, h, bytes));
            i += 1;
        }
        Video { frame: 0, images }
    }

    /// The video with every frame mirrored left to right, starting at the first frame.
    pub fn mirror_y(&self) -> (m: Video)
        requires
            forall|i: int| 0 <= i < self.images@.len() ==> (#[trigger] self.images@[i]).wf(),
        ensures
            m.frame == 0,
            m.images@.len() == self.images@.len(),
            forall|i: int| 0 <= i < self.images@.len() ==> {
                &&& (#[trigger] m.images@[i]).size == self.images@[i].size
                &&& m.images@[i].pixels@ == mirror_pixels(self.images@[i].size.x as int, self.images@[i].pixels@)
                &&& m.images@[i].wf()
            },
    {
        let mut images: Vec<Image> = Vec::new();
        let mut i: usize = 0;
        while i < self.images.len()
            invariant
                i <= self.images@.len(),
                images@.len() == i,
                forall|k: int| 0 <= k < self.images@.len() ==> (#[trigger] self.images@[k]).wf(),
                forall|k: int| 0 <= k < i ==> {
                    &&& (#[trigger] images@[k]).size == self.images@[k].size
                    &&& images@[k].pixels@ == mirror_pixels(self.images@[k].size.x as int, self.images@[k].pixels@)
                    &&& images@[k].wf()
                },
            decreases self.images@.len() - i,
        {
            images.push(self.images[i].mirror_y());
            i += 1;
        }
        Video { frame: 0, images }
    }

    /// Moves on to the next frame, back to the first after the last.
    pub fn advance(&mut self)
        requires
            old(self).wf(),
        ensures
            final(self).images@ == old(self).images@,
            old(self).images@.len() == 0 ==> final(self).frame == 0,
            old(self).images@.len() > 0 ==> final(self).frame == next_frame(
                old(self).frame as int,
                old(self).images@.len() as int,
            ),
            final(self).wf(),
    {
        let n = self.images.len();
        if n > 0 {
            self.frame = (self.frame + 1) % n;
        }
    }
}

/// After `n` advances from the first frame, a video of `len` frames shows frame `n mod len`.
pub proof fn lemma_frame_after(n: nat, len: int)
    requires
        len > 0,
    ensures
        frame_after(n, len) == (n as int) % len,
    decreases n,
{
    if n > 0 {
        lemma_frame_after((n - 1) as nat, len);
        let m = (n - 1) as int;
        vstd::arithmetic::div_mod::lemma_add_mod_noop_right(1, m, len);
        assert(1 + m % len == m % len + 1);
        assert(1 + m == n);
        assert(frame_after(n, len) == next_frame(frame_after((n - 1) as nat, len), len));
    } else {
        vstd::arithmetic::div_mod::lemma_small_mod(0, len as nat);
    }
}

/// Over successive draws of a video of `len` frames that starts at its first frame, each draw
/// moving on to the next frame, the frame after `n` draws is `n mod len`.
pub proof fn lemma_frames_of_successive_draws(frames: Seq<int>, len: int)
    requires
        len > 0,
        frames.len() > 0,
        frames[0] == 0,
        forall|i: int| 0 <= i < frames.len() - 1 ==> #[trigger] frames[i + 1] == next_frame(frames[i], len),
    ensures
        forall|n: int| 0 <= n < frames.len() ==> #[trigger] frames[n] == n % len,
{
    assert forall|n: int| 0 <= n < frames.len() implies #[trigger] frames[n] == n % len by {
        lemma_frames_follow(frames, len, n);
        lemma_frame_after(n as nat, len);
    }
}

proof fn lemma_frames_follow(frames: Seq<int>, len: int, n: int)
    requires
        frames.len() > 0,
        frames[0] == 0,
        forall|i: int| 0 <= i < frames.len() - 1 ==> #[trigger] frames[i + 1] == next_frame(frames[i], len),
        0 <= n < frames.len(),
    ensures
        frames[n] == frame_after(n as nat, len),
    decreases n,
{
    if n > 0 {
        lemma_frames_follow(frames, len, n - 1);
        assert(frames[(n - 1) + 1] == next_frame(frames[n - 1], len));
    }
}

} // verus!
