use std::time::{Duration, Instant};

use vstd::prelude::*;

verus! {

#[verifier::external_type_specification]
#[verifier::external_body]
pub struct ExInstant(Instant);

#[verifier::external_type_specification]
#[verifier::external_body]
pub struct ExWebpError(webp_animation::Error);

/// Calls `Instant::now`. The reading depends on the clock: nothing is claimed of it.
#[verifier::external_body]
fn instant_now() -> Instant {
    Instant::now()
}

/// Calls `Instant::elapsed`. The reading depends on the clock: nothing is claimed of it.
#[verifier::external_body]
fn instant_elapsed(start: &Instant) -> Duration {
    start.elapsed()
}

/// The whole milliseconds that a duration holds, as `Duration::as_millis` counts them.
pub uninterp spec fn duration_millis(d: Duration) -> u128;

/// Calls `Duration::as_millis`. Claimed: the count depends on the duration
/// alone (named `duration_millis`).
#[verifier::external_body]
fn duration_as_millis(d: &Duration) -> (ms: u128)
    ensures
        ms == duration_millis(*d),
{
    d.as_millis()
}

/// One frame as the WebP decoder hands it out: canvas width and height,
/// end timestamp in milliseconds, and RGBA pixels (4 bytes per pixel, row by row).
#[derive(Debug, Clone)]
pub struct DecodedFrame {
    pub width: u32,
    pub height: u32,
    pub timestamp: i32,
    pub rgba: Vec<u8>,
}

impl View for DecodedFrame {
    type V = (u32, u32, i32, Seq<u8>);

    open spec fn view(&self) -> (u32, u32, i32, Seq<u8>) {
        (self.width, self.height, self.timestamp, self.rgba@)
    }
}

pub open spec fn frame_views(frames: Seq<DecodedFrame>) -> Seq<(u32, u32, i32, Seq<u8>)> {
    frames.map_values(|f: DecodedFrame| f@)
}

/// The largest canvas (in pixels) that the decoder accepts.
pub const MAX_CANVAS_PIXELS: u32 = 3840 * 2160;

/// What the decoder guarantees of each frame: the canvas holds at most
/// `MAX_CANVAS_PIXELS` pixels, and the pixel data is 4 bytes per pixel.
pub open spec fn decoded_frame_fits_canvas(f: (u32, u32, i32, Seq<u8>)) -> bool {
    &&& f.0 * f.1 <= MAX_CANVAS_PIXELS
    &&& f.3.len() == f.0 * f.1 * 4
}

/// The frames that `webp_animation` decodes from a WebP file (in RGBA mode),
/// `None` where it reports an error.
pub uninterp spec fn webp_frames(data: Seq<u8>) -> Option<Seq<(u32, u32, i32, Seq<u8>)>>;

/// Calls `webp_animation::Decoder::new` on the bytes and collects every frame
/// that its iterator yields (dimensions, timestamp, pixel data).
/// Claimed: the result is the decoding of the bytes, a function of them alone
/// (named `webp_frames`); an empty buffer is refused (the decoder returns
/// `ZeroSizeBuffer` for it); every frame has the canvas's dimensions, a canvas
/// of at most 3840 * 2160 pixels (larger ones give `TooLargeCanvas`), and
/// width * height * 4 bytes of RGBA data.
#[verifier::external_body]
fn decode_webp(data: &[u8]) -> (res: Result<Vec<DecodedFrame>, webp_animation::Error>)
    ensures
        data@.len() == 0 ==> res is Err,
        res matches Ok(frames) ==> forall|i: int|
            0 <= i < frames@.len() ==> decoded_frame_fits_canvas(#[trigger] frames@[i]@),
        match res {
            Ok(frames) => webp_frames(data@) == Some(frame_views(frames@)),
            Err(_) => webp_frames(data@) is None,
        },
{
    match webp_animation::Decoder::new(data) {
        Ok(decoder) => {
            let mut frames = Vec::new();
            for f in decoder.into_iter() {
                let (width, height) = f.dimensions();
                frames.push(DecodedFrame { width, height, timestamp: f.timestamp(), rgba: f.data().to_vec() });
            }
            Ok(frames)
        },
        Err(e) => Err(e),
    }
}

/// A frame ready for painting: cairo `ARGB32` layout (each pixel stored as the
/// bytes B, G, R, A with premultiplied colour), `stride` bytes per row.
#[derive(Debug, Clone)]
pub struct Frame {
    pub width: i32,
    pub height: i32,
    pub stride: i32,
    pub data: Vec<u8>,
}

/// Why an animation could not be loaded.
#[derive(Debug, Clone, Copy, PartialEq, Eq, Structural)]
pub enum AnimError {
    /// The WebP decoder refused the data.
    Decode,
    /// The decoded frames do not fit the frame layout or the millisecond clock:
    /// a row or a frame too large for an `i32` byte count, pixel data of the
    /// wrong length, timestamps too far apart, or a total duration past `u32::MAX`.
    Unsupported,
}

/// `c` scaled by the alpha `a`, as `c * a / 255` rounded down.
pub open spec fn premultiplied(c: u8, a: u8) -> u8 {
    ((c as int * a as int) / 255) as u8
}

/// RGBA pixels turned into premultiplied B, G, R, A bytes, pixel by pixel.
pub open spec fn argb32_of(rgba: Seq<u8>) -> Seq<u8> {
    Seq::new(
        rgba.len(),
        |k: int|
            {
                let p = k - k % 4;
                if k % 4 == 0 {
                    premultiplied(rgba[p + 2], rgba[p + 3])
                } else if k % 4 == 1 {
                    premultiplied(rgba[p + 1], rgba[p + 3])
                } else if k % 4 == 2 {
                    premultiplied(rgba[p], rgba[p + 3])
                } else {
                    rgba[p + 3]
                }
            },
    )
}

fn premultiply_channel(c: u8, a: u8) -> (r: u8)
    ensures
        r == premultiplied(c, a),
{
    assert(c as int * a as int <= 255 * 255) by (nonlinear_arith)
        requires
            c <= 255,
            a <= 255,
    ;
    assert((c as int * a as int) / 255 <= 255) by (nonlinear_arith)
        requires
            0 <= c as int * a as int <= 255 * 255,
    ;
    ((c as u16 * a as u16) / 255) as u8
}

proof fn lemma_mod4(i: int, c: int)
    requires
        0 <= i,
        0 <= c < 4,
    ensures
        (4 * i + c) % 4 == c,
        (4 * i + c) - (4 * i + c) % 4 == 4 * i,
{
    assert((4 * i + c) % 4 == c) by (nonlinear_arith)
        requires
            0 <= i,
            0 <= c < 4,
    ;
}

/// Converts RGBA pixels to premultiplied cairo `ARGB32` bytes (B, G, R, A per pixel).
pub fn premultiply_to_argb32(rgba: &[u8]) -> (out: Vec<u8>)
    requires
        rgba@.len() % 4 == 0,
    ensures
        out@ == argb32_of(rgba@),
{
    let len = rgba.len();
    let n = len / 4;
    let mut out: Vec<u8> = Vec::new();
    let mut i: usize = 0;
    while i < n
        invariant
            n * 4 == rgba@.len(),
            len == rgba@.len(),
            len <= usize::MAX,
            i <= n,
            out@.len() == 4 * i,
            forall|k: int| 0 <= k < 4 * i ==> out@[k] == argb32_of(rgba@)[k],
        decreases n - i,
    {
        let r = rgba[i * 4];
        let g = rgba[i * 4 + 1];
        let b = rgba[i * 4 + 2];
        let a = rgba[i * 4 + 3];
        proof {
            lemma_mod4(i as int, 0);
            lemma_mod4(i as int, 1);
            lemma_mod4(i as int, 2);
            lemma_mod4(i as int, 3);
        }
        out.push(premultiply_channel(b, a));
        out.push(premultiply_channel(g, a));
        out.push(premultiply_channel(r, a));
        out.push(a);
        i = i + 1;
    }
    assert(out@ =~= argb32_of(rgba@));
    out
}

/// Sum of a sequence of durations.
pub open spec fn total_of(s: Seq<u32>) -> int
    decreases s.len(),
{
    if s.len() == 0 {
        0
    } else {
        total_of(s.drop_last()) + s.last()
    }
}

/// Sum of the first `i` durations.
pub open spec fn prefix_total(s: Seq<u32>, i: int) -> int {
    total_of(s.take(i))
}

proof fn lemma_prefix_step(s: Seq<u32>, i: int)
    requires
        0 <= i < s.len(),
    ensures
        prefix_total(s, i + 1) == prefix_total(s, i) + s[i],
{
    assert(s.take(i + 1).drop_last() =~= s.take(i));
}

proof fn lemma_prefix_mono(s: Seq<u32>, i: int, j: int)
    requires
        0 <= i <= j <= s.len(),
    ensures
        prefix_total(s, i) <= prefix_total(s, j),
    decreases j - i,
{
    if i < j {
        lemma_prefix_step(s, j - 1);
        lemma_prefix_mono(s, i, j - 1);
    }
}

proof fn lemma_prefix_whole(s: Seq<u32>)
    ensures
        prefix_total(s, s.len() as int) == total_of(s),
{
    assert(s.take(s.len() as int) =~= s);
}

/// The timestamp before frame `i`: the previous frame's, or 0 for the first.
pub open spec fn previous_timestamp(v: Seq<(u32, u32, i32, Seq<u8>)>, i: int) -> int {
    if i == 0 {
        0
    } else {
        v[i - 1].2 as int
    }
}

/// How long frame `i` shows: the gap to the previous timestamp, at least 33 ms.
pub open spec fn frame_duration(v: Seq<(u32, u32, i32, Seq<u8>)>, i: int) -> u32 {
    let gap = v[i].2 - previous_timestamp(v, i);
    (if gap < 33 {
        33
    } else {
        gap
    }) as u32
}

pub open spec fn frame_durations(v: Seq<(u32, u32, i32, Seq<u8>)>) -> Seq<u32> {
    Seq::new(v.len(), |i: int| frame_duration(v, i))
}

/// A decoded frame fits the `ARGB32` layout with `i32` dimensions and byte counts.
pub open spec fn frame_fits(f: (u32, u32, i32, Seq<u8>)) -> bool {
    &&& f.0 * 4 <= i32::MAX
    &&& f.1 <= i32::MAX
    &&& f.0 * 4 * f.1 <= i32::MAX
    &&& f.3.len() == f.0 * f.1 * 4
}

/// The frames can be laid out and timed: each fits, the gap between
/// consecutive timestamps fits an `i32`, and the total duration fits a `u32`.
pub open spec fn frames_supported(v: Seq<(u32, u32, i32, Seq<u8>)>) -> bool {
    &&& forall|i: int| 0 <= i < v.len() ==> frame_fits(#[trigger] v[i])
    &&& forall|i: int|
        0 <= i < v.len() ==> i32::MIN <= #[trigger] v[i].2 - previous_timestamp(v, i) <= i32::MAX
    &&& total_of(frame_durations(v)) <= u32::MAX
}

/// The paint-ready frame made of a decoded one.
pub open spec fn painted(f: (u32, u32, i32, Seq<u8>), out: Frame) -> bool {
    &&& out.width == f.0
    &&& out.height == f.1
    &&& out.stride == f.0 * 4
    &&& out.data@ == argb32_of(f.3)
}

/// An animation: paint-ready frames, how long each shows, the canvas size
/// (that of the last frame), the loop length and the instant it started.
pub struct Anim {
    pub frames: Vec<Frame>,
    pub durations_ms: Vec<u32>,
    pub width: i32,
    pub height: i32,
    pub total_ms: u32,
    pub start: Instant,
}

impl Anim {
    /// One duration per frame, each positive, and `total_ms` their sum (at least 1).
    pub open spec fn wf(&self) -> bool {
        &&& self.durations_ms@.len() == self.frames@.len()
        &&& forall|i: int| 0 <= i < self.durations_ms@.len() ==> #[trigger] self.durations_ms@[i] > 0
        &&& total_of(self.durations_ms@) <= u32::MAX
        &&& self.total_ms == (if total_of(self.durations_ms@) < 1 {
            1
        } else {
            total_of(self.durations_ms@)
        })
    }

    /// The animation built from these decoded frames.
    pub open spec fn made_of(&self, v: Seq<(u32, u32, i32, Seq<u8>)>) -> bool {
        &&& self.wf()
        &&& self.frames@.len() == v.len()
        &&& forall|i: int| 0 <= i < v.len() ==> painted(v[i], #[trigger] self.frames@[i])
        &&& self.durations_ms@ == frame_durations(v)
        &&& self.width == (if v.len() == 0 {
            0
        } else {
            v.last().0 as int
        })
        &&& self.height == (if v.len() == 0 {
            0
        } else {
            v.last().1 as int
        })
    }

    /// Builds the animation from decoded frames, starting now: each frame is
    /// premultiplied into `ARGB32`, shows for the gap to the previous timestamp
    /// (at least 33 ms), and the loop length is the sum of those (at least 1).
    pub fn from_frames(frames: Vec<DecodedFrame>) -> (anim: Anim)
        requires
            frames_supported(frame_views(frames@)),
        ensures
            anim.made_of(frame_views(frames@)),
            frames@.len() > 0 ==> anim.width == frames@.last().width && anim.height == frames@.last().height,
            frames@.len() == 0 ==> anim.width == 0 && anim.height == 0,
            anim.frames@.len() == frames@.len(),
            forall|i: int|
                0 <= i < frames@.len() ==> #[trigger] anim.frames@[i].width == frames@[i].width
                    && anim.frames@[i].height == frames@[i].height,
    {
        let ghost v = frame_views(frames@);
        let n = frames.len();
        let mut out: Vec<Frame> = Vec::new();
        let mut durations_ms: Vec<u32> = Vec::new();
        let mut last_ts: i32 = 0;
        let mut width: i32 = 0;
        let mut height: i32 = 0;
        let mut i: usize = 0;
        while i < n
            invariant
                n == frames@.len(),
                v == frame_views(frames@),
                v.len() == n,
                frames_supported(v),
                i <= n,
                out@.len() == i,
                durations_ms@ == frame_durations(v).take(i as int),
                last_ts == previous_timestamp(v, i as int),
                forall|j: int| 0 <= j < i ==> painted(v[j], #[trigger] out@[j]),
                width == (if i == 0 { 0 } else { v[i - 1].0 as int }),
                height == (if i == 0 { 0 } else { v[i - 1].1 as int }),
            decreases n - i,
        {
            let f = &frames[i];
            assert(v[i as int] == f@);
            assert(frame_fits(v[i as int]));
            let w = f.width;
            let h = f.height;
            width = w as i32;
            height = h as i32;
            let ts = f.timestamp;
            assert(i32::MIN <= v[i as int].2 - previous_timestamp(v, i as int) <= i32::MAX);
            let gap = ts - last_ts;
            let dur = if gap < 33 { 33 } else { gap } as u32;
            last_ts = ts;
            durations_ms.push(dur);
            assert(f.rgba@.len() % 4 == 0) by (nonlinear_arith)
                requires
                    f.rgba@.len() == w * h * 4,
            ;
            let data = premultiply_to_argb32(f.rgba.as_slice());
            out.push(Frame { width: w as i32, height: h as i32, stride: (w as i32) * 4, data });
            proof {
                assert(durations_ms@ =~= frame_durations(v).take(i + 1));
            }
            i = i + 1;
        }
        assert(durations_ms@ =~= frame_durations(v));
        let total = sum_durations(&durations_ms);
        let total_ms = if total < 1 { 1 } else { total };
        let anim = Anim { frames: out, durations_ms, width, height, total_ms, start: instant_now() };
        proof {
            if n > 0 {
                assert(v[n - 1] == frames@[n - 1]@);
            }
            assert forall|j: int| 0 <= j < n implies #[trigger] anim.frames@[j].width == frames@[j].width
                && anim.frames@[j].height == frames@[j].height by {
                assert(v[j] == frames@[j]@);
                assert(painted(v[j], anim.frames@[j]));
            }
        }
        assert forall|j: int| 0 <= j < anim.durations_ms@.len() implies #[trigger] anim.durations_ms@[j] > 0 by {
            assert(anim.durations_ms@[j] == frame_duration(v, j));
        }
        anim
    }

    /// Loads an animation from the bytes of a WebP file: decodes it, then
    /// builds it as `from_frames` does. `Decode` where the decoder refuses the
    /// bytes; `Unsupported` where the decoded frames are not supported.
    pub fn load(data: &[u8]) -> (res: Result<Anim, AnimError>)
        ensures
            match res {
                Ok(anim) => webp_frames(data@) matches Some(v) && frames_supported(v) && anim.made_of(v),
                Err(AnimError::Decode) => webp_frames(data@) is None,
                Err(AnimError::Unsupported) => webp_frames(data@) matches Some(v) && !frames_supported(v),
            },
            webp_frames(data@) matches Some(v) ==> forall|i: int|
                0 <= i < v.len() ==> decoded_frame_fits_canvas(#[trigger] v[i]),
            res matches Ok(anim) ==> (anim.frames@.len() > 0 ==> anim.width == anim.frames@.last().width
                && anim.height == anim.frames@.last().height),
            res matches Ok(anim) ==> (webp_frames(data@) matches Some(v) && (v.len() > 0 ==> anim.width == v.last().0
                && anim.height == v.last().1)),
    {
        match decode_webp(data) {
            Ok(frames) => {
                proof {
                    assert forall|i: int| 0 <= i < frame_views(frames@).len() implies decoded_frame_fits_canvas(
                        #[trigger] frame_views(frames@)[i],
                    ) by {
                        assert(frame_views(frames@)[i] == frames@[i]@);
                    }
                }
                if check_frames(&frames) {
                    let anim = Anim::from_frames(frames);
                    proof {
                        canvas_is_last_frame_size(anim, frame_views(frames@));
                    }
                    Ok(anim)
                } else {
                    Err(AnimError::Unsupported)
                }
            },
            Err(_) => Err(AnimError::Decode),
        }
    }
}

/// The moment of the loop that an elapsed time shows: modulo the loop length
/// when looping, otherwise held at the last millisecond once the animation ends.
pub open spec fn sample_time(total_ms: u32, elapsed_ms: u32, looping: bool) -> int {
    if looping {
        (elapsed_ms % total_ms) as int
    } else if elapsed_ms < total_ms - 1 {
        elapsed_ms as int
    } else {
        total_ms - 1
    }
}

/// The first index from `i` on whose frame ends after `t`, or -1 if none does.
pub open spec fn slot_from(durs: Seq<u32>, t: int, i: int) -> int
    decreases durs.len() - i,
{
    if i < 0 || i >= durs.len() {
        -1
    } else if t < prefix_total(durs, i + 1) {
        i
    } else {
        slot_from(durs, t, i + 1)
    }
}

impl Anim {
    /// The frame shown `elapsed_ms` after the start: the first frame whose end
    /// lies after the sampled moment, else the last frame (0 without frames).
    pub open spec fn index_at(&self, elapsed_ms: u32, looping: bool) -> int {
        let s = slot_from(self.durations_ms@, sample_time(self.total_ms, elapsed_ms, looping), 0);
        if s >= 0 {
            s
        } else if self.frames@.len() > 0 {
            self.frames@.len() - 1
        } else {
            0
        }
    }

    /// Index of the frame to show `elapsed_ms` after the start. A loop
    /// animation samples modulo its length; a one-shot animation sticks on its
    /// last frame once it has ended.
    pub fn frame_index_at(&self, elapsed_ms: u32, looping: bool) -> (idx: usize)
        requires
            self.total_ms >= 1,
            total_of(self.durations_ms@) <= u32::MAX,
        ensures
            idx == self.index_at(elapsed_ms, looping),
    {
        let t = if looping {
            elapsed_ms % self.total_ms
        } else if elapsed_ms < self.total_ms - 1 {
            elapsed_ms
        } else {
            self.total_ms - 1
        };
        let ghost durs = self.durations_ms@;
        let n = self.durations_ms.len();
        let mut acc: u32 = 0;
        let mut i: usize = 0;
        while i < n
            invariant
                self.total_ms >= 1,
                total_of(self.durations_ms@) <= u32::MAX,
                durs == self.durations_ms@,
                n == durs.len(),
                i <= n,
                acc == prefix_total(durs, i as int),
                t == sample_time(self.total_ms, elapsed_ms, looping),
                slot_from(durs, t as int, 0) == slot_from(durs, t as int, i as int),
            decreases n - i,
        {
            proof {
                lemma_prefix_step(durs, i as int);
                lemma_prefix_mono(durs, i + 1, n as int);
                lemma_prefix_whole(durs);
            }
            acc = acc + self.durations_ms[i];
            if t < acc {
                return i;
            }
            i = i + 1;
        }
        if self.frames.len() > 0 {
            self.frames.len() - 1
        } else {
            0
        }
    }

    /// Milliseconds since the animation started, as a `u32` (truncated); used
    /// to tell when a one-shot transition has played through.
    pub fn elapsed_ms(&self) -> (ms: u32)
        ensures
            exists|d: Duration| ms == duration_millis(d) as u32,
    {
        let d = instant_elapsed(&self.start);
        let ms = duration_as_millis(&d);
        ms as u32
    }

    /// Index of the frame to show now (see `frame_index_at`).
    pub fn current_frame_index(&self, looping: bool) -> (idx: usize)
        requires
            self.total_ms >= 1,
            total_of(self.durations_ms@) <= u32::MAX,
        ensures
            exists|e: u32| idx == self.index_at(e, looping),
            exists|d: Duration| idx == self.index_at(duration_millis(d) as u32, looping),
    {
        let e = self.elapsed_ms();
        self.frame_index_at(e, looping)
    }

    /// The frame to show now.
    pub fn current_frame(&self, looping: bool) -> (frame: &Frame)
        requires
            self.total_ms >= 1,
            total_of(self.durations_ms@) <= u32::MAX,
            self.durations_ms@.len() <= self.frames@.len(),
            self.frames@.len() > 0,
        ensures
            exists|e: u32| 0 <= self.index_at(e, looping) < self.frames@.len() && *frame == self.frames@[self.index_at(e, looping)],
            exists|d: Duration| *frame == self.frames@[self.index_at(duration_millis(d) as u32, looping)],
    {
        let idx = self.current_frame_index(looping);
        proof {
            let e = choose|e: u32| idx == self.index_at(e, looping);
            frame_index_in_range(*self, e, looping);
            let d = choose|d: Duration| idx == self.index_at(duration_millis(d) as u32, looping);
            assert(*&self.frames@[idx as int] == self.frames@[self.index_at(duration_millis(d) as u32, looping)]);
        }
        &self.frames[idx]
    }
}

proof fn lemma_slot_range(durs: Seq<u32>, t: int, i: int)
    requires
        0 <= i,
    ensures
        slot_from(durs, t, i) == -1 || i <= slot_from(durs, t, i) < durs.len(),
    decreases durs.len() - i,
{
    if 0 <= i < durs.len() && !(t < prefix_total(durs, i + 1)) {
        lemma_slot_range(durs, t, i + 1);
    }
}

proof fn lemma_slot_is(durs: Seq<u32>, t: int, i: int, k: int)
    requires
        0 <= i <= k < durs.len(),
        forall|j: int| i <= j < k ==> t >= #[trigger] prefix_total(durs, j + 1),
        t < prefix_total(durs, k + 1),
    ensures
        slot_from(durs, t, i) == k,
    decreases k - i,
{
    if i < k {
        assert(t >= prefix_total(durs, i + 1));
        lemma_slot_is(durs, t, i + 1, k);
    }
}

/// The frame index always lies within the frames, when there are any.
pub proof fn frame_index_in_range(anim: Anim, elapsed_ms: u32, looping: bool)
    requires
        anim.total_ms >= 1,
        anim.durations_ms@.len() <= anim.frames@.len(),
        anim.frames@.len() > 0,
    ensures
        0 <= anim.index_at(elapsed_ms, looping) < anim.frames@.len(),
{
    lemma_slot_range(anim.durations_ms@, sample_time(anim.total_ms, elapsed_ms, looping), 0);
}

/// A loop animation shows the same frame again one loop length later.
pub proof fn loop_repeats_each_total(anim: Anim, elapsed_ms: u32)
    requires
        anim.total_ms >= 1,
        elapsed_ms + anim.total_ms <= u32::MAX,
    ensures
        anim.index_at((elapsed_ms + anim.total_ms) as u32, true) == anim.index_at(elapsed_ms, true),
{
    let e = elapsed_ms as int;
    let t = anim.total_ms as int;
    assert((e + t) % t == e % t) by (nonlinear_arith)
        requires
            t > 0,
            e >= 0,
    ;
}

/// A one-shot animation stays on its last frame once it has played through.
pub proof fn one_shot_holds_last_frame(anim: Anim, elapsed_ms: u32)
    requires
        anim.wf(),
        anim.frames@.len() > 0,
        elapsed_ms >= anim.total_ms - 1,
    ensures
        anim.index_at(elapsed_ms, false) == anim.frames@.len() - 1,
{
    let durs = anim.durations_ms@;
    let n = durs.len() as int;
    lemma_prefix_step(durs, n - 1);
    lemma_prefix_mono(durs, 0, n - 1);
    lemma_prefix_whole(durs);
    assert(durs[n - 1] > 0);
    let t = sample_time(anim.total_ms, elapsed_ms, false);
    assert(t == total_of(durs) - 1);
    assert forall|j: int| 0 <= j < n - 1 implies t >= #[trigger] prefix_total(durs, j + 1) by {
        lemma_prefix_mono(durs, j + 1, n - 1);
    }
    lemma_slot_is(durs, t, 0, n - 1);
}

/// An animation's canvas is the size of its last frame (0 by 0 without frames),
/// and each paint-ready frame keeps its decoded width and height.
pub proof fn canvas_is_last_frame_size(anim: Anim, v: Seq<(u32, u32, i32, Seq<u8>)>)
    requires
        anim.made_of(v),
    ensures
        anim.frames@.len() > 0 ==> anim.width == anim.frames@.last().width && anim.height == anim.frames@.last().height,
        anim.frames@.len() == 0 ==> anim.width == 0 && anim.height == 0,
        forall|i: int|
            0 <= i < v.len() ==> #[trigger] anim.frames@[i].width == v[i].0 && anim.frames@[i].height == v[i].1
                && anim.frames@[i].stride == 4 * anim.frames@[i].width,
{
    if v.len() > 0 {
        assert(painted(v[v.len() - 1], anim.frames@[v.len() - 1]));
    }
}

/// Every frame shows for at least 33 ms.
pub proof fn frames_show_at_least_33_ms(v: Seq<(u32, u32, i32, Seq<u8>)>, i: int)
    requires
        0 <= i < v.len(),
        i32::MIN <= v[i].2 - previous_timestamp(v, i) <= i32::MAX,
    ensures
        frame_durations(v)[i] >= 33,
{
}

/// Premultiplying keeps the colour of an opaque pixel and clears a transparent one.
pub proof fn premultiply_opaque_and_clear(c: u8)
    ensures
        premultiplied(c, 255) == c,
        premultiplied(c, 0) == 0,
{
    assert((c as int * 255) / 255 == c as int) by (nonlinear_arith);
}

/// Sum of the durations, which the caller knows to fit a `u32`.
fn sum_durations(d: &Vec<u32>) -> (total: u32)
    requires
        total_of(d@) <= u32::MAX,
    ensures
        total == total_of(d@),
{
    let n = d.len();
    let mut acc: u32 = 0;
    let mut i: usize = 0;
    while i < n
        invariant
            n == d@.len(),
            i <= n,
            total_of(d@) <= u32::MAX,
            acc == prefix_total(d@, i as int),
        decreases n - i,
    {
        proof {
            lemma_prefix_step(d@, i as int);
            lemma_prefix_mono(d@, i + 1, n as int);
            lemma_prefix_whole(d@);
        }
        acc = acc + d[i];
        i = i + 1;
    }
    proof {
        lemma_prefix_whole(d@);
    }
    acc
}

/// Tells whether decoded frames are supported.
fn check_frames(frames: &Vec<DecodedFrame>) -> (ok: bool)
    ensures
        ok == frames_supported(frame_views(frames@)),
{
    let ghost v = frame_views(frames@);
    let n = frames.len();
    let mut last_ts: i64 = 0;
    let mut total: u64 = 0;
    let mut i: usize = 0;
    while i < n
        invariant
            n == frames@.len(),
            v == frame_views(frames@),
            v.len() == n,
            i <= n,
            forall|j: int| 0 <= j < i ==> frame_fits(#[trigger] v[j]),
            forall|j: int| 0 <= j < i ==> i32::MIN <= #[trigger] v[j].2 - previous_timestamp(v, j) <= i32::MAX,
            last_ts == previous_timestamp(v, i as int),
            total == prefix_total(frame_durations(v), i as int),
            total <= u32::MAX,
        decreases n - i,
    {
        let f = &frames[i];
        assert(v[i as int] == f@);
        let w = f.width as u64;
        let h = f.height as u64;
        if w * 4 > 0x7fff_ffff || h > 0x7fff_ffff {
            return false;
        }
        assert(w * 4 * h <= 0x8000_0000u64 * 0x1_0000_0000u64) by (nonlinear_arith)
            requires
                w * 4 <= 0x7fff_ffff,
                h <= 0xffff_ffff,
        ;
        if w * 4 * h > 0x7fff_ffff {
            return false;
        }
        assert(w * 4 * h == w * h * 4) by (nonlinear_arith);
        if f.rgba.len() as u64 != w * 4 * h {
            return false;
        }
        let gap = f.timestamp as i64 - last_ts;
        if gap < -0x8000_0000 || gap > 0x7fff_ffff {
            assert(!(i32::MIN <= v[i as int].2 - previous_timestamp(v, i as int) <= i32::MAX));
            return false;
        }
        let dur: u64 = if gap < 33 { 33 } else { gap as u64 };
        proof {
            lemma_prefix_step(frame_durations(v), i as int);
        }
        total = total + dur;
        if total > 0xffff_ffff {
            proof {
                lemma_prefix_mono(frame_durations(v), i + 1, n as int);
                lemma_prefix_whole(frame_durations(v));
            }
            return false;
        }
        last_ts = f.timestamp as i64;
        i = i + 1;
    }
    proof {
        lemma_prefix_whole(frame_durations(v));
    }
    true
}

} // verus!
