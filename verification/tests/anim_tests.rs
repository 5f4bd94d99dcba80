use clippy_native::anim::premultiply_to_argb32;
use clippy_native::{Anim, AnimError, DecodedFrame};

fn frame(w: u32, h: u32, ts: i32, rgba: Vec<u8>) -> DecodedFrame {
    DecodedFrame { width: w, height: h, timestamp: ts, rgba }
}

fn encoded_two_frames() -> Vec<u8> {
    let mut enc = webp_animation::Encoder::new((2, 2)).unwrap();
    let a: Vec<u8> = [255u8, 0, 0, 255].repeat(4);
    let b: Vec<u8> = [0u8, 0, 255, 255].repeat(4);
    enc.add_frame(&a, 0).unwrap();
    enc.add_frame(&b, 100).unwrap();
    enc.finalize(250).unwrap().to_vec()
}

#[test]
fn premultiply_swaps_to_bgra_and_scales() {
    let rgba = vec![10, 20, 30, 255, 100, 50, 200, 128, 255, 255, 255, 0];
    assert_eq!(premultiply_to_argb32(&rgba), vec![30, 20, 10, 255, 100, 25, 50, 128, 0, 0, 0, 0]);
    assert_eq!(premultiply_to_argb32(&[]), Vec::<u8>::new());
}

#[test]
fn frames_get_durations_and_layout() {
    let px = vec![1, 2, 3, 255];
    let anim = Anim::from_frames(vec![
        frame(1, 1, 40, px.clone()),
        frame(1, 1, 80, px.clone()),
        frame(1, 1, 90, px.clone()),
    ]);
    assert_eq!(anim.durations_ms, vec![40, 40, 33]);
    assert_eq!(anim.total_ms, 113);
    assert_eq!(anim.frames.len(), 3);
    assert_eq!((anim.width, anim.height), (1, 1));
    assert_eq!(anim.frames[0].stride, 4);
    assert_eq!(anim.frames[0].data, vec![3, 2, 1, 255]);
}

#[test]
fn short_and_backward_gaps_last_33_ms() {
    let px = vec![0, 0, 0, 0];
    let anim = Anim::from_frames(vec![frame(1, 1, 10, px.clone()), frame(1, 1, 5, px.clone())]);
    assert_eq!(anim.durations_ms, vec![33, 33]);
    assert_eq!(anim.total_ms, 66);
}

#[test]
fn looping_index_wraps_around() {
    let px = vec![0, 0, 0, 255];
    let anim = Anim::from_frames(vec![frame(1, 1, 40, px.clone()), frame(1, 1, 80, px.clone()), frame(1, 1, 90, px.clone())]);
    assert_eq!(anim.frame_index_at(0, true), 0);
    assert_eq!(anim.frame_index_at(39, true), 0);
    assert_eq!(anim.frame_index_at(40, true), 1);
    assert_eq!(anim.frame_index_at(79, true), 1);
    assert_eq!(anim.frame_index_at(80, true), 2);
    assert_eq!(anim.frame_index_at(112, true), 2);
    assert_eq!(anim.frame_index_at(113, true), 0);
    assert_eq!(anim.frame_index_at(153, true), 1);
}

#[test]
fn one_shot_index_sticks_on_last_frame() {
    let px = vec![0, 0, 0, 255];
    let anim = Anim::from_frames(vec![frame(1, 1, 40, px.clone()), frame(1, 1, 80, px.clone()), frame(1, 1, 90, px.clone())]);
    assert_eq!(anim.frame_index_at(79, false), 1);
    assert_eq!(anim.frame_index_at(112, false), 2);
    assert_eq!(anim.frame_index_at(5000, false), 2);
    assert_eq!(anim.frame_index_at(u32::MAX, false), 2);
}

#[test]
fn empty_animation_uses_index_zero() {
    let anim = Anim::from_frames(vec![]);
    assert_eq!(anim.total_ms, 1);
    assert_eq!((anim.width, anim.height), (0, 0));
    assert_eq!(anim.frame_index_at(77, true), 0);
    assert_eq!(anim.frame_index_at(77, false), 0);
}

#[test]
fn elapsed_starts_near_zero() {
    let anim = Anim::from_frames(vec![frame(1, 1, 40, vec![0, 0, 0, 255])]);
    assert!(anim.elapsed_ms() < 5000);
    assert_eq!(anim.current_frame_index(true), 0);
    assert_eq!(anim.current_frame(false).data, vec![0, 0, 0, 255]);
}

#[test]
fn load_refuses_empty_and_garbage() {
    assert_eq!(Anim::load(&[]).err(), Some(AnimError::Decode));
    assert_eq!(Anim::load(&[0, 1, 2, 3, 4]).err(), Some(AnimError::Decode));
}

#[test]
fn load_decodes_webp_animation() {
    let bytes = encoded_two_frames();
    let anim = Anim::load(&bytes).unwrap();
    assert_eq!(anim.frames.len(), 2);
    assert_eq!((anim.width, anim.height), (2, 2));
    assert_eq!(anim.frames[0].stride, 8);
    assert_eq!(anim.frames[0].data, [0u8, 0, 255, 255].repeat(4));
    assert_eq!(anim.frames[1].data, [255u8, 0, 0, 255].repeat(4));
    assert_eq!(anim.durations_ms, vec![100, 150]);
    assert_eq!(anim.total_ms, 250);
}

fn hand_made(durations: Vec<u32>, total_ms: u32, frames: usize) -> Anim {
    let f = clippy_native::Frame { width: 1, height: 1, stride: 4, data: vec![0, 0, 0, 255] };
    Anim {
        frames: vec![f; frames],
        durations_ms: durations,
        width: 1,
        height: 1,
        total_ms,
        start: std::time::Instant::now(),
    }
}

#[test]
fn index_on_any_total() {
    let anim = hand_made(vec![100, 200], 300, 2);
    assert_eq!(anim.frame_index_at(350, true), 0);
    assert_eq!(anim.frame_index_at(350, false), 1);
    // A loop length beyond the frames' sum samples past them: the last frame shows.
    let anim = hand_made(vec![100, 200], 1000, 2);
    assert_eq!(anim.frame_index_at(350, true), 1);
    assert_eq!(anim.frame_index_at(50, true), 0);
}

#[test]
fn current_frame_of_hand_made_animation() {
    let anim = hand_made(vec![100, 200], 300, 3);
    assert_eq!(anim.current_frame(false).data, vec![0, 0, 0, 255]);
    assert!(anim.current_frame_index(true) < 2);
}
