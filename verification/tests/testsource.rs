use usbra::testsource::{TestSource, BOX_COLOR, SQ_COLOR};

#[test]
fn first_frame_is_full_and_matches_packing() {
    let mut src = TestSource::new(320, 180, 60, 0);
    let f = src.next_frame(1);
    assert!(f.covers(320, 180));
    assert_eq!(f.payload.len(), 320 * 180 * 4);
    // payload rows must equal canvas rows — spot check first pixel
    assert_eq!(&f.payload[0..4], &[0, 0, 255, 255]); // top-left: B=0 G=0 R=255
}

#[test]
fn damage_frames_are_partial_and_consistent() {
    let mut src = TestSource::new(320, 180, 60, 0);
    let _ = src.next_frame(1); // full
    let f = src.next_frame(2);
    assert!(!f.rects.is_empty());
    assert!(f.rects.len() <= 6);
    assert!(!f.covers(320, 180));
    let expect: usize = f.rects.iter().map(|r| r.byte_len() as usize).sum();
    assert_eq!(expect, f.payload.len());
    // rects stay inside the canvas
    for r in &f.rects {
        assert!(r.x + r.w <= 320);
        assert!(r.y + r.h <= 180);
    }
}

#[test]
fn periodic_full_frame() {
    let mut src = TestSource::new(320, 180, 60, 1); // full every 1s = 60 ticks
    let mut fulls = 0;
    for i in 0..125 {
        let f = src.next_frame(i as u64);
        if f.covers(320, 180) {
            fulls += 1;
        }
    }
    assert_eq!(fulls, 3, "frame 1 + tick 60 + tick 120");
}

#[test]
fn colors_are_primaries_for_format_debugging() {
    // Pin the constants so accidental swizzle changes get caught.
    assert_eq!(BOX_COLOR[2], 230); // R
    assert_eq!(SQ_COLOR[0], 200); // B
}
