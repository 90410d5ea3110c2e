use usbra::damage::{dirty_rects, pack_rects};
use usbra::rect::Rect;

fn frame(w: usize, h: usize, fill: u8) -> Vec<u8> {
    vec![fill; w * h * 4]
}

fn set_pixel(buf: &mut [u8], w: usize, x: usize, y: usize, v: u8) {
    let s = (y * w + x) * 4;
    for b in &mut buf[s..s + 4] {
        *b = v;
    }
}

#[test]
fn identical_frames_no_damage() {
    let w = 64u16;
    let h = 64u16;
    let buf = vec![7u8; w as usize * h as usize * 4];
    assert!(dirty_rects(&buf, &buf, w, h, 64).is_empty());
}

#[test]
fn one_tile_change() {
    let w = 64u16;
    let h = 64u16;
    let a = vec![0u8; w as usize * h as usize * 4];
    let mut b = a.clone();
    // Change top-left 32x32 tile
    for i in 0..(32 * 4) {
        b[i] = 1;
    }
    let d = dirty_rects(&a, &b, w, h, 64);
    assert!(!d.is_empty());
    assert!(d.iter().any(|r| r.x == 0 && r.y == 0));
}

#[test]
fn one_tile_change_is_exactly_that_tile() {
    let a = frame(64, 64, 0);
    let mut b = a.clone();
    set_pixel(&mut b, 64, 3, 5, 9);
    assert_eq!(dirty_rects(&a, &b, 64, 64, 64), vec![Rect::new(0, 0, 32, 32)]);
}

#[test]
fn wrong_buffer_size_reports_whole_frame() {
    let a = frame(64, 64, 0);
    let b = frame(64, 63, 0);
    assert_eq!(dirty_rects(&a, &b, 64, 64, 64), vec![Rect::new(0, 0, 64, 64)]);
    assert_eq!(dirty_rects(&b, &b, 64, 64, 64), vec![Rect::new(0, 0, 64, 64)]);
}

#[test]
fn adjacent_tiles_in_a_row_form_one_run() {
    let a = frame(128, 32, 0);
    let mut b = a.clone();
    set_pixel(&mut b, 128, 10, 0, 1);
    set_pixel(&mut b, 128, 40, 31, 1);
    assert_eq!(dirty_rects(&a, &b, 128, 32, 64), vec![Rect::new(0, 0, 64, 32)]);
}

#[test]
fn separate_runs_stay_separate() {
    let a = frame(128, 32, 0);
    let mut b = a.clone();
    set_pixel(&mut b, 128, 0, 0, 1);
    set_pixel(&mut b, 128, 127, 31, 1);
    assert_eq!(
        dirty_rects(&a, &b, 128, 32, 64),
        vec![Rect::new(0, 0, 32, 32), Rect::new(96, 0, 32, 32)]
    );
}

#[test]
fn stacked_runs_merge_vertically() {
    let a = frame(64, 96, 0);
    let mut b = a.clone();
    set_pixel(&mut b, 64, 33, 1, 1);
    set_pixel(&mut b, 64, 60, 40, 1);
    set_pixel(&mut b, 64, 32, 95, 1);
    assert_eq!(dirty_rects(&a, &b, 64, 96, 64), vec![Rect::new(32, 0, 32, 96)]);
}

#[test]
fn merged_rects_come_in_column_order() {
    let a = frame(96, 64, 0);
    let mut b = a.clone();
    set_pixel(&mut b, 96, 70, 0, 1); // tile (2, 0)
    set_pixel(&mut b, 96, 0, 40, 1); // tile (0, 1)
    assert_eq!(
        dirty_rects(&a, &b, 96, 64, 64),
        vec![Rect::new(0, 32, 32, 32), Rect::new(64, 0, 32, 32)]
    );
}

#[test]
fn too_many_rects_fall_back_to_whole_frame() {
    let a = frame(128, 32, 0);
    let mut b = a.clone();
    set_pixel(&mut b, 128, 0, 0, 1);
    set_pixel(&mut b, 128, 127, 31, 1);
    assert_eq!(dirty_rects(&a, &b, 128, 32, 1), vec![Rect::new(0, 0, 128, 32)]);
}

#[test]
fn edge_tiles_are_clipped_to_the_frame() {
    let a = frame(40, 35, 0);
    let mut b = a.clone();
    set_pixel(&mut b, 40, 39, 34, 1);
    assert_eq!(dirty_rects(&a, &b, 40, 35, 64), vec![Rect::new(32, 32, 8, 3)]);
}

#[test]
fn every_changed_pixel_is_covered() {
    let (w, h) = (100usize, 70usize);
    let a = frame(w, h, 3);
    let mut b = a.clone();
    let changed = [(0, 0), (99, 69), (50, 33), (31, 32), (64, 10)];
    for &(x, y) in &changed {
        set_pixel(&mut b, w, x, y, 200);
    }
    let d = dirty_rects(&a, &b, w as u16, h as u16, 64);
    for &(x, y) in &changed {
        assert!(d
            .iter()
            .any(|r| (r.x as usize) <= x && x < (r.x + r.w) as usize && (r.y as usize) <= y && y < (r.y + r.h) as usize));
    }
    for r in &d {
        assert!(r.x as usize + r.w as usize <= w);
        assert!(r.y as usize + r.h as usize <= h);
    }
}

#[test]
fn damage_packs_into_its_byte_length() {
    let a = frame(64, 64, 0);
    let mut b = a.clone();
    set_pixel(&mut b, 64, 40, 40, 5);
    let d = dirty_rects(&a, &b, 64, 64, 64);
    let payload = pack_rects(&b, 64, &d);
    assert_eq!(payload.len(), 32 * 32 * 4);
    // pixel (40, 40) is pixel (8, 8) of the packed 32-wide rect
    let s = (8 * 32 + 8) * 4;
    assert_eq!(&payload[s..s + 4], &[5, 5, 5, 5]);
}

#[test]
fn pack_rects_concatenates_rect_rows() {
    let w = 4usize;
    let canvas: Vec<u8> = (0..(w * 3 * 4) as u32).map(|v| v as u8).collect();
    let rects = [Rect::new(1, 1, 2, 2), Rect::new(0, 0, 1, 1)];
    let out = pack_rects(&canvas, w, &rects);
    let mut expect = Vec::new();
    expect.extend_from_slice(&canvas[20..28]);
    expect.extend_from_slice(&canvas[36..44]);
    expect.extend_from_slice(&canvas[0..4]);
    assert_eq!(out, expect);
}

#[test]
fn damage_rects_are_disjoint_and_non_empty() {
    let (w, h) = (200usize, 150usize);
    let a = frame(w, h, 0);
    let mut b = a.clone();
    // an L shape, a separate blob, and a bottom-right edge tile
    for &(x, y) in &[(5, 5), (40, 5), (5, 40), (5, 70), (130, 10), (199, 149), (70, 100), (100, 100)] {
        set_pixel(&mut b, w, x, y, 9);
    }
    let d = dirty_rects(&a, &b, w as u16, h as u16, 64);
    assert!(d.len() > 1);
    let overlap = |p: &Rect, q: &Rect| {
        p.x < q.x + q.w && q.x < p.x + p.w && p.y < q.y + q.h && q.y < p.y + p.h
    };
    for (i, p) in d.iter().enumerate() {
        assert!(p.w > 0 && p.h > 0);
        for q in &d[i + 1..] {
            assert!(!overlap(p, q), "{p:?} and {q:?} overlap");
        }
    }
}
