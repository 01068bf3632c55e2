use abner::crop::{crop_pixels, Corner, Crop, MIN_CROP};
use abner::logo::{alpha_bounds, decode_logo, trim, Bounds};
use abner::mask::{Mask, MaskIds};
use abner::paths::{crop_output_path, output_path};
use abner::pngfile::{decode, encode, EncodeError, Plane, PngColor, PngImage};
use abner::save::{temporary_path, SaveStep};
use std::path::Path;

const PX: i64 = 100_000;
const ONE: i64 = 1_000_000_000;

#[test]
fn swept_circle_is_connected_clipped_and_binary() {
    let mut mask = Mask::new(&mut MaskIds::new(), 32, 16);
    mask.paint((-4 * PX, 8 * PX), (36 * PX, 8 * PX), 2 * PX);
    for x in 0..32 {
        assert_eq!(mask.pixels[8 * 32 + x], 255);
    }
    assert!(mask.pixels[..32].iter().all(|p| *p == 0));
    assert!(mask.pixels.iter().all(|p| *p == 0 || *p == 255));
    let revision = mask.revision;
    mask.paint((-4 * PX, 8 * PX), (36 * PX, 8 * PX), 2 * PX);
    assert_eq!(mask.revision, revision);
}

#[test]
fn a_dot_covers_the_pixels_whose_centres_it_holds() {
    let mut mask = Mask::new(&mut MaskIds::new(), 9, 9);
    mask.paint((450_000, 450_000), (450_000, 450_000), 2 * PX);
    for y in 0..9i64 {
        for x in 0..9i64 {
            let (dx, dy) = (x - 4, y - 4);
            let want = if dx * dx + dy * dy <= 4 { 255 } else { 0 };
            assert_eq!(mask.pixels[(y * 9 + x) as usize], want, "{x},{y}");
        }
    }
    assert_eq!(mask.revision, 1);
}

fn crop(x: i64, y: i64, w: i64, h: i64) -> Crop {
    Crop { x: x * PX, y: y * PX, w: w * PX, h: h * PX }
}

#[test]
fn crop_stays_inside_the_image_and_cuts_both_planes_alike() {
    let full = Crop::full(32, 16);
    assert_eq!(full.pixels(32, 16), (0, 0, 32, 16));
    // Dragged past the edges, a move keeps its size and stops at them.
    assert_eq!(full.moved_to(9 * PX, 9 * PX, 32, 16), full);
    let c = crop(8, 4, 8, 4);
    assert_eq!(
        c.moved_to(100 * PX, -100 * PX, 32, 16),
        Crop { x: 24 * PX, y: 0, ..c }
    );
    // A corner drag anchors the opposite corner, clamps to the image...
    let d = c.with_corner(Corner::Se, 100 * PX, 100 * PX, 32, 16);
    assert_eq!(d, crop(8, 4, 24, 12));
    assert_eq!(Corner::Se.of(d), (32 * PX, 16 * PX));
    // ...and refuses to collapse past MIN_CROP, even dragged inside out.
    let e = c.with_corner(Corner::Nw, 40 * PX, 40 * PX, 32, 16);
    assert!(e.w >= MIN_CROP && e.h >= MIN_CROP);
    assert!(e.x + e.w <= 32 * PX && e.y + e.h <= 16 * PX);

    // Same rect, one channel and four: the crop's pixel (i, j) is the
    // image's (x + i, y + j) in both.
    let rect = (3, 2, 4, 3);
    let gray: Vec<u8> = (0..32u32 * 16).map(|i| i as u8).collect();
    let rgba: Vec<u8> = gray.iter().flat_map(|p| [*p, 0, 0, 255]).collect();
    let cut_gray = crop_pixels(&gray, 32, 1, rect);
    let cut_rgba = crop_pixels(&rgba, 32, 4, rect);
    assert_eq!(cut_gray.len(), 4 * 3);
    assert_eq!(cut_rgba.len(), 4 * 3 * 4);
    for j in 0..3usize {
        for i in 0..4usize {
            let source = gray[(2 + j) * 32 + 3 + i];
            assert_eq!(cut_gray[j * 4 + i], source);
            assert_eq!(cut_rgba[(j * 4 + i) * 4..][..4], [source, 0, 0, 255]);
        }
    }
}

#[test]
fn a_dragged_corner_leaves_its_opposite_where_it_is() {
    let c = crop(0, 0, 16, 16);
    let d = c.with_corner(Corner::Nw, 14 * PX, 14 * PX, 32, 32);
    assert_eq!(d, crop(8, 8, 8, 8));
    assert_eq!(Corner::Se.of(d), (16 * PX, 16 * PX));
    // Dragged past the anchor, the rect turns over to the pointer's side.
    assert_eq!(c.with_corner(Corner::Nw, 18 * PX, 30 * PX, 32, 32), crop(16, 16, 8, 14));
    // At the edge there is room on one side only.
    let e = crop(4, 4, 28, 28);
    assert_eq!(e.with_corner(Corner::Nw, 32 * PX, 32 * PX, 32, 32), crop(24, 24, 8, 8));
    assert_eq!(e.with_corner(Corner::Se, 2 * PX, 6 * PX, 32, 32), crop(4, 4, 8, 8));
    // In an image too small for either side the rect keeps inside it.
    let f = crop(0, 0, 6, 10).with_corner(Corner::Nw, 5 * PX, 0, 10, 10);
    assert_eq!(f, crop(2, 0, 8, 10));
    for corner in [Corner::Nw, Corner::Ne, Corner::Sw, Corner::Se] {
        for x in -2..36 {
            let r = crop(9, 11, 8, 9).with_corner(corner, x * PX, (40 - x) * PX, 32, 32);
            let (ax, ay) = match corner {
                Corner::Nw => (17, 20),
                Corner::Ne => (9, 20),
                Corner::Sw => (17, 11),
                Corner::Se => (9, 11),
            };
            assert!(r.x == ax * PX || r.x + r.w == ax * PX, "{corner:?} {x}");
            assert!(r.y == ay * PX || r.y + r.h == ay * PX, "{corner:?} {x}");
            assert!(r.w >= MIN_CROP && r.h >= MIN_CROP);
            assert!(r.x >= 0 && r.y >= 0 && r.x + r.w <= 32 * PX && r.y + r.h <= 32 * PX);
        }
    }
}

#[test]
fn a_stroke_may_reach_far_out() {
    let (near, far) = (i64::MIN, i64::MAX);
    let mut mask = Mask::new(&mut MaskIds::new(), 12, 9);
    mask.paint((near, 450_000), (far, 450_000), PX);
    for y in 0..9 {
        let want = if (3..=5).contains(&y) { 255 } else { 0 };
        assert!(mask.pixels[y * 12..][..12].iter().all(|p| *p == want), "{y}");
    }
    // A slanted one: the line through the picture's corners.
    let mut mask = Mask::new(&mut MaskIds::new(), 9, 9);
    mask.paint((near, near), (far, far), 100);
    for y in 0..9usize {
        for x in 0..9usize {
            assert_eq!(mask.pixels[y * 9 + x] == 255, x == y, "{x},{y}");
        }
    }
    let slanted = mask.pixels.clone();
    // Out of reach, and on the far side of an end.
    mask.paint((near, near), (-2_000_000, -2_000_000), 2_000_000);
    mask.paint((far, near), (far, far), 500_000_000);
    assert_eq!(mask.pixels, slanted);
    assert_eq!(mask.revision, 1);
    mask.paint((0, 0), (0, 0), far);
    assert!(mask.pixels.iter().all(|p| *p == 255));
    // A radius below 0 narrows the box that is painted in.
    let mut mask = Mask::new(&mut MaskIds::new(), 9, 9);
    mask.paint((0, 450_000), (900_000, 450_000), -200_000);
    assert_eq!(mask.revision, 0);
    mask.paint((0, 0), (900_000, 900_000), -200_000);
    for y in 0..9i64 {
        for x in 0..9i64 {
            let inside = (2..7).contains(&x) && (2..7).contains(&y) && (x - y).abs() <= 2;
            assert_eq!(mask.pixels[(y * 9 + x) as usize] == 255, inside, "{x},{y}");
        }
    }
}

#[test]
fn a_mask_may_be_long_and_thin() {
    let mut mask = Mask::new(&mut MaskIds::new(), 100_000, 2);
    assert_eq!(mask.pixels.len(), 200_000);
    mask.paint((9_999_950_000, 50_000), (9_999_950_000, 50_000), 10_000);
    assert_eq!(mask.pixels.iter().filter(|p| **p == 255).count(), 1);
    assert_eq!(mask.pixels[99_999], 255);
}

#[test]
fn a_crop_knows_its_corners_and_points() {
    let c = crop(8, 4, 10, 9);
    assert_eq!(Corner::Nw.of(c), (8 * PX, 4 * PX));
    assert_eq!(Corner::Ne.of(c), (18 * PX, 4 * PX));
    assert_eq!(Corner::Sw.of(c), (8 * PX, 13 * PX));
    assert!(c.contains(8 * PX, 4 * PX));
    assert!(!c.contains(799_999, 4 * PX));
    let over = crop(20, 10, 20, 20).clamped(32, 16);
    assert!(over.x >= 0 && over.x + over.w <= 32 * PX);
    assert!(over.y >= 0 && over.y + over.h <= 16 * PX);
    let (x, y, w, h) = Crop { x: 140_000, y: 260_000, w: 800_000, h: 800_000 }.pixels(32, 16);
    assert!(x + w <= 32 && y + h <= 16 && w > 0 && h > 0);
}

#[test]
fn saved_png_preserves_dimensions_polarity_and_pixels() {
    let video = "/tmp/abner-mask-test-41.mov";
    let path = output_path(video);
    assert_eq!(Path::new(&path).file_name().unwrap(), "abner-mask-test-41.mask.png");
    let mut mask = Mask::new(&mut MaskIds::new(), 17, 11);
    mask.paint((850_000, 550_000), (850_000, 550_000), 2 * PX);
    let file = encode(mask.width, mask.height, Plane::Gray, &mask.pixels).unwrap();
    let mut reader = png::Decoder::new(std::io::Cursor::new(&file)).read_info().unwrap();
    let mut decoded = vec![0; reader.output_buffer_size().unwrap()];
    let info = reader.next_frame(&mut decoded).unwrap();
    assert_eq!((info.width, info.height), (17, 11));
    assert_eq!(info.color_type, png::ColorType::Grayscale);
    assert_eq!(info.bit_depth, png::BitDepth::Eight);
    assert_eq!(&decoded[..info.buffer_size()], mask.pixels.as_slice());
    assert_eq!(decoded[5 * 17 + 8], 255);
    assert_eq!(decoded[0], 0);
    // A failed replacement must not destroy the successful export: what
    // cannot be encoded never gets as far as a file.
    assert!(encode(17, 11, Plane::Gray, &[0]).is_err());
    let mut step = SaveStep::Create;
    let mut touched = false;
    for ok in [true, false, true] {
        touched |= step == SaveStep::Rename;
        step = step.next(ok);
    }
    assert_eq!(step, SaveStep::Failed);
    assert!(!touched);
}

#[test]
fn encoding_says_what_is_wrong() {
    let fault = |w, h, n: usize| encode(w, h, Plane::Rgba, &vec![0; n]).unwrap_err();
    assert_eq!(fault(0, 4, 0), EncodeError::ZeroWidth);
    assert_eq!(fault(4, 0, 0), EncodeError::ZeroHeight);
    assert_eq!(
        fault(65_536, 1, 0),
        EncodeError::WrongSize { expected: 262_144, actual: 0 }
    );
    assert_eq!(fault(u32::MAX, u32::MAX, 0), EncodeError::TooLarge);
    let wrong = fault(2, 2, 15);
    assert_eq!(wrong, EncodeError::WrongSize { expected: 16, actual: 15 });
    assert_eq!(wrong.message(), "wrong data size, expected 16 got 15");
    assert_eq!(EncodeError::ZeroWidth.message(), "Zero width not allowed");
    assert_eq!(EncodeError::ZeroHeight.message(), "Zero height not allowed");
    assert_eq!(EncodeError::TooLarge.message(), "picture too large");
}

#[test]
fn a_long_row_reads_back() {
    let mut mask = Mask::new(&mut MaskIds::new(), 70_000, 1);
    mask.paint((6_900_050_000, 50_000), (6_900_050_000, 50_000), PX);
    let file = encode(mask.width, mask.height, Plane::Gray, &mask.pixels).unwrap();
    let image = decode(&file).unwrap();
    assert_eq!((image.width, image.height), (70_000, 1));
    assert_eq!(image.pixels, mask.pixels);
    assert_eq!(image.pixels[69_000], 255);
    let tall = vec![9; 70_000 * 4];
    let file = encode(1, 70_000, Plane::Rgba, &tall).unwrap();
    let (image, logo) = decode_logo(&file).unwrap();
    assert_eq!(image.pixels, tall);
    assert_eq!((logo.uv.u0, logo.uv.v1), (0, ONE));
}

#[test]
fn every_mask_has_an_id_of_its_own() {
    let mut ids = MaskIds::new();
    let given: Vec<u64> = (0..5).map(|_| Mask::new(&mut ids, 3, 2).id).collect();
    assert_eq!(given, vec![1, 2, 3, 4, 5]);
    assert_eq!(ids.next, 6);
    // The last number is given again.
    let mut ids = MaskIds { next: u64::MAX - 1 };
    assert_eq!([ids.give(), ids.give(), ids.give()], [u64::MAX - 1, u64::MAX, u64::MAX]);
}

#[test]
fn colour_reads_back() {
    let pixels: Vec<u8> = (0..3 * 2 * 4).map(|i| (i * 9) as u8).collect();
    let file = encode(3, 2, Plane::Rgba, &pixels).unwrap();
    let image = decode(&file).unwrap();
    assert_eq!((image.width, image.height, image.depth), (3, 2, 8));
    assert_eq!(image.color, PngColor::Rgba);
    assert_eq!(image.pixels, pixels);
    assert!(decode(b"no picture").is_none());
    assert!(decode(&file[..20]).is_none());
}

#[test]
fn a_save_replaces_last() {
    let mut step = SaveStep::Create;
    let mut seen = vec![step];
    while step != SaveStep::Done {
        step = step.next(true);
        seen.push(step);
    }
    assert_eq!(
        seen,
        vec![SaveStep::Create, SaveStep::Write, SaveStep::Sync, SaveStep::Rename, SaveStep::Done]
    );
    assert_eq!(SaveStep::Create.next(false), SaveStep::Failed);
    assert_eq!(SaveStep::Rename.next(false), SaveStep::Remove);
    assert_eq!(SaveStep::Remove.next(true), SaveStep::Failed);
}

#[test]
fn files_are_named_after_their_clip() {
    assert_eq!(output_path("/a/example.mov"), "/a/example.mask.png");
    assert_eq!(crop_output_path("/a/example.mov"), "/a/example.crop.png");
    // An export is never the clip itself, also where that is an export.
    for p in ["/a/x.mask.png", "/a/x.crop.png", "/a/x", "/a/x.mov/", "x.", "/a/.b"] {
        for q in [output_path(p), crop_output_path(p)] {
            assert_ne!(Path::new(&q), Path::new(p));
            assert_eq!(Path::new(&q).parent(), Path::new(p).parent());
            let stem = Path::new(p).file_stem().unwrap().to_str().unwrap();
            let name = Path::new(&q).file_name().unwrap().to_str().unwrap();
            assert!(name == format!("{stem}.mask.png") || name == format!("{stem}.crop.png"));
        }
    }
    assert_eq!(temporary_path("/a/x.mask.png", 7, 3), "/a/x.mask.png.7.3.tmp");
    for p in [
        "example.mov", "/a/b.c/example", ".hidden", "a.b.c", "/", "", "..", "dir/", "dir.x/", "a/.",
        "weird..", "//x.y//",
    ] {
        let want = Path::new(p).with_extension("mask.png");
        assert_eq!(Path::new(&output_path(p)), want.as_path(), "{p:?}");
    }
}

fn picture(w: u32, h: u32, lit: &[(u32, u32)]) -> PngImage {
    let mut pixels = vec![0; (w * h * 4) as usize];
    for (x, y) in lit {
        pixels[((y * w + x) * 4 + 3) as usize] = 200;
    }
    PngImage { width: w, height: h, color: PngColor::Rgba, depth: 8, pixels }
}

#[test]
fn the_wordmark_is_trimmed() {
    let image = picture(10, 8, &[(2, 3), (6, 5)]);
    assert_eq!(
        alpha_bounds(&image.pixels, 10, 8),
        Some(Bounds { x0: 2, y0: 3, x1: 7, y1: 6 })
    );
    let logo = trim(&image).unwrap();
    assert_eq!(logo.aspect, 5 * ONE / 3 + 1);
    assert_eq!(
        (logo.uv.u0, logo.uv.v0, logo.uv.u1, logo.uv.v1),
        (200_000_000, 375_000_000, 700_000_000, 750_000_000)
    );
    // Nothing to see: kept whole.
    let logo = trim(&picture(10, 8, &[])).unwrap();
    assert_eq!(logo.aspect, 1_250_000_000);
    let file = encode(10, 8, Plane::Rgba, &image.pixels).unwrap();
    let (back, logo) = decode_logo(&file).unwrap();
    assert_eq!(back.pixels, image.pixels);
    assert_eq!(logo.uv.u0, 200_000_000);
    let gray = encode(2, 2, Plane::Gray, &[0; 4]).unwrap();
    assert!(decode_logo(&gray).is_none());
}

#[test]
fn strokes_add_up_in_any_order() {
    let strokes = [((200_000, 200_000), (900_000, 400_000), 150_000), ((400_000, 900_000), (400_000, 100_000), 90_000)];
    let paint = |order: &[usize]| {
        let mut mask = Mask::new(&mut MaskIds::new(), 12, 12);
        for k in order {
            let (from, to, radius) = strokes[*k];
            mask.paint(from, to, radius);
        }
        mask.pixels
    };
    let (one, two) = (paint(&[0]), paint(&[1]));
    let both = paint(&[0, 1]);
    assert_eq!(both, paint(&[1, 0]));
    for i in 0..both.len() {
        assert_eq!(both[i] == 255, one[i] == 255 || two[i] == 255);
    }
}

#[test]
fn temporary_files_never_collide() {
    let p = "/a/x.mask.png";
    assert_ne!(temporary_path(p, 7, 3), p);
    assert_ne!(temporary_path(p, 7, 3), temporary_path(p, 7, 4));
    assert_eq!(Path::new(&temporary_path(p, 7, 3)).parent(), Path::new(p).parent());
    assert_ne!(output_path("/a/x.mov"), crop_output_path("/a/x.mov"));
}
