use image::{DynamicImage, GenericImageView, Rgb, RgbImage};
use kdeocr::models::ModelError;
use kdeocr::ocr::contours::{
    bitmap, box_around, candidate_borders, candidates_among, compact, confident, distinct_pixels,
    expanded_box, keep_box, min_area_box, min_side_reaches, mini_box, polygon_area,
    round_coordinate, round_corners, score_window, searchable, within, Border, Pixel, Window,
};
use kdeocr::ocr::detection::{
    group_lines, prepare, round_up, same_line, separated_prefix, sort_boxes, text_box, Corner,
    Rect, TextBox,
};
use kdeocr::ocr::model::{
    checked_relative_path, hex_sha256, load, parse_charset, read_charset, validate_manifest,
    verify_file, Manifest, ModelFiles, TensorManifest,
};
use kdeocr::ocr::picture::planar_bgr;
use kdeocr::ocr::reading::{Reading, Want};
use kdeocr::ocr::recognition::{crop_line, decode_ctc, lay_down, preprocess, split, LineCrop};
use kdeocr::ocr::{
    append_chunk, check_detection_output, check_model_directory, load_error, preserve_gap,
    preserve_gap_given, recognize_crop, runtime_error, runtime_library_from, selection_error,
    shape_text, text_overlap, OcrError,
};

#[test]
fn overlaps_case() {
    assert_eq!(text_overlap("fe", "Features"), 2);
}

#[test]
fn preserves_gap() {
    assert_eq!(
        preserve_gap("13[dependencies]".to_owned(), "13"),
        "13 [dependencies]"
    );
    assert_eq!(preserve_gap("● text".to_owned(), "●"), "● text");
    assert_eq!(preserve_gap("●text".to_owned(), "Q"), "● text");
}

#[test]
fn selects_runtime_library() {
    assert_eq!(runtime_library_from(None), "libonnxruntime.so");
    assert_eq!(
        runtime_library_from(Some("/custom/libonnxruntime.so".to_owned())),
        "/custom/libonnxruntime.so"
    );
}

#[test]
fn overlaps_are_greatest() {
    assert_eq!(text_overlap("abab", "ababx"), 4);
    assert_eq!(text_overlap("xab", "abab"), 2);
    assert_eq!(text_overlap("abc", "xyz"), 0);
    assert_eq!(text_overlap("", "xyz"), 0);
    assert_eq!(text_overlap("É", "é"), 0);
    assert_eq!(text_overlap("日本", "本語"), 1);
}

#[test]
fn chunks_are_merged() {
    let chunks: Vec<String> = ["The quick br", "ck brown fo", "n fox"]
        .iter()
        .map(|text| (*text).to_owned())
        .collect();
    assert_eq!(recognize_crop(&chunks), "The quick brown fox");
    assert_eq!(recognize_crop(&vec![]), "");
    let mut line = "abc".to_owned();
    append_chunk(&mut line, "BC");
    assert_eq!(line, "abc");
    append_chunk(&mut line, "Cd");
    assert_eq!(line, "abcd");
}

#[test]
fn gap_needs_a_prefix_or_a_sign() {
    assert_eq!(preserve_gap("abc".to_owned(), "x"), "abc");
    assert_eq!(preserve_gap("日本".to_owned(), "x"), "日本");
    assert_eq!(preserve_gap("".to_owned(), "x"), "");
    assert_eq!(preserve_gap("●".to_owned(), "x"), "●");
    assert_eq!(preserve_gap("13".to_owned(), "13"), "13");
    assert_eq!(preserve_gap("13\u{3000}x".to_owned(), "13"), "13\u{3000}x");
    assert_eq!(
        preserve_gap(preserve_gap("13x".to_owned(), "13"), "13"),
        "13 x"
    );
    let sign = preserve_gap("●x".to_owned(), "Q");
    assert_eq!(preserve_gap(sign.clone(), "Q"), sign);
    assert_eq!(preserve_gap(preserve_gap("x".to_owned(), ""), ""), " x");
    assert_eq!(preserve_gap_given("ab".to_owned(), "x", false), "a b");
    assert_eq!(preserve_gap_given("ab".to_owned(), "x", true), "ab");
}

#[test]
fn errors_have_texts() {
    let message = |error: OcrError| error.message();
    assert_eq!(
        message(OcrError::Image("x".to_owned())),
        "input image is invalid: x"
    );
    assert_eq!(
        message(check_model_directory("/m/a".to_owned(), false).unwrap_err()),
        "model is not installed: /m/a"
    );
    assert_eq!(
        check_model_directory("/m/a".to_owned(), true).unwrap(),
        "/m/a"
    );
    assert_eq!(
        message(OcrError::Manifest("x".to_owned())),
        "model manifest is invalid: x"
    );
    assert_eq!(
        message(selection_error(&ModelError::Operation("x".to_owned()))),
        "model selection failed: x"
    );
    assert_eq!(
        message(OcrError::ModelFile("x".to_owned())),
        "model file is invalid: x"
    );
    assert_eq!(
        message(runtime_error("inference failed", "x")),
        "ONNX Runtime error: inference failed: x"
    );
    assert_eq!(
        message(load_error("a.onnx", "x")),
        "ONNX Runtime error: could not load a.onnx: x"
    );
}

#[test]
fn detection_output_is_checked() {
    let fault = |shape: &[i64], count| {
        check_detection_output(&shape.to_vec(), count)
            .unwrap_err()
            .message()
    };
    assert_eq!(
        check_detection_output(&vec![1, 1, 2, 3], 6).unwrap(),
        (3, 2)
    );
    assert_eq!(
        fault(&[1, 2, 2, 3], 6),
        "ONNX Runtime error: unsupported detection output shape [1, 2, 2, 3]"
    );
    assert_eq!(
        fault(&[], 6),
        "ONNX Runtime error: unsupported detection output shape []"
    );
    assert_eq!(
        fault(&[1, 1, -2, 3], 6),
        "ONNX Runtime error: invalid detection height -2"
    );
    assert_eq!(
        fault(&[1, 1, 2, i64::MIN], 6),
        format!("ONNX Runtime error: invalid detection width {}", i64::MIN)
    );
    assert_eq!(
        fault(&[1, 1, 0, 3], 0),
        "ONNX Runtime error: detection output has an empty dimension"
    );
    assert_eq!(
        fault(&[1, 1, 2, 3], 5),
        "ONNX Runtime error: detection output size does not match shape"
    );
    assert_eq!(
        fault(&[1, 1, i64::MAX, i64::MAX], 5),
        "ONNX Runtime error: detection output size does not match shape"
    );
    for shape in [vec![], vec![1], vec![i64::MIN, -1, 0, i64::MAX]] {
        assert_eq!(shape_text(&shape), format!("{shape:?}"));
    }
}

fn corner(x: f32, y: f32) -> Corner {
    Corner {
        x: x.to_bits(),
        y: y.to_bits(),
    }
}

fn bounded(left: u32, right: u32, top: u32, bottom: u32) -> TextBox {
    TextBox {
        points: [corner(0.0, 0.0); 4],
        bounds: Rect {
            left,
            right,
            top,
            bottom,
        },
    }
}

#[test]
fn sorts_boxes() {
    let mut boxes = vec![
        bounded(20, 30, 0, 10),
        bounded(10, 20, 5, 15),
        bounded(0, 10, 10, 20),
    ];

    sort_boxes(&mut boxes);
    assert_eq!(
        boxes
            .iter()
            .map(|text_box| text_box.bounds.top)
            .collect::<Vec<_>>(),
        vec![0, 5, 10]
    );
}

#[test]
fn reading_order_goes_by_top_then_left() {
    let mut boxes = vec![
        bounded(7, 9, 5, 6),
        bounded(3, 9, 5, 6),
        bounded(u32::MAX, 9, 0, 6),
        bounded(3, 8, 5, 6),
    ];
    sort_boxes(&mut boxes);
    let seen: Vec<_> = boxes
        .iter()
        .map(|text_box| (text_box.bounds.top, text_box.bounds.left, text_box.bounds.right))
        .collect();
    assert_eq!(
        seen,
        vec![(0, u32::MAX, 9), (5, 3, 9), (5, 3, 8), (5, 7, 9)]
    );
}

#[test]
fn groups_lines() {
    let lines = group_lines(vec![
        bounded(0, 20, 0, 20),
        bounded(30, 50, 2, 22),
        bounded(0, 20, 30, 50),
    ]);

    assert_eq!(lines.len(), 2);
    assert_eq!(lines[0].len(), 2);
    assert_eq!(lines[1].len(), 1);
}

#[test]
fn lines_go_from_left_to_right() {
    let lines = group_lines(vec![
        bounded(50, 60, 0, 20),
        bounded(30, 40, 1, 21),
        bounded(10, 20, 40, 60),
        bounded(0, 5, 2, 22),
    ]);
    assert_eq!(lines.len(), 2);
    let lefts: Vec<u32> = lines[0].iter().map(|part| part.bounds.left).collect();
    assert_eq!(lefts, vec![0, 30, 50]);
    assert!(same_line(&lines[0][0], &lines[0][2]));
    assert!(!same_line(&lines[0][0], &lines[1][0]));
    assert_eq!(bounded(0, 0, 7, 3).bounds.height(), 0);
    assert_eq!(bounded(0, 0, 3, 7).bounds.height(), 4);
}

#[test]
fn finds_prefix() {
    let text_box = |left, right| bounded(left, right, 0, 20);
    let line = [text_box(0, 20), text_box(40, 60), text_box(65, 85)];

    assert_eq!(separated_prefix(&line).unwrap().bounds.right, 20);
}

#[test]
fn near_prefix_is_none() {
    assert!(separated_prefix(&[bounded(0, 20, 0, 20), bounded(35, 50, 0, 20)]).is_none());
    assert!(separated_prefix(&[bounded(0, 20, 0, 20), bounded(36, 50, 0, 20)]).is_some());
    assert!(separated_prefix(&[bounded(0, 20, 0, 20)]).is_none());
    assert!(separated_prefix(&[]).is_none());
}

#[test]
fn multiples_are_rounded_up() {
    assert_eq!(round_up(1, 32), 32);
    assert_eq!(round_up(32, 32), 32);
    assert_eq!(round_up(33, 32), 64);
    assert_eq!(round_up(0, 32), 0);
}

fn gradient(width: u32, height: u32) -> RgbImage {
    RgbImage::from_fn(width, height, |x, y| {
        Rgb([x as u8, y as u8, (x + 10 * y) as u8])
    })
}

#[test]
fn images_are_prepared_for_detection() {
    let picture = DynamicImage::ImageRgb8(gradient(40, 3));
    let input = prepare(&picture, 40, 3).unwrap();
    assert_eq!((input.padded_width, input.padded_height), (64, 32));
    assert_eq!((input.original_width, input.original_height), (40, 3));
    assert_eq!(input.tensor.len(), 3 * 64 * 32);
    assert_eq!(input.tensor[2 * 64 + 39], Some(59));
    assert_eq!(input.tensor[64 * 32 + 2 * 64 + 39], Some(2));
    assert_eq!(input.tensor[2 * 64 * 32 + 2 * 64 + 39], Some(39));
    assert_eq!(input.tensor[40], None);
    assert_eq!(input.tensor[3 * 64], None);
    let geometry = input.geometry();
    assert_eq!((geometry.output_width, geometry.output_height), (64, 32));
    assert_eq!((geometry.resized_width, geometry.resized_height), (40, 3));
    let kept = prepare(&picture, 960, 960).unwrap();
    assert_eq!((kept.resized_width, kept.resized_height), (40, 3));
    assert_eq!(kept.tensor, input.tensor);
    let large = DynamicImage::ImageRgb8(RgbImage::from_fn(1920, 4, |x, _| {
        if x < 960 {
            Rgb([10, 20, 30])
        } else {
            Rgb([200, 210, 220])
        }
    }));
    let scaled = prepare(&large, 960, 2).unwrap();
    assert_eq!((scaled.resized_width, scaled.resized_height), (960, 2));
    assert_eq!((scaled.padded_width, scaled.padded_height), (960, 32));
    assert_eq!(scaled.tensor[100], Some(30));
    assert_eq!(scaled.tensor[800], Some(220));
    assert_eq!(scaled.tensor[2 * 960 * 32 + 800], Some(200));
    assert_eq!(scaled.tensor[2 * 960], None);
    let bounded = prepare(&large, 5000, 0).unwrap();
    assert_eq!((bounded.resized_width, bounded.resized_height), (960, 1));
    let empty = prepare(&DynamicImage::new_rgb8(0, 0), 1, 1);
    assert_eq!(
        empty.err().unwrap().message(),
        "input image is invalid: Image size exceeds limit"
    );
}

#[test]
fn channels_are_laid_out() {
    let rgb = [1, 2, 3, 4, 5, 6];
    assert_eq!(
        planar_bgr(&rgb, 2, 1, 3, 1),
        vec![
            Some(3),
            Some(6),
            None,
            Some(2),
            Some(5),
            None,
            Some(1),
            Some(4),
            None
        ]
    );
}

#[test]
fn boxes_stay_in_the_image() {
    let points = [corner(1.0, 2.0); 4];
    let spanned = Rect {
        left: 5,
        right: 5,
        top: 7,
        bottom: 90,
    };
    let found = text_box(points, spanned, 100, 80);
    assert_eq!(
        found.bounds,
        Rect {
            left: 5,
            right: 6,
            top: 7,
            bottom: 80
        }
    );
    assert_eq!(found.points, points);
}

#[test]
fn handles_duplicate_points() {
    let points = vec![
        corner(0.0, 0.0),
        corner(10.0, 0.0),
        corner(10.0, 10.0),
        corner(0.0, 10.0),
        corner(10.0, 0.0),
    ];

    let bounds = min_area_box(&points).expect("box should be valid");
    assert_eq!(bounds[0], Pixel { x: 0, y: 0 });
    assert_eq!(bounds[2], Pixel { x: 10, y: 10 });
}

#[test]
fn rejects_invalid_points() {
    let points = vec![
        corner(0.0, 0.0),
        corner(10.0, 0.0),
        corner(f32::NAN, 10.0),
    ];

    assert!(min_area_box(&points).is_none());
}

#[test]
fn coordinates_are_rounded() {
    let samples = [
        0.0f32, -0.0, 0.49999997, 0.5, -0.5, 1.5, 2.5, -2.5, 3.4999998, 1e-40, -1e-40, 8388.5,
        999_999.94, 1_000_000.0, -1_000_000.0, 123_456.78, 0.1, 0.9, 65535.5, -65535.49,
    ];
    for sample in samples {
        assert_eq!(
            round_coordinate(sample.to_bits()),
            Some(sample.round() as i32),
            "{sample}"
        );
    }
    let mut bits = 0u32;
    while bits < 0x4974_2400 {
        let value = f32::from_bits(bits);
        assert_eq!(round_coordinate(bits), Some(value.round() as i32), "{value}");
        bits += 9_973;
    }
    for sample in [
        1_000_000.06f32,
        -1_000_000.06,
        f32::INFINITY,
        f32::NEG_INFINITY,
        f32::NAN,
        -f32::NAN,
        f32::MAX,
    ] {
        assert_eq!(round_coordinate(sample.to_bits()), None, "{sample}");
    }
    let corners = vec![corner(1.4, -1.6), corner(2.5, 0.0)];
    assert_eq!(
        round_corners(&corners).unwrap(),
        vec![Pixel { x: 1, y: -2 }, Pixel { x: 3, y: 0 }]
    );
}

fn pixels(list: &[(i32, i32)]) -> Vec<Pixel> {
    list.iter().map(|&(x, y)| Pixel { x, y }).collect()
}

#[test]
fn pixels_are_sorted_without_repeats() {
    let list = pixels(&[(3, 1), (-1, 9), (3, 0), (-1, 9), (3, 1), (-2, 100)]);
    assert_eq!(
        distinct_pixels(&list),
        pixels(&[(-2, 100), (-1, 9), (3, 0), (3, 1)])
    );
    assert!(compact(&list));
    assert!(compact(&pixels(&[])));
    assert!(compact(&pixels(&[(0, 0), (100_000, 10)])));
    assert!(compact(&pixels(&[(0, 0), (32767, -32767)])));
    assert!(!compact(&pixels(&[(0, 0), (32768, 32768)])));
    assert!(compact(&pixels(&[(0, 0), (1_073_741_823, 1)])));
    assert!(!compact(&pixels(&[(0, 1), (1_073_741_824, 0)])));
    assert!(compact(&pixels(&[(0, i32::MIN), (0, i32::MAX)])));
    assert!(!compact(&pixels(&[(0, i32::MIN), (1, i32::MAX)])));
}

#[test]
fn boxes_enclose_their_pixels() {
    let list = pixels(&[(0, 5), (5, 0), (10, 5), (5, 10), (5, 5)]);
    let corners = box_around(&list).unwrap();
    for pixel in &list {
        assert!(corners.iter().any(|corner| corner.x <= pixel.x));
        assert!(corners.iter().any(|corner| corner.x >= pixel.x));
        assert!(corners.iter().any(|corner| corner.y <= pixel.y));
        assert!(corners.iter().any(|corner| corner.y >= pixel.y));
    }
    assert!(box_around(&pixels(&[(1, 1), (2, 2), (1, 1)])).is_none());
}

#[test]
fn short_sides_are_refused() {
    let square = |side: i32| {
        [
            Pixel { x: 0, y: 0 },
            Pixel { x: side, y: 0 },
            Pixel { x: side, y: side },
            Pixel { x: 0, y: side },
        ]
    };
    assert!(min_side_reaches(&square(3), 3));
    assert!(!min_side_reaches(&square(2), 3));
    assert_eq!(keep_box(square(5), 5), Some(square(5)));
    assert_eq!(keep_box(square(4), 5), None);
    assert!(mini_box(&pixels(&[(0, 0), (9, 0), (9, 9)])).is_none());
    assert!(mini_box(&pixels(&[(0, 0), (9, 0), (9, 9), (0, 9)])).is_some());
    assert!(mini_box(&pixels(&[(0, 0), (9, 0), (9, 2), (0, 2)])).is_none());
    let outline = |side: f32| {
        vec![
            corner(0.0, 0.0),
            corner(side, 0.0),
            corner(side, side),
            corner(0.0, side),
        ]
    };
    assert!(expanded_box(&outline(5.0)).is_some());
    assert!(expanded_box(&outline(4.0)).is_none());
    assert_eq!(polygon_area(&square(5)), 50);
    assert_eq!(polygon_area(&square(-5)), 50);
    assert_eq!(polygon_area(&square(0)), 0);
}

#[test]
fn upright_rectangles_always_have_a_box() {
    for width in 6..40 {
        for extra in [(3, 3), (0, 17), (40, 5), (-2, 9), (17, 45), (width / 2, -1)] {
            let list = pixels(&[(0, 0), (width, 0), (width, 6), (0, 6), extra]);
            assert!(mini_box(&list).is_some(), "{list:?}");
            let list = pixels(&[(0, 0), (width + 2, 0), (width + 2, 8), (0, 8), extra]);
            let corners: Vec<Corner> = list
                .iter()
                .map(|pixel| corner(pixel.x as f32, pixel.y as f32))
                .collect();
            assert!(expanded_box(&corners).is_some(), "{list:?}");
        }
    }
}

#[test]
fn tilted_outlines_are_kept() {
    let outlines = [
        vec![(0, 20), (20, 0), (41, 21), (21, 41)],
        vec![(0, 5), (30, 0), (32, 11), (2, 16)],
        vec![(0, 40), (7, 0), (19, 2), (12, 42)],
        vec![(0, 9), (3, 4), (8, 1), (21, 0), (26, 3), (29, 8), (23, 15), (10, 17)],
    ];
    for outline in outlines {
        let list = pixels(&outline);
        let searched = box_around(&list).unwrap();
        assert!(min_side_reaches(&searched, 5), "{searched:?}");
        assert_eq!(mini_box(&list), Some(searched));
        let corners: Vec<Corner> = outline
            .iter()
            .map(|&(x, y)| corner(x as f32 + 0.25, y as f32 - 0.25))
            .collect();
        assert_eq!(expanded_box(&corners), Some(searched));
    }
    let thin = pixels(&[(0, 0), (10, 10), (20, 20), (30, 30), (10, 10)]);
    assert_eq!(mini_box(&thin), None);
}

#[test]
fn boxes_stay_near_their_pixels() {
    let lists = [
        vec![(0, 0), (38, 19), (38, 24), (-2, 4)],
        vec![(0, 0), (100, 100), (101, 99), (1, -1)],
        vec![(5, 5), (6, 7), (900, 30)],
        vec![(0, 0), (100_000, 7), (50_000, 10), (3, 9)],
        vec![(0, 50), (50, 0), (100, 50), (50, 100)],
        vec![(0, 0), (9, 0), (9, 9), (0, 9), (4, 4)],
        vec![(-1_000_000, 1_000_000), (-999_990, 999_980), (-999_995, 1_000_000)],
    ];
    for list in lists {
        let list = pixels(&list);
        let corners = box_around(&list).unwrap();
        let left = list.iter().map(|p| p.x).min().unwrap();
        let right = list.iter().map(|p| p.x).max().unwrap();
        let top = list.iter().map(|p| p.y).min().unwrap();
        let bottom = list.iter().map(|p| p.y).max().unwrap();
        let margin = (right - left) + (bottom - top) + 2;
        for corner in corners {
            assert!(left - margin <= corner.x && corner.x <= right + margin);
            assert!(top - margin <= corner.y && corner.y <= bottom + margin);
        }
        assert!(corners[0].y <= corners[3].y && corners[1].y <= corners[2].y);
        let most_left = corners[0].x.max(corners[3].x);
        assert!(most_left <= corners[1].x.min(corners[2].x));
        for k in 0..4 {
            let (from, to) = (corners[k], corners[(k + 1) % 4]);
            let steps = |p: Pixel| {
                (p.x as i64 - from.x as i64).abs() + (p.y as i64 - from.y as i64).abs()
            };
            for pixel in &list {
                let (dx, dy) = ((to.x - from.x) as i64, (to.y - from.y) as i64);
                let side = dx * (pixel.y - from.y) as i64 - dy * (pixel.x - from.x) as i64;
                assert!(side + 2 * (steps(to) + steps(*pixel)) + 16 >= 0);
            }
        }
    }
}

#[test]
fn far_pixels_have_no_box() {
    let square = |x: i32| pixels(&[(x, 0), (x + 10, 0), (x + 10, 10), (x, 10)]);
    assert!(mini_box(&square(2_000_000)).is_none());
    assert!(mini_box(&square(-1_000_001)).is_none());
    assert!(mini_box(&square(999_990)).is_some());
    assert!(mini_box(&square(999_991)).is_none());
    assert!(mini_box(&pixels(&[(i32::MIN, 0), (0, 0), (0, 9), (i32::MAX, 9)])).is_none());
    assert!(box_around(&pixels(&[(0, 0), (100_000, 0)])).is_none());
    assert!(box_around(&pixels(&[(0, i32::MIN), (0, i32::MAX), (0, i32::MIN)])).is_none());
    assert!(min_area_box(&vec![corner(0.0, 0.0), corner(100_000.0, 0.0)]).is_none());
    assert!(searchable(&pixels(&[(0, 0), (100_000, 0)])));
    assert!(searchable(&pixels(&[(0, 0), (100_000, 0), (0, 10)])));
    assert!(!searchable(&pixels(&[(0, 0), (100_000, 0), (0, 20_000)])));
    assert!(!searchable(&square(0x100_0000)));
    assert!(within(&square(0), 10));
    assert!(!within(&square(0), 9));
}

#[test]
fn order_and_repeats_of_points_do_not_matter() {
    let points = vec![
        corner(0.0, 5.0),
        corner(5.2, 0.0),
        corner(10.0, 5.0),
        corner(5.0, 9.6),
    ];
    let mut shuffled = vec![points[2], points[0], points[3], points[2], points[1], points[0]];
    let expected = min_area_box(&points);
    assert!(expected.is_some());
    assert_eq!(min_area_box(&shuffled), expected);
    shuffled.reverse();
    assert_eq!(min_area_box(&shuffled), expected);
    assert!(min_area_box(&vec![points[0], points[1], points[0]]).is_none());
}

#[test]
fn score_window_is_clamped() {
    let corners = [
        Pixel { x: -3, y: 2 },
        Pixel { x: 50, y: 1 },
        Pixel { x: 4, y: 9 },
        Pixel { x: 0, y: -1 },
    ];
    assert_eq!(
        score_window(&corners, 8, 8),
        Window {
            left: 0,
            right: 7,
            top: 0,
            bottom: 7
        }
    );
    assert_eq!(score_window(&corners, 0, 100).bottom, 9);
    assert_eq!(score_window(&corners, 0, 100).right, 0);
}

#[test]
fn thresholds_match_numbers() {
    let samples = [
        0.0f32,
        -0.0,
        0.2,
        0.20000002,
        0.19999999,
        0.45,
        0.45000002,
        0.44999998,
        1.0,
        -1.0,
        f32::INFINITY,
        f32::NEG_INFINITY,
        f32::NAN,
        -f32::NAN,
        f32::MIN_POSITIVE,
        1e-45,
        -1e-45,
    ];
    for sample in samples {
        let expected = if sample > 0.2 { 255 } else { 0 };
        assert_eq!(bitmap(&[sample.to_bits()]), vec![expected], "{sample}");
        assert_eq!(confident(sample.to_bits()), !(sample < 0.45), "{sample}");
    }
}

#[test]
fn borders_are_found() {
    let mut scores = vec![0.0f32; 64];
    for y in 2..6 {
        for x in 2..6 {
            scores[y * 8 + x] = 0.9;
        }
    }
    let bits: Vec<u32> = scores.iter().map(|score| score.to_bits()).collect();
    let borders = candidate_borders(&bits, 8, 8);
    assert_eq!(borders.len(), 1);
    assert_eq!(borders[0].len(), 12);
    assert!(borders[0].contains(&Pixel { x: 2, y: 2 }));
    assert!(borders[0].contains(&Pixel { x: 5, y: 5 }));
    assert!(!borders[0].contains(&Pixel { x: 3, y: 3 }));
    assert!(candidate_borders(&[0; 64], 8, 8).is_empty());
}

#[test]
fn candidates_are_outer_and_few() {
    let border = |count: usize, hole| Border {
        points: vec![Pixel { x: 1, y: 1 }; count],
        hole,
    };
    let found = candidates_among(vec![
        border(3, false),
        border(2, false),
        border(9, true),
        border(4, false),
    ]);
    assert_eq!(found.iter().map(Vec::len).collect::<Vec<_>>(), vec![3, 4]);
    let many = (0..3005).map(|_| border(3, false)).collect();
    assert_eq!(candidates_among(many).len(), 3000);
}

fn bits(values: &[f32]) -> Vec<u32> {
    values.iter().map(|value| value.to_bits()).collect()
}

#[test]
fn decodes_ctc() {
    let values = [
        0.0, 0.9, 0.0, 0.0, 0.9, 0.0, 0.0, 0.0, 0.0, 0.0, 0.8, 0.0, 0.9, 0.0, 0.0, 0.0, 0.0,
        0.9, 0.0, 0.0,
    ];
    let text = decode_ctc(&bits(&values), &['a', 'b'], 0, 3).unwrap();
    assert_eq!(text, "aba");
}

#[test]
fn decoding_follows_total_order() {
    let samples = [
        0.0f32,
        -0.0,
        1.0,
        -1.0,
        f32::NAN,
        -f32::NAN,
        f32::INFINITY,
        f32::NEG_INFINITY,
    ];
    for a in samples {
        for b in samples {
            for c in samples {
                let step = [a, b, c];
                let (class, _) = step
                    .iter()
                    .enumerate()
                    .max_by(|(_, left), (_, right)| left.total_cmp(right))
                    .unwrap();
                let expected = ["", "x", " "][class];
                assert_eq!(
                    decode_ctc(&bits(&step), &['x'], 0, 2).unwrap(),
                    expected,
                    "{step:?}"
                );
            }
        }
    }
}

#[test]
fn decoding_errors() {
    assert_eq!(
        decode_ctc(&bits(&[0.0; 5]), &['a'], 0, 2).unwrap_err().message(),
        "ONNX Runtime error: model output length 5 is not divisible by class count 3"
    );
    assert_eq!(
        decode_ctc(&bits(&[0.0, 0.0, 1.0]), &['a'], 0, 9)
            .unwrap_err()
            .message(),
        "ONNX Runtime error: model returned invalid class index 2"
    );
    assert_eq!(decode_ctc(&[], &['a'], 0, 2).unwrap(), "");
    let repeated = bits(&[0.0, 1.0, 0.0, 0.0, 1.0, 0.0, 1.0, 0.0, 0.0, 0.0, 1.0, 0.0]);
    assert_eq!(decode_ctc(&repeated, &['a'], 0, 2).unwrap(), "aa");
}

#[test]
fn splits_long_line() {
    let chunks = split(DynamicImage::new_rgb8(20_000, 48)).unwrap();

    assert_eq!(chunks.len(), 3);
    assert_eq!(chunks[0].dimensions(), (8192, 48));
    assert_eq!(chunks.last().unwrap().height(), 48);
}

#[test]
fn preserves_long_line() {
    let input = preprocess(DynamicImage::new_rgb8(1200, 48)).unwrap();

    assert_eq!(input.width, 1200);
    assert_eq!(input.tensor.len(), 3 * 48 * 1200);
}

#[test]
fn chunks_overlap() {
    let picture = RgbImage::from_fn(400, 1, |x, _| Rgb([(x / 256) as u8, x as u8, 0]));
    let chunks = split(DynamicImage::ImageRgb8(picture)).unwrap();
    assert_eq!(chunks.len(), 3);
    let starts: Vec<u32> = chunks
        .iter()
        .map(|chunk| {
            let first = chunk.to_rgb8().get_pixel(0, 0).0;
            first[0] as u32 * 256 + first[1] as u32
        })
        .collect();
    assert_eq!(starts, vec![0, 167, 334]);
    assert_eq!(chunks[0].width(), 170);
    assert_eq!(chunks[2].width(), 66);
    for chunk in chunks {
        assert!(preprocess(chunk).is_ok());
    }
}

#[test]
fn unusable_lines_are_refused() {
    let dimension = "input image is invalid: Image size exceeds limit";
    assert_eq!(
        split(DynamicImage::new_rgb8(0, 48)).err().unwrap().message(),
        dimension
    );
    assert_eq!(
        preprocess(DynamicImage::new_rgb8(5, 0)).err().unwrap().message(),
        dimension
    );
    assert_eq!(
        preprocess(DynamicImage::new_rgb8(8193, 48))
            .err()
            .unwrap()
            .message(),
        "ONNX Runtime error: recognition input width 8193 exceeds maximum 8192"
    );
    assert_eq!(
        split(DynamicImage::new_rgb8(20_000, 1)).err().unwrap().message(),
        "ONNX Runtime error: text line requires 120 recognition chunks; maximum is 64"
    );
    let input = preprocess(DynamicImage::new_rgb8(10, 48)).unwrap();
    assert_eq!(input.width, 320);
    assert_eq!(input.tensor[9], Some(0));
    assert_eq!(input.tensor[10], None);
    let scaled = preprocess(DynamicImage::new_rgb8(1000, 47)).unwrap();
    assert_eq!(scaled.width, 1022);
}

#[test]
fn lines_are_cut_out() {
    let picture = DynamicImage::ImageRgb8(gradient(100, 50));
    let boxes = [bounded(10, 20, 5, 15), bounded(30, 40, 8, 18)];
    let Ok(LineCrop::Cut(part)) = crop_line(&picture, &boxes) else {
        panic!("expected a cut");
    };
    assert_eq!(part.dimensions(), (43, 13));
    assert_eq!(part.to_rgb8().get_pixel(2, 3).0, [12, 8, 92]);
    let Ok(LineCrop::Straightened(single)) = crop_line(&picture, &boxes[..1]) else {
        panic!("expected a box");
    };
    assert_eq!(single.bounds.left, 10);
    assert_eq!(
        crop_line(&picture, &[]).err().unwrap().message(),
        "ONNX Runtime error: detected text line has invalid bounds"
    );
    let outside = [bounded(100, 120, 0, 9), bounded(110, 130, 0, 9)];
    assert!(crop_line(&picture, &outside).is_err());
}

#[test]
fn upright_images_are_laid_down() {
    let lying = lay_down(DynamicImage::ImageRgb8(gradient(3, 2)));
    assert_eq!(lying.dimensions(), (3, 2));
    let turned = lay_down(DynamicImage::ImageRgb8(gradient(2, 3)));
    assert_eq!(turned.dimensions(), (3, 2));
    let turned = turned.to_rgb8();
    assert_eq!(turned.get_pixel(0, 0).0, [0, 2, 20]);
    assert_eq!(turned.get_pixel(2, 0).0, [0, 0, 0]);
    assert_eq!(turned.get_pixel(2, 1).0, [1, 0, 1]);
}

#[test]
fn lines_are_read_one_by_one() {
    let mut reading = Reading::new(vec![
        bounded(0, 20, 0, 20),
        bounded(60, 90, 0, 20),
        bounded(0, 20, 40, 60),
        bounded(0, 20, 80, 99),
    ]);
    assert!(matches!(reading.wanted(), Want::Prefix(first) if first.bounds.right == 20));
    reading.accept("1".to_owned());
    assert!(matches!(reading.wanted(), Want::Line));
    assert_eq!(reading.current_line().len(), 2);
    reading.accept("1first".to_owned());
    assert!(matches!(reading.wanted(), Want::Line));
    reading.accept(String::new());
    reading.accept("third".to_owned());
    assert!(matches!(reading.wanted(), Want::Nothing));
    assert_eq!(reading.finish(), "1 first\nthird");
}

#[test]
fn whole_image_is_read_without_lines() {
    let mut reading = Reading::new(vec![]);
    assert!(matches!(reading.wanted(), Want::Whole));
    reading.accept(String::new());
    assert!(matches!(reading.wanted(), Want::Nothing));
    assert_eq!(reading.finish(), "");
}

const ABC: &str = "ba7816bf8f01cfea414140de5dae2223b00361a396177a9cb410ff61f20015ad";

fn manifest() -> Manifest {
    let tensor = |input: Vec<i64>, output: Vec<i64>| TensorManifest {
        model: "net.onnx".to_owned(),
        sha256: ABC.to_owned(),
        input_name: "x".to_owned(),
        output_name: "y".to_owned(),
        input_shape: input,
        output_shape: output,
    };
    Manifest {
        profile: "small".to_owned(),
        charset: "charset.txt".to_owned(),
        charset_sha256: hex_sha256(b"a\nb\n"),
        charset_count: 2,
        blank_index: 0,
        space_index: 3,
        det: tensor(vec![-1, 3, -1, -1], vec![-1, 1, -1, -1]),
        rec: tensor(vec![-1, 3, 48, -1], vec![-1, -1, 4]),
    }
}

#[test]
fn checksums() {
    assert_eq!(hex_sha256(b"abc"), ABC);
    assert_eq!(
        hex_sha256(b""),
        "e3b0c44298fc1c149afbf4c8996fb92427ae41e4649b934ca495991b7852b855"
    );
    assert!(verify_file("net.onnx", b"abc", ABC).is_ok());
    assert_eq!(
        verify_file("net.onnx", b"abc", "00").unwrap_err().message(),
        format!(
            "model file is invalid: SHA-256 mismatch for net.onnx: expected 00, got {ABC}"
        )
    );
}

#[test]
fn manifests_are_checked() {
    let fault = |change: fn(&mut Manifest)| {
        let mut manifest = manifest();
        change(&mut manifest);
        validate_manifest(&manifest).unwrap_err().message()
    };
    assert!(validate_manifest(&manifest()).is_ok());
    assert_eq!(
        fault(|m| m.profile.clear()),
        "model manifest is invalid: unsupported profile "
    );
    let detection_names = "model manifest is invalid: detection tensor names cannot be empty";
    assert_eq!(fault(|m| m.det.input_name.clear()), detection_names);
    assert_eq!(fault(|m| m.det.output_name.clear()), detection_names);
    let detection = "model manifest is invalid: detection tensor contract is unsupported";
    assert_eq!(fault(|m| m.det.input_shape[1] = 1), detection);
    assert_eq!(fault(|m| m.det.output_shape.push(1)), detection);
    assert_eq!(
        fault(|m| m.rec.output_name.clear()),
        "model manifest is invalid: recognition tensor names cannot be empty"
    );
    let recognition = "model manifest is invalid: recognition tensor contract is unsupported";
    assert_eq!(fault(|m| m.rec.input_shape[2] = 32), recognition);
    assert_eq!(fault(|m| m.charset_count = 3), recognition);
}

#[test]
fn manifest_paths_stay_below() {
    assert_eq!(
        checked_relative_path("/m/a", "sub/net.onnx").unwrap(),
        "/m/a/sub/net.onnx"
    );
    assert_eq!(checked_relative_path("/m/a", "..b").unwrap(), "/m/a/..b");
    for value in ["/etc/passwd", "../b", "a/../../b", "a/.."] {
        assert_eq!(
            checked_relative_path("/m/a", value).unwrap_err().message(),
            format!("model manifest is invalid: unsafe model path: {value}")
        );
    }
}

#[test]
fn charsets_are_read() {
    assert_eq!(parse_charset("a\nb\r\n日", 3).unwrap(), vec!['a', 'b', '日']);
    assert_eq!(parse_charset("", 0).unwrap(), Vec::<char>::new());
    assert_eq!(
        parse_charset("a\n\nb\n", 2).unwrap_err(),
        "charset contains an empty line"
    );
    assert_eq!(
        parse_charset("a\n\"b\n", 2).unwrap_err(),
        "charset entry is not one character: \"\\\"b\""
    );
    assert_eq!(
        parse_charset("a\nb\n", 3).unwrap_err(),
        "charset count mismatch: expected 3, got 2"
    );
    assert_eq!(
        read_charset(b"a\nb\n".to_vec(), &manifest()).unwrap(),
        vec!['a', 'b']
    );
    let mut other = manifest();
    other.charset_sha256 = ABC.to_owned();
    assert_eq!(
        read_charset(b"".to_vec(), &other).unwrap_err().message(),
        format!(
            "model file is invalid: charset SHA-256 mismatch: expected {ABC}, got {}",
            hex_sha256(b"")
        )
    );
    other.charset_sha256 = hex_sha256(b"a\xff");
    let message = read_charset(b"a\xff".to_vec(), &other).unwrap_err().message();
    assert_eq!(
        message,
        format!(
            "model file is invalid: charset is not UTF-8: {}",
            String::from_utf8(b"a\xff".to_vec()).unwrap_err()
        )
    );
}

fn files() -> ModelFiles {
    ModelFiles {
        charset: Ok(b"a\nb\n".to_vec()),
        det: Ok(b"abc".to_vec()),
        rec: Ok(b"abc".to_vec()),
    }
}

#[test]
fn models_are_loaded() {
    assert_eq!(load("/m", &manifest(), files()).unwrap(), vec!['a', 'b']);
    let fault = |manifest: Manifest, files: ModelFiles| {
        load("/m", &manifest, files).unwrap_err().message()
    };
    let mut broken = manifest();
    broken.profile.clear();
    assert_eq!(
        fault(broken, files()),
        "model manifest is invalid: unsupported profile "
    );
    let mut broken = manifest();
    broken.charset = "/c".to_owned();
    assert_eq!(
        fault(broken, files()),
        "model manifest is invalid: unsafe model path: /c"
    );
    let mut broken = manifest();
    broken.rec.model = "../r".to_owned();
    assert_eq!(
        fault(broken, files()),
        "model manifest is invalid: unsafe model path: ../r"
    );
    let unreadable = ModelFiles {
        charset: Err("gone".to_owned()),
        ..files()
    };
    assert_eq!(
        fault(manifest(), unreadable),
        "model file is invalid: could not read /m/charset.txt: gone"
    );
    let unreadable = ModelFiles {
        det: Err("gone".to_owned()),
        ..files()
    };
    assert_eq!(
        fault(manifest(), unreadable),
        "model file is invalid: could not read /m/net.onnx: gone"
    );
    let altered = ModelFiles {
        rec: Ok(b"".to_vec()),
        ..files()
    };
    assert_eq!(
        fault(manifest(), altered),
        format!(
            "model file is invalid: SHA-256 mismatch for /m/net.onnx: expected {ABC}, got {}",
            hex_sha256(b"")
        )
    );
}
