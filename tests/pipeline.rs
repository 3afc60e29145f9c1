use metal_knight::{
    label_scores, lay_out_planar, letterbox_geometry, parse_model_subset, preprocess_for_model,
    sizes_fit_exec, LetterboxGeometry, ModelRegistry, PipelineError, RasterImage,
};

fn flat_image(width: u32, height: u32, value: u8) -> RasterImage {
    RasterImage::from_raw(width, height, vec![value; 3 * width as usize * height as usize]).unwrap()
}

fn patterned_image(width: u32, height: u32) -> RasterImage {
    let mut pixels = Vec::new();
    for y in 0..height {
        for x in 0..width {
            pixels.push((x * 7 % 256) as u8);
            pixels.push((y * 13 % 256) as u8);
            pixels.push(((x + y) * 29 % 256) as u8);
        }
    }
    RasterImage::from_raw(width, height, pixels).unwrap()
}

fn registry() -> ModelRegistry {
    ModelRegistry::new(vec!["nsfw".to_string(), "badcrop".to_string(), "screenshot".to_string()])
        .unwrap()
}

fn strings(names: &[&str]) -> Vec<String> {
    names.iter().map(|s| s.to_string()).collect()
}

#[test]
fn raster_from_raw_checks_length() {
    assert!(RasterImage::from_raw(2, 2, vec![0; 12]).is_some());
    assert!(RasterImage::from_raw(2, 2, vec![0; 11]).is_none());
    assert!(RasterImage::from_raw(0, 2, vec![]).is_none());
    let img = patterned_image(3, 2);
    assert_eq!(img.pixel(2, 1, 0), 14);
    assert_eq!(img.pixel(2, 1, 1), 13);
    assert_eq!(img.pixel(2, 1, 2), 87);
}

#[test]
fn stretch_fills_target_with_unit_values() {
    let img = patterned_image(30, 20);
    let t = preprocess_for_model(&img, (16, 12), false).unwrap();
    assert_eq!(t.len(), 3 * 16 * 12);
    for b in &t {
        let v = *b as f32 / 255.0;
        assert!((0.0..=1.0).contains(&v));
    }
}

#[test]
fn uniform_grey_stays_uniform_when_stretched() {
    let img = flat_image(7, 5, 128);
    for (tw, th) in [(3u32, 3u32), (10, 4), (7, 5), (224, 224)] {
        let t = preprocess_for_model(&img, (tw, th), false).unwrap();
        assert_eq!(t.len(), 3 * tw as usize * th as usize);
        for b in &t {
            assert_eq!(*b as f32 / 255.0, 128.0 / 255.0);
        }
    }
}

#[test]
fn zero_target_is_invalid_geometry() {
    let img = flat_image(4, 4, 9);
    assert_eq!(preprocess_for_model(&img, (0, 10), false), Err(PipelineError::InvalidGeometry));
    assert_eq!(preprocess_for_model(&img, (10, 0), true), Err(PipelineError::InvalidGeometry));
}

#[test]
fn landscape_letterbox_geometry() {
    assert_eq!(
        letterbox_geometry(100, 50, 224, 224),
        LetterboxGeometry { new_width: 224, new_height: 112, x_start: 0, y_start: 56 }
    );
}

#[test]
fn portrait_letterbox_geometry() {
    assert_eq!(
        letterbox_geometry(50, 100, 224, 224),
        LetterboxGeometry { new_width: 112, new_height: 224, x_start: 56, y_start: 0 }
    );
}

#[test]
fn letterbox_geometry_rounds_to_nearest() {
    // 90 * 224 / 100 = 201.6 rounds to 202, which overflows a 50-row frame.
    assert_eq!(
        letterbox_geometry(100, 90, 224, 50),
        LetterboxGeometry { new_width: 224, new_height: 202, x_start: 0, y_start: -76 }
    );
    // 3 * 10 / 4 = 7.5 rounds up; 2 * 5 / 3 = 3.33 rounds down.
    assert_eq!(letterbox_geometry(3, 4, 10, 10).new_width, 8);
    assert_eq!(letterbox_geometry(2, 3, 5, 5).new_width, 3);
}

#[test]
fn landscape_letterbox_pads_top_and_bottom() {
    let img = flat_image(100, 50, 200);
    let t = preprocess_for_model(&img, (224, 224), true).unwrap();
    assert_eq!(t.len(), 3 * 224 * 224);
    for c in 0..3 {
        for y in 0..224 {
            for x in 0..224 {
                let v = t[(c * 224 + y) * 224 + x];
                if y < 56 || y >= 168 {
                    assert_eq!(v, 0, "c={c} y={y} x={x}");
                } else {
                    assert_ne!(v, 0, "c={c} y={y} x={x}");
                }
            }
        }
    }
}

#[test]
fn portrait_letterbox_pads_left_and_right() {
    let img = flat_image(10, 20, 100);
    let t = preprocess_for_model(&img, (20, 20), true).unwrap();
    for c in 0..3 {
        for y in 0..20 {
            for x in 0..20 {
                let v = t[(c * 20 + y) * 20 + x];
                if x < 5 || x >= 15 {
                    assert_eq!(v, 0);
                } else {
                    assert_eq!(v, 100);
                }
            }
        }
    }
}

#[test]
fn letterbox_upscales_small_image() {
    let img = flat_image(10, 10, 100);
    let t = preprocess_for_model(&img, (20, 20), true).unwrap();
    assert!(t.iter().all(|b| *b == 100));
}

#[test]
fn letterbox_with_vanishing_side_is_all_padding() {
    let img = flat_image(1000, 1, 50);
    let t = preprocess_for_model(&img, (4, 4), true).unwrap();
    assert_eq!(t.len(), 48);
    assert!(t.iter().all(|b| *b == 0));
}

#[test]
fn letterbox_clamps_overflowing_content() {
    let img = flat_image(100, 90, 60);
    let t = preprocess_for_model(&img, (224, 50), true).unwrap();
    assert_eq!(t.len(), 3 * 224 * 50);
    assert!(t.iter().all(|b| *b != 0));
}

#[test]
fn planar_layout_places_content() {
    // A 2x1 content image at offset (1, 1) of a 4x3 frame.
    let content = vec![1, 2, 3, 4, 5, 6];
    let t = lay_out_planar(2, 1, &content, 4, 3, 1, 1);
    let expected: Vec<u8> = vec![
        0, 0, 0, 0, 0, 1, 4, 0, 0, 0, 0, 0, // red
        0, 0, 0, 0, 0, 2, 5, 0, 0, 0, 0, 0, // green
        0, 0, 0, 0, 0, 3, 6, 0, 0, 0, 0, 0, // blue
    ];
    assert_eq!(t, expected);
}

#[test]
fn planar_layout_cuts_off_negative_offset() {
    let content = vec![1, 2, 3, 4, 5, 6];
    let t = lay_out_planar(2, 1, &content, 1, 1, -1, 0);
    assert_eq!(t, vec![4, 5, 6]);
}

#[test]
fn size_check() {
    assert!(sizes_fit_exec(100, 50, 224, 224, false));
    assert!(sizes_fit_exec(100, 50, 224, 224, true));
    assert!(sizes_fit_exec(4, 4, 0, 7, true));
}

#[test]
fn size_check_bounds_thumbnail_blocks() {
    // One 4200x4200 block would overflow the thumbnail's u32 sums.
    assert!(!sizes_fit_exec(4200, 4200, 1, 1, true));
    assert!(sizes_fit_exec(4200, 4200, 1, 1, false));
    assert!(sizes_fit_exec(2000, 2000, 1, 1, true));
}

#[test]
fn letterbox_into_single_pixel_averages() {
    let img = flat_image(2000, 2000, 77);
    let t = preprocess_for_model(&img, (1, 1), true).unwrap();
    assert_eq!(t, vec![77, 77, 77]);
}

#[test]
fn registry_rejects_duplicate_names() {
    assert!(ModelRegistry::new(strings(&["a", "b", "a"])).is_none());
    assert!(ModelRegistry::new(strings(&[])).is_some());
}

#[test]
fn registry_lists_names_in_order() {
    let reg = registry();
    assert_eq!(reg.len(), 3);
    assert_eq!(reg.list(), strings(&["nsfw", "badcrop", "screenshot"]));
    assert_eq!(reg.format_list(), "nsfw\nbadcrop\nscreenshot\n");
}

#[test]
fn model_info_lists_only_without_a_name() {
    let reg = registry();
    assert_eq!(reg.model_info(None), "nsfw\nbadcrop\nscreenshot\n");
    assert_eq!(reg.model_info(Some(String::new())), "nsfw\nbadcrop\nscreenshot\n");
    assert_eq!(reg.model_info(Some("nsfw".to_string())), "");
}

#[test]
fn subset_parsing() {
    assert_eq!(parse_model_subset(None), Vec::<String>::new());
    assert_eq!(parse_model_subset(Some(String::new())), Vec::<String>::new());
    assert_eq!(parse_model_subset(Some("nsfw".to_string())), strings(&["nsfw"]));
    assert_eq!(parse_model_subset(Some("nsfw,badcrop".to_string())), strings(&["nsfw", "badcrop"]));
    assert_eq!(parse_model_subset(Some("a,,b,".to_string())), strings(&["a", "", "b", ""]));
}

#[test]
fn resolve_nothing_requested_is_all() {
    assert_eq!(registry().resolve(&vec![]), vec![0, 1, 2]);
}

#[test]
fn resolve_unknown_is_empty() {
    assert_eq!(registry().resolve(&strings(&["unknown"])), Vec::<usize>::new());
}

#[test]
fn resolve_single_name() {
    assert_eq!(registry().resolve(&strings(&["nsfw"])), vec![0]);
}

#[test]
fn resolve_keeps_registry_order() {
    assert_eq!(registry().resolve(&strings(&["screenshot", "unknown", "nsfw"])), vec![0, 2]);
}

#[test]
fn inaccessible_model_is_left_out() {
    let reg = registry();
    let selected = reg.resolve(&vec![]);
    let outcomes = vec![Some(0.25f32), None, Some(0.75f32)];
    let result = reg.assemble(&selected, outcomes);
    assert_eq!(result, vec![("nsfw".to_string(), 0.25f32), ("screenshot".to_string(), 0.75f32)]);
}

#[test]
fn assemble_nothing() {
    let reg = registry();
    let result: Vec<(String, u8)> = reg.assemble(&vec![], vec![]);
    assert!(result.is_empty());
}

#[test]
fn labels_pair_with_scores() {
    let labels = strings(&["safe", "nsfw"]);
    assert_eq!(
        label_scores(&labels, &vec![0.9f32, 0.1f32]),
        Ok(vec![("safe".to_string(), 0.9f32), ("nsfw".to_string(), 0.1f32)])
    );
}

#[test]
fn label_count_mismatch_is_inference_error() {
    let labels = strings(&["safe", "nsfw"]);
    assert_eq!(label_scores(&labels, &vec![0.9f32]), Err(PipelineError::InferenceError));
}
