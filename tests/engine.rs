use base64::Engine;
use img_parts::ImageEXIF;
use ximage::exif::{attach_exif, count_non_exif_segments, reattach_exif, ExifError};
use ximage::config::{plan_encoding, reattaches_exif, CompressionConfig, EncodePlan};
use ximage::format::{
    detect_image_format, is_allowed_upload_format, kind_of_lowered_extension, text_eq, FormatError,
    ImageKind,
};
use ximage::jpeg::{
    jpeg_base_quality, jpeg_candidate_qualities, jpeg_candidate_score, search_jpeg,
    select_jpeg_candidate,
};
use ximage::png::{keep_optimized, optimize_lossless_png, optimize_quantized_png, palette_tables, png_quantization_plan};
use ximage::resize::plan_resize;
use ximage::sanitize::{replacement_for, sanitize_filename};
use ximage::scratch::ScratchRegistry;
use ximage::upload::{check_payload, path_row, resolve_destination, upload_row, vet_upload, Destination, ItemStatus, MAX_UPLOAD_BYTES};

fn config(lossless: bool) -> CompressionConfig {
    CompressionConfig {
        lossless,
        quality_jpg: 80,
        quality_webp: 75,
        quality_png: 70,
        preserve_exif: true,
        resize_width: None,
        resize_height: None,
    }
}

#[test]
fn sanitize_strips_traversal() {
    assert_eq!(sanitize_filename("../../etc/passwd"), "__etc_passwd");
}

#[test]
fn sanitize_replaces_separators_and_punctuation() {
    assert_eq!(sanitize_filename("a/b\\c:d"), "a_b_c_d");
}

#[test]
fn sanitize_drops_null_and_keeps_unicode_letters() {
    assert_eq!(sanitize_filename("ph\0oto é.png"), "photo_é.png");
    assert_eq!(sanitize_filename("..."), ".");
    assert_eq!(sanitize_filename(""), "");
    assert_eq!(sanitize_filename("my-file_1.JPG"), "my-file_1.JPG");
}

#[test]
fn resize_keeps_aspect_ratio() {
    assert_eq!(plan_resize(100, 50, Some(40), Some(40), true), Some((40, 20)));
    assert_eq!(plan_resize(50, 100, Some(40), Some(40), true), Some((20, 40)));
    assert_eq!(plan_resize(3, 3, Some(1), Some(2), true), Some((1, 1)));
    assert_eq!(plan_resize(1000, 1, Some(10), Some(10), true), Some((10, 1)));
}

#[test]
fn resize_rounds_to_nearest() {
    // 30 * 50 / 100 = 15; 35 * 33 / 100 = 11.55 -> 12
    assert_eq!(plan_resize(100, 33, Some(35), Some(100), true), Some((35, 12)));
}

#[test]
fn resize_without_aspect_ratio() {
    assert_eq!(plan_resize(100, 50, Some(40), Some(40), false), Some((40, 40)));
}

#[test]
fn resize_needs_both_sides() {
    assert_eq!(plan_resize(100, 50, Some(40), None, true), None);
    assert_eq!(plan_resize(100, 50, None, Some(40), false), None);
}

#[test]
fn resize_of_empty_original() {
    assert_eq!(plan_resize(0, 0, Some(40), Some(40), true), Some((1, 1)));
    assert_eq!(plan_resize(0, 10, Some(40), Some(30), true), Some((1, 30)));
}

#[test]
fn png_quantization_tiers() {
    let p = png_quantization_plan(90);
    assert_eq!((p.floor_offset, p.speed, p.dither_percent, p.min_quality), (25, 8, 60, 65));
    let p = png_quantization_plan(70);
    assert_eq!((p.floor_offset, p.speed, p.dither_percent, p.min_quality), (30, 9, 80, 40));
    let p = png_quantization_plan(40);
    assert_eq!((p.floor_offset, p.speed, p.dither_percent, p.min_quality), (40, 10, 100, 0));
}

#[test]
fn png_quality_is_clamped() {
    assert_eq!(png_quantization_plan(3).target, 10);
    assert_eq!(png_quantization_plan(200).target, 100);
    assert_eq!(png_quantization_plan(80).floor_offset, 25);
    assert_eq!(png_quantization_plan(79).floor_offset, 30);
    assert_eq!(png_quantization_plan(60).speed, 9);
    assert_eq!(png_quantization_plan(59).speed, 10);
}

#[test]
fn jpeg_candidates_around_base() {
    assert_eq!(jpeg_candidate_qualities(80), vec![70, 75, 80, 85, 90]);
    assert_eq!(jpeg_candidate_qualities(10), vec![60, 65, 70]);
    assert_eq!(jpeg_candidate_qualities(100), vec![85, 90, 95]);
    assert_eq!(jpeg_candidate_qualities(67), vec![62, 67, 72, 77]);
    assert_eq!(jpeg_base_quality(99), 95);
    assert_eq!(jpeg_base_quality(20), 60);
}

#[test]
fn jpeg_score_is_exact() {
    // 0.8 * 0.5 + 0.1 * 0.4 - 0.07 * 0.1 = 0.433, times 1000 * 1000
    assert_eq!(jpeg_candidate_score(1000, 80, 900), 433000);
    // 0.6 * 0.5 - 0.5 * 0.4 - 0.1 * 0.1 = 0.09, times 1000 * 100
    assert_eq!(jpeg_candidate_score(100, 60, 150), 9000);
    // lengths of zero count as one byte
    assert_eq!(jpeg_candidate_score(0, 90, 0), 450 - 5);
}

#[test]
fn jpeg_selection_prefers_higher_score_and_first_on_ties() {
    let trials = vec![(70u8, 1000usize), (80, 1000)];
    assert_eq!(select_jpeg_candidate(1000, &trials), Some(1));
    let ties = vec![(80u8, 1000usize), (80, 1000)];
    assert_eq!(select_jpeg_candidate(1000, &ties), Some(0));
    let smaller = vec![(60u8, 500usize), (95, 1000)];
    // 0.3 + 0.2 - 0.01 = 0.49 beats 0.475 - 0.005 = 0.47
    assert_eq!(select_jpeg_candidate(1000, &smaller), Some(0));
}

#[test]
fn jpeg_selection_keeps_baseline_when_nothing_scores_above_zero() {
    let bloated = vec![(60u8, 10000usize)];
    assert_eq!(select_jpeg_candidate(1000, &bloated), None);
    assert_eq!(select_jpeg_candidate(1000, &Vec::new()), None);
}

#[test]
fn jpeg_search_on_real_image() {
    let img = image::DynamicImage::ImageRgb8(image::RgbImage::from_fn(32, 32, |x, y| {
        image::Rgb([(x * 8) as u8, (y * 8) as u8, ((x + y) * 4) as u8])
    }));
    let choice = search_jpeg(&img, 80).ok().unwrap();
    let qualities: Vec<u8> = choice.trials.iter().map(|t| t.0).collect();
    assert_eq!(qualities, vec![70, 75, 80, 85, 90]);
    assert!(choice.data.starts_with(&[0xFF, 0xD8]));
    match select_jpeg_candidate(choice.base_len, &choice.trials) {
        Some(i) => {
            assert_eq!(choice.quality, choice.trials[i].0);
            assert_eq!(choice.data.len(), choice.trials[i].1);
        }
        None => {
            assert_eq!(choice.quality, 80);
            assert_eq!(choice.data.len(), choice.base_len);
        }
    }
}

#[test]
fn format_from_extension() {
    assert_eq!(detect_image_format(Some("png")), Ok(ImageKind::Png));
    assert_eq!(detect_image_format(Some("JPG")), Ok(ImageKind::Jpeg));
    assert_eq!(detect_image_format(Some("JpEg")), Ok(ImageKind::Jpeg));
    assert_eq!(detect_image_format(Some("WebP")), Ok(ImageKind::WebP));
    assert_eq!(detect_image_format(None), Err(FormatError::NoExtension));
    assert_eq!(
        detect_image_format(Some("GIF")),
        Err(FormatError::Unsupported("gif".to_string()))
    );
    assert_eq!(kind_of_lowered_extension("PNG"), None);
    assert_eq!(kind_of_lowered_extension("jpeg"), Some(ImageKind::Jpeg));
}

#[test]
fn text_equality() {
    assert!(text_eq("abc", "abc"));
    assert!(!text_eq("abc", "abd"));
    assert!(!text_eq("ab", "abc"));
}

#[test]
fn upload_allow_list_ignores_ascii_case() {
    assert!(is_allowed_upload_format("PNG"));
    assert!(is_allowed_upload_format("jpeg"));
    assert!(is_allowed_upload_format("Jpg"));
    assert!(is_allowed_upload_format("WEBP"));
    assert!(!is_allowed_upload_format("gif"));
    assert!(!is_allowed_upload_format("png "));
    assert!(!is_allowed_upload_format(""));
}

#[test]
fn upload_vetting_statuses() {
    assert_eq!(vet_upload("PNG", "aGVsbG8="), Ok(b"hello".to_vec()));
    assert_eq!(vet_upload("gif", "aGVsbG8="), Err(ItemStatus::UnsupportedFormat));
    assert_eq!(vet_upload("png", "not base64!"), Err(ItemStatus::DecodeFailed));
    assert_eq!(check_payload(None), Err(ItemStatus::DecodeFailed));
    assert_eq!(check_payload(Some(vec![0u8; MAX_UPLOAD_BYTES])).map(|v| v.len()), Ok(MAX_UPLOAD_BYTES));
    assert_eq!(check_payload(Some(vec![0u8; MAX_UPLOAD_BYTES + 1])), Err(ItemStatus::FileTooLarge));
}

#[test]
fn batch_items_are_vetted_independently() {
    let small = base64::engine::general_purpose::STANDARD.encode([1u8, 2, 3]);
    let large = base64::engine::general_purpose::STANDARD.encode(vec![7u8; 50 * 1024 * 1024 + 1]);
    let items = [("png", small.as_str()), ("jpg", large.as_str()), ("webp", small.as_str())];
    let statuses: Vec<ItemStatus> = items
        .iter()
        .map(|(f, d)| match vet_upload(f, d) {
            Ok(_) => ItemStatus::Success,
            Err(s) => s,
        })
        .collect();
    assert_eq!(statuses, vec![ItemStatus::Success, ItemStatus::FileTooLarge, ItemStatus::Success]);
}

#[test]
fn status_tags() {
    assert_eq!(ItemStatus::Success.tag(), "success");
    assert_eq!(ItemStatus::UnsupportedFormat.tag(), "unsupported_format");
    assert_eq!(ItemStatus::DecodeFailed.tag(), "decode_failed");
    assert_eq!(ItemStatus::FileTooLarge.tag(), "file_too_large");
    assert_eq!(ItemStatus::SaveFailed.tag(), "save_failed");
    assert_eq!(ItemStatus::MissingSourcePath.tag(), "missing_source_path");
    assert_eq!(ItemStatus::CompressFailed.tag(), "compress_failed");
}

#[test]
fn destination_resolution() {
    assert_eq!(resolve_destination(true, false), Ok(Destination::OutputDir { original_is_prior: false }));
    assert_eq!(resolve_destination(true, true), Ok(Destination::OutputDir { original_is_prior: true }));
    assert_eq!(resolve_destination(false, true), Ok(Destination::OverwritePrior));
    assert_eq!(resolve_destination(false, false), Err(ItemStatus::MissingSourcePath));
}

#[test]
fn encode_plans_per_format() {
    let lossy = config(false);
    let lossless = config(true);
    assert_eq!(plan_encoding(ImageKind::Png, &lossless), EncodePlan::PngLossless);
    assert_eq!(plan_encoding(ImageKind::Jpeg, &lossless), EncodePlan::JpegMaximum);
    assert_eq!(plan_encoding(ImageKind::WebP, &lossless), EncodePlan::WebPLossless);
    assert_eq!(plan_encoding(ImageKind::Jpeg, &lossy), EncodePlan::JpegSearch { quality: 80 });
    assert_eq!(plan_encoding(ImageKind::WebP, &lossy), EncodePlan::WebPLossy { quality: 75 });
    assert_eq!(plan_encoding(ImageKind::Png, &lossy), EncodePlan::PngQuantized(png_quantization_plan(70)));
    assert!(reattaches_exif(ImageKind::Jpeg, &lossy));
    assert!(!reattaches_exif(ImageKind::Png, &lossy));
    let mut plain = lossy;
    plain.preserve_exif = false;
    assert!(!reattaches_exif(ImageKind::Jpeg, &plain));
}

#[test]
fn scratch_registry_register_and_sweep() {
    let mut reg = ScratchRegistry::new();
    assert_eq!(reg.len(), 0);
    reg.register("/tmp/a".to_string(), 10);
    reg.register("/tmp/b".to_string(), 20);
    reg.register("/tmp/c".to_string(), 30);
    reg.register("/tmp/a".to_string(), 25);
    assert_eq!(reg.len(), 3);
    let mut swept = reg.sweep(26);
    swept.sort();
    assert_eq!(swept, vec!["/tmp/a".to_string(), "/tmp/b".to_string()]);
    assert_eq!(reg.len(), 1);
    assert!(reg.sweep(30).is_empty());
    assert_eq!(reg.sweep(31), vec!["/tmp/c".to_string()]);
    assert_eq!(reg.len(), 0);
}

#[test]
fn palette_tables_split_colour_and_alpha() {
    let opaque = palette_tables(&vec![(1, 2, 3, 255), (4, 5, 6, 255)]);
    assert_eq!(opaque.rgb, vec![1, 2, 3, 4, 5, 6]);
    assert_eq!(opaque.alpha, vec![255, 255]);
    assert!(!opaque.has_transparency);
    let clear = palette_tables(&vec![(9, 9, 9, 255), (0, 0, 0, 0)]);
    assert_eq!(clear.alpha, vec![255, 0]);
    assert!(clear.has_transparency);
    assert!(!palette_tables(&Vec::new()).has_transparency);
}

fn sample_jpeg() -> Vec<u8> {
    let img = image::DynamicImage::ImageRgb8(image::RgbImage::from_fn(16, 16, |x, y| {
        image::Rgb([(x * 16) as u8, (y * 16) as u8, 128])
    }));
    search_jpeg(&img, 75).ok().unwrap().data
}

fn with_exif_payload(jpeg: &[u8], payload: &[u8]) -> Vec<u8> {
    let mut j = img_parts::jpeg::Jpeg::from_bytes(jpeg.to_vec().into()).unwrap();
    j.set_exif(Some(payload.to_vec().into()));
    j.encoder().bytes().to_vec()
}

fn exif_of(jpeg: &[u8]) -> Option<Vec<u8>> {
    img_parts::jpeg::Jpeg::from_bytes(jpeg.to_vec().into()).unwrap().exif().map(|b| b.to_vec())
}

#[test]
fn exif_round_trip_keeps_segment_bytes() {
    let payload = b"MM\0*\0\0\0\x08camera-data".to_vec();
    let original = with_exif_payload(&sample_jpeg(), &payload);
    let output = sample_jpeg();
    assert_eq!(exif_of(&output), None);
    let rewritten = reattach_exif(original, output).unwrap().unwrap();
    assert_eq!(exif_of(&rewritten), Some(payload));
}

#[test]
fn exif_absent_in_original_leaves_output() {
    assert_eq!(reattach_exif(sample_jpeg(), sample_jpeg()), Ok(None));
}

#[test]
fn exif_errors() {
    let original = with_exif_payload(&sample_jpeg(), b"II*\0");
    assert_eq!(reattach_exif(vec![1, 2, 3], sample_jpeg()), Err(ExifError::UnreadableOriginal));
    assert_eq!(reattach_exif(original.clone(), vec![0xFF, 0x00]), Err(ExifError::UnreadableOutput));
    // SOI followed straight by EOI: no segment to place the EXIF segment after
    assert_eq!(reattach_exif(original, vec![0xFF, 0xD8, 0xFF, 0xD9]), Err(ExifError::TooFewSegments));
}

#[test]
fn exif_segment_counting_and_attaching() {
    let jpeg = sample_jpeg();
    let mut j = img_parts::jpeg::Jpeg::from_bytes(jpeg.clone().into()).unwrap();
    let plain = count_non_exif_segments(&j);
    assert_eq!(plain, j.segments().len());
    assert!(attach_exif(&mut j, b"abc".to_vec()).is_ok());
    assert_eq!(count_non_exif_segments(&j), plain);
    assert_eq!(j.segments().len(), plain + 1);
    assert_eq!(j.exif().map(|b| b.to_vec()), Some(b"abc".to_vec()));
}

#[test]
fn per_character_replacement() {
    assert_eq!(replacement_for('/', false), Some('_'));
    assert_eq!(replacement_for('\\', true), Some('_'));
    assert_eq!(replacement_for('\0', false), None);
    assert_eq!(replacement_for('x', true), Some('x'));
    assert_eq!(replacement_for('x', false), Some('_'));
    assert_eq!(replacement_for('-', false), Some('-'));
    assert_eq!(replacement_for(':', false), Some('_'));
}

#[test]
fn format_error_messages() {
    assert_eq!(FormatError::NoExtension.message(), "No extension");
    assert_eq!(FormatError::Unsupported("gif".to_string()).message(), "Unsupported format: gif");
    assert_eq!(detect_image_format(Some("BMP")).unwrap_err().message(), "Unsupported format: bmp");
}

#[test]
fn upload_rows() {
    assert_eq!(
        upload_row("a.png".to_string(), 4, Ok((100, 60))),
        ("a.png".to_string(), 100, 60, "success".to_string(), 4)
    );
    assert_eq!(
        upload_row("b.png".to_string(), 7, Err(ItemStatus::FileTooLarge)),
        ("b.png".to_string(), 0, 0, "file_too_large".to_string(), 7)
    );
}

#[test]
fn optimiser_failure_keeps_bytes() {
    assert_eq!(optimize_quantized_png(vec![1, 2, 3]), vec![1, 2, 3]);
    assert!(optimize_lossless_png(&vec![1, 2, 3]).is_err());
    let mut png_bytes = Vec::new();
    image::DynamicImage::new_rgba8(8, 8)
        .write_to(&mut std::io::Cursor::new(&mut png_bytes), image::ImageFormat::Png)
        .unwrap();
    let optimized = optimize_quantized_png(png_bytes.clone());
    assert!(optimized.starts_with(&[0x89, b'P', b'N', b'G']));
    assert!(optimized.len() <= png_bytes.len());
    assert!(optimize_lossless_png(&png_bytes).unwrap().starts_with(&[0x89, b'P', b'N', b'G']));
    assert_eq!(keep_optimized(vec![9], Ok(vec![8])), vec![8]);
}

#[test]
fn path_rows() {
    assert_eq!(
        path_row("/a.png".to_string(), Ok((10, 4))),
        ("/a.png".to_string(), 10, 4, "success".to_string())
    );
    assert_eq!(
        path_row("/b.gif".to_string(), Err("Unsupported format: gif".to_string())),
        ("/b.gif".to_string(), 0, 0, "error: Unsupported format: gif".to_string())
    );
}

#[test]
fn sanitize_never_leaves_a_dot_pair() {
    assert_eq!(sanitize_filename(".\0."), "");
    assert_eq!(sanitize_filename("a.\0.b"), "ab");
    assert_eq!(sanitize_filename("...."), "");
    assert_eq!(sanitize_filename("x..y.z"), "xy.z");
    let once = sanitize_filename("..\0./..a");
    assert!(!once.contains(".."));
    assert_eq!(sanitize_filename(&once), once);
}

#[test]
fn exif_refuses_unframed_scan_data() {
    let original = with_exif_payload(&sample_jpeg(), b"II*\0");
    let mut output = vec![0xFF, 0xD8];
    for _ in 0..3 {
        output.extend_from_slice(&[0xFF, 0xE0, 0x00, 0x02]);
    }
    output.extend_from_slice(&[0xFF, 0xDA, 0x00, 0x02, 0x11, 0x22]);
    assert_eq!(reattach_exif(original, output), Err(ExifError::UnframedScanData));
}

#[test]
fn jpeg_search_fails_only_on_empty_image() {
    assert!(search_jpeg(&image::DynamicImage::new_rgb8(0, 4), 80).is_err());
    assert!(search_jpeg(&image::DynamicImage::new_rgb8(1, 1), 80).is_ok());
}

#[test]
fn jpeg_search_keeps_bytes_of_its_chosen_quality() {
    let img = image::DynamicImage::ImageRgb8(image::RgbImage::from_fn(24, 24, |x, y| {
        image::Rgb([(x * 10) as u8, (y * 10) as u8, 77])
    }));
    let choice = search_jpeg(&img, 70).ok().unwrap();
    let mut direct = Vec::new();
    image::codecs::jpeg::JpegEncoder::new_with_quality(&mut direct, choice.quality)
        .encode_image(&img)
        .unwrap();
    assert_eq!(choice.data, direct);
    let top = choice.trials.last().unwrap().1;
    assert!(choice.data.len() <= top.max(1));
}

#[test]
fn exif_reattachment_keeps_other_segments() {
    let original = with_exif_payload(&sample_jpeg(), b"II*\0\x08\0\0\0");
    let output = sample_jpeg();
    let rewritten = reattach_exif(original, output.clone()).unwrap().unwrap();
    let before = img_parts::jpeg::Jpeg::from_bytes(output.into()).unwrap();
    let after = img_parts::jpeg::Jpeg::from_bytes(rewritten.clone().into()).unwrap();
    let markers_before: Vec<u8> = before.segments().iter().map(|s| s.marker()).collect();
    let mut markers_after: Vec<u8> = after.segments().iter().map(|s| s.marker()).collect();
    assert_eq!(markers_after.remove(3), 0xE1);
    assert_eq!(markers_after, markers_before);
    assert_eq!(reattach_exif(with_exif_payload(&sample_jpeg(), b"II*\0\x08\0\0\0"), rewritten.clone()).unwrap().unwrap(), rewritten);
}
