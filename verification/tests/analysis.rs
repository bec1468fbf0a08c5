use media_analysis::ai::{merge_ai, AiResponse};
use media_analysis::analyse::{analyse_batch, analyse_single, AnalysisInput, FsFacts, ProbeFacts};
use media_analysis::classify::get_type;
use media_analysis::exif::{apply_exif, ExifEntry, ExifKind};
use media_analysis::keywords::{gather_keywords, maybe_push_kw};
use media_analysis::pdf::{pdf_facts, MediaBoxEntry, PdfFacts};
use media_analysis::preview::{
    compute_scaled_dims, compute_width_capped_dims, order_and_encode_frames,
    prepare_media_previews, Frame, PreviewPlan,
};
use media_analysis::video::{parse_duration_ms, parse_rational, video_facts, FfProbe, FfStream};
use media_analysis::{FileType, Image, LoadedFile, Suggested, Tagging};

fn empty_probe() -> ProbeFacts {
    ProbeFacts {
        fs: FsFacts { size_bytes: None, created_at: None, modified_at: None },
        image_dims: None,
        exif: Vec::new(),
        ffprobe: None,
        pdf: None,
    }
}

// ---- classifier ----------------------------------------------------------

#[test]
fn classifier_image_extensions() {
    for ext in ["png", "jpg", "jpeg", "gif", "bmp", "webp"] {
        let name = format!("file.{ext}");
        assert!(matches!(get_type(&name), FileType::Image), "{name}");
    }
}

#[test]
fn classifier_video_extensions() {
    for ext in ["mp4", "mov", "avi", "mkv", "webm"] {
        let name = format!("file.{ext}");
        assert!(matches!(get_type(&name), FileType::Video), "{name}");
    }
}

#[test]
fn classifier_pdf_and_other() {
    assert!(matches!(get_type("report.pdf"), FileType::Pdf));
    assert!(matches!(get_type("archive.zip"), FileType::Other));
    assert!(matches!(get_type("noextension"), FileType::Other));
    assert!(matches!(get_type(""), FileType::Other));
}

#[test]
fn classifier_dotless_names_are_other() {
    // a name without a dot has no extension, even when the whole name
    // spells a known extension
    assert!(matches!(get_type("pdf"), FileType::Other));
    assert!(matches!(get_type("mp4"), FileType::Other));
    assert!(matches!(get_type("png"), FileType::Other));
}

#[test]
fn classifier_case_insensitive() {
    assert!(matches!(get_type("PHOTO.JpG"), FileType::Image));
    assert!(matches!(get_type("CLIP.MP4"), FileType::Video));
    assert!(matches!(get_type("DOC.PDF"), FileType::Pdf));
}

// ---- keyword extraction --------------------------------------------------

#[test]
fn gather_excludes_stop_words_and_sorts() {
    let kws = gather_keywords("IMG_2024 Summer Vacation.jpg");
    assert_eq!(kws, vec!["2024", "jpg", "summer", "vacation"]);
    assert!(!kws.iter().any(|k| k == "img"));
}

#[test]
fn gather_is_idempotent() {
    let a = gather_keywords("IMG_2024 Summer Vacation.jpg");
    let b = gather_keywords("IMG_2024 Summer Vacation.jpg");
    assert_eq!(a, b);
}

#[test]
fn gather_fixpoint_on_own_output() {
    // re-gathering from the name the output itself spells reproduces it
    let r = gather_keywords("IMG_2024 Summer Vacation.jpg");
    let joined = r.join(" ");
    let r2 = gather_keywords(&joined);
    assert_eq!(r2, r);
}

#[test]
fn gather_dedupes_case_insensitively() {
    let kws = gather_keywords("Beach beach BEACH.png");
    assert_eq!(kws, vec!["beach", "png"]);
}

#[test]
fn maybe_push_kw_appends_only_new() {
    let mut kws = vec![String::from("canon"), String::from("beach")];
    maybe_push_kw(&mut kws, "Canon EOS 80D");
    assert_eq!(kws, vec!["canon", "beach", "eos", "80d"]);
}

#[test]
fn maybe_push_kw_filters_short_and_stop_words() {
    let mut kws: Vec<String> = Vec::new();
    maybe_push_kw(&mut kws, "a of img x7 summer");
    assert_eq!(kws, vec!["summer"]);
}

// ---- rational and duration parsing ---------------------------------------

#[test]
fn rational_ntsc_rate() {
    let r = parse_rational("30000/1001").expect("should parse");
    assert_eq!(r.num, 30000);
    assert_eq!(r.den, 1001);
    let fps = r.num as f64 / r.den as f64;
    assert!((fps - 29.97).abs() < 0.01);
}

#[test]
fn rational_zero_denominator_absent() {
    assert!(parse_rational("0/0").is_none());
    assert!(parse_rational("25/0").is_none());
}

#[test]
fn rational_whole_rate() {
    let r = parse_rational("30/1").expect("should parse");
    assert_eq!((r.num, r.den), (30, 1));
    assert_eq!(r.num as f64 / r.den as f64, 30.0);
}

#[test]
fn rational_malformed_absent() {
    assert!(parse_rational("").is_none());
    assert!(parse_rational("30").is_none());
    assert!(parse_rational("/1").is_none());
    assert!(parse_rational("30/").is_none());
    assert!(parse_rational("a/b").is_none());
}

#[test]
fn duration_parses_to_milliseconds() {
    assert_eq!(parse_duration_ms("12.345"), Some(12345));
    assert_eq!(parse_duration_ms("7"), Some(7000));
    assert_eq!(parse_duration_ms("0.5"), Some(500));
    assert_eq!(parse_duration_ms("10.5009"), Some(10500));
    assert_eq!(parse_duration_ms("abc"), None);
    assert_eq!(parse_duration_ms(""), None);
}

// ---- video stream selection ----------------------------------------------

fn stream(codec_type: &str, codec: &str, w: u32, h: u32, rate: &str) -> FfStream {
    FfStream {
        codec_type: Some(String::from(codec_type)),
        codec_name: Some(String::from(codec)),
        width: Some(w),
        height: Some(h),
        avg_frame_rate: Some(String::from(rate)),
    }
}

#[test]
fn video_facts_picks_first_video_stream() {
    let probe = FfProbe {
        duration: Some(String::from("10.5")),
        streams: vec![
            stream("audio", "aac", 0, 0, "0/0"),
            stream("video", "h264", 1920, 1080, "30000/1001"),
            stream("video", "vp9", 640, 480, "25/1"),
        ],
    };
    let v = video_facts(&probe);
    assert_eq!(v.width, Some(1920));
    assert_eq!(v.height, Some(1080));
    assert_eq!(v.codec.as_deref(), Some("h264"));
    assert_eq!(v.duration_ms, Some(10500));
    let fps = v.fps.expect("fps should parse");
    assert_eq!((fps.num, fps.den), (30000, 1001));
}

#[test]
fn video_facts_without_video_stream() {
    let probe = FfProbe {
        duration: Some(String::from("3")),
        streams: vec![stream("audio", "aac", 0, 0, "0/0")],
    };
    let v = video_facts(&probe);
    assert_eq!(v.width, None);
    assert_eq!(v.height, None);
    assert_eq!(v.codec, None);
    assert_eq!(v.fps, None);
    assert_eq!(v.duration_ms, Some(3000));
}

// ---- PDF geometry ---------------------------------------------------------

#[test]
fn pdf_letter_page_geometry() {
    // [0, 0, 612, 792] points, carried in thousandths of a point
    let f = PdfFacts {
        page_count: 3,
        media_box: Some(vec![
            MediaBoxEntry::Num(0),
            MediaBoxEntry::Num(0),
            MediaBoxEntry::Num(612_000),
            MediaBoxEntry::Num(792_000),
        ]),
    };
    let p = pdf_facts(&f);
    assert_eq!(p.page_count, Some(3));
    assert_eq!(p.page0_width_mpt, Some(612_000));
    assert_eq!(p.page0_height_mpt, Some(792_000));
}

#[test]
fn pdf_non_numeric_entry_leaves_geometry_absent() {
    let f = PdfFacts {
        page_count: 1,
        media_box: Some(vec![
            MediaBoxEntry::Num(0),
            MediaBoxEntry::NonNumeric,
            MediaBoxEntry::Num(612_000),
            MediaBoxEntry::Num(792_000),
        ]),
    };
    let p = pdf_facts(&f);
    assert_eq!(p.page_count, Some(1));
    assert_eq!(p.page0_width_mpt, None);
    assert_eq!(p.page0_height_mpt, None);
}

#[test]
fn pdf_wrong_arity_leaves_geometry_absent() {
    let f = PdfFacts {
        page_count: 1,
        media_box: Some(vec![MediaBoxEntry::Num(0), MediaBoxEntry::Num(612_000)]),
    };
    let p = pdf_facts(&f);
    assert_eq!(p.page0_width_mpt, None);
    assert_eq!(p.page0_height_mpt, None);
}

// ---- merge policy ----------------------------------------------------------

fn local_tagging() -> Tagging {
    Tagging {
        tags: vec![String::from("holiday")],
        topics: vec![String::from("travel")],
        raw_keywords: vec![String::from("beach"), String::from("summer")],
    }
}

#[test]
fn merge_empty_tags_leaves_local_untouched() {
    let mut tagging = local_tagging();
    let mut suggested = Suggested::unset();
    let ai = AiResponse {
        tags: Some(Vec::new()),
        topics: None,
        raw_keywords: None,
        suggested: None,
    };
    merge_ai(&mut tagging, &mut suggested, &ai);
    assert_eq!(tagging.tags, vec!["holiday"]);
    assert_eq!(tagging.topics, vec!["travel"]);
}

#[test]
fn merge_non_empty_tags_overwrite() {
    let mut tagging = local_tagging();
    let mut suggested = Suggested::unset();
    let ai = AiResponse {
        tags: Some(vec![String::from("sunset"), String::from("sea")]),
        topics: None,
        raw_keywords: None,
        suggested: None,
    };
    merge_ai(&mut tagging, &mut suggested, &ai);
    assert_eq!(tagging.tags, vec!["sunset", "sea"]);
}

#[test]
fn merge_keywords_appends_only_new_case_insensitive() {
    let mut tagging = local_tagging();
    let mut suggested = Suggested::unset();
    let ai = AiResponse {
        tags: None,
        topics: None,
        raw_keywords: Some(vec![
            String::from("BEACH"),
            String::from("palm"),
            String::from("Summer"),
        ]),
        suggested: None,
    };
    merge_ai(&mut tagging, &mut suggested, &ai);
    assert_eq!(tagging.raw_keywords, vec!["beach", "summer", "palm"]);
}

#[test]
fn merge_suggestion_only_with_non_empty_rename() {
    let mut tagging = local_tagging();
    let mut suggested = Suggested::unset();
    let empty_rename = AiResponse {
        tags: None,
        topics: None,
        raw_keywords: None,
        suggested: Some(Suggested {
            rename: String::new(),
            reason: String::from("ignored"),
            confidence_permille: 900,
        }),
    };
    merge_ai(&mut tagging, &mut suggested, &empty_rename);
    assert_eq!(suggested.rename, "");
    assert_eq!(suggested.reason, "");
    assert_eq!(suggested.confidence_permille, 0);

    let real = AiResponse {
        tags: None,
        topics: None,
        raw_keywords: None,
        suggested: Some(Suggested {
            rename: String::from("beach-sunset.jpg"),
            reason: String::from("content"),
            confidence_permille: 850,
        }),
    };
    merge_ai(&mut tagging, &mut suggested, &real);
    assert_eq!(suggested.rename, "beach-sunset.jpg");
    assert_eq!(suggested.reason, "content");
    assert_eq!(suggested.confidence_permille, 850);
}

// ---- preview planning and scaling ------------------------------------------

#[test]
fn preview_plan_by_kind() {
    let img = LoadedFile { name: String::from("x.PNG"), path: String::from("/tmp/x.PNG") };
    assert_eq!(
        prepare_media_previews(&img, None),
        PreviewPlan::ImagePlan { max_side: 2048 }
    );
    let vid = LoadedFile { name: String::from("x.bin"), path: String::from("/tmp/x.bin") };
    assert_eq!(
        prepare_media_previews(&vid, Some("video/mp4")),
        PreviewPlan::VideoPlan { sample_fps: 1, scale_width: 512, max_frames: 6 }
    );
    let pdf = LoadedFile { name: String::from("x.pdf"), path: String::from("/tmp/x.pdf") };
    assert_eq!(
        prepare_media_previews(&pdf, None),
        PreviewPlan::PdfPlan { width_cap: 1400 }
    );
    let other = LoadedFile { name: String::from("x.txt"), path: String::from("/tmp/x.txt") };
    assert_eq!(prepare_media_previews(&other, Some("text/plain")), PreviewPlan::NoPreview);
    // a dotless name has no extension, so no preview without a content type
    let dotless = LoadedFile { name: String::from("pdf"), path: String::from("/tmp/pdf") };
    assert_eq!(prepare_media_previews(&dotless, None), PreviewPlan::NoPreview);
}

#[test]
fn preview_cap_downscales_longer_side() {
    let (w, h) = compute_scaled_dims(4000, 2000, 2048);
    assert_eq!(w, 2048);
    assert_eq!(h, 1024);
    assert!(w.max(h) <= 2048);
    // aspect preserved within rounding
    let in_ratio = 4000.0 / 2000.0;
    let out_ratio = w as f64 / h as f64;
    assert!((in_ratio - out_ratio).abs() < 0.01);
}

#[test]
fn preview_cap_keeps_small_images() {
    assert_eq!(compute_scaled_dims(800, 600, 2048), (800, 600));
    assert_eq!(compute_scaled_dims(2048, 2048, 2048), (2048, 2048));
}

#[test]
fn preview_cap_portrait() {
    let (w, h) = compute_scaled_dims(2000, 4000, 2048);
    assert_eq!(h, 2048);
    assert_eq!(w, 1024);
}

#[test]
fn pdf_raster_width_cap() {
    assert_eq!(compute_width_capped_dims(2800, 1000, 1400), (1400, 500));
    assert_eq!(compute_width_capped_dims(1000, 3000, 1400), (1000, 3000));
}

// ---- frame ordering and encoding -------------------------------------------

#[test]
fn frames_sorted_truncated_encoded() {
    let frames = vec![
        Frame { name: String::from("kf-02.jpg"), bytes: b"second".to_vec() },
        Frame { name: String::from("kf-01.jpg"), bytes: b"hello".to_vec() },
        Frame { name: String::from("kf-03.jpg"), bytes: b"third".to_vec() },
    ];
    let encoded = order_and_encode_frames(frames, 2);
    assert_eq!(encoded.len(), 2);
    // base64 of "hello" and "second": the wrapper must really encode
    assert_eq!(encoded[0], "aGVsbG8=");
    assert_eq!(encoded[1], "c2Vjb25k");
}

#[test]
fn frames_within_cap_all_kept() {
    let frames = vec![Frame { name: String::from("kf-01.jpg"), bytes: b"x".to_vec() }];
    let encoded = order_and_encode_frames(frames, 6);
    assert_eq!(encoded.len(), 1);
    assert_eq!(encoded[0], "eA==");
}

// ---- capture metadata -------------------------------------------------------

#[test]
fn exif_first_non_empty_datetime_wins() {
    let mut image = Image::unset();
    let mut kws: Vec<String> = Vec::new();
    let entries = vec![
        ExifEntry { kind: ExifKind::DateTimeOriginal, text: String::from("   ") },
        ExifEntry {
            kind: ExifKind::DateTimeOriginal,
            text: String::from("  2023:01:01 10:00:00  "),
        },
        ExifEntry {
            kind: ExifKind::DateTimeOriginal,
            text: String::from("2024:06:30 12:00:00"),
        },
    ];
    apply_exif(&mut image, &mut kws, &entries);
    assert_eq!(image.exif_datetime.as_deref(), Some("2023:01:01 10:00:00"));
}

#[test]
fn exif_make_model_fold_into_keywords() {
    let mut image = Image::unset();
    let mut kws = vec![String::from("beach")];
    let entries = vec![
        ExifEntry { kind: ExifKind::Make, text: String::from("Canon") },
        ExifEntry { kind: ExifKind::Model, text: String::from("Canon EOS 80D") },
        ExifEntry { kind: ExifKind::OtherTag, text: String::from("ignored words") },
    ];
    apply_exif(&mut image, &mut kws, &entries);
    assert_eq!(kws, vec!["beach", "canon", "eos", "80d"]);
}

// ---- end-to-end scenario ----------------------------------------------------

#[test]
fn jpeg_with_exif_and_no_endpoint() {
    let file = LoadedFile {
        name: String::from("IMG_1234.jpg"),
        path: String::from("/nonexistent/IMG_1234.jpg"),
    };
    let probe = ProbeFacts {
        fs: FsFacts { size_bytes: Some(123_456), created_at: None, modified_at: None },
        image_dims: Some((4000, 3000)),
        exif: vec![ExifEntry { kind: ExifKind::Model, text: String::from("Canon EOS 80D") }],
        ffprobe: None,
        pdf: None,
    };
    let m = analyse_single(&file, &probe, None);
    assert_eq!(m.meta.file_type, "image");
    assert_eq!(m.meta.mime.as_deref(), Some("image/jpeg"));
    assert_eq!(m.meta.size_bytes, Some(123_456));
    assert_eq!(m.image.width, Some(4000));
    assert_eq!(m.image.height, Some(3000));
    assert!(m.tagging.raw_keywords.iter().any(|k| k == "canon"));
    assert!(m.tagging.raw_keywords.iter().any(|k| k == "eos"));
    assert!(m.tagging.tags.is_empty());
    assert!(m.tagging.topics.is_empty());
    assert_eq!(m.suggested.rename, "");
    // only the image sub-record is populated
    assert_eq!(m.video.width, None);
    assert_eq!(m.pdf.page_count, None);
}

// ---- batch independence -----------------------------------------------------

#[test]
fn batch_survives_one_degraded_item() {
    let good = |name: &str| AnalysisInput {
        file: LoadedFile { name: String::from(name), path: format!("/tmp/{name}") },
        probe: ProbeFacts {
            fs: FsFacts { size_bytes: Some(10), created_at: None, modified_at: None },
            image_dims: Some((100, 50)),
            exif: Vec::new(),
            ffprobe: None,
            pdf: None,
        },
        ai: None,
    };
    // the middle item stands for a path that does not exist: nothing could
    // be gathered for it
    let degraded = AnalysisInput {
        file: LoadedFile {
            name: String::from("missing.jpg"),
            path: String::from("/does/not/exist.jpg"),
        },
        probe: empty_probe(),
        ai: None,
    };
    let items = vec![good("a.png"), degraded, good("c.png")];
    let rs = analyse_batch(&items);
    assert_eq!(rs.len(), 3);
    assert_eq!(rs[0].image.width, Some(100));
    assert_eq!(rs[0].meta.file_type, "image");
    assert_eq!(rs[1].image.width, None);
    assert_eq!(rs[1].meta.file_type, "image");
    assert_eq!(rs[2].image.width, Some(100));
    assert_eq!(rs[2].meta.size_bytes, Some(10));
}
