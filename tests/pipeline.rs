use avis_imgv::callback::Callback;
use avis_imgv::config::{default_metadata_tags, default_name_format, default_output_icc_profile};
use avis_imgv::fields::FieldMap;
use avis_imgv::formats::{is_dir_hidden, is_invalid_file, is_raw_file, is_valid_file};
use avis_imgv::paths::file_name_string;
use avis_imgv::perf_metrics::PerfMetrics;
use avis_imgv::pipeline::{
    byte_source, color_plan, decoder_for, orientation_ops, profile_desc_to_icc,
    resize_dimensions, rgb_to_rgba, ByteSource, ColorPlan, Decoder, IccProfile, ProfileSource,
};
use avis_imgv::metadata::ImageOp;
use avis_imgv::text::capitalize_first_char;

#[test]
fn resize_keeps_aspect_and_never_enlarges() {
    assert_eq!(resize_dimensions(4000, 3000, 400), Some((400, 300)));
    assert_eq!(resize_dimensions(3000, 4000, 400), Some((300, 400)));
    assert_eq!(resize_dimensions(200, 100, 400), Some((200, 100)));
    assert_eq!(resize_dimensions(100, 300, 400), Some((100, 300)));
    assert_eq!(resize_dimensions(1000, 1, 10), None);
    assert_eq!(resize_dimensions(0, 10, 10), None);
}

#[test]
fn rgba_adds_opaque_alpha() {
    assert_eq!(rgb_to_rgba(&vec![1, 2, 3, 4, 5, 6, 7]), vec![1, 2, 3, 255, 4, 5, 6, 255]);
    assert!(rgb_to_rgba(&vec![]).is_empty());
}

#[test]
fn raw_files_read_their_preview() {
    assert!(is_raw_file("/p/a.RAF"));
    assert!(is_raw_file("b.nef"));
    assert!(!is_raw_file("/p/a.jpg"));
    assert_eq!(byte_source("/p/x.Cr3"), ByteSource::RawPreview);
    assert_eq!(byte_source("/p/x.png"), ByteSource::File);
}

#[test]
fn decoder_by_extension() {
    assert_eq!(decoder_for("/a/b.jxl"), Decoder::Jxl);
    assert_eq!(decoder_for("/a/b.JXL"), Decoder::Generic);
    assert_eq!(decoder_for("/a/b.jpg"), Decoder::Generic);
}

#[test]
fn orientation_skipped_for_upright_format() {
    let mut f = FieldMap::new();
    f.insert("Orientation".to_string(), "Rotate 90 CW".to_string());
    assert_eq!(orientation_ops("/a.jpg", &f), vec![ImageOp::Rotate90]);
    assert!(orientation_ops("/a.jxl", &f).is_empty());
}

#[test]
fn valid_and_hidden_files() {
    assert!(is_valid_file("/x/y.JPEG"));
    assert!(is_valid_file("z.jxl"));
    assert!(is_invalid_file("notes.txt"));
    assert!(is_invalid_file("/x/noext"));
    assert!(is_dir_hidden("/home/u/.cache"));
    assert!(!is_dir_hidden("/home/u/pics"));
    assert_eq!(file_name_string("/a/b/c.jpg"), "c.jpg");
    assert_eq!(file_name_string("/a/b/"), "b");
    assert_eq!(file_name_string("/"), "");
}

#[test]
fn profiles_by_description() {
    assert_eq!(profile_desc_to_icc("Adobe RGB (1998)"), Some(IccProfile::AdobeRgb));
    assert_eq!(profile_desc_to_icc("Display P3"), Some(IccProfile::DisplayP3));
    assert_eq!(profile_desc_to_icc("sRGB IEC61966-2.1"), Some(IccProfile::Srgb));
    assert_eq!(profile_desc_to_icc("ProPhoto"), None);
}

#[test]
fn color_plan_choices() {
    let srgb = "sRGB IEC61966-2.1".to_string();
    assert_eq!(color_plan(Some(&srgb), "srgb"), ColorPlan::Keep);
    let wide_gamut = "Display P3".to_string();
    assert_eq!(
        color_plan(Some(&wide_gamut), "srgb"),
        ColorPlan::Transform { input: ProfileSource::Builtin(IccProfile::DisplayP3), output: IccProfile::Srgb }
    );
    let other = "Camera profile".to_string();
    assert_eq!(
        color_plan(Some(&other), "srgb"),
        ColorPlan::Transform { input: ProfileSource::Embedded, output: IccProfile::Srgb }
    );
    assert_eq!(color_plan(Some(&other), "rec2020"), ColorPlan::Keep);
    assert_eq!(color_plan(None, "srgb"), ColorPlan::Keep);
}

#[test]
fn capitalize_uses_unicode_upper_case() {
    assert_eq!(capitalize_first_char("arrowRight"), "ArrowRight");
    assert_eq!(capitalize_first_char("ß"), "SS");
    assert_eq!(capitalize_first_char(""), "");
}

#[test]
fn defaults_and_callbacks() {
    assert_eq!(default_output_icc_profile(), "srgb");
    assert_eq!(default_metadata_tags().len(), 11);
    assert!(default_name_format().starts_with("$(#File Name#)"));
    assert_eq!(
        Callback::from_callback(Callback::Pop(None), Some("/a".to_string())),
        Callback::Pop(Some("/a".to_string()))
    );
    assert_eq!(Callback::from_name("Reload"), Callback::Reload(None));
    assert_eq!(Callback::from_name("??"), Callback::NoAction);
    assert_eq!(Callback::ReloadAll.name(), "ReloadAll");
}

#[test]
fn frame_metrics_track_longest() {
    let mut m = PerfMetrics::new();
    m.record_frame(5, 5000);
    m.record_frame(3, 3000);
    m.record_frame(0, 10);
    assert_eq!(m.longest_frametime(), 5);
    assert_eq!(m.longest_recent_frametime(), 3);
    assert_eq!(m.current_frametime_micros(), 10);
    m.new_frame();
    m.end_frame();
    assert!(m.longest_frametime() >= m.current_frametime());
}
