use avis_imgv::fields::FieldMap;
use avis_imgv::metadata::{ImageOp, Metadata, Orientation};

fn strings(v: &[&str]) -> Vec<String> {
    v.iter().map(|s| s.to_string()).collect()
}

fn fields(pairs: &[(&str, &str)]) -> FieldMap {
    let mut m = FieldMap::new();
    for (k, v) in pairs {
        m.insert(k.to_string(), v.to_string());
    }
    m
}

#[test]
fn test_format_string_with_metadata() {
    let input = "$(#File Name#)$( • ƒ#Aperture#)$( • #Shutter Speed#)$( • #ISO# ISO)";
    let metadata = fields(&[("File Name", "test.jpg"), ("Aperture", "5.0"), ("ISO", "500")]);
    assert_eq!(
        Metadata::format_string_with_metadata(input, &metadata),
        "test.jpg • ƒ5.0 • 500 ISO".to_string()
    );
}

#[test]
fn format_round_trip_with_three_fields() {
    let input = "$(#File Name#)$( • ƒ#Aperture#)$( • #ISO# ISO)";
    let metadata = fields(&[("File Name", "test.jpg"), ("Aperture", "5.0"), ("ISO", "500")]);
    assert_eq!(
        Metadata::format_string_with_metadata(input, &metadata),
        "test.jpg • ƒ5.0 • 500 ISO"
    );
}

#[test]
fn format_drops_token_of_absent_field() {
    let metadata = fields(&[("ISO", "500")]);
    assert_eq!(
        Metadata::format_string_with_metadata("a$( • ƒ#Aperture#)b$( #ISO#)", &metadata),
        "ab 500"
    );
}

#[test]
fn format_keeps_text_that_is_no_token() {
    let metadata = fields(&[("ISO", "500")]);
    assert_eq!(Metadata::format_string_with_metadata("$(ISO) #ISO# $(#ISO#", &metadata), "$(ISO) #ISO# $(#ISO#");
    assert_eq!(Metadata::format_string_with_metadata("", &metadata), "");
}

#[test]
fn test_group_raw_jpg_paths() {
    // Single JPG file
    let paths = strings(&["photo1.JPG"]);
    assert_eq!(Metadata::group_raw_jpg_paths(&paths), strings(&["photo1.JPG"]));

    // Single RAF file
    let paths = strings(&["photo1.RAF"]);
    assert_eq!(Metadata::group_raw_jpg_paths(&paths), strings(&["photo1.RAF"]));

    // RAF and JPG with same stem, should prefer JPG
    let paths = strings(&["photo1.RAF", "photo1.JPG"]);
    assert_eq!(Metadata::group_raw_jpg_paths(&paths), strings(&["photo1.JPG"]));

    // JPG and RAF with same stem (reversed order), should prefer JPG
    let paths = strings(&["photo1.JPG", "photo1.RAF"]);
    assert_eq!(Metadata::group_raw_jpg_paths(&paths), strings(&["photo1.JPG"]));

    // Multiple pairs
    let paths = strings(&["photo1.RAF", "photo1.JPG", "photo2.RAF", "photo2.JPG"]);
    assert_eq!(
        Metadata::group_raw_jpg_paths(&paths),
        strings(&["photo1.JPG", "photo2.JPG"])
    );

    // Mixed, some with pairs, some without
    let paths = strings(&["photo1.RAF", "photo1.JPG", "photo2.JPG", "photo3.RAF"]);
    assert_eq!(
        Metadata::group_raw_jpg_paths(&paths),
        strings(&["photo1.JPG", "photo2.JPG", "photo3.RAF"])
    );

    // Unsorted input
    let paths = strings(&["photo3.RAF", "photo1.JPG", "photo2.RAF", "photo1.RAF"]);
    assert_eq!(
        Metadata::group_raw_jpg_paths(&paths),
        strings(&["photo1.JPG", "photo2.RAF", "photo3.RAF"])
    );

    // Multiple RAFs with same stem (no JPG)
    let paths = strings(&["photo1.RAF", "photo1.RAF"]);
    assert_eq!(Metadata::group_raw_jpg_paths(&paths), strings(&["photo1.RAF"]));

    // Empty input
    let paths: Vec<String> = vec![];
    assert_eq!(Metadata::group_raw_jpg_paths(&paths), Vec::<String>::new());
}

#[test]
fn raw_jpeg_pairing_prefers_non_raw() {
    let paths = strings(&["a.RAF", "a.JPG", "b.RAF"]);
    assert_eq!(Metadata::group_raw_jpg_paths(&paths), strings(&["a.JPG", "b.RAF"]));
}

#[test]
fn orientation_rotate_90_maps_to_one_rotation() {
    let o = Orientation::from_orientation_metadata("Rotate 90 CW");
    assert_eq!(o, Orientation::Rotate90CW);
    assert_eq!(o.ops(), vec![ImageOp::Rotate90]);
}

#[test]
fn orientation_unknown_or_missing_is_identity() {
    let o = Orientation::from_orientation_metadata("upside down");
    assert_eq!(o, Orientation::Normal);
    assert!(o.ops().is_empty());
    assert_eq!(Metadata::orientation_for(&FieldMap::new()), Orientation::Normal);
    let f = fields(&[("Orientation", "Mirror horizontal and rotate 270 CW")]);
    assert_eq!(
        Metadata::orientation_for(&f).ops(),
        vec![ImageOp::FlipHorizontal, ImageOp::Rotate270]
    );
}

#[test]
fn parse_record_reads_path_and_fields() {
    let rec = " /tmp/a.jpg\nFile Name : a.jpg\nDate/Time Original  : 2020:01:02 10:11:12\n\nno colon here\nISO: 100\r\nISO : 200\n";
    let (path, f) = Metadata::parse_exiftool_output_str(rec).unwrap();
    assert_eq!(path, "/tmp/a.jpg");
    assert_eq!(f.get(&"File Name".to_string()).unwrap(), "a.jpg");
    assert_eq!(
        f.get(&"Date/Time Original".to_string()).unwrap(),
        "2020:01:02 10:11:12"
    );
    assert_eq!(f.get(&"ISO".to_string()).unwrap(), "200");
    assert!(f.get(&"no colon here".to_string()).is_none());
}

#[test]
fn parse_record_with_empty_first_line_is_none() {
    assert!(Metadata::parse_exiftool_output_str("\nISO : 1").is_none());
    assert!(Metadata::parse_exiftool_output_str("").is_none());
}

#[test]
fn split_and_parse_several_records() {
    let out = "======== /p/a.jpg\nISO : 100\n======== /p/b.jpg\nISO : 200\n";
    assert_eq!(
        Metadata::split_records(out),
        vec!["".to_string(), " /p/a.jpg\nISO : 100\n".to_string(), " /p/b.jpg\nISO : 200\n".to_string()]
    );
    let recs = Metadata::parse_exiftool_output(out, None);
    assert_eq!(recs.len(), 2);
    assert_eq!(recs[0].0, "/p/a.jpg");
    assert_eq!(recs[1].0, "/p/b.jpg");
    assert_eq!(recs[1].1.get(&"ISO".to_string()).unwrap(), "200");
}

#[test]
fn single_file_run_takes_given_path() {
    let out = "ExifTool Version Number : 12.0\nISO : 100\n";
    let p = "/p/only.jpg".to_string();
    let recs = Metadata::parse_exiftool_output(out, Some(&p));
    assert_eq!(recs.len(), 1);
    assert_eq!(recs[0].0, "/p/only.jpg");
    assert_eq!(recs[0].1.get(&"ISO".to_string()).unwrap(), "100");
}

#[test]
fn caching_twice_extracts_nothing_the_second_time() {
    let paths = strings(&["/a.jpg", "/b.jpg", "/c.jpg"]);
    let mut store = strings(&["/b.jpg"]);
    let first = Metadata::paths_to_cache(&paths, &store);
    assert_eq!(first, strings(&["/a.jpg", "/c.jpg"]));
    store.extend(first);
    let second = Metadata::paths_to_cache(&paths, &store);
    assert!(second.is_empty());
}

#[test]
fn chunk_bounds_split_evenly_with_short_tail() {
    assert_eq!(Metadata::chunk_bounds(0, 500), vec![]);
    assert_eq!(Metadata::chunk_bounds(1200, 500), vec![(0, 500), (500, 1000), (1000, 1200)]);
    assert_eq!(Metadata::chunk_bounds(250, 125), vec![(0, 125), (125, 250)]);
}

#[test]
fn estimate_is_average_times_remaining() {
    // 3 chunks took 90 s: 30 s each, 5 left -> 150 s = 2 m 30 s.
    assert_eq!(Metadata::estimate_remaining(90_000, 3, 8), Some((2, 30)));
    assert_eq!(Metadata::estimate_remaining(90_000, 8, 8), None);
    assert_eq!(Metadata::estimate_remaining(90_000, 0, 8), None);
}

#[test]
fn json_round_trip_of_fields() {
    let f = fields(&[("ISO", "100"), ("Aperture", "5.6"), ("ISO", "200")]);
    let text = Metadata::fields_to_json(&f);
    assert_eq!(text, "{\"Aperture\":\"5.6\",\"ISO\":\"200\"}");
    let back = Metadata::fields_from_json(&text);
    assert_eq!(back.get(&"ISO".to_string()).unwrap(), "200");
    assert_eq!(back.get(&"Aperture".to_string()).unwrap(), "5.6");
    assert!(Metadata::fields_from_json("not json").pairs().is_empty());
}

#[test]
fn metadata_rows_pair_paths_with_json() {
    let recs = vec![("/a.jpg".to_string(), fields(&[("ISO", "1")]))];
    assert_eq!(
        Metadata::metadata_rows(&recs),
        vec![("/a.jpg".to_string(), "{\"ISO\":\"1\"}".to_string())]
    );
}

#[test]
fn moved_files_are_those_that_no_longer_exist() {
    let paths = strings(&["/a", "/b", "/c"]);
    assert_eq!(
        Metadata::clear_moved_files(&paths, &vec![true, false, false]),
        strings(&["/b", "/c"])
    );
    assert_eq!(
        Metadata::clean_moved_files(&paths, &vec![true, true, true]),
        Vec::<String>::new()
    );
}

#[test]
fn grouping_joins_same_stem_across_other_names() {
    let paths = strings(&["a.jpg", "a.k.jpg", "a.raf"]);
    assert_eq!(Metadata::group_raw_jpg_paths(&paths), strings(&["a.jpg", "a.k.jpg"]));
    let paths = strings(&["a.raf", "a.b.jpg", "a.nef"]);
    assert_eq!(Metadata::group_raw_jpg_paths(&paths), strings(&["a.b.jpg", "a.nef"]));
}
