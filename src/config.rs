//! Configuration records and their default values.
use vstd::prelude::*;
use crate::callback::Callback;

verus! {

/// A metadata field offered as a filter.
#[derive(Clone, Debug)]
pub struct FilterableExifTag {
    pub name: String,
    pub fetch_distinct: bool,
}

/// The filters offered when the browser starts.
#[derive(Clone, Debug)]
pub struct FilterConfig {
    pub exif_tags: Vec<FilterableExifTag>,
}

/// A keyboard shortcut as a configuration writes it.
#[derive(Clone, Debug)]
pub struct ShortcutData {
    pub key: String,
    pub modifiers: Vec<String>,
}

/// A user command offered in a context menu.
#[derive(Clone, Debug)]
pub struct ContextMenuEntry {
    pub description: String,
    pub command: String,
    pub callback: Option<Callback>,
}

pub fn default_limit_cached() -> (r: u32)
    ensures
        r == 100000,
{
    100000
}

pub fn default_output_icc_profile() -> (r: String)
    ensures
        r@ == "srgb"@,
{
    String::from_str("srgb")
}

pub fn default_nr_loaded_images() -> (r: usize)
    ensures
        r == 4,
{
    4
}

pub fn default_should_wait() -> (r: bool)
    ensures
        r,
{
    true
}

pub fn default_metadata_tags() -> (r: Vec<String>)
    ensures
        r@.map_values(|s: String| s@) == seq![
            "Date/Time Original"@,
            "Created Date"@,
            "Camera Model Name"@,
            "Lens Model"@,
            "Focal Length"@,
            "Aperture Value"@,
            "Exposure Time"@,
            "ISO"@,
            "Image Size"@,
            "Color Space"@,
            "Directory"@,
        ],
{
    let r = vec![
        String::from_str("Date/Time Original"),
        String::from_str("Created Date"),
        String::from_str("Camera Model Name"),
        String::from_str("Lens Model"),
        String::from_str("Focal Length"),
        String::from_str("Aperture Value"),
        String::from_str("Exposure Time"),
        String::from_str("ISO"),
        String::from_str("Image Size"),
        String::from_str("Color Space"),
        String::from_str("Directory"),
    ];
    proof {
        assert(r@.map_values(|s: String| s@) =~= seq![
            "Date/Time Original"@,
            "Created Date"@,
            "Camera Model Name"@,
            "Lens Model"@,
            "Focal Length"@,
            "Aperture Value"@,
            "Exposure Time"@,
            "ISO"@,
            "Image Size"@,
            "Color Space"@,
            "Directory"@,
        ]);
    }
    r
}

pub fn default_scroll_navigation() -> (r: bool)
    ensures
        r,
{
    true
}

pub fn default_name_format() -> (r: String)
    ensures
        r@ == "$(#File Name#)$( • ƒ#Aperture#)$( • #Shutter Speed#)$( • #ISO# ISO)"@,
{
    String::from_str("$(#File Name#)$( • ƒ#Aperture#)$( • #Shutter Speed#)$( • #ISO# ISO)")
}

pub fn default_ctx_menu() -> (r: Vec<ContextMenuEntry>)
    ensures
        r@.len() == 0,
{
    Vec::new()
}

pub fn default_images_per_row() -> (r: usize)
    ensures
        r == 5,
{
    5
}

pub fn default_preloaded_rows() -> (r: usize)
    ensures
        r == 1,
{
    1
}

pub fn default_simultaneous_load() -> (r: usize)
    ensures
        r == 8,
{
    8
}

pub fn default_exif_tags() -> (r: Vec<FilterableExifTag>)
    ensures
        r@.len() == 0,
{
    Vec::new()
}

impl FilterConfig {
    pub fn new() -> (r: FilterConfig)
        ensures
            r.exif_tags@.len() == 0,
    {
        FilterConfig { exif_tags: default_exif_tags() }
    }
}

} // verus!
