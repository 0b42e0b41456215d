//! Names of the files the app keeps beside its settings: break images copied
//! into its own store, and the fullscreen overlay windows.
use crate::ids::{is_v4_uuid, new_uuid, spec_uuid_text, uuid_text};
use crate::tray::{decimal_string, spec_decimal};
use vstd::prelude::*;

verus! {

broadcast use vstd::string::group_string_axioms;

/// The extension a stored image keeps: the picked file's own, or "png".
pub open spec fn stored_extension(ext: Option<&str>) -> Seq<char> {
    match ext {
        Some(e) => e@,
        None => "png"@,
    }
}

/// The store name `id.ext` for an image picked with extension `ext`.
pub fn image_filename(id: &str, ext: Option<&str>) -> (r: String)
    ensures
        r@ == id@ + "."@ + stored_extension(ext),
{
    let mut r = id.to_string();
    r.append(".");
    match ext {
        Some(e) => r.append(e),
        None => r.append("png"),
    }
    r
}

/// A fresh store name for a picked image: a random UUID, a dot and the
/// image's extension (or "png"), so the stored image never depends on the
/// picked file's path again.
pub fn new_image_filename(ext: Option<&str>) -> (r: String)
    ensures
        exists|id: u128| is_v4_uuid(id) && r@ == spec_uuid_text(id) + "."@ + stored_extension(ext),
{
    let id = new_uuid();
    let text = uuid_text(id);
    image_filename(text.as_str(), ext)
}

/// The label of the overlay window on monitor `index` when one window is
/// opened per monitor.
pub fn overlay_label(index: usize) -> (r: String)
    requires
        index <= i64::MAX,
    ensures
        r@ == "overlay-"@ + spec_decimal(index as nat),
{
    let mut r = "overlay-".to_string();
    let n = decimal_string(index as i64);
    r.append(n.as_str());
    r
}

/// The labels of the overlay windows a fullscreen break opens on
/// `monitor_count` chosen monitors: one per monitor, or, when no monitor
/// could be found, a single fullscreen window labelled "overlay".
pub fn overlay_window_labels(monitor_count: usize) -> (r: Vec<String>)
    requires
        monitor_count <= i64::MAX,
    ensures
        monitor_count == 0 ==> r@.len() == 1 && r@[0]@ == "overlay"@,
        monitor_count > 0 ==> r@.len() == monitor_count && forall|i: int|
            0 <= i < monitor_count ==> (#[trigger] r@[i])@ == "overlay-"@ + spec_decimal(i as nat),
{
    let mut r: Vec<String> = Vec::new();
    if monitor_count == 0 {
        r.push("overlay".to_string());
        return r;
    }
    let mut i: usize = 0;
    while i < monitor_count
        invariant
            i <= monitor_count <= i64::MAX,
            r@.len() == i,
            forall|j: int| 0 <= j < i ==> (#[trigger] r@[j])@ == "overlay-"@ + spec_decimal(j as nat),
        decreases monitor_count - i,
    {
        r.push(overlay_label(i));
        i = i + 1;
    }
    r
}

/// Whether a window label names a break overlay window (the single
/// fullscreen one is labelled just "overlay").
pub fn is_overlay_label(label: &str) -> (r: bool)
    ensures
        r == "overlay"@.is_prefix_of(label@),
{
    let prefix = "overlay";
    proof {
        reveal_strlit("overlay");
    }
    let n = prefix.unicode_len();
    let m = label.unicode_len();
    if m < n {
        return false;
    }
    let mut i: usize = 0;
    while i < n
        invariant
            prefix@ == "overlay"@,
            n == prefix@.len(),
            m == label@.len(),
            n <= m,
            i <= n,
            forall|j: int| 0 <= j < i ==> prefix@[j] == label@[j],
        decreases n - i,
    {
        if prefix.get_char(i) != label.get_char(i) {
            proof {
                assert(label@.subrange(0, n as int)[i as int] != prefix@[i as int]);
            }
            return false;
        }
        i = i + 1;
    }
    proof {
        assert(label@.subrange(0, n as int) =~= prefix@);
    }
    true
}

} // verus!
