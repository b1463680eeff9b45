//! The indexer's per-file logic: classifying files as images by
//! extension, and assembling a manifest entry from a document's text,
//! the image catalog, and the file's stat data. The filesystem walk
//! that feeds it lives with the caller.

use vstd::prelude::*;

use crate::frontmatter::{extract_frontmatter, fb_pairs, fm_block, last_pair, yaml_pairs_of};
use crate::images::{dedup_first, find_images, markers_of, resolve_names};
use crate::models::{duplicate_imgs, meta_lookup, Img, JsonEntry, MetaMap};
use crate::text::{lower_of, lowercase, str_eq};

verus! {

/// Position of the last `.` of a file name, if any.
pub open spec fn last_dot(name: Seq<char>) -> Option<int>
    decreases name.len(),
{
    if name.len() == 0 {
        None
    } else if name.last() == '.' {
        Some(name.len() - 1)
    } else {
        last_dot(name.drop_last())
    }
}

/// The image extensions the indexer recognises.
pub open spec fn is_image_ext(ext: Seq<char>) -> bool {
    ext == "png"@ || ext == "jpg"@ || ext == "jpeg"@ || ext == "webp"@ || ext == "bmp"@ || ext
        == "tiff"@ || ext == "gif"@
}

/// Whether a file name names an image: it has an extension (a final
/// `.` that is neither first nor last) whose lowercase form is one of
/// png, jpg, jpeg, webp, bmp, tiff, gif.
pub open spec fn spec_is_image_name(name: Seq<char>) -> bool {
    match last_dot(name) {
        Some(d) => d > 0 && d + 1 < name.len() && is_image_ext(
            lower_of(name.subrange(d + 1, name.len() as int)),
        ),
        None => false,
    }
}

/// Finds the last `.` of a file name.
fn find_last_dot(name: &str) -> (r: Option<usize>)
    ensures
        match r {
            Some(d) => d < name@.len() && last_dot(name@) == Some(d as int),
            None => last_dot(name@) is None,
        },
{
    let n = name.unicode_len();
    proof {
        assert(name@.subrange(0, n as int) =~= name@);
    }
    let mut j: usize = n;
    while j > 0
        invariant
            0 <= j <= n,
            n == name@.len(),
            last_dot(name@) == last_dot(name@.subrange(0, j as int)),
        decreases j,
    {
        let ghost pre = name@.subrange(0, j as int);
        proof {
            assert(pre.last() == name@[j - 1]);
            assert(pre.drop_last() =~= name@.subrange(0, j - 1));
        }
        if name.get_char(j - 1) == '.' {
            return Some(j - 1);
        }
        j -= 1;
    }
    proof {
        assert(name@.subrange(0, 0) =~= Seq::<char>::empty());
    }
    None
}

/// Classifies a file name as an image by its extension.
pub fn is_image_file(name: &str) -> (r: bool)
    ensures
        r == spec_is_image_name(name@),
{
    let n = name.unicode_len();
    let d = match find_last_dot(name) {
        Some(d) => d,
        None => {
            return false;
        },
    };
    if d == 0 || d + 1 >= n {
        return false;
    }
    let ext = lowercase(name.substring_char(d + 1, n));
    let r = str_eq(ext.as_str(), "png") || str_eq(ext.as_str(), "jpg") || str_eq(
        ext.as_str(),
        "jpeg",
    ) || str_eq(ext.as_str(), "webp") || str_eq(ext.as_str(), "bmp") || str_eq(
        ext.as_str(),
        "tiff",
    ) || str_eq(ext.as_str(), "gif");
    r
}

/// The value the frontmatter of a document binds `k` to: through the
/// YAML parse when it succeeds, through the fallback parser when it
/// fails, and nothing when the document has no block.
pub open spec fn spec_fm_lookup(t: Seq<char>, k: Seq<char>) -> Option<Seq<char>> {
    match fm_block(t) {
        None => None,
        Some(y) => match yaml_pairs_of(y) {
            Some(pairs) => last_pair(pairs, k),
            None => last_pair(fb_pairs(y), k),
        },
    }
}

/// Assembles the manifest entry of one document: the given root-relative
/// path and byte size; type `file`; the display name from the
/// frontmatter's `name`, the base file name otherwise; the date from the
/// frontmatter's `date`, the filesystem date otherwise; the images the
/// text embeds, resolved against the catalog; and the full frontmatter
/// metadata.
pub fn make_entry(
    path_str: String,
    base_name: String,
    size: u64,
    fs_date: Option<String>,
    text: &str,
    catalog: &Vec<Img>,
) -> (r: JsonEntry)
    ensures
        r@.path == path_str@,
        r@.entry_type == "file"@,
        r@.size == size,
        r@.name == (match spec_fm_lookup(text@, "name"@) {
            Some(v) => v,
            None => base_name@,
        }),
        r@.date == (match spec_fm_lookup(text@, "date"@) {
            Some(v) => Some(v),
            None => match fs_date {
                Some(d) => Some(d@),
                None => None::<Seq<char>>,
            },
        }),
        r@.images == resolve_names(dedup_first(markers_of(text@)), catalog@),
        forall|k: Seq<char>| meta_lookup(r@.metadata, k) == spec_fm_lookup(text@, k),
        r.metadata.wf(),
{
    let metadata = extract_frontmatter(text);
    proof {
        if fm_block(text@) is None {
            assert forall|k: Seq<char>| meta_lookup(metadata@, k) == spec_fm_lookup(
                text@,
                k,
            ) by {
                assert(metadata@.len() == 0);
                assert(meta_lookup(metadata@, k) is None);
            }
        }
    }
    let images = find_images(text, duplicate_imgs(catalog));
    let name = match metadata.get("name") {
        Some(v) => v.clone(),
        None => base_name,
    };
    let date = match metadata.get("date") {
        Some(v) => Some(v.clone()),
        None => fs_date,
    };
    JsonEntry {
        path: path_str,
        entry_type: "file".to_owned(),
        size,
        name,
        date,
        images,
        metadata,
    }
}

} // verus!
