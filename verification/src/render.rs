//! Document rendering helpers: inline image replacement, the readme
//! heading block, and the tag-list form of a debug-printed sequence.

use vstd::prelude::*;

use crate::codec::{blurhash_pixels_of, get_base64_from_blurhash};
use crate::bitmap::{base64_of, bmp_bytes, rgb_of_rgba};
use crate::models::{Img, JsonEntry};
use crate::text::{first_char, lower_of, lowercase, str_eq};

verus! {

/// What `str::replace` yields: every non-overlapping occurrence of
/// `pat`, found left to right, replaced by `to`.
pub open spec fn replaced(s: Seq<char>, pat: Seq<char>, to: Seq<char>) -> Seq<char>
    decreases s.len(),
        when pat.len() > 0
{
    if s.len() < pat.len() {
        s
    } else if s.subrange(0, pat.len() as int) == pat {
        to + replaced(s.subrange(pat.len() as int, s.len() as int), pat, to)
    } else {
        seq![s[0]] + replaced(s.subrange(1, s.len() as int), pat, to)
    }
}

/// Relies on `str::replace`: replaces every non-overlapping occurrence
/// of `pat` in `s` by `to`, scanning left to right.
#[verifier::external_body]
fn replace_all(s: &str, pat: &str, to: &str) -> (r: String)
    requires
        pat@.len() > 0,
    ensures
        r@ == replaced(s@, pat@, to@),
{
    s.replace(pat, to)
}

/// The base64 bitmap preview of a perceptual hash, at 64 by 64; an
/// invalid hash yields an empty preview.
pub open spec fn preview_b64(hash: Seq<char>) -> Seq<char> {
    match blurhash_pixels_of(hash, 64, 64) {
        Some(pixels) => base64_of(bmp_bytes(rgb_of_rgba(pixels), 64, 64)),
        None => Seq::empty(),
    }
}

/// The embed pattern of an image: `![[NAME]]`.
pub open spec fn embed_pattern(img: Img) -> Seq<char> {
    "![["@ + img.name@ + "]]"@
}

/// The inline markup one image is replaced by: a wrapper div carrying
/// the aspect ratio, the blurred base64 preview, and the real image
/// from the content tree.
pub open spec fn img_html(img: Img, base: Seq<char>) -> Seq<char> {
    "<div class=\"article-image-wrap\" style=\"aspect-ratio: "@ + img.aspect_ratio@ + ";\">\n                <img class=\"article-image-blur\" src=\"data:image/bmp;base64,"@
        + preview_b64(img.blurhash@) + "\" alt=\"blurred image\" />\n                <img class=\"photo-card-img article-image\" src=\""@
        + base + "/content"@ + img.path@ + "\" alt=\""@ + img.name@
        + "\" loading=\"lazy\" onload=\"this.style.opacity=1\" />\n            </div>"@
}

/// The document text with every image's embed markers replaced by its
/// inline markup, image by image in catalog order.
pub open spec fn replace_images_spec(content: Seq<char>, imgs: Seq<Img>, base: Seq<char>) -> Seq<
    char,
>
    decreases imgs.len(),
{
    if imgs.len() == 0 {
        content
    } else {
        replace_images_spec(
            replaced(content, embed_pattern(imgs[0]), img_html(imgs[0], base)),
            imgs.subrange(1, imgs.len() as int),
            base,
        )
    }
}

/// Builds the inline markup of one image.
fn image_html(img: &Img, base_url: &str) -> (r: String)
    ensures
        r@ == img_html(*img, base_url@),
{
    let b64 = get_base64_from_blurhash(img.blurhash.as_str());
    let mut h = "<div class=\"article-image-wrap\" style=\"aspect-ratio: ".to_owned();
    h.append(img.aspect_ratio.as_str());
    h.append(";\">\n                <img class=\"article-image-blur\" src=\"data:image/bmp;base64,");
    h.append(b64.as_str());
    h.append("\" alt=\"blurred image\" />\n                <img class=\"photo-card-img article-image\" src=\"");
    h.append(base_url);
    h.append("/content");
    h.append(img.path.as_str());
    h.append("\" alt=\"");
    h.append(img.name.as_str());
    h.append("\" loading=\"lazy\" onload=\"this.style.opacity=1\" />\n            </div>");
    proof {
        assert(b64@ =~= preview_b64(img.blurhash@));
        assert(h@ =~= img_html(*img, base_url@));
    }
    h
}

/// Replaces every `![[NAME]]` embed marker of a catalogued image by its
/// inline markup; markers of unknown images stay as they are.
pub fn replace_images(content: &str, images: &Vec<Img>, base_url: &str) -> (r: String)
    ensures
        r@ == replace_images_spec(content@, images@, base_url@),
{
    let mut result = content.to_owned();
    let n = images.len();
    let mut i: usize = 0;
    proof {
        assert(images@.subrange(0, n as int) =~= images@);
    }
    while i < n
        invariant
            n == images@.len(),
            0 <= i <= n,
            replace_images_spec(content@, images@, base_url@) == replace_images_spec(
                result@,
                images@.subrange(i as int, n as int),
                base_url@,
            ),
        decreases n - i,
    {
        let ghost rest = images@.subrange(i as int, n as int);
        proof {
            assert(rest[0] == images@[i as int]);
            assert(rest.subrange(1, rest.len() as int) =~= images@.subrange(i + 1, n as int));
        }
        let img = &images[i];
        let mut pattern = "![[".to_owned();
        pattern.append(img.name.as_str());
        pattern.append("]]");
        proof {
            reveal_strlit("![[");
            assert(pattern@ =~= embed_pattern(images@[i as int]));
            assert(pattern@.len() > 0);
        }
        let html = image_html(img, base_url);
        result = replace_all(result.as_str(), pattern.as_str(), html.as_str());
        i += 1;
    }
    proof {
        assert(images@.subrange(i as int, n as int) =~= Seq::<Img>::empty());
    }
    result
}

/// Opens the page-title block with the readme's rendered body, and
/// removes the first entry named `readme.md` (ignoring case) from the
/// listing so it is not shown twice.
pub fn load_readme(content: &mut Vec<JsonEntry>, html: &mut String, document: &String)
    ensures
        final(html)@ == old(html)@ + "<div class=\"page-title\">"@ + document@ + "</div>"@,
        (exists|i: int| 0 <= i < old(content)@.len() && lower_of(
            #[trigger] old(content)@[i]@.name,
        ) == "readme.md"@) ==> exists|i: int|
            0 <= i < old(content)@.len() && lower_of(#[trigger] old(content)@[i]@.name)
                == "readme.md"@ && (forall|j: int|
                0 <= j < i ==> lower_of(old(content)@[j]@.name) != "readme.md"@) && final(content)@
                == old(content)@.remove(i),
        (forall|i: int|
            0 <= i < old(content)@.len() ==> lower_of(#[trigger] old(content)@[i]@.name)
                != "readme.md"@) ==> final(content)@ == old(content)@,
{
    html.append("<div class=\"page-title\">");
    match readme_position(content) {
        Some(i) => {
            let removed = content.remove(i);
        },
        None => {
        },
    }
    html.append(document.as_str());
    html.append("</div>");
}

/// Position of the first entry named `readme.md`, ignoring case.
fn readme_position(content: &Vec<JsonEntry>) -> (r: Option<usize>)
    ensures
        match r {
            Some(i) => i < content@.len() && lower_of(content@[i as int]@.name) == "readme.md"@
                && forall|j: int| 0 <= j < i ==> lower_of(#[trigger] content@[j]@.name)
                != "readme.md"@,
            None => forall|i: int| 0 <= i < content@.len() ==> lower_of(
                #[trigger] content@[i]@.name,
            ) != "readme.md"@,
        },
{
    let n = content.len();
    let mut i: usize = 0;
    while i < n
        invariant
            n == content@.len(),
            0 <= i <= n,
            forall|j: int| 0 <= j < i ==> lower_of(#[trigger] content@[j]@.name) != "readme.md"@,
        decreases n - i,
    {
        let lowered = lowercase(content[i].name.as_str());
        if str_eq(lowered.as_str(), "readme.md") {
            return Some(i);
        }
        i += 1;
    }
    None
}


/// The debug-printed string item starting at position `i`, if one
/// matches there: `String("`, a capture without double quotes, then
/// `")`. Returns the capture and the position just past it.
pub open spec fn dbg_at(t: Seq<char>, i: nat) -> Option<(Seq<char>, nat)> {
    if i + 8 <= t.len() && t[i as int] == 'S' && t[i as int + 1] == 't' && t[i as int + 2] == 'r'
        && t[i as int + 3] == 'i' && t[i as int + 4] == 'n' && t[i as int + 5] == 'g' && t[i as int
        + 6] == '(' && t[i as int + 7] == '"' {
        match first_char(t, '"', i + 8) {
            Some(j) => if i + 8 <= j && j + 1 < t.len() && t[j as int + 1] == ')' {
                Some((t.subrange(i as int + 8, j as int), (j + 2) as nat))
            } else {
                None
            },
            None => None,
        }
    } else {
        None
    }
}

/// All debug-printed string items at or after `i`, in order.
pub open spec fn dbg_from(t: Seq<char>, i: nat) -> Seq<Seq<char>>
    decreases t.len() - i,
{
    if i >= t.len() {
        Seq::empty()
    } else {
        match dbg_at(t, i) {
            Some(pair) => seq![pair.0] + dbg_from(t, pair.1),
            None => dbg_from(t, (i + 1) as nat),
        }
    }
}

/// The items joined by the separator.
pub open spec fn joined(items: Seq<Seq<char>>, sep: Seq<char>) -> Seq<char>
    decreases items.len(),
{
    if items.len() == 0 {
        Seq::empty()
    } else if items.len() == 1 {
        items[0]
    } else {
        joined(items.drop_last(), sep) + sep + items.last()
    }
}

/// Collects the debug-printed string items of `s`, in order.
fn scan_debug_items(s: &str) -> (r: Vec<String>)
    ensures
        r@.map_values(|x: String| x@) == dbg_from(s@, 0),
{
    let n = s.unicode_len();
    let mut found: Vec<String> = Vec::new();
    let mut i: usize = 0;
    while i < n
        invariant
            n == s@.len(),
            0 <= i <= n,
            dbg_from(s@, 0) == found@.map_values(|x: String| x@) + dbg_from(s@, i as nat),
        decreases n - i,
    {
        let ghost pre = found@.map_values(|x: String| x@);
        let mut matched = false;
        if n >= 8 && i <= n - 8 && s.get_char(i) == 'S' && s.get_char(i + 1) == 't' && s.get_char(
            i + 2,
        ) == 'r' && s.get_char(i + 3) == 'i' && s.get_char(i + 4) == 'n' && s.get_char(i + 5)
            == 'g' && s.get_char(i + 6) == '(' && s.get_char(i + 7) == '"' {
            if let Some(j) = crate::text::find_char(s, '"', i + 8) {
                if j + 1 < n && s.get_char(j + 1) == ')' {
                    let item = s.substring_char(i + 8, j).to_owned();
                    proof {
                        assert(dbg_at(s@, i as nat) == Some(
                            (s@.subrange(i as int + 8, j as int), (j + 2) as nat),
                        ));
                    }
                    found.push(item);
                    proof {
                        assert(found@.map_values(|x: String| x@) =~= pre.push(
                            s@.subrange(i as int + 8, j as int),
                        ));
                        assert(dbg_from(s@, i as nat) =~= seq![
                            s@.subrange(i as int + 8, j as int),
                        ] + dbg_from(s@, (j + 2) as nat));
                        assert(dbg_from(s@, 0) =~= found@.map_values(|x: String| x@) + dbg_from(
                            s@,
                            (j + 2) as nat,
                        ));
                    }
                    i = j + 2;
                    matched = true;
                }
            }
        }
        if !matched {
            proof {
                assert(dbg_at(s@, i as nat) is None);
                assert(dbg_from(s@, i as nat) == dbg_from(s@, (i + 1) as nat));
            }
            i += 1;
        }
    }
    proof {
        assert(dbg_from(s@, i as nat) =~= Seq::<Seq<char>>::empty());
        assert(dbg_from(s@, 0) =~= found@.map_values(|x: String| x@));
    }
    found
}

/// Renders a debug-printed sequence of strings as its items joined by a
/// separator dot; text holding no such items passes through unchanged.
pub fn parse_debug_sequence(debug_str: &str) -> (r: String)
    ensures
        dbg_from(debug_str@, 0).len() == 0 ==> r@ == debug_str@,
        dbg_from(debug_str@, 0).len() > 0 ==> r@ == joined(dbg_from(debug_str@, 0), " â€¢ "@),
{
    let items = scan_debug_items(debug_str);
    let ghost views = items@.map_values(|x: String| x@);
    let n = items.len();
    if n == 0 {
        return debug_str.to_owned();
    }
    let mut out = items[0].clone();
    let mut k: usize = 1;
    proof {
        assert(views.subrange(0, 1) =~= seq![views[0]]);
        assert(joined(views.subrange(0, 1), " â€¢ "@) == views[0]);
    }
    while k < n
        invariant
            n == items@.len(),
            views == items@.map_values(|x: String| x@),
            1 <= k <= n,
            out@ == joined(views.subrange(0, k as int), " â€¢ "@),
        decreases n - k,
    {
        out.append(" â€¢ ");
        out.append(items[k].as_str());
        proof {
            let pre = views.subrange(0, k as int);
            let post = views.subrange(0, k + 1);
            assert(post.drop_last() =~= pre);
            assert(post.last() == views[k as int]);
            assert(post.len() >= 2);
            assert(out@ == joined(post, " â€¢ "@));
        }
        k += 1;
    }
    proof {
        assert(views.subrange(0, n as int) =~= views);
    }
    out
}

} // verus!
