//! File-type icons: the image the system hands out for a file, decoded and
//! scaled down to a small square, with its pixels in the blue-first order
//! the renderer takes. Fetching the system's image is the caller's.

use vstd::prelude::*;
use crate::path::{join, join_path};
use crate::kind::{icon_key_of, icon_key};
use crate::text::same_text;
use crate::workspace::{Entry, Tab, Workspace};

verus! {

/// Side of the square icons are scaled to, in pixels.
pub const ICON_SIZE: u32 = 32;

#[verifier::external_type_specification]
#[verifier::external_body]
pub struct ExDynamicImage(image::DynamicImage);

/// The resampling filters of `image::imageops::FilterType`.
pub enum Filter {
    Nearest,
    Triangle,
    CatmullRom,
    Gaussian,
    Lanczos3,
}

/// Whether `image::load_from_memory` decodes these bytes (it depends on
/// the bytes alone).
pub uninterp spec fn decodes(bytes: Seq<u8>) -> bool;

/// The image `image::load_from_memory` decodes from these bytes, where they
/// decode (it depends on the bytes alone: the format is guessed from them and
/// the decoding limits are fixed).
pub uninterp spec fn decoded(bytes: Seq<u8>) -> image::DynamicImage;

/// The image `DynamicImage::resize_exact` makes of `img` at `w` by `h` with
/// `filter` (it depends on these alone).
pub uninterp spec fn resized(img: image::DynamicImage, w: u32, h: u32, filter: Filter) -> image::DynamicImage;

/// The width and height of an image.
pub uninterp spec fn image_size(img: image::DynamicImage) -> (u32, u32);

/// The bytes `DynamicImage::to_rgba8` makes of an image: row by row, four
/// per pixel (red, green, blue, alpha).
pub uninterp spec fn image_rgba(img: image::DynamicImage) -> Seq<u8>;

/// Calls `image::load_from_memory`, which guesses the format of `bytes`
/// and decodes them; a decoding error becomes `None`. Claimed: it succeeds
/// exactly on the bytes that decode (`decodes`), and the image is the one
/// these bytes decode to (`decoded`).
#[verifier::external_body]
fn decode_image(bytes: &[u8]) -> (r: Option<image::DynamicImage>)
    ensures
        r is Some <==> decodes(bytes@),
        r matches Some(i) ==> i == decoded(bytes@),
{
    image::load_from_memory(bytes).ok()
}

/// Calls `DynamicImage::resize_exact` with the matching filter. Claimed, as
/// its documentation says: the new image is exactly `w` by `h` pixels; it
/// is the image `resized` names for these arguments.
#[verifier::external_body]
fn resize_image(img: &image::DynamicImage, w: u32, h: u32, filter: Filter) -> (r: image::DynamicImage)
    ensures
        image_size(r) == (w, h),
        r == resized(*img, w, h, filter),
{
    let f = match filter {
        Filter::Nearest => image::imageops::FilterType::Nearest,
        Filter::Triangle => image::imageops::FilterType::Triangle,
        Filter::CatmullRom => image::imageops::FilterType::CatmullRom,
        Filter::Gaussian => image::imageops::FilterType::Gaussian,
        Filter::Lanczos3 => image::imageops::FilterType::Lanczos3,
    };
    img.resize_exact(w, h, f)
}

/// Calls `DynamicImage::to_rgba8` and takes the buffer apart into its
/// width, height and raw bytes. Claimed: the width and height are the
/// image's, the bytes are its RGBA bytes (`image_rgba`), and they cover
/// every pixel (the image buffer's own invariant).
#[verifier::external_body]
fn rgba_bytes(img: &image::DynamicImage) -> (r: (u32, u32, Vec<u8>))
    ensures
        (r.0, r.1) == image_size(*img),
        r.2@ == image_rgba(*img),
        r.2@.len() >= 4 * r.0 * r.1,
{
    let b = img.to_rgba8();
    let (w, h) = b.dimensions();
    (w, h, b.into_raw())
}

/// The bytes with the first and third byte of every whole four-byte pixel
/// exchanged; bytes past the last whole pixel are kept.
pub open spec fn swapped_rb(raw: Seq<u8>) -> Seq<u8> {
    Seq::new(
        raw.len(),
        |i: int|
            if i < raw.len() / 4 * 4 && i % 4 == 0 {
                raw[i + 2]
            } else if i < raw.len() / 4 * 4 && i % 4 == 2 {
                raw[i - 2]
            } else {
                raw[i]
            },
    )
}

/// Turns RGBA bytes into BGRA (or back): red and blue exchanged in every
/// whole pixel.
pub fn swap_red_blue(raw: Vec<u8>) -> (r: Vec<u8>)
    ensures
        r@ == swapped_rb(raw@),
{
    let mut raw = raw;
    let ghost orig = raw@;
    let n = raw.len();
    let whole = n / 4 * 4;
    let mut i: usize = 0;
    while i < whole
        invariant
            raw@.len() == orig.len(),
            n == orig.len(),
            whole == n / 4 * 4,
            whole <= n,
            i <= whole,
            i % 4 == 0,
            forall|k: int| 0 <= k < i ==> #[trigger] raw@[k] == swapped_rb(orig)[k],
            forall|k: int| i <= k < n ==> #[trigger] raw@[k] == orig[k],
        decreases whole - i,
    {
        let a = raw[i];
        let b = raw[i + 2];
        raw.set(i, b);
        raw.set(i + 2, a);
        i = i + 4;
    }
    proof {
        assert(raw@ =~= swapped_rb(orig));
    }
    raw
}

/// Exchanging red and blue twice gives the bytes back.
pub proof fn law_swap_twice(raw: Seq<u8>)
    ensures
        swapped_rb(swapped_rb(raw)) == raw,
{
    assert(swapped_rb(swapped_rb(raw)) =~= raw);
}

/// An icon's pixels: width, height and BGRA bytes.
pub struct Pixels {
    pub width: u32,
    pub height: u32,
    pub bgra: Vec<u8>,
}

/// The icon for an image file's bytes (in any format the image library
/// reads): scaled to `ICON_SIZE` square with a linear filter, with its
/// bytes in BGRA order. `None` exactly when the bytes do not decode.
pub fn icon_pixels(bytes: &[u8]) -> (r: Option<Pixels>)
    ensures
        r is Some <==> decodes(bytes@),
        r matches Some(p) ==> {
            &&& p.width == ICON_SIZE
            &&& p.height == ICON_SIZE
            &&& p.bgra@.len() >= 4 * ICON_SIZE * ICON_SIZE
            &&& p.bgra@ == swapped_rb(
                image_rgba(resized(decoded(bytes@), ICON_SIZE, ICON_SIZE, Filter::Triangle)),
            )
        },
{
    let img = match decode_image(bytes) {
        Some(i) => i,
        None => return None,
    };
    let small = resize_image(&img, ICON_SIZE, ICON_SIZE, Filter::Triangle);
    let (w, h, raw) = rgba_bytes(&small);
    let bgra = swap_red_blue(raw);
    Some(Pixels { width: w, height: h, bgra })
}

// ----- which icons to build ---------------------------------------------------

/// An icon to build: its cache key and a file to ask for it.
pub type Job = (Seq<char>, Seq<char>);

/// The icons the files of a listing of `dir` need, in listing order:
/// `(key, path)` for each file with an icon key (directories share one icon).
pub open spec fn file_icons(dir: Seq<char>, es: Seq<Entry>) -> Seq<Job>
    decreases es.len(),
{
    if es.len() == 0 {
        Seq::empty()
    } else {
        let prev = file_icons(dir, es.drop_last());
        let e = es.last();
        if e.is_dir {
            prev
        } else {
            match icon_key_of(join(dir, e.name@)) {
                Some(k) => prev.push((k, join(dir, e.name@))),
                None => prev,
            }
        }
    }
}

/// The tab each pane shows.
pub open spec fn shown_tabs<H>(w: Workspace<H>) -> Seq<Tab<H>> {
    Seq::new(w.spec_panes().len(), |p: int| w.shown(p))
}

/// The icons the shown tabs need, pane by pane.
pub open spec fn shown_icons<H>(tabs: Seq<Tab<H>>) -> Seq<Job>
    decreases tabs.len(),
{
    if tabs.len() == 0 {
        Seq::empty()
    } else {
        shown_icons(tabs.drop_last()) + file_icons(tabs.last().current_dir@, tabs.last().entries@)
    }
}

/// Whether any shown tab lists a directory.
pub open spec fn shows_dir<H>(tabs: Seq<Tab<H>>) -> bool {
    exists|p: int, i: int| 0 <= p < tabs.len() && 0 <= i < tabs[p].entries@.len() && #[trigger] tabs[p].entries@[i].is_dir
}

/// The jobs among `c` still to do: the first one for each key that is not
/// already `cached`.
pub open spec fn new_jobs(c: Seq<Job>, cached: Seq<Seq<char>>) -> Seq<Job>
    decreases c.len(),
{
    if c.len() == 0 {
        Seq::empty()
    } else {
        let prev = new_jobs(c.drop_last(), cached);
        let x = c.last();
        if cached.contains(x.0) || prev.map_values(|j: Job| j.0).contains(x.0) {
            prev
        } else {
            prev.push(x)
        }
    }
}

/// The icons to build for the panes' shown tabs, and whether the shared
/// folder icon is needed too.
pub struct IconJobs {
    pub jobs: Vec<(String, String)>,
    pub folder: bool,
}

pub open spec fn jobs_view(v: Seq<(String, String)>) -> Seq<Job> {
    v.map_values(|j: (String, String)| (j.0@, j.1@))
}

pub open spec fn texts(v: Seq<String>) -> Seq<Seq<char>> {
    v.map_values(|s: String| s@)
}

fn holds(list: &Vec<String>, key: &str) -> (r: bool)
    ensures
        r == texts(list@).contains(key@),
{
    let mut i: usize = 0;
    while i < list.len()
        invariant
            i <= list@.len(),
            forall|k: int| 0 <= k < i ==> list@[k]@ != key@,
        decreases list.len() - i,
    {
        if same_text(list[i].as_str(), key) {
            proof {
                assert(texts(list@)[i as int] == key@);
            }
            return true;
        }
        i = i + 1;
    }
    proof {
        if texts(list@).contains(key@) {
            let k = choose|k: int| 0 <= k < texts(list@).len() && texts(list@)[k] == key@;
            assert(list@[k]@ == key@);
        }
    }
    false
}

fn queued(jobs: &Vec<(String, String)>, key: &str) -> (r: bool)
    ensures
        r == jobs_view(jobs@).map_values(|j: Job| j.0).contains(key@),
{
    let ghost ks = jobs_view(jobs@).map_values(|j: Job| j.0);
    let mut i: usize = 0;
    while i < jobs.len()
        invariant
            i <= jobs@.len(),
            ks == jobs_view(jobs@).map_values(|j: Job| j.0),
            forall|k: int| 0 <= k < i ==> jobs@[k].0@ != key@,
        decreases jobs.len() - i,
    {
        if same_text(jobs[i].0.as_str(), key) {
            proof {
                assert(ks[i as int] == key@);
            }
            return true;
        }
        i = i + 1;
    }
    proof {
        if ks.contains(key@) {
            let k = choose|k: int| 0 <= k < ks.len() && ks[k] == key@;
            assert(jobs@[k].0@ == key@);
        }
    }
    false
}

/// The icons to build for what the panes show: one job per file type not
/// yet `cached` (keys in `cached`), the first file of each type in pane
/// then listing order; and the folder icon when a directory is shown and
/// it is not built yet.
pub fn icon_jobs<H>(w: &Workspace<H>, cached: &Vec<String>, folder_cached: bool) -> (r: IconJobs)
    requires
        w.wf(),
    ensures
        jobs_view(r.jobs@) == new_jobs(shown_icons(shown_tabs(*w)), texts(cached@)),
        r.folder == (shows_dir(shown_tabs(*w)) && !folder_cached),
{
    let ghost tabs = shown_tabs(*w);
    let ghost cv = texts(cached@);
    let mut jobs: Vec<(String, String)> = Vec::new();
    let mut has_dir = false;
    let mut p: usize = 0;
    let n = w.pane_count();
    while p < n
        invariant
            p <= n,
            n == w.spec_panes().len(),
            w.wf(),
            tabs == shown_tabs(*w),
            cv == texts(cached@),
            jobs_view(jobs@) == new_jobs(shown_icons(tabs.take(p as int)), cv),
            has_dir == shows_dir(tabs.take(p as int)),
        decreases n - p,
    {
        let t = w.tab(p);
        let ghost before = shown_icons(tabs.take(p as int));
        proof {
            assert(tabs[p as int] == *t);
            assert(tabs.take(p as int + 1).drop_last() =~= tabs.take(p as int));
        }
        let mut i: usize = 0;
        let ghost had = has_dir;
        while i < t.entries.len()
            invariant
                i <= t.entries@.len(),
                cv == texts(cached@),
                jobs_view(jobs@) == new_jobs(before + file_icons(t.current_dir@, t.entries@.take(i as int)), cv),
                has_dir == (had || exists|k: int| 0 <= k < i && #[trigger] t.entries@[k].is_dir),
            decreases t.entries.len() - i,
        {
            let e = &t.entries[i];
            proof {
                assert(t.entries@.take(i as int + 1).drop_last() =~= t.entries@.take(i as int));
            }
            let ghost c0 = before + file_icons(t.current_dir@, t.entries@.take(i as int));
            if e.is_dir {
                has_dir = true;
                proof {
                    assert(before + file_icons(t.current_dir@, t.entries@.take(i as int + 1)) == c0);
                }
            } else {
                let path = join_path(t.current_dir.as_str(), e.name.as_str());
                match icon_key(path.as_str()) {
                    Some(key) => {
                        let ghost x = (key@, path@);
                        proof {
                            assert(before + file_icons(t.current_dir@, t.entries@.take(i as int + 1)) =~= c0.push(x));
                            assert(c0.push(x).drop_last() =~= c0);
                        }
                        let skip = holds(cached, key.as_str()) || queued(&jobs, key.as_str());
                        if !skip {
                            let ghost jv = jobs@;
                            jobs.push((key, path));
                            proof {
                                assert(jobs_view(jobs@) =~= jobs_view(jv).push(x));
                            }
                        }
                    },
                    None => {
                        proof {
                            assert(before + file_icons(t.current_dir@, t.entries@.take(i as int + 1)) == c0);
                        }
                    },
                }
            }
            i = i + 1;
        }
        proof {
            assert(t.entries@.take(t.entries@.len() as int) =~= t.entries@);
            assert(shown_icons(tabs.take(p as int + 1)) == before + file_icons(t.current_dir@, t.entries@));
            let tp = tabs.take(p as int + 1);
            if has_dir {
                if had {
                    let (q, k) = choose|q: int, k: int| 0 <= q < p && 0 <= k < tabs.take(p as int)[q].entries@.len() && #[trigger] tabs.take(p as int)[q].entries@[k].is_dir;
                    assert(tp[q].entries@[k].is_dir);
                } else {
                    let k = choose|k: int| 0 <= k < t.entries@.len() && #[trigger] t.entries@[k].is_dir;
                    assert(tp[p as int].entries@[k].is_dir);
                }
            } else {
                assert forall|q: int, k: int| 0 <= q < tp.len() && 0 <= k < tp[q].entries@.len() implies !(#[trigger] tp[q].entries@[k].is_dir) by {
                    if q < p {
                        assert(tp[q] == tabs.take(p as int)[q]);
                    }
                }
            }
        }
        p = p + 1;
    }
    proof {
        assert(tabs.take(n as int) =~= tabs);
    }
    IconJobs { jobs, folder: has_dir && !folder_cached }
}

} // verus!
