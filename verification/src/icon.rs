//! Where an app's icon is looked for, and turning an icon file's bytes into
//! the square RGBA picture that a result row shows.
use vstd::prelude::*;
use crate::app::opt_view;
use crate::text::{
    Strip, ascii_lower, ascii_lower_chars, find_char, index_of_char, lemma_index_of_char,
    range_equals, strings_view, to_chars, trim, trim_quotes, trim_range,
};

verus! {

/// The side, in pixels, of the picture that a result row shows.
pub const ICON_SIZE: u32 = 28;

/// What `Path::extension` gives for `path`: the part of its file name after
/// the last `.`, where the file name has one not at its start.
pub uninterp spec fn path_extension(path: Seq<char>) -> Option<Seq<char>>;

/// What `Path::with_extension` gives for `path` and `ext`: the path with the
/// extension of its file name replaced by (or extended with) `ext`.
pub uninterp spec fn path_with_extension(path: Seq<char>, ext: Seq<char>) -> Seq<char>;

/// Calls `std::path::Path::extension` on `path`; the contract claims only
/// that the result is the named value [`path_extension`] of `path` (a path
/// made from a `&str` has a UTF-8 extension, so the conversion loses
/// nothing).
#[verifier::external_body]
fn extension_of(path: &str) -> (r: Option<String>)
    ensures
        opt_view(r) == path_extension(path@),
{
    std::path::Path::new(path).extension().map(|e| e.to_string_lossy().into_owned())
}

/// Calls `std::path::Path::with_extension`; the contract claims only that
/// the result is the named value [`path_with_extension`] of the arguments.
/// `with_extension` panics on an extension that holds a path separator (`/`,
/// and on Windows also `\\`), which `requires` leaves out.
#[verifier::external_body]
fn replace_extension(path: &str, ext: &str) -> (r: String)
    requires
        !ext@.contains('/'),
        !ext@.contains('\\'),
    ensures
        r@ == path_with_extension(path@, ext@),
{
    std::path::Path::new(path).with_extension(ext).to_string_lossy().into_owned()
}

/// Calls `std::path::Path::exists`. What is on disk decides the result, and
/// may change between two calls: the contract claims nothing of it. It is
/// public so that contracts can speak of the answers it gave ([`probed`]).
#[verifier::external_body]
pub fn path_exists(path: &str) -> bool {
    std::path::Path::new(path).exists()
}

/// Calls `std::path::Path::is_file`. What is on disk decides the result: the
/// contract claims nothing of it.
#[verifier::external_body]
fn path_is_file(path: &str) -> bool {
    std::path::Path::new(path).is_file()
}

/// Whether `path` names a `.desktop` file: its extension is exactly `desktop`.
pub fn is_desktop_entry(path: &str) -> (r: bool)
    ensures
        r == (path_extension(path@) == Some("desktop"@)),
{
    match extension_of(path) {
        Some(e) => {
            let v = to_chars(e.as_str());
            let d = to_chars("desktop");
            proof {
                assert(v@.subrange(0, v@.len() as int) =~= v@);
            }
            range_equals(&v, 0, v.len(), &d)
        },
        None => false,
    }
}

/// The path or name that an icon reference stands for: the reference without
/// surrounding quotes, cut at its first `,` (which starts an icon index, as
/// in `app.exe,0`), and trimmed.
pub open spec fn icon_name(icon_ref: Seq<char>) -> Seq<char> {
    let unquoted = trim_quotes(icon_ref);
    trim(unquoted.take(index_of_char(unquoted, ',') as int))
}

/// The path or name that the icon reference `icon_ref` stands for.
pub fn icon_lookup_name(icon_ref: &str) -> (r: String)
    ensures
        r@ == icon_name(icon_ref@),
{
    let v = to_chars(icon_ref);
    let n = v.len();
    let (a, b) = trim_range(&v, 0, n, Strip::Quote);
    let k = find_char(&v, a, ',');
    let cut = if k < b {
        k
    } else {
        b
    };
    let (c, d) = trim_range(&v, a, cut, Strip::Whitespace);
    proof {
        assert(v@.subrange(0, n as int) =~= v@);
        let u = v@.subrange(a as int, b as int);
        assert forall|i: int| 0 <= i < cut - a implies u[i] != ',' by {
            assert(u[i] == v@[a + i]);
        }
        if cut - a < u.len() {
            assert(u[cut - a] == v@[cut as int]);
        }
        lemma_index_of_char(u, ',', cut - a);
        assert(u.take(cut - a) =~= v@.subrange(a as int, cut as int));
    }
    icon_ref.substring_char(c, d).to_owned()
}

/// The image file extensions that are loaded as they are.
pub open spec fn supported_image_ext(e: Seq<char>) -> bool {
    e == "png"@ || e == "ico"@ || e == "jpg"@ || e == "jpeg"@ || e == "bmp"@
}

fn is_supported_image_ext(e: &Vec<char>) -> (r: bool)
    ensures
        r == supported_image_ext(e@),
{
    let n = e.len();
    proof {
        assert(e@.subrange(0, n as int) =~= e@);
    }
    range_equals(e, 0, n, &to_chars("png")) || range_equals(e, 0, n, &to_chars("ico"))
        || range_equals(e, 0, n, &to_chars("jpg")) || range_equals(e, 0, n, &to_chars("jpeg"))
        || range_equals(e, 0, n, &to_chars("bmp"))
}

/// The icon theme directories searched, largest icons first.
pub open spec fn icon_dir(d: int) -> Seq<char> {
    if d == 0 {
        "/usr/share/icons/hicolor/256x256/apps"@
    } else if d == 1 {
        "/usr/share/icons/hicolor/128x128/apps"@
    } else if d == 2 {
        "/usr/share/icons/hicolor/48x48/apps"@
    } else {
        "/usr/share/pixmaps"@
    }
}

/// The icon file extensions tried in each directory, in order.
pub open spec fn icon_ext(e: int) -> Seq<char> {
    if e == 0 {
        "png"@
    } else if e == 1 {
        "ico"@
    } else {
        "xpm"@
    }
}

/// `dir` joined with `file` as `Path::join` joins them on Unix for a `dir`
/// without a trailing separator: an absolute `file` replaces `dir`.
pub open spec fn join_path(dir: Seq<char>, file: Seq<char>) -> Seq<char> {
    if file.len() > 0 && file[0] == '/' {
        file
    } else {
        dir + "/"@ + file
    }
}

/// The files `<dir>/<name>.<ext>` for each theme directory, and in it each
/// extension.
pub open spec fn themed_icon_candidates(name: Seq<char>) -> Seq<Seq<char>> {
    Seq::new(12, |k: int| join_path(icon_dir(k / 3), name + "."@ + icon_ext(k % 3)))
}

/// The files that an icon name is looked up as, in order: the name itself
/// where it holds a `/`, then the themed files.
pub open spec fn linux_icon_candidates(name: Seq<char>) -> Seq<Seq<char>> {
    if name.contains('/') {
        seq![name] + themed_icon_candidates(name)
    } else {
        themed_icon_candidates(name)
    }
}

fn icon_dir_str(d: usize) -> (r: &'static str)
    requires
        d < 4,
    ensures
        r@ == icon_dir(d as int),
{
    if d == 0 {
        "/usr/share/icons/hicolor/256x256/apps"
    } else if d == 1 {
        "/usr/share/icons/hicolor/128x128/apps"
    } else if d == 2 {
        "/usr/share/icons/hicolor/48x48/apps"
    } else {
        "/usr/share/pixmaps"
    }
}

fn icon_ext_str(e: usize) -> (r: &'static str)
    requires
        e < 3,
    ensures
        r@ == icon_ext(e as int),
{
    if e == 0 {
        "png"
    } else if e == 1 {
        "ico"
    } else {
        "xpm"
    }
}

fn join_path_exec(dir: &str, file: &str) -> (r: String)
    ensures
        r@ == join_path(dir@, file@),
{
    let v = to_chars(file);
    if v.len() > 0 && v[0] == '/' {
        file.to_owned()
    } else {
        let mut r = dir.to_owned();
        r.append("/");
        r.append(file);
        r
    }
}

/// The files that the icon name `name` is looked up as, in order.
pub fn icon_candidates(name: &str) -> (r: Vec<String>)
    ensures
        strings_view(r@) == linux_icon_candidates(name@),
{
    let v = to_chars(name);
    let slash = find_char(&v, 0, '/');
    let mut out: Vec<String> = Vec::new();
    let ghost prefix: Seq<Seq<char>> = seq![];
    if slash < v.len() {
        out.push(name.to_owned());
        proof {
            prefix = seq![name@];
            assert(name@.contains('/')) by {
                assert(name@[slash as int] == '/');
            }
            assert(strings_view(out@) =~= prefix);
        }
    } else {
        proof {
            assert(!name@.contains('/'));
            assert(strings_view(out@) =~= prefix);
        }
    }
    let ghost themed = themed_icon_candidates(name@);
    for d in 0..4
        invariant
            themed == themed_icon_candidates(name@),
            strings_view(out@) == prefix + themed.take(3 * d),
    {
        let dir = icon_dir_str(d);
        for e in 0..3
            invariant
                d < 4,
                dir@ == icon_dir(d as int),
                themed == themed_icon_candidates(name@),
                strings_view(out@) == prefix + themed.take(3 * d + e),
        {
            let mut file = name.to_owned();
            file.append(".");
            file.append(icon_ext_str(e));
            let path = join_path_exec(dir, file.as_str());
            let ghost before = strings_view(out@);
            out.push(path);
            proof {
                let k = 3 * d + e;
                assert(k / 3 == d && k % 3 == e);
                assert(themed[k as int] == path@);
                assert(themed.take(k + 1) =~= themed.take(k as int).push(path@));
                assert(strings_view(out@) =~= before.push(path@));
            }
        }
    }
    proof {
        assert(themed.take(12) =~= themed);
    }
    out
}

/// The first of `cands` that the answers `found` mark as existing: the
/// candidate at the first `k` with `found[k]`, or `None` where no answer
/// says so.
pub open spec fn first_found(cands: Seq<Seq<char>>, found: Seq<bool>) -> Option<Seq<char>>
    decreases found.len(),
{
    if found.len() == 0 || cands.len() == 0 {
        None
    } else if found[0] {
        Some(cands[0])
    } else {
        first_found(cands.drop_first(), found.drop_first())
    }
}

/// The first of the candidates `cands` that the existence answers `found`
/// (one for each of the first `found.len()` candidates) mark as existing.
pub fn first_existing(cands: &Vec<String>, found: &Vec<bool>) -> (r: Option<String>)
    requires
        found.len() <= cands.len(),
    ensures
        opt_view(r) == first_found(strings_view(cands@), found@),
        r matches Some(p) ==> exists|k: int|
            0 <= k < found.len() && found@[k] && p@ == cands@[k]@ && forall|j: int|
                0 <= j < k ==> !found@[j],
        r is None <==> forall|k: int| 0 <= k < found.len() ==> !found@[k],
{
    let ghost cv = strings_view(cands@);
    let mut i: usize = 0;
    proof {
        assert(cv.skip(0) =~= cv);
        assert(found@.skip(0) =~= found@);
    }
    while i < found.len()
        invariant
            found.len() <= cands.len(),
            cv == strings_view(cands@),
            i <= found.len(),
            forall|j: int| 0 <= j < i ==> !found@[j],
            first_found(cv, found@) == first_found(cv.skip(i as int), found@.skip(i as int)),
        decreases found.len() - i,
    {
        let ghost c = cv.skip(i as int);
        let ghost f = found@.skip(i as int);
        proof {
            assert(f[0] == found@[i as int]);
            assert(c[0] == cands@[i as int]@);
        }
        if found[i] {
            let p = cands[i].clone();
            return Some(p);
        }
        proof {
            assert(c.drop_first() =~= cv.skip(i + 1));
            assert(f.drop_first() =~= found@.skip(i + 1));
        }
        i = i + 1;
    }
    None
}

/// The disk was asked whether the file `path` exists, by [`path_exists`],
/// and answered `answer`.
pub open spec fn probed(path: Seq<char>, answer: bool) -> bool {
    exists|s: &str| s@ == path && #[trigger] call_ensures(path_exists, (s,), answer)
}

/// The first of the icon name's candidate files that exists on disk,
/// probed in candidate order (theme directories from the largest icons
/// down, and in each the extensions in order) until one is found; the
/// choice is [`first_existing`]'s over the answers. The result is the
/// candidate at some `k` that the disk reported as existing, every earlier
/// candidate having been reported missing; `None` only where every
/// candidate was probed and reported missing.
pub fn find_linux_icon(name: &str) -> (r: Option<String>)
    ensures
        r matches Some(p) ==> linux_icon_candidates(name@).contains(p@),
        r matches Some(p) ==> exists|k: int|
            0 <= k < linux_icon_candidates(name@).len() && p@ == linux_icon_candidates(name@)[k]
                && probed(linux_icon_candidates(name@)[k], true) && forall|j: int|
                0 <= j < k ==> probed(linux_icon_candidates(name@)[j], false),
        r is None ==> forall|k: int|
            0 <= k < linux_icon_candidates(name@).len() ==> probed(
                linux_icon_candidates(name@)[k],
                false,
            ),
{
    let cands = icon_candidates(name);
    let ghost cv = strings_view(cands@);
    let mut found: Vec<bool> = Vec::new();
    let mut i: usize = 0;
    while i < cands.len() && !(i > 0 && found[i - 1])
        invariant
            found.len() == i,
            i <= cands.len(),
            cv == strings_view(cands@),
            cv == linux_icon_candidates(name@),
            forall|k: int| 0 <= k < i ==> probed(cv[k], found@[k]),
            forall|k: int| 0 <= k < i - 1 ==> !found@[k],
        decreases cands.len() - i,
    {
        let path = cands[i].as_str();
        let exists = path_exists(path);
        proof {
            assert(path@ == cv[i as int]);
            assert(call_ensures(path_exists, (path,), exists));
            assert(probed(cv[i as int], exists));
        }
        found.push(exists);
        i = i + 1;
    }
    let r = first_existing(&cands, &found);
    proof {
        if r is Some {
            let p = r->0;
            let k = choose|k: int|
                0 <= k < found.len() && found@[k] && p@ == cands@[k]@ && forall|j: int|
                    0 <= j < k ==> !found@[j];
            assert(cv[k] == p@);
            assert(probed(cv[k], true));
        } else {
            assert(forall|k: int| 0 <= k < found.len() ==> !found@[k]);
            if found.len() < cands.len() {
                assert(found@[found.len() - 1]);
            }
        }
    }
    r
}

/// The path names a picture that is loaded as it is: its extension, in any
/// letter case, is a supported image type.
pub open spec fn is_image_path(raw: Seq<char>) -> bool {
    path_extension(raw) matches Some(e) && supported_image_ext(ascii_lower(e))
}

/// The path names a program: its extension, in any letter case, is `exe`.
pub open spec fn is_program_path(raw: Seq<char>) -> bool {
    path_extension(raw) matches Some(e) && ascii_lower(e) == "exe"@
}

/// How an existing file that an icon reference names is used.
pub enum DirectIcon {
    /// A picture, used as it is.
    Image,
    /// A program: the `.ico` file at this path, beside it, is used where it
    /// exists.
    Sibling(String),
    /// Neither: the name is looked up among the themed icons.
    Neither,
}

/// How the existing file `raw` would be used as an icon.
pub fn direct_icon(raw: &str) -> (r: DirectIcon)
    ensures
        (r is Image) == is_image_path(raw@),
        (r is Sibling) == (!is_image_path(raw@) && is_program_path(raw@)),
        r matches DirectIcon::Sibling(p) ==> p@ == path_with_extension(raw@, "ico"@),
{
    match extension_of(raw) {
        Some(ext) => {
            let e = ascii_lower_chars(&to_chars(ext.as_str()));
            if is_supported_image_ext(&e) {
                return DirectIcon::Image;
            }
            let exe = to_chars("exe");
            let n = e.len();
            proof {
                assert(e@.subrange(0, n as int) =~= e@);
            }
            if range_equals(&e, 0, n, &exe) {
                proof {
                    reveal_strlit("ico");
                }
                DirectIcon::Sibling(replace_extension(raw, "ico"))
            } else {
                DirectIcon::Neither
            }
        },
        None => DirectIcon::Neither,
    }
}

/// The icon chosen, from the existence answers: the named file where it is
/// an existing picture, else the `.ico` beside it where it is an existing
/// program and that `.ico` exists, else what the themed search found.
pub open spec fn icon_choice(
    raw: Seq<char>,
    raw_is_file: bool,
    sibling_exists: bool,
    themed: Option<Seq<char>>,
) -> Option<Seq<char>> {
    if raw_is_file && is_image_path(raw) {
        Some(raw)
    } else if raw_is_file && is_program_path(raw) && sibling_exists {
        Some(path_with_extension(raw, "ico"@))
    } else {
        themed
    }
}

/// The icon file for the name `raw`, given whether `raw` is an existing file,
/// whether the `.ico` beside it exists, and what the themed search found.
pub fn choose_icon(raw: &str, raw_is_file: bool, sibling_exists: bool, themed: Option<String>) -> (r:
    Option<String>)
    ensures
        opt_view(r) == icon_choice(raw@, raw_is_file, sibling_exists, opt_view(themed)),
{
    if raw_is_file {
        match direct_icon(raw) {
            DirectIcon::Image => {
                return Some(raw.to_owned());
            },
            DirectIcon::Sibling(candidate) => {
                if sibling_exists {
                    return Some(candidate);
                }
            },
            DirectIcon::Neither => {},
        }
    }
    themed
}

/// The files that an icon reference may resolve to: the named file itself
/// where it is a picture, the `.ico` beside it where it is a program, or,
/// where icon themes are searched, a candidate of the name.
pub open spec fn resolves_to(icon_ref: Seq<char>, p: Seq<char>, search_themes: bool) -> bool {
    let raw = icon_name(icon_ref);
    ||| (p == raw && is_image_path(raw))
    ||| (is_program_path(raw) && p == path_with_extension(raw, "ico"@))
    ||| (search_themes && linux_icon_candidates(raw).contains(p))
}

/// The file that the icon reference `icon_ref` resolves to on this disk, if
/// any, as [`choose_icon`] picks it from the disk's answers: the named file
/// where it exists and is a picture, the `.ico` beside it where it is a
/// program and that exists, else, where `search_themes` (on Linux, the only
/// platform with icon themes), the first candidate of the name that exists
/// ([`find_linux_icon`]), and elsewhere `None`.
pub fn resolve_icon_path(icon_ref: &str, search_themes: bool) -> (r: Option<String>)
    ensures
        r matches Some(p) ==> resolves_to(icon_ref@, p@, search_themes),
{
    let raw = icon_lookup_name(icon_ref);
    let raw_is_file = path_exists(raw.as_str()) && path_is_file(raw.as_str());
    let direct = if raw_is_file {
        direct_icon(raw.as_str())
    } else {
        DirectIcon::Neither
    };
    let (sibling_exists, done) = match &direct {
        DirectIcon::Image => (false, true),
        DirectIcon::Sibling(candidate) => {
            let e = path_exists(candidate.as_str());
            (e, e)
        },
        DirectIcon::Neither => (false, false),
    };
    let themed = if done || !search_themes {
        None
    } else {
        find_linux_icon(raw.as_str())
    };
    let r = choose_icon(raw.as_str(), raw_is_file, sibling_exists, themed);
    r
}

#[verifier::external_type_specification]
#[verifier::external_body]
pub struct ExDynamicImage(image::DynamicImage);

/// The resampling filters of `image::imageops::FilterType`.
pub enum ResizeFilter {
    Nearest,
    Triangle,
    CatmullRom,
    Gaussian,
    Lanczos3,
}

/// A decoded picture as plain values: its size and its RGBA8 bytes, row by
/// row (at least `width * height * 4` of them).
pub struct Picture {
    pub width: u32,
    pub height: u32,
    pub pixels: Vec<u8>,
}

impl Picture {
    /// The bytes hold every pixel of the picture.
    pub open spec fn wf(&self) -> bool {
        self.pixels@.len() >= self.width * self.height * 4
    }
}

/// Calls `image::load_from_memory`. Whether it decodes depends on the bytes
/// and also on the format detection and decoding hooks registered in the
/// process, so the contract claims nothing of the result. It is public so
/// that contracts can speak of the answer it gave.
#[verifier::external_body]
pub fn decode_image(data: &[u8]) -> Option<image::DynamicImage> {
    image::load_from_memory(data).ok()
}

/// Calls `DynamicImage::to_rgba8` and takes the buffer's size and bytes
/// (`width`, `height`, `into_raw`). The contract claims that the bytes hold
/// every pixel; their values depend on the decoded picture, which Verus sees
/// only as an opaque value, and are left unsaid.
#[verifier::external_body]
fn rgba_picture(img: &image::DynamicImage) -> (p: Picture)
    ensures
        p.wf(),
{
    let buf = img.to_rgba8();
    Picture { width: buf.width(), height: buf.height(), pixels: buf.into_raw() }
}

/// Calls `image::imageops::resize` with `filter` on the RGBA8 picture of
/// `width` by `height` pixels held in `pixels` (as `ImageBuffer::from_raw`
/// takes it), to `nwidth` by `nheight` pixels, and takes its bytes. The
/// contract claims what the source shows without running a filter: the
/// length, four bytes a pixel; a copy of the picture where the size does not
/// change; zero bytes where the picture is empty. The resampled values are
/// left unsaid and get no name: the filters' kernels call `f32::sin`, whose
/// precision Rust documents as varying by platform and even between calls.
/// `requires` leaves out a picture that `from_raw` refuses, the empty target
/// sizes and a target buffer length that overflows `usize`, on which the
/// buffer's constructor panics.
#[verifier::external_body]
fn resize_rgba(
    width: u32,
    height: u32,
    pixels: &Vec<u8>,
    nwidth: u32,
    nheight: u32,
    filter: ResizeFilter,
) -> (r: Vec<u8>)
    requires
        pixels@.len() >= width * height * 4,
        nwidth > 0,
        nheight > 0,
        nwidth * nheight * 4 <= usize::MAX,
    ensures
        r@.len() == nwidth * nheight * 4,
        width == nwidth && height == nheight ==> r@ == pixels@.take(width * height * 4),
        width == 0 || height == 0 ==> forall|i: int| 0 <= i < r@.len() ==> r@[i] == 0,
{
    let filter = match filter {
        ResizeFilter::Nearest => image::imageops::FilterType::Nearest,
        ResizeFilter::Triangle => image::imageops::FilterType::Triangle,
        ResizeFilter::CatmullRom => image::imageops::FilterType::CatmullRom,
        ResizeFilter::Gaussian => image::imageops::FilterType::Gaussian,
        ResizeFilter::Lanczos3 => image::imageops::FilterType::Lanczos3,
    };
    let src = image::RgbaImage::from_raw(width, height, pixels.clone()).unwrap();
    image::imageops::resize(&src, nwidth, nheight, filter).into_raw()
}

/// The RGBA pixels, row by row, of a decoded picture scaled to `ICON_SIZE`
/// by `ICON_SIZE` with the Lanczos3 filter; `None` exactly where there is no
/// picture. A picture of that size already comes back as it is, and an
/// empty picture as transparent black.
pub fn icon_pixels(decoded: Option<Picture>) -> (r: Option<Vec<u8>>)
    requires
        decoded matches Some(p) ==> p.wf(),
    ensures
        (r is Some) == (decoded is Some),
        r matches Some(px) ==> px@.len() == ICON_SIZE * ICON_SIZE * 4,
        r matches Some(px) ==> (decoded->0.width == ICON_SIZE && decoded->0.height == ICON_SIZE
            ==> px@ == decoded->0.pixels@.take(ICON_SIZE * ICON_SIZE * 4)),
        r matches Some(px) ==> (decoded->0.width == 0 || decoded->0.height == 0 ==> forall|i: int|
            0 <= i < px@.len() ==> px@[i] == 0),
{
    match decoded {
        Some(p) => Some(
            resize_rgba(p.width, p.height, &p.pixels, ICON_SIZE, ICON_SIZE, ResizeFilter::Lanczos3),
        ),
        None => None,
    }
}

/// The RGBA pixels, row by row, of the icon file whose bytes are `data`,
/// scaled to `ICON_SIZE` by `ICON_SIZE` with the Lanczos3 filter: the bytes
/// go to the decoder unchanged, its picture is taken in RGBA8 form, and
/// [`icon_pixels`] does the rest, so the result is `None` exactly where
/// decoding fails.
pub fn load_icon_image(data: &[u8]) -> (r: Option<Vec<u8>>)
    ensures
        r matches Some(p) ==> p@.len() == ICON_SIZE * ICON_SIZE * 4,
        r is None ==> call_ensures(decode_image, (data,), None),
        r is Some ==> exists|img: image::DynamicImage|
            #[trigger] call_ensures(decode_image, (data,), Some(img)),
{
    let decoded = decode_image(data);
    let picture = match decoded {
        Some(img) => Some(rgba_picture(&img)),
        None => None,
    };
    icon_pixels(picture)
}

} // verus!
