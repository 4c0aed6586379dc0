//! Icons and thumbnails: from pixels to data URLs, and the caches in memory and on disk.

use vstd::prelude::*;

use base64::Engine;

use crate::numerals::{self, decimal_text, hex_text, signed_text};
use crate::text::{self, str_eq, strip_prefix};
use crate::text_map::{self, hash_key, TextMap};

verus! {

// ----- pixels -----

/// The size in bytes of the pixels of a bitmap, four to a pixel; none where it is empty.
pub fn pixel_buffer_len(width: i32, height: i32) -> (r: Option<usize>)
    requires
        width > 0 && height > 0 ==> width * height * 4 <= i32::MAX,
    ensures
        r == (if width <= 0 || height <= 0 {
            None
        } else {
            Some((width * height * 4) as usize)
        }),
{
    if width <= 0 || height <= 0 {
        return None;
    }
    assert(0 < width * height <= i32::MAX) by (nonlinear_arith)
        requires
            width > 0,
            height > 0,
            width * height * 4 <= i32::MAX,
    ;
    Some((width * height * 4) as usize)
}

/// Whether no pixel has any opacity.
pub open spec fn is_transparent(p: Seq<u8>) -> bool {
    forall|i: int| 0 <= i < p.len() / 4 ==> #[trigger] p[4 * i + 3] == 0
}

/// The pixels with red and blue exchanged. Where no pixel has any opacity the image carries none,
/// and all of them become opaque. Bytes after the last whole pixel stay.
pub open spec fn rgba(p: Seq<u8>) -> Seq<u8> {
    Seq::new(
        p.len(),
        |i: int|
            if i >= p.len() / 4 * 4 {
                p[i]
            } else if i % 4 == 0 {
                p[i + 2]
            } else if i % 4 == 1 {
                p[i]
            } else if i % 4 == 2 {
                p[i - 2]
            } else if is_transparent(p) {
                255u8
            } else {
                p[i]
            },
    )
}

fn all_transparent(p: &[u8]) -> (r: bool)
    ensures
        r == is_transparent(p@),
{
    let len = p.len();
    let n: usize = len / 4;
    let mut i: usize = 0;
    while i < n
        invariant
            i <= n,
            len == p@.len(),
            n == len / 4,
            forall|j: int| 0 <= j < i ==> #[trigger] p@[4 * j + 3] == 0,
        decreases n - i,
    {
        if p[4 * i + 3] != 0 {
            assert(p@[4 * (i as int) + 3] != 0);
            return false;
        }
        i += 1;
    }
    true
}

/// Turns the pixels of a Windows bitmap into those of an image: red and blue are exchanged, and an
/// image without any opacity becomes opaque.
pub fn bgra_to_rgba(p: &[u8]) -> (r: Vec<u8>)
    ensures
        r@ == rgba(p@),
{
    let opaque = all_transparent(p);
    let whole: usize = p.len() / 4 * 4;
    let mut out: Vec<u8> = Vec::new();
    let mut i: usize = 0;
    while i < p.len()
        invariant
            i <= p@.len(),
            whole == p@.len() / 4 * 4,
            whole <= p@.len() <= usize::MAX,
            opaque == is_transparent(p@),
            out@ =~= rgba(p@).take(i as int),
        decreases p@.len() - i,
    {
        let b: u8 = if i >= whole {
            p[i]
        } else if i % 4 == 0 {
            p[i + 2]
        } else if i % 4 == 1 {
            p[i]
        } else if i % 4 == 2 {
            p[i - 2]
        } else if opaque {
            255
        } else {
            p[i]
        };
        out.push(b);
        i += 1;
    }
    assert(out@ =~= rgba(p@));
    out
}

/// An image without any opacity comes out opaque, and any other keeps the opacity of every pixel.
pub proof fn law_opacity(p: Seq<u8>, i: int)
    requires
        0 <= i < p.len() / 4,
    ensures
        rgba(p)[4 * i + 3] == (if is_transparent(p) {
            255u8
        } else {
            p[4 * i + 3]
        }),
{
    assert((4 * i + 3) % 4 == 3);
}

// ----- base64 -----

/// The character of a six-bit number.
pub open spec fn base64_digit(n: int) -> char {
    if n < 26 {
        (65 + n) as char
    } else if n < 52 {
        (71 + n) as char
    } else if n < 62 {
        (n - 4) as char
    } else if n == 62 {
        '+'
    } else {
        '/'
    }
}

/// The standard base64 text of bytes, with padding: each three of them make four digits.
pub open spec fn base64_text(b: Seq<u8>) -> Seq<char>
    decreases b.len(),
{
    if b.len() == 0 {
        Seq::empty()
    } else if b.len() == 1 {
        seq![base64_digit(b[0] as int / 4), base64_digit(b[0] % 4 * 16), '=', '=']
    } else if b.len() == 2 {
        seq![
            base64_digit(b[0] as int / 4),
            base64_digit(b[0] % 4 * 16 + b[1] / 16),
            base64_digit(b[1] % 16 * 4),
            '=',
        ]
    } else {
        seq![
            base64_digit(b[0] as int / 4),
            base64_digit(b[0] % 4 * 16 + b[1] / 16),
            base64_digit(b[1] % 16 * 4 + b[2] / 64),
            base64_digit(b[2] as int % 64),
        ] + base64_text(b.skip(3))
    }
}

/// Whether the base64 text of that many bytes can be held in memory.
pub open spec fn fits_base64(len: nat) -> bool {
    4 * (len / 3 + 1) <= isize::MAX
}

/// Whether the base64 text of that many bytes can be held in memory.
pub fn may_encode(len: usize) -> (r: bool)
    ensures
        r == fits_base64(len as nat),
{
    len / 3 + 1 <= isize::MAX as usize / 4
}

/// `Engine::encode` of `base64` with its `STANDARD` engine: the standard alphabet, with padding.
/// The text has to fit in memory, else the crate panics.
#[verifier::external_body]
fn base64_encode(b: &[u8]) -> (r: String)
    requires
        fits_base64(b@.len()),
    ensures
        r@ == base64_text(b@),
{
    base64::engine::general_purpose::STANDARD.encode(b)
}

/// `Engine::decode` of `base64` with its `STANDARD` engine: it reads exactly the texts that encoding
/// writes. Missing or misplaced padding, other characters and stray bits at the end are refused.
#[verifier::external_body]
fn base64_decode(s: &str) -> (r: Option<Vec<u8>>)
    ensures
        match r {
            Some(b) => base64_text(b@) == s@,
            None => forall|b: Seq<u8>| base64_text(b) != s@,
        },
{
    base64::engine::general_purpose::STANDARD.decode(s).ok()
}

proof fn lemma_digits_differ(a: int, b: int)
    requires
        0 <= a < 64,
        0 <= b < 64,
        base64_digit(a) == base64_digit(b),
    ensures
        a == b,
{
}

proof fn lemma_no_padding(a: int)
    requires
        0 <= a < 64,
    ensures
        base64_digit(a) != '=',
{
}

spec fn byte_or_zero(b: Seq<u8>, i: int) -> int {
    if i < b.len() {
        b[i] as int
    } else {
        0
    }
}

proof fn lemma_first_digits(b: Seq<u8>)
    requires
        b.len() > 0,
    ensures
        ({
            let t = base64_text(b);
            let b1 = byte_or_zero(b, 1);
            let b2 = byte_or_zero(b, 2);
            &&& t.len() >= 4
            &&& t[0] == base64_digit(b[0] as int / 4)
            &&& t[1] == base64_digit(b[0] % 4 * 16 + b1 / 16)
            &&& t[2] == (if b.len() > 1 {
                base64_digit(b1 % 16 * 4 + b2 / 64)
            } else {
                '='
            })
            &&& t[3] == (if b.len() > 2 {
                base64_digit(b2 % 64)
            } else {
                '='
            })
            &&& b.len() > 2 ==> t.skip(4) == base64_text(b.skip(3))
            &&& b.len() <= 2 ==> t.len() == 4
        }),
{
    if b.len() > 2 {
        assert(base64_text(b).skip(4) =~= base64_text(b.skip(3)));
    }
}

/// Different bytes have different base64 texts.
pub proof fn law_base64_is_injective(a: Seq<u8>, b: Seq<u8>)
    requires
        base64_text(a) == base64_text(b),
    ensures
        a == b,
    decreases a.len(),
{
    if a.len() > 0 {
        lemma_first_digits(a);
    }
    if b.len() > 0 {
        lemma_first_digits(b);
    }
    if a.len() == 0 || b.len() == 0 {
        assert(a =~= b);
    } else {
        let a0 = a[0] as int;
        let b0 = b[0] as int;
        let a1 = byte_or_zero(a, 1);
        let b1 = byte_or_zero(b, 1);
        let a2 = byte_or_zero(a, 2);
        let b2 = byte_or_zero(b, 2);
        lemma_no_padding(a1 % 16 * 4 + a2 / 64);
        lemma_no_padding(b1 % 16 * 4 + b2 / 64);
        lemma_no_padding(a2 % 64);
        lemma_no_padding(b2 % 64);
        lemma_digits_differ(a0 / 4, b0 / 4);
        lemma_digits_differ(a0 % 4 * 16 + a1 / 16, b0 % 4 * 16 + b1 / 16);
        assert(a0 == b0);
        assert(a1 / 16 == b1 / 16);
        if a.len() > 1 {
            lemma_digits_differ(a1 % 16 * 4 + a2 / 64, b1 % 16 * 4 + b2 / 64);
            assert(a1 == b1);
        }
        if a.len() > 2 {
            lemma_digits_differ(a2 % 64, b2 % 64);
            assert(a2 == b2);
            law_base64_is_injective(a.skip(3), b.skip(3));
            assert(a.skip(3).len() == b.skip(3).len());
            assert forall|i: int| 3 <= i < a.len() implies a[i] == b[i] by {
                assert(a.skip(3)[i - 3] == b.skip(3)[i - 3]);
            }
        }
        assert(a =~= b);
    }
}

// ----- data URLs -----

/// What the data URL of an image begins with.
pub const PNG_PREFIX: &'static str = "data:image/png;base64,";

/// The data URL of the bytes of an image.
pub open spec fn data_url(png: Seq<u8>) -> Seq<char> {
    PNG_PREFIX@ + base64_text(png)
}

/// The data URL of the bytes of an image.
pub fn png_data_url(png: &[u8]) -> (r: String)
    requires
        fits_base64(png@.len()),
    ensures
        r@ == data_url(png@),
{
    let mut s = PNG_PREFIX.to_owned();
    s.append(base64_encode(png).as_str());
    s
}

/// The bytes of the image in a data URL; none where it is not one of an image, or is damaged.
pub open spec fn url_bytes(url: Seq<char>) -> Option<Seq<u8>> {
    if exists|b: Seq<u8>| url == data_url(b) {
        Some(choose|b: Seq<u8>| url == data_url(b))
    } else {
        None
    }
}

/// The bytes of the image in a data URL; none where it is not one of an image, or is damaged.
pub fn data_url_bytes(url: &str) -> (r: Option<Vec<u8>>)
    ensures
        opt_bytes(r) == url_bytes(url@),
{
    let rest = match strip_prefix(url, PNG_PREFIX) {
        Some(rest) => rest,
        None => {
            assert forall|b: Seq<u8>| url@ != data_url(b) by {
                if url@ == data_url(b) {
                    assert(url@.take(PNG_PREFIX@.len() as int) =~= PNG_PREFIX@);
                }
            }
            return None;
        },
    };
    let r = base64_decode(rest);
    proof {
        assert(url@ =~= PNG_PREFIX@ + rest@);
        assert forall|b: Seq<u8>| url@ == data_url(b) implies rest@ == base64_text(b) by {
            assert(data_url(b).skip(PNG_PREFIX@.len() as int) =~= base64_text(b));
            assert(url@.skip(PNG_PREFIX@.len() as int) =~= rest@);
        }
        if r is Some {
            law_url_gives_bytes_back(r->0@);
        }
    }
    r
}

/// Different images have different data URLs.
pub proof fn law_data_url_is_injective(a: Seq<u8>, b: Seq<u8>)
    requires
        data_url(a) == data_url(b),
    ensures
        a == b,
{
    assert(data_url(a).skip(PNG_PREFIX@.len() as int) =~= base64_text(a));
    assert(data_url(b).skip(PNG_PREFIX@.len() as int) =~= base64_text(b));
    law_base64_is_injective(a, b);
}

/// The data URL of an image gives its bytes back.
pub proof fn law_url_gives_bytes_back(b: Seq<u8>)
    ensures
        url_bytes(data_url(b)) == Some(b),
{
    let url = data_url(b);
    assert(exists|c: Seq<u8>| url == data_url(c));
    let c = choose|c: Seq<u8>| url == data_url(c);
    law_data_url_is_injective(b, c);
}

/// The bytes in a data URL make the same data URL again.
pub proof fn law_bytes_give_url_back(url: Seq<char>)
    ensures
        url_bytes(url) matches Some(b) ==> data_url(b) == url,
{
}

/// What `png::Encoder` writes for an image of that size with eight-bit RGBA pixels, with the
/// crate's default compression and filter.
pub uninterp spec fn png_image(width: u32, height: u32, pixels: Seq<u8>) -> Seq<u8>;

pub open spec fn opt_bytes(b: Option<Vec<u8>>) -> Option<Seq<u8>> {
    match b {
        Some(b) => Some(b@),
        None => None,
    }
}

/// `png::Encoder` with `write_header` and `write_image_data`: the bytes of the image file. What they
/// are takes the whole format to say, so they only get a name. The image must not be empty and the
/// pixels must be exactly those of the size, which is what the crate asks for; it then refuses
/// nothing, for writing into memory cannot fail.
#[verifier::external_body]
fn png_encode(width: u32, height: u32, pixels: &[u8]) -> (r: Option<Vec<u8>>)
    requires
        width > 0,
        height > 0,
        pixels@.len() == width * height * 4,
    ensures
        opt_bytes(r) == Some(png_image(width, height, pixels@)),
{
    let mut data = Vec::new();
    let mut encoder = png::Encoder::new(&mut data, width, height);
    encoder.set_color(png::ColorType::Rgba);
    encoder.set_depth(png::BitDepth::Eight);
    let mut writer = encoder.write_header().ok()?;
    writer.write_image_data(pixels).ok()?;
    drop(writer);
    Some(data)
}

/// The data URL of an image file that could be made; none where there is none, or its text would
/// not fit in memory.
pub open spec fn image_url(png: Option<Seq<u8>>) -> Option<Seq<char>> {
    match png {
        Some(b) => if fits_base64(b.len()) {
            Some(data_url(b))
        } else {
            None
        },
        None => None,
    }
}

/// The data URL of an image file that could be made; none where there is none, or its text would
/// not fit in memory.
pub fn png_url(png: Option<Vec<u8>>) -> (r: Option<String>)
    ensures
        text::opt_view(r) == image_url(opt_bytes(png)),
{
    match png {
        Some(b) => if may_encode(b.len()) {
            Some(png_data_url(b.as_slice()))
        } else {
            None
        },
        None => None,
    }
}

/// The data URL of a bitmap, given its pixels as Windows hands them out, from the top down; none
/// only where its text would not fit in memory.
pub fn hbitmap_to_data_url(width: i32, height: i32, pixels: &[u8]) -> (r: Option<String>)
    requires
        width > 0,
        height > 0,
        pixels@.len() == width * height * 4,
    ensures
        ({
            let png = png_image(width as u32, height as u32, rgba(pixels@));
            text::opt_view(r) == (if fits_base64(png.len()) {
                Some(data_url(png))
            } else {
                None
            })
        }),
{
    let image = bgra_to_rgba(pixels);
    png_url(png_encode(width as u32, height as u32, image.as_slice()))
}

// ----- names -----

/// The name of the file that caches a key.
pub open spec fn file_name(key: Seq<char>) -> Seq<char> {
    numerals::hex(text_map::key_hash(key) as nat, 16, false) + ".png"@
}

/// The name of the file that caches a key.
pub fn cache_file_name(key: &str) -> (r: String)
    ensures
        r@ == file_name(key@),
{
    let mut s = hex_text(hash_key(key), 16, false);
    s.append(".png");
    s
}

/// Whether items with this extension, or without one, may each have an icon of their own.
pub open spec fn is_individual(ext: Seq<char>) -> bool {
    ext == "exe"@ || ext == "lnk"@ || ext == "ico"@ || ext == "url"@ || ext == "cur"@ || ext == ""@
}

/// A key that names an image by its kind, its size and the rest.
pub open spec fn sized(kind: Seq<char>, size: int, name: Seq<char>) -> Seq<char> {
    kind + numerals::signed_decimal(size) + ":"@ + name
}

/// The key of an icon: by path for folders and for files that may have an icon of their own, else
/// by extension.
pub open spec fn icon_key_of(path: Seq<char>, is_folder: bool, ext: Seq<char>, size: int) -> Seq<
    char,
> {
    if is_folder || is_individual(ext) {
        sized("p:"@, size, path)
    } else {
        sized("e:"@, size, ext)
    }
}

fn sized_key(kind: &str, size: i32, name: &str) -> (r: String)
    ensures
        r@ == sized(kind@, size as int, name@),
{
    let mut s = String::new();
    s.append(kind);
    s.append(signed_text(size).as_str());
    s.append(":");
    s.append(name);
    assert(s@ =~= sized(kind@, size as int, name@));
    s
}

/// The key of an icon.
pub fn icon_key(path: &str, is_folder: bool, ext: &str, size: i32) -> (r: String)
    ensures
        r@ == icon_key_of(path@, is_folder, ext@, size as int),
{
    let per_path = is_folder || str_eq(ext, "exe") || str_eq(ext, "lnk") || str_eq(ext, "ico")
        || str_eq(ext, "url") || str_eq(ext, "cur") || str_eq(ext, "");
    if per_path {
        sized_key("p:", size, path)
    } else {
        sized_key("e:", size, ext)
    }
}

/// The key of a thumbnail.
pub open spec fn thumbnail_key_of(path: Seq<char>, size: int) -> Seq<char> {
    sized("t:"@, size, path)
}

/// The key of a thumbnail.
pub fn thumbnail_key(path: &str, size: i32) -> (r: String)
    ensures
        r@ == thumbnail_key_of(path@, size as int),
{
    sized_key("t:", size, path)
}

/// The key of a thumbnail on disk, which ends with the time in seconds at which the file was
/// changed; none where that is not known, and then only memory caches it.
pub open spec fn disk_key_of(key: Seq<char>, modified: Option<u64>) -> Option<Seq<char>> {
    match modified {
        Some(t) => Some(key + ":"@ + numerals::decimal(t as nat)),
        None => None,
    }
}

/// The key of a thumbnail on disk.
pub fn thumbnail_disk_key(key: &str, modified: Option<u64>) -> (r: Option<String>)
    ensures
        text::opt_view(r) == disk_key_of(key@, modified),
{
    match modified {
        Some(t) => {
            let mut s = String::new();
            s.append(key);
            s.append(":");
            s.append(decimal_text(t).as_str());
            assert(s@ =~= key@ + ":"@ + numerals::decimal(t as nat));
            Some(s)
        },
        None => None,
    }
}

/// Files of the same extension share their icon, unless each may have one of its own.
pub proof fn law_icons_are_shared(a: Seq<char>, b: Seq<char>, ext: Seq<char>, size: int)
    requires
        !is_individual(ext),
    ensures
        icon_key_of(a, false, ext, size) == icon_key_of(b, false, ext, size),
{
}

proof fn lemma_sized_is_injective(
    kind_a: Seq<char>,
    size_a: int,
    a: Seq<char>,
    kind_b: Seq<char>,
    size_b: int,
    b: Seq<char>,
)
    requires
        kind_a.len() == kind_b.len(),
        sized(kind_a, size_a, a) == sized(kind_b, size_b, b),
    ensures
        kind_a == kind_b,
        size_a == size_b,
        a == b,
{
    reveal_strlit(":");
    let n = kind_a.len() as int;
    let da = numerals::signed_decimal(size_a);
    let db = numerals::signed_decimal(size_b);
    let ka = sized(kind_a, size_a, a);
    let kb = sized(kind_b, size_b, b);
    numerals::lemma_signed_digits(size_a);
    numerals::lemma_signed_digits(size_b);
    assert(ka.take(n) =~= kind_a);
    assert(kb.take(n) =~= kind_b);
    assert(ka[n + da.len()] == ':');
    assert(kb[n + db.len()] == ':');
    if da.len() < db.len() {
        assert(kb[n + da.len()] == db[da.len() as int]);
    }
    if db.len() < da.len() {
        assert(ka[n + db.len()] == da[db.len() as int]);
    }
    assert(ka.subrange(n, n + da.len()) =~= da);
    assert(kb.subrange(n, n + db.len()) =~= db);
    numerals::lemma_signed_decimal_is_injective(size_a, size_b);
    assert(ka.skip(n + da.len() + 1) =~= a);
    assert(kb.skip(n + db.len() + 1) =~= b);
}

/// Items that may have an icon of their own never share one, nor do icons of different sizes.
pub proof fn law_own_icons_are_apart(
    a: Seq<char>,
    b: Seq<char>,
    folder_a: bool,
    folder_b: bool,
    ext_a: Seq<char>,
    ext_b: Seq<char>,
    size_a: int,
    size_b: int,
)
    requires
        icon_key_of(a, folder_a, ext_a, size_a) == icon_key_of(b, folder_b, ext_b, size_b),
    ensures
        size_a == size_b,
        (folder_a || is_individual(ext_a)) == (folder_b || is_individual(ext_b)),
        folder_a || is_individual(ext_a) ==> a == b,
        !(folder_a || is_individual(ext_a)) ==> ext_a == ext_b,
{
    reveal_strlit("p:");
    reveal_strlit("e:");
    assert("p:"@[0] != "e:"@[0]);
    let own_a = folder_a || is_individual(ext_a);
    let own_b = folder_b || is_individual(ext_b);
    lemma_sized_is_injective(
        if own_a {
            "p:"@
        } else {
            "e:"@
        },
        size_a,
        if own_a {
            a
        } else {
            ext_a
        },
        if own_b {
            "p:"@
        } else {
            "e:"@
        },
        size_b,
        if own_b {
            b
        } else {
            ext_b
        },
    );
}

/// Thumbnails of different items or sizes never share a key, nor does a thumbnail with an icon.
pub proof fn law_thumbnails_are_apart(
    a: Seq<char>,
    b: Seq<char>,
    is_folder: bool,
    ext: Seq<char>,
    size_a: int,
    size_b: int,
)
    ensures
        thumbnail_key_of(a, size_a) == thumbnail_key_of(b, size_b) <==> a == b && size_a == size_b,
        thumbnail_key_of(a, size_a) != icon_key_of(b, is_folder, ext, size_b),
{
    reveal_strlit("t:");
    reveal_strlit("p:");
    reveal_strlit("e:");
    assert(thumbnail_key_of(a, size_a)[0] == 't');
    if thumbnail_key_of(a, size_a) == thumbnail_key_of(b, size_b) {
        lemma_sized_is_injective("t:"@, size_a, a, "t:"@, size_b, b);
    }
    assert(icon_key_of(b, is_folder, ext, size_b)[0] != 't');
}

/// Once a file has changed, its thumbnail has another key on disk.
pub proof fn law_changed_file_has_other_key(key: Seq<char>, before: u64, after: u64)
    requires
        before != after,
    ensures
        disk_key_of(key, Some(before)) != disk_key_of(key, Some(after)),
{
    let head = key + ":"@;
    let a = numerals::decimal(before as nat);
    let b = numerals::decimal(after as nat);
    assert((head + a).skip(head.len() as int) =~= a);
    assert((head + b).skip(head.len() as int) =~= b);
    if a == b {
        numerals::law_decimal_is_injective(before as nat, after as nat);
    }
}

// ----- the cache in memory -----

/// The images that are held in memory, by key.
pub struct IconCache {
    images: TextMap<String>,
}

impl View for IconCache {
    type V = Map<Seq<char>, Seq<char>>;

    closed spec fn view(&self) -> Map<Seq<char>, Seq<char>> {
        self.images@.map_values(|s: String| s@)
    }
}

/// What a map holds for a key.
pub open spec fn held(m: Map<Seq<char>, Seq<char>>, key: Seq<char>) -> Option<Seq<char>> {
    if m.contains_key(key) {
        Some(m[key])
    } else {
        None
    }
}

impl IconCache {
    /// A cache that holds nothing.
    pub fn new() -> (r: Self)
        ensures
            r@ == Map::<Seq<char>, Seq<char>>::empty(),
    {
        let r = IconCache { images: TextMap::new() };
        assert(r@ =~= Map::empty());
        r
    }

    /// The image that is held for a key.
    pub fn get(&self, key: &str) -> (r: Option<String>)
        ensures
            text::opt_view(r) == held(self@, key@),
    {
        match self.images.get(key) {
            Some(image) => Some(image.clone()),
            None => None,
        }
    }

    /// Holds an image for a key, in place of what was held for it.
    pub fn insert(&mut self, key: String, value: String)
        ensures
            final(self)@ == old(self)@.insert(key@, value@),
    {
        let ghost before = self@;
        let ghost k = key@;
        let ghost v = value@;
        self.images.insert(key, value);
        assert(self@ =~= before.insert(k, v));
    }
}

// ----- finding an image -----

/// What is to be done to find an image.
pub enum IconStep {
    /// Nothing: memory holds it.
    Found(String),
    /// Read this file of the disk cache.
    Load(String),
    /// Extract it from the item.
    Extract,
}

pub enum IconStepView {
    Found(Seq<char>),
    Load(Seq<char>),
    Extract,
}

impl View for IconStep {
    type V = IconStepView;

    open spec fn view(&self) -> IconStepView {
        match self {
            IconStep::Found(s) => IconStepView::Found(s@),
            IconStep::Load(s) => IconStepView::Load(s@),
            IconStep::Extract => IconStepView::Extract,
        }
    }
}

/// What is to be done to find the image of a key: memory first, then the file of its key on disk,
/// where it has one, then the item itself.
pub open spec fn first_step(
    cache: Map<Seq<char>, Seq<char>>,
    key: Seq<char>,
    disk_key: Option<Seq<char>>,
) -> IconStepView {
    match held(cache, key) {
        Some(image) => IconStepView::Found(image),
        None => match disk_key {
            Some(disk_key) => IconStepView::Load(file_name(disk_key)),
            None => IconStepView::Extract,
        },
    }
}

/// The key of an icon, and what is to be done to find it.
pub fn get_icon_cached(
    cache: &IconCache,
    path: &str,
    is_folder: bool,
    ext: &str,
    size: i32,
) -> (r: (String, IconStep))
    ensures
        r.0@ == icon_key_of(path@, is_folder, ext@, size as int),
        r.1@ == first_step(cache@, r.0@, Some(r.0@)),
{
    let key = icon_key(path, is_folder, ext, size);
    let step = match cache.get(key.as_str()) {
        Some(image) => IconStep::Found(image),
        None => IconStep::Load(cache_file_name(key.as_str())),
    };
    (key, step)
}

/// The key of a thumbnail, its key on disk, and what is to be done to find it, given the time in
/// seconds at which its file was changed.
pub fn get_thumbnail_cached(
    cache: &IconCache,
    path: &str,
    size: i32,
    modified: Option<u64>,
) -> (r: (String, Option<String>, IconStep))
    ensures
        r.0@ == thumbnail_key_of(path@, size as int),
        text::opt_view(r.1) == disk_key_of(r.0@, modified),
        r.2@ == first_step(cache@, r.0@, text::opt_view(r.1)),
{
    let key = thumbnail_key(path, size);
    let disk_key = thumbnail_disk_key(key.as_str(), modified);
    let step = match cache.get(key.as_str()) {
        Some(image) => IconStep::Found(image),
        None => match &disk_key {
            Some(dk) => IconStep::Load(cache_file_name(dk.as_str())),
            None => IconStep::Extract,
        },
    };
    (key, disk_key, step)
}

/// Takes what the disk cache has: an image goes to memory, and is found; else it has to be
/// extracted.
pub fn disk_load(cache: &mut IconCache, key: String, file: Option<Vec<u8>>) -> (r: Option<String>)
    requires
        file matches Some(b) ==> fits_base64(b@.len()),
    ensures
        match file {
            Some(b) => {
                &&& text::opt_view(r) == Some(data_url(b@))
                &&& final(cache)@ == old(cache)@.insert(key@, data_url(b@))
            },
            None => r is None && final(cache)@ == old(cache)@,
        },
{
    match file {
        Some(b) => {
            let url = png_data_url(b.as_slice());
            cache.insert(key, url.clone());
            Some(url)
        },
        None => None,
    }
}

/// What is to be written to the disk cache.
pub struct DiskWrite {
    pub file: String,
    pub bytes: Vec<u8>,
}

pub open spec fn opt_write(w: Option<DiskWrite>) -> Option<(Seq<char>, Seq<u8>)> {
    match w {
        Some(w) => Some((w.file@, w.bytes@)),
        None => None,
    }
}

/// What is written to disk for an image: the bytes of its data URL, where it is one and the image
/// has a key on disk.
pub open spec fn stored(disk_key: Option<Seq<char>>, image: Seq<char>) -> Option<
    (Seq<char>, Seq<u8>),
> {
    match (disk_key, url_bytes(image)) {
        (Some(disk_key), Some(b)) => Some((file_name(disk_key), b)),
        _ => None,
    }
}

/// What is written to disk for an image.
pub fn disk_store(disk_key: &Option<String>, image: &str) -> (r: Option<DiskWrite>)
    ensures
        opt_write(r) == stored(text::opt_view(*disk_key), image@),
{
    let bytes = data_url_bytes(image);
    match (disk_key, bytes) {
        (Some(dk), Some(bytes)) => Some(DiskWrite { file: cache_file_name(dk.as_str()), bytes }),
        _ => None,
    }
}

/// Takes an image that was extracted: it goes to memory, and to disk where the image has a key
/// there. Nothing is kept of an image that could not be extracted.
pub fn take_extracted(
    cache: &mut IconCache,
    key: String,
    disk_key: &Option<String>,
    image: &Option<String>,
) -> (r: Option<DiskWrite>)
    ensures
        match text::opt_view(*image) {
            Some(img) => {
                &&& opt_write(r) == stored(text::opt_view(*disk_key), img)
                &&& final(cache)@ == old(cache)@.insert(key@, img)
            },
            None => r is None && final(cache)@ == old(cache)@,
        },
{
    match image {
        Some(img) => {
            let write = disk_store(disk_key, img.as_str());
            cache.insert(key, img.clone());
            write
        },
        None => None,
    }
}

/// Once an image is in memory, the next search for its key finds it there.
pub proof fn law_found_again(
    cache: Map<Seq<char>, Seq<char>>,
    key: Seq<char>,
    image: Seq<char>,
    disk_key: Option<Seq<char>>,
)
    ensures
        first_step(cache.insert(key, image), key, disk_key) == IconStepView::Found(image),
{
}

/// What is stored for an image is the file that a later search without memory reads, and reading it
/// gives the image back.
pub proof fn law_stored_image_is_loaded(
    key: Seq<char>,
    disk_key: Seq<char>,
    image: Seq<char>,
    b: Seq<u8>,
)
    requires
        stored(Some(disk_key), image) == Some((file_name(disk_key), b)),
    ensures
        first_step(Map::empty(), key, Some(disk_key)) == IconStepView::Load(file_name(disk_key)),
        data_url(b) == image,
{
    law_bytes_give_url_back(image);
}

/// Every image that can be made of a bitmap is stored on disk as the file that was made of it.
pub proof fn law_bitmap_is_stored(disk_key: Seq<char>, png: Seq<u8>)
    requires
        fits_base64(png.len()),
    ensures
        image_url(Some(png)) == Some(data_url(png)),
        stored(Some(disk_key), data_url(png)) == Some((file_name(disk_key), png)),
{
    law_url_gives_bytes_back(png);
}

// ----- laws -----

/// In every whole pixel, whatever its opacity, red and blue are exchanged and green stays; bytes
/// behind the last whole pixel stay too, and no byte is added or lost.
pub proof fn law_colours(p: Seq<u8>, i: int)
    requires
        0 <= i < p.len() / 4,
    ensures
        rgba(p).len() == p.len(),
        rgba(p)[4 * i] == p[4 * i + 2],
        rgba(p)[4 * i + 1] == p[4 * i + 1],
        rgba(p)[4 * i + 2] == p[4 * i],
        forall|j: int| p.len() - p.len() % 4 <= j < p.len() ==> rgba(p)[j] == p[j],
{
}

/// One pixel that is not wholly transparent keeps the opacity of all; where there is none, every
/// pixel becomes opaque.
pub proof fn law_opacity_of_all(p: Seq<u8>, i: int, k: int)
    requires
        0 <= i < p.len() / 4,
        0 <= k < p.len() / 4,
    ensures
        p[4 * k + 3] != 0 ==> rgba(p)[4 * i + 3] == p[4 * i + 3],
        (forall|j: int| 0 <= j < p.len() / 4 ==> #[trigger] p[4 * j + 3] == 0) ==> rgba(p)[4 * i + 3]
            == 255,
{
    law_opacity(p, i);
    if p[4 * k + 3] != 0 {
        assert(!is_transparent(p));
    }
}

/// The value of a base64 digit.
pub open spec fn base64_value(c: char) -> int {
    if 'A' <= c <= 'Z' {
        c as u32 - 65
    } else if 'a' <= c <= 'z' {
        c as u32 - 71
    } else if '0' <= c <= '9' {
        c as u32 + 4
    } else if c == '+' {
        62
    } else {
        63
    }
}

/// A base64 text has four characters for every three bytes begun. Those of three whole bytes are
/// digits that together have the value of the bytes; one or two bytes at the end count as if zeros
/// followed, with an equals sign for each byte that is missing.
pub proof fn law_base64(a: u8, b: u8, c: u8, rest: Seq<u8>)
    ensures
        base64_text(Seq::empty()).len() == 0,
        ({
            let t = base64_text(seq![a, b, c] + rest);
            &&& t.skip(4) == base64_text(rest)
            &&& base64_value(t[0]) * 0x4_0000 + base64_value(t[1]) * 0x1000 + base64_value(t[2]) * 0x40
                + base64_value(t[3]) == a * 0x1_0000 + b * 0x100 + c
            &&& t[2] != '=' && t[3] != '='
        }),
        ({
            let t = base64_text(seq![a, b]);
            &&& t.len() == 4 && t[3] == '='
            &&& base64_value(t[0]) * 0x1000 + base64_value(t[1]) * 0x40 + base64_value(t[2]) == (a
                * 0x100 + b) * 4
        }),
        ({
            let t = base64_text(seq![a]);
            &&& t.len() == 4 && t[2] == '=' && t[3] == '='
            &&& base64_value(t[0]) * 0x40 + base64_value(t[1]) == a * 0x10
        }),
{
    let s = seq![a, b, c] + rest;
    assert(s.skip(3) =~= rest);
    let t = base64_text(s);
    assert(t.skip(4) =~= base64_text(rest));
    lemma_base64_value(a as int / 4);
    lemma_base64_value(a % 4 * 16 + b / 16);
    lemma_base64_value(b % 16 * 4 + c / 64);
    lemma_base64_value(c as int % 64);
    lemma_base64_value(b % 16 * 4);
    lemma_base64_value(a % 4 * 16);
    assert(s[0] == a && s[1] == b && s[2] == c);
}

proof fn lemma_base64_value(n: int)
    requires
        0 <= n < 64,
    ensures
        base64_value(base64_digit(n)) == n,
        base64_digit(n) != '=',
{
}

/// A data URL is the fixed beginning for PNG images and the base64 text of the image, and no text
/// without that beginning holds an image.
pub proof fn law_data_url(png: Seq<u8>, url: Seq<char>)
    ensures
        data_url(png) == "data:image/png;base64,"@ + base64_text(png),
        url_bytes(url) is Some ==> text::begins(url, "data:image/png;base64,"@),
        fits_base64(png.len()) ==> image_url(Some(png)) == Some(data_url(png)),
        !fits_base64(png.len()) ==> image_url(Some(png)) is None,
        image_url(None) is None,
{
    if url_bytes(url) is Some {
        let b = choose|b: Seq<u8>| url == data_url(b);
        text::law_begins_and_occurs(
            Seq::empty(),
            "data:image/png;base64,"@,
            base64_text(b),
        );
    }
}

/// The file of a key is named by the sixteen lower-case hexadecimal digits of its hash.
pub proof fn law_file_name(key: Seq<char>)
    ensures
        file_name(key) == numerals::hex(text_map::key_hash(key) as nat, 16, false) + ".png"@,
        file_name(key).len() == 20,
{
    numerals::law_hex(text_map::key_hash(key) as nat, 16, false);
    reveal_strlit(".png");
    assert(".png"@.len() == 4);
}

/// Only programs, shortcuts, icons and cursors, and files without an extension, have icons of their
/// own among files; folders all have.
pub proof fn law_individual_icons(path: Seq<char>, ext: Seq<char>, size: int)
    ensures
        is_individual(ext) <==> set![
            "exe"@, "lnk"@, "ico"@, "url"@, "cur"@, ""@,
        ].contains(ext),
        icon_key_of(path, true, ext, size) == "p:"@ + numerals::signed_decimal(size) + ":"@ + path,
        is_individual(ext) ==> icon_key_of(path, false, ext, size) == "p:"@
            + numerals::signed_decimal(size) + ":"@ + path,
        !is_individual(ext) ==> icon_key_of(path, false, ext, size) == "e:"@
            + numerals::signed_decimal(size) + ":"@ + ext,
        thumbnail_key_of(path, size) == "t:"@ + numerals::signed_decimal(size) + ":"@ + path,
{
}

/// A thumbnail is kept on disk exactly where the time of the last change is known, under its key
/// with that time behind it.
pub proof fn law_disk_key(key: Seq<char>, t: u64)
    ensures
        disk_key_of(key, None) is None,
        disk_key_of(key, Some(t)) == Some(key + ":"@ + numerals::decimal(t as nat)),
{
}

/// An image is looked for in memory first, then on disk, and is extracted only where neither can
/// have it; what is in memory under other keys does not matter.
pub proof fn law_search_order(
    cache: Map<Seq<char>, Seq<char>>,
    key: Seq<char>,
    disk_key: Option<Seq<char>>,
    other: Seq<char>,
    image: Seq<char>,
)
    requires
        other != key,
    ensures
        cache.contains_key(key) ==> first_step(cache, key, disk_key) == IconStepView::Found(
            cache[key],
        ),
        !cache.contains_key(key) ==> (disk_key matches Some(d) ==> first_step(cache, key, disk_key)
            == IconStepView::Load(file_name(d))),
        !cache.contains_key(key) && disk_key is None ==> first_step(cache, key, disk_key)
            == IconStepView::Extract,
        first_step(cache.insert(other, image), key, disk_key) == first_step(cache, key, disk_key),
{
}

/// Nothing is written to disk without a key there, nor for a text that is no data URL of an image;
/// what is written is the image itself, to the file of the key.
pub proof fn law_disk_writes(disk_key: Seq<char>, url: Seq<char>, png: Seq<u8>)
    ensures
        stored(None, url) is None,
        url_bytes(url) is None ==> stored(Some(disk_key), url) is None,
        stored(Some(disk_key), data_url(png)) == Some((file_name(disk_key), png)),
{
    law_url_gives_bytes_back(png);
}

} // verus!
