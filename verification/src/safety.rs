//! Content-safety rules applied before a file is pinned: blocked file types,
//! a size ceiling, and image header validation.
use vstd::prelude::*;
use crate::text::{
    chars_eq_str, chars_of, decimal, last_piece, last_piece_chars, push_decimal,
    push_str, string_from_chars, string_from_str, to_lowercase, unicode_lowercase,
};

verus! {

/// Largest accepted file size in bytes (2 GiB).
pub const MAX_FILE_SIZE: u64 = 2147483648;

/// Bytes per mebibyte, the unit of the size message.
pub const MIB: u64 = 1048576;

/// The verdict of a safety check.
///
/// A classifier score is carried in hundredths (87 stands for 0.87).
#[derive(Debug, Clone)]
pub enum ContentVerdict {
    Safe,
    BlockedExtension(String),
    BlockedSize(u64),
    BlockedNsfw(u32),
}

/// Two decimal digits of a number below 100.
pub open spec fn two_digits(n: nat) -> Seq<char> {
    if n < 10 {
        seq!['0'] + decimal(n)
    } else {
        decimal(n)
    }
}

/// The human-readable reason of a verdict.
pub open spec fn reason_text(v: ContentVerdict) -> Seq<char> {
    match v {
        ContentVerdict::Safe => "safe"@,
        ContentVerdict::BlockedExtension(ext) => "blocked file type: ."@ + ext@,
        ContentVerdict::BlockedSize(size) => "file too large: "@ + decimal((size / MIB) as nat)
            + " MB (max "@ + decimal((MAX_FILE_SIZE / MIB) as nat) + " MB)"@,
        ContentVerdict::BlockedNsfw(score) => "NSFW content detected (score: "@ + decimal(
            (score / 100) as nat,
        ) + "."@ + two_digits((score % 100) as nat) + ")"@,
    }
}

impl ContentVerdict {
    /// Whether the verdict blocks the file.
    pub fn is_blocked(&self) -> (r: bool)
        ensures
            r == !(*self is Safe),
    {
        match self {
            ContentVerdict::Safe => false,
            _ => true,
        }
    }

    /// The identifier recorded in the index for content that a verdict
    /// blocked: `blocked:` and the reason.
    pub fn blocked_cid(&self) -> (r: String)
        ensures
            r@ == "blocked:"@ + reason_text(*self),
    {
        let mut s = string_from_str("blocked:");
        let reason = self.reason();
        push_str(&mut s, reason.as_str());
        s
    }

    /// A human-readable reason.
    pub fn reason(&self) -> (r: String)
        ensures
            r@ == reason_text(*self),
    {
        match self {
            ContentVerdict::Safe => string_from_str("safe"),
            ContentVerdict::BlockedExtension(ext) => {
                let mut s = string_from_str("blocked file type: .");
                push_str(&mut s, ext.as_str());
                s
            },
            ContentVerdict::BlockedSize(size) => {
                let mut s = string_from_str("file too large: ");
                push_decimal(&mut s, *size / MIB);
                push_str(&mut s, " MB (max ");
                push_decimal(&mut s, MAX_FILE_SIZE / MIB);
                push_str(&mut s, " MB)");
                s
            },
            ContentVerdict::BlockedNsfw(score) => {
                let mut s = string_from_str("NSFW content detected (score: ");
                push_decimal(&mut s, (*score / 100) as u64);
                push_str(&mut s, ".");
                let frac = *score % 100;
                if frac < 10 {
                    push_str(&mut s, "0");
                    proof {
                        reveal_strlit("0");
                    }
                }
                push_decimal(&mut s, frac as u64);
                push_str(&mut s, ")");
                assert(s@ =~= reason_text(*self)) by {
                    if frac < 10 {
                        reveal_strlit("0");
                        assert("0"@ =~= seq!['0']);
                    }
                }
                s
            },
        }
    }
}

/// Extensions that are never stored: executables and scripts.
pub open spec fn blocked_extensions() -> Seq<Seq<char>> {
    seq![
        "exe"@, "bat"@, "cmd"@, "scr"@, "dll"@, "com"@, "msi"@, "ps1"@, "vbs"@, "wsf"@, "cpl"@,
        "hta"@, "inf"@, "reg"@, "rgs"@, "sct"@, "shb"@, "sys"@, "pif"@, "application"@,
        "gadget"@, "msp"@, "mst"@, "csh"@, "ksh"@, "lnk"@, "ws"@, "wsc"@, "wsh"@,
    ]
}

/// Extensions of images, which get their header checked.
pub open spec fn image_extensions() -> Seq<Seq<char>> {
    seq!["jpg"@, "jpeg"@, "png"@, "gif"@, "webp"@, "bmp"@, "tiff"@, "tif"@]
}

/// The views of a list of string slices.
pub open spec fn str_views(v: Seq<&str>) -> Seq<Seq<char>> {
    v.map_values(|s: &str| s@)
}

fn blocked_extension_list() -> (v: Vec<&'static str>)
    ensures
        str_views(v@) == blocked_extensions(),
{
    let v = vec![
        "exe", "bat", "cmd", "scr", "dll", "com", "msi", "ps1", "vbs", "wsf", "cpl", "hta", "inf",
        "reg", "rgs", "sct", "shb", "sys", "pif", "application", "gadget", "msp", "mst", "csh",
        "ksh", "lnk", "ws", "wsc", "wsh",
    ];
    assert(str_views(v@) =~= blocked_extensions());
    v
}

fn image_extension_list() -> (v: Vec<&'static str>)
    ensures
        str_views(v@) == image_extensions(),
{
    let v = vec!["jpg", "jpeg", "png", "gif", "webp", "bmp", "tiff", "tif"];
    assert(str_views(v@) =~= image_extensions());
    v
}

fn list_contains(list: &Vec<&'static str>, item: &[char]) -> (r: bool)
    ensures
        r == str_views(list@).contains(item@),
{
    let mut i: usize = 0;
    while i < list.len()
        invariant
            i <= list@.len(),
            forall|j: int| 0 <= j < i ==> list@[j]@ != item@,
        decreases list@.len() - i,
    {
        if chars_eq_str(item, list[i]) {
            assert(str_views(list@)[i as int] == item@);
            return true;
        }
        i = i + 1;
    }
    assert(!str_views(list@).contains(item@)) by {
        if str_views(list@).contains(item@) {
            let k = choose|k: int| 0 <= k < str_views(list@).len() && str_views(list@)[k] == item@;
            assert(list@[k]@ == item@);
        }
    }
    false
}

/// The verdict for a lower-cased extension blocks it exactly when it is one
/// of the executable and script types `exe`, `bat`, `cmd`, `scr`, `dll`,
/// `com`, `msi`, `ps1`, `vbs`, `wsf`, `cpl`, `hta`, `inf`, `reg`, `rgs`,
/// `sct`, `shb`, `sys`, `pif`, `application`, `gadget`, `msp`, `mst`, `csh`,
/// `ksh`, `lnk`, `ws`, `wsc`, `wsh`, and then names that extension.
pub proof fn lemma_blocked_types(v: ContentVerdict, ext: Seq<char>)
    requires
        is_extension_verdict(v, ext),
    ensures
        (v is BlockedExtension) <==> ({
            ||| ext == "exe"@
            ||| ext == "bat"@
            ||| ext == "cmd"@
            ||| ext == "scr"@
            ||| ext == "dll"@
            ||| ext == "com"@
            ||| ext == "msi"@
            ||| ext == "ps1"@
            ||| ext == "vbs"@
            ||| ext == "wsf"@
            ||| ext == "cpl"@
            ||| ext == "hta"@
            ||| ext == "inf"@
            ||| ext == "reg"@
            ||| ext == "rgs"@
            ||| ext == "sct"@
            ||| ext == "shb"@
            ||| ext == "sys"@
            ||| ext == "pif"@
            ||| ext == "application"@
            ||| ext == "gadget"@
            ||| ext == "msp"@
            ||| ext == "mst"@
            ||| ext == "csh"@
            ||| ext == "ksh"@
            ||| ext == "lnk"@
            ||| ext == "ws"@
            ||| ext == "wsc"@
            ||| ext == "wsh"@
        }),
        v matches ContentVerdict::BlockedExtension(e) ==> e@ == ext,
        !(v is BlockedExtension) ==> v is Safe,
{
    reveal_strlit("exe");
    reveal_strlit("bat");
    reveal_strlit("cmd");
    reveal_strlit("scr");
    reveal_strlit("dll");
    reveal_strlit("com");
    reveal_strlit("msi");
    reveal_strlit("ps1");
    reveal_strlit("vbs");
    reveal_strlit("wsf");
    reveal_strlit("cpl");
    reveal_strlit("hta");
    reveal_strlit("inf");
    reveal_strlit("reg");
    reveal_strlit("rgs");
    reveal_strlit("sct");
    reveal_strlit("shb");
    reveal_strlit("sys");
    reveal_strlit("pif");
    reveal_strlit("application");
    reveal_strlit("gadget");
    reveal_strlit("msp");
    reveal_strlit("mst");
    reveal_strlit("csh");
    reveal_strlit("ksh");
    reveal_strlit("lnk");
    reveal_strlit("ws");
    reveal_strlit("wsc");
    reveal_strlit("wsh");
    let b = blocked_extensions();
    if b.contains(ext) {
        let k = choose|k: int| 0 <= k < b.len() && b[k] == ext;
        assert(0 <= k < 29);
    }
    if ext == "exe"@ {
        assert(b[0] == ext);
    }
    if ext == "bat"@ {
        assert(b[1] == ext);
    }
    if ext == "cmd"@ {
        assert(b[2] == ext);
    }
    if ext == "scr"@ {
        assert(b[3] == ext);
    }
    if ext == "dll"@ {
        assert(b[4] == ext);
    }
    if ext == "com"@ {
        assert(b[5] == ext);
    }
    if ext == "msi"@ {
        assert(b[6] == ext);
    }
    if ext == "ps1"@ {
        assert(b[7] == ext);
    }
    if ext == "vbs"@ {
        assert(b[8] == ext);
    }
    if ext == "wsf"@ {
        assert(b[9] == ext);
    }
    if ext == "cpl"@ {
        assert(b[10] == ext);
    }
    if ext == "hta"@ {
        assert(b[11] == ext);
    }
    if ext == "inf"@ {
        assert(b[12] == ext);
    }
    if ext == "reg"@ {
        assert(b[13] == ext);
    }
    if ext == "rgs"@ {
        assert(b[14] == ext);
    }
    if ext == "sct"@ {
        assert(b[15] == ext);
    }
    if ext == "shb"@ {
        assert(b[16] == ext);
    }
    if ext == "sys"@ {
        assert(b[17] == ext);
    }
    if ext == "pif"@ {
        assert(b[18] == ext);
    }
    if ext == "application"@ {
        assert(b[19] == ext);
    }
    if ext == "gadget"@ {
        assert(b[20] == ext);
    }
    if ext == "msp"@ {
        assert(b[21] == ext);
    }
    if ext == "mst"@ {
        assert(b[22] == ext);
    }
    if ext == "csh"@ {
        assert(b[23] == ext);
    }
    if ext == "ksh"@ {
        assert(b[24] == ext);
    }
    if ext == "lnk"@ {
        assert(b[25] == ext);
    }
    if ext == "ws"@ {
        assert(b[26] == ext);
    }
    if ext == "wsc"@ {
        assert(b[27] == ext);
    }
    if ext == "wsh"@ {
        assert(b[28] == ext);
    }
}

/// A lower-cased extension is an image extension exactly when it is one of
/// `jpg`, `jpeg`, `png`, `gif`, `webp`, `bmp`, `tiff`, `tif`.
pub proof fn lemma_image_types(ext: Seq<char>)
    ensures
        image_extensions().contains(ext) <==> ({
            ||| ext == "jpg"@
            ||| ext == "jpeg"@
            ||| ext == "png"@
            ||| ext == "gif"@
            ||| ext == "webp"@
            ||| ext == "bmp"@
            ||| ext == "tiff"@
            ||| ext == "tif"@
        }),
{
    reveal_strlit("jpg");
    reveal_strlit("jpeg");
    reveal_strlit("png");
    reveal_strlit("gif");
    reveal_strlit("webp");
    reveal_strlit("bmp");
    reveal_strlit("tiff");
    reveal_strlit("tif");
    let b = image_extensions();
    if b.contains(ext) {
        let k = choose|k: int| 0 <= k < b.len() && b[k] == ext;
        assert(0 <= k < 8);
    }
    if ext == "jpg"@ {
        assert(b[0] == ext);
    }
    if ext == "jpeg"@ {
        assert(b[1] == ext);
    }
    if ext == "png"@ {
        assert(b[2] == ext);
    }
    if ext == "gif"@ {
        assert(b[3] == ext);
    }
    if ext == "webp"@ {
        assert(b[4] == ext);
    }
    if ext == "bmp"@ {
        assert(b[5] == ext);
    }
    if ext == "tiff"@ {
        assert(b[6] == ext);
    }
    if ext == "tif"@ {
        assert(b[7] == ext);
    }
}

/// The lower-cased text after the last `.` of a path (all of it when there
/// is no `.`).
pub open spec fn extension_of(path: Seq<char>) -> Seq<char> {
    unicode_lowercase(last_piece(path, '.'))
}

/// `v` is the verdict for the lower-cased extension `ext`.
pub open spec fn is_extension_verdict(v: ContentVerdict, ext: Seq<char>) -> bool {
    if blocked_extensions().contains(ext) {
        v matches ContentVerdict::BlockedExtension(e) && e@ == ext
    } else {
        v is Safe
    }
}

fn lowercase_extension(path: &str) -> (r: String)
    ensures
        r@ == extension_of(path@),
{
    let chars = chars_of(path);
    let ext = last_piece_chars(chars.as_slice(), '.');
    let ext_string = string_from_chars(ext.as_slice());
    to_lowercase(ext_string.as_str())
}

/// The verdict for an extension that is already lower-cased.
pub fn verdict_for_extension(ext: String) -> (r: ContentVerdict)
    ensures
        is_extension_verdict(r, ext@),
{
    let list = blocked_extension_list();
    let chars = chars_of(ext.as_str());
    if list_contains(&list, chars.as_slice()) {
        ContentVerdict::BlockedExtension(ext)
    } else {
        ContentVerdict::Safe
    }
}

/// Blocks a path whose extension (case-insensitive) is a blocked one.
pub fn check_extension(path: &str) -> (r: ContentVerdict)
    ensures
        is_extension_verdict(r, extension_of(path@)),
{
    let ext = lowercase_extension(path);
    verdict_for_extension(ext)
}

/// Blocks a size above `MAX_FILE_SIZE`.
pub fn check_size(size: u64) -> (r: ContentVerdict)
    ensures
        r == (if size > MAX_FILE_SIZE {
            ContentVerdict::BlockedSize(size)
        } else {
            ContentVerdict::Safe
        }),
{
    if size > MAX_FILE_SIZE {
        ContentVerdict::BlockedSize(size)
    } else {
        ContentVerdict::Safe
    }
}

/// Whether a lower-cased extension is an image extension.
pub fn is_image_extension(ext: &str) -> (r: bool)
    ensures
        r == image_extensions().contains(ext@),
{
    let list = image_extension_list();
    let chars = chars_of(ext);
    list_contains(&list, chars.as_slice())
}

/// Whether the path's extension (case-insensitive) is an image extension.
pub fn is_image(path: &str) -> (r: bool)
    ensures
        r == image_extensions().contains(extension_of(path@)),
{
    let ext = lowercase_extension(path);
    is_image_extension(ext.as_str())
}

/// JPEG magic bytes.
pub open spec fn jpeg_magic(d: Seq<u8>) -> bool {
    d.len() >= 3 && d[0] == 0xFF && d[1] == 0xD8 && d[2] == 0xFF
}

/// The data starts with a known image signature: JPEG, PNG, GIF, BMP, WebP
/// (RIFF....WEBP) or TIFF (II / MM).
pub open spec fn valid_image_header(d: Seq<u8>) -> bool {
    &&& d.len() >= 4
    &&& {
        ||| (d[0] == 0xFF && d[1] == 0xD8 && d[2] == 0xFF)
        ||| (d[0] == 0x89 && d[1] == 0x50 && d[2] == 0x4E && d[3] == 0x47)
        ||| (d[0] == 0x47 && d[1] == 0x49 && d[2] == 0x46 && d[3] == 0x38)
        ||| (d[0] == 0x42 && d[1] == 0x4D)
        ||| (d.len() >= 12 && d[0] == 0x52 && d[1] == 0x49 && d[2] == 0x46 && d[3] == 0x46
            && d[8] == 0x57 && d[9] == 0x45 && d[10] == 0x42 && d[11] == 0x50)
        ||| (d[0] == 0x49 && d[1] == 0x49)
        ||| (d[0] == 0x4D && d[1] == 0x4D)
    }
}

/// Whether the data starts with the JPEG signature.
pub fn is_jpeg(data: &[u8]) -> (r: bool)
    ensures
        r == jpeg_magic(data@),
{
    data.len() >= 3 && data[0] == 0xFF && data[1] == 0xD8 && data[2] == 0xFF
}

/// Validates image magic bytes.
pub fn is_valid_image_header(data: &[u8]) -> (r: bool)
    ensures
        r == valid_image_header(data@),
{
    if data.len() < 4 {
        return false;
    }
    if data[0] == 0xFF && data[1] == 0xD8 && data[2] == 0xFF {
        return true;
    }
    if data[0] == 0x89 && data[1] == 0x50 && data[2] == 0x4E && data[3] == 0x47 {
        return true;
    }
    if data[0] == 0x47 && data[1] == 0x49 && data[2] == 0x46 && data[3] == 0x38 {
        return true;
    }
    if data[0] == 0x42 && data[1] == 0x4D {
        return true;
    }
    if data.len() >= 12 && data[0] == 0x52 && data[1] == 0x49 && data[2] == 0x46 && data[3] == 0x46
        && data[8] == 0x57 && data[9] == 0x45 && data[10] == 0x42 && data[11] == 0x50 {
        return true;
    }
    if (data[0] == 0x49 && data[1] == 0x49) || (data[0] == 0x4D && data[1] == 0x4D) {
        return true;
    }
    false
}

/// The verdict of `scan_image`.
pub open spec fn is_scan_verdict(v: ContentVerdict, path: Seq<char>, data: Seq<u8>) -> bool {
    if !image_extensions().contains(extension_of(path)) || data.len() < 100 {
        v is Safe
    } else if !valid_image_header(data) {
        v matches ContentVerdict::BlockedExtension(e) && e@ == "fake-image"@
    } else {
        v is Safe
    }
}

/// Scans image content: a file named as an image of at least 100 bytes must
/// carry a matching image signature; anything else passes.
pub fn scan_image(path: &str, data: &[u8]) -> (r: ContentVerdict)
    ensures
        is_scan_verdict(r, path@, data@),
{
    if !is_image(path) || data.len() < 100 {
        return ContentVerdict::Safe;
    }
    if !is_valid_image_header(data) {
        return ContentVerdict::BlockedExtension(string_from_str("fake-image"));
    }
    ContentVerdict::Safe
}

/// The sampled bytes at `i` look like a skin tone (a rough RGB range).
pub open spec fn skin_sample(r: u8, g: u8, b: u8) -> bool {
    &&& r > 95 && g > 40 && b > 20
    &&& r > g && r > b
    &&& (r - g > 15 || g - r > 15)
    &&& r < 250 && g < 230
}

/// Samples taken from position `i` (every 100th byte) up to `end`: how many,
/// and how many look like skin.
pub open spec fn samples_from(d: Seq<u8>, i: int, end: int) -> (nat, nat)
    decreases end - i,
{
    if i >= end || i < 0 || end > d.len() {
        (0, 0)
    } else {
        let rest = if i + 100 < end {
            samples_from(d, i + 100, end)
        } else {
            (0nat, 0nat)
        };
        (
            rest.0 + 1,
            rest.1 + if skin_sample(d[i], d[i + 1], d[i + 2]) {
                1nat
            } else {
                0nat
            },
        )
    }
}

/// The samples of the skin-tone estimate: none below 1000 bytes; otherwise
/// every 100th byte triplet from a quarter of the data to three bytes before
/// its end.
pub open spec fn skin_samples(d: Seq<u8>) -> (nat, nat) {
    if d.len() < 1000 {
        (0, 0)
    } else {
        samples_from(d, (d.len() / 4) as int, d.len() - 3)
    }
}

proof fn lemma_samples_bound(d: Seq<u8>, i: int, end: int)
    requires
        0 <= i,
        end <= d.len(),
    ensures
        samples_from(d, i, end).1 <= samples_from(d, i, end).0,
        samples_from(d, i, end).0 <= if i >= end {
            0
        } else {
            (end - i) / 100 + 1
        },
    decreases end - i,
{
    if i + 100 < end {
        lemma_samples_bound(d, i + 100, end);
    }
}

/// Counts of the skin-tone pre-filter: (sampled triplets, skin-like triplets).
/// The ratio of the two is the estimate.
pub fn skin_tone_sample_counts(data: &[u8]) -> (r: (u32, u32))
    requires
        data@.len() <= 400_000_000_000,
    ensures
        r.0 == skin_samples(data@).0,
        r.1 == skin_samples(data@).1,
{
    let n = data.len();
    if n < 1000 {
        return (0, 0);
    }
    let start = n / 4;
    let end = n - 3;
    let mut total: u32 = 0;
    let mut skin: u32 = 0;
    let mut i = start;
    proof {
        lemma_samples_bound(data@, start as int, end as int);
    }
    while i < end
        invariant
            n == data@.len(),
            1000 <= n <= 400_000_000_000,
            start == n / 4,
            end == n - 3,
            start <= i <= end,
            skin <= total,
            total as nat + samples_from(data@, i as int, end as int).0 <= (end - start) / 100 + 1,
            total as nat + samples_from(data@, i as int, end as int).0 == samples_from(
                data@,
                start as int,
                end as int,
            ).0,
            skin as nat + samples_from(data@, i as int, end as int).1 == samples_from(
                data@,
                start as int,
                end as int,
            ).1,
            samples_from(data@, start as int, end as int).0 <= (end - start) / 100 + 1,
        decreases end - i,
    {
        proof {
            lemma_samples_bound(data@, i as int, end as int);
            if i + 100 < end {
                lemma_samples_bound(data@, i + 100, end as int);
            }
        }
        let r = data[i];
        let g = data[i + 1];
        let b = data[i + 2];
        total = total + 1;
        let diff = if r >= g {
            r - g
        } else {
            g - r
        };
        if r > 95 && g > 40 && b > 20 && r > g && r > b && diff > 15 && r < 250 && g < 230 {
            skin = skin + 1;
        }
        if end - i <= 100 {
            i = end;
        } else {
            i = i + 100;
        }
    }
    (total, skin)
}

} // verus!
