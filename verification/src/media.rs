//! Attachments: describing them, naming them in the cache, sending them.

use vstd::prelude::*;

use std::collections::hash_map::DefaultHasher;
use std::hash::{Hash, Hasher};

use vstd::std_specs::hash::DefaultHasherAdditionalSpecFns;

use crate::events::{File, FileKind, RoomEvent, Sounds, What};
use crate::protocol::Attachment;
use crate::refusal::Refusal;
use crate::text;

verus! {

/// A waveform is cut to this many points.
pub const MAX_WAVEFORM: usize = 256;

pub open spec fn kind_text(kind: FileKind) -> Seq<char> {
    match kind {
        FileKind::Image => "image"@,
        FileKind::File => "file"@,
        FileKind::Video => "video"@,
        FileKind::Audio => "audio"@,
    }
}

pub fn kind_name(kind: FileKind) -> (r: &'static str)
    ensures
        r@ == kind_text(kind),
{
    match kind {
        FileKind::Image => "image",
        FileKind::File => "file",
        FileKind::Video => "video",
        FileKind::Audio => "audio",
    }
}

/// A caption, unless it is blank.
pub open spec fn caption_shown(c: Option<Seq<char>>) -> Option<Seq<char>> {
    match c {
        Some(s) => if text::trimmed(s).len() == 0 {
            None
        } else {
            Some(s)
        },
        None => None,
    }
}

/// A recording's length: the voice message's own, else the file's.
pub open spec fn length_shown(s: Option<Sounds>) -> Option<u64> {
    match s {
        Some(s) => if s.1 is Some {
            s.1
        } else {
            s.2
        },
        None => None,
    }
}

/// A loudness as sixteen bits hold it.
pub open spec fn point(v: u64) -> u16 {
    if v > u16::MAX {
        u16::MAX
    } else {
        v as u16
    }
}

/// The first points of a waveform; nothing where it has none.
pub open spec fn waveform_shown(s: Option<Sounds>) -> Option<Seq<u16>> {
    match s {
        Some(s) => if s.3.len() == 0 {
            None
        } else {
            let n = if s.3.len() > MAX_WAVEFORM {
                MAX_WAVEFORM as nat
            } else {
                s.3.len()
            };
            Some(Seq::new(n, |i: int| point(s.3[i])))
        },
        None => None,
    }
}

pub open spec fn points_view(w: Option<Vec<u16>>) -> Option<Seq<u16>> {
    match w {
        Some(v) => Some(v@),
        None => None,
    }
}

/// Whether attachments of a kind have a width and a height.
pub open spec fn has_sides(kind: FileKind) -> bool {
    kind == FileKind::Image || kind == FileKind::Video
}

/// What a recording says of its sound; no other attachment has one.
pub open spec fn heard(f: File) -> Option<Sounds> {
    if f.kind == FileKind::Audio {
        crate::events::sound_view(f.sound)
    } else {
        None
    }
}

/// `a` is what the client is told of the attachment `f`.
pub open spec fn describes(a: Attachment, f: File) -> bool {
    let sounds = heard(f);
    &&& a.kind@ == kind_text(f.kind)
    &&& a.name@ == f.media.filename@
    &&& text::opt(a.caption) == caption_shown(text::opt(f.media.caption))
    &&& a.voice == (sounds is Some && (sounds->0).0)
    &&& a.duration_ms == length_shown(sounds)
    &&& points_view(a.waveform) == waveform_shown(sounds)
    &&& text::opt(a.mime) == text::opt(f.media.mime)
    &&& a.size == f.media.size
    &&& a.width == (if has_sides(f.kind) {
        f.media.width
    } else {
        None
    })
    &&& a.height == (if has_sides(f.kind) {
        f.media.height
    } else {
        None
    })
    &&& a.has_thumbnail == match f.kind {
        FileKind::Image => true,
        FileKind::Audio => false,
        _ => f.media.thumbnail,
    }
}

pub open spec fn describes_opt(a: Option<Attachment>, f: Option<File>) -> bool {
    match (a, f) {
        (Some(a), Some(f)) => describes(a, f),
        (None, None) => true,
        _ => false,
    }
}

fn waveform_of(points: &Vec<u64>) -> (r: Option<Vec<u16>>)
    ensures
        points_view(r) == waveform_shown(Some((true, None, None, points@))),
{
    if points.len() == 0 {
        return None;
    }
    let mut out: Vec<u16> = Vec::new();
    let mut i: usize = 0;
    while i < points.len() && i < MAX_WAVEFORM
        invariant
            i <= points@.len(),
            i <= MAX_WAVEFORM,
            out@.len() == i,
            forall|k: int| 0 <= k < i ==> out@[k] == point(points@[k]),
        decreases points.len() - i,
    {
        let v: u64 = points[i];
        if v > u16::MAX as u64 {
            out.push(u16::MAX);
        } else {
            out.push(v as u16);
        }
        i += 1;
    }
    assert(out@ =~= waveform_shown(Some((true, None, None, points@)))->0);
    Some(out)
}

/// What the client needs to know to render an attachment message. An image
/// can always be scaled, so it always has a thumbnail.
pub fn attachment_of(file: &Option<File>) -> (r: Option<Attachment>)
    ensures
        describes_opt(r, *file),
{
    let f = match file {
        Some(f) => f,
        None => return None,
    };
    let caption = match &f.media.caption {
        Some(c) => if text::trim(c.as_str()).as_str().is_empty() {
            None
        } else {
            Some(c.clone())
        },
        None => None,
    };
    let has_thumbnail = match f.kind {
        FileKind::Image => true,
        FileKind::Audio => false,
        _ => f.media.thumbnail,
    };
    let (width, height): (Option<u64>, Option<u64>) = match f.kind {
        FileKind::Image => (f.media.width, f.media.height),
        FileKind::Video => (f.media.width, f.media.height),
        _ => (None, None),
    };
    let (voice, duration_ms, waveform): (bool, Option<u64>, Option<Vec<u16>>) = match (
        f.kind,
        &f.sound,
    ) {
        (FileKind::Audio, Some(s)) => (
            s.voice,
            if s.block_ms.is_some() {
                s.block_ms
            } else {
                s.info_ms
            },
            waveform_of(&s.waveform),
        ),
        _ => (false, None, None),
    };
    Some(
        Attachment {
            kind: kind_name(f.kind).to_owned(),
            name: f.media.filename.clone(),
            caption,
            voice,
            duration_ms,
            waveform,
            mime: text::copy_opt(&f.media.mime),
            size: f.media.size,
            width,
            height,
            has_thumbnail,
        },
    )
}

/// The longest side of a thumbnail asked for.
pub const THUMB_SIZE: u32 = 640;

/// The most bytes of a file sent or fetched.
pub const MAX_UPLOAD: u64 = 104_857_600;

/// The most bytes of a thumbnail fetched.
pub const MAX_THUMBNAIL: u64 = 16_777_216;

/// Seconds given to a download.
pub const FETCH_SECS: u64 = 300;

/// Seconds given to ffmpeg.
pub const FFMPEG_SECS: u64 = 120;

/// What hashing a text writes into a hasher.
pub uninterp spec fn str_writes(s: Seq<char>) -> Seq<Seq<u8>>;

/// `<str as Hash>::hash`: what it writes into the hasher depends on the text
/// alone.
#[verifier::external_body]
fn feed(s: &str, h: &mut DefaultHasher)
    ensures
        final(h)@ == old(h)@ + str_writes(s@),
{
    s.hash(h)
}

/// The hash of a text, in sixteen hexadecimal digits.
pub open spec fn hash_text(s: Seq<char>) -> Seq<char> {
    text::hex(DefaultHasher::spec_finish(str_writes(s)) as nat, 16)
}

pub fn hash_of(s: &str) -> (r: String)
    ensures
        r@ == hash_text(s@),
{
    let mut h = DefaultHasher::new();
    feed(s, &mut h);
    assert(h@ =~= str_writes(s@));
    text::to_hex(h.finish(), 16)
}

/// An image format that the client can show.
#[derive(Debug, Clone, Copy, PartialEq, Eq, Structural)]
pub enum ImageKind {
    Png,
    Jpeg,
    Gif,
    Webp,
    Bmp,
}

/// `b` begins with `p`.
pub open spec fn starts(b: Seq<u8>, p: Seq<u8>) -> bool {
    p.len() <= b.len() && b.take(p.len() as int) == p
}

/// The format of an image by the marks in its first twelve bytes. Bytes with
/// the mark of BMP that are also those of an ISO media file are not BMP.
pub open spec fn image_kind(b: Seq<u8>) -> Option<ImageKind> {
    if b.len() < 12 {
        None
    } else if starts(b, seq![0xffu8, 0xd8, 0xff]) {
        Some(ImageKind::Jpeg)
    } else if starts(b, seq![0x89u8, 0x50, 0x4e, 0x47]) {
        Some(ImageKind::Png)
    } else if starts(b, seq![0x47u8, 0x49, 0x46, 0x38]) {
        Some(ImageKind::Gif)
    } else if starts(b, seq![0x52u8, 0x49, 0x46, 0x46]) && b.subrange(8, 12) == seq![
        0x57u8,
        0x45,
        0x42,
        0x50,
    ] {
        Some(ImageKind::Webp)
    } else if starts(b, seq![0x42u8, 0x4d]) && b.subrange(4, 8) != seq![0x66u8, 0x74, 0x79, 0x70] {
        Some(ImageKind::Bmp)
    } else {
        None
    }
}

/// `imagesize::image_type` goes by the first twelve bytes: the marks of JPEG,
/// PNG, GIF and WebP each stand for their format, and so does that of BMP
/// except where the bytes are also those of an ISO media file. Of any other
/// format nothing comes out.
#[verifier::external_body]
fn image_type(bytes: &Vec<u8>) -> (r: Option<ImageKind>)
    ensures
        r == image_kind(bytes@),
{
    match imagesize::image_type(bytes).ok()? {
        imagesize::ImageType::Png => Some(ImageKind::Png),
        imagesize::ImageType::Jpeg => Some(ImageKind::Jpeg),
        imagesize::ImageType::Gif => Some(ImageKind::Gif),
        imagesize::ImageType::Webp => Some(ImageKind::Webp),
        imagesize::ImageType::Bmp => Some(ImageKind::Bmp),
        _ => None,
    }
}

pub open spec fn image_mime(k: ImageKind) -> Seq<char> {
    match k {
        ImageKind::Png => "image/png"@,
        ImageKind::Jpeg => "image/jpeg"@,
        ImageKind::Gif => "image/gif"@,
        ImageKind::Webp => "image/webp"@,
        ImageKind::Bmp => "image/bmp"@,
    }
}

pub open spec fn image_ext(k: ImageKind) -> Seq<char> {
    match k {
        ImageKind::Png => "png"@,
        ImageKind::Jpeg => "jpg"@,
        ImageKind::Gif => "gif"@,
        ImageKind::Webp => "webp"@,
        ImageKind::Bmp => "bmp"@,
    }
}

/// The format of an image by its bytes.
pub fn sniff(bytes: &Vec<u8>) -> (r: Option<ImageKind>)
    ensures
        r == image_kind(bytes@),
{
    image_type(bytes)
}

pub fn mime_of(k: ImageKind) -> (r: &'static str)
    ensures
        r@ == image_mime(k),
{
    match k {
        ImageKind::Png => "image/png",
        ImageKind::Jpeg => "image/jpeg",
        ImageKind::Gif => "image/gif",
        ImageKind::Webp => "image/webp",
        ImageKind::Bmp => "image/bmp",
    }
}

fn ext_of(k: ImageKind) -> (r: &'static str)
    ensures
        r@ == image_ext(k),
{
    match k {
        ImageKind::Png => "png",
        ImageKind::Jpeg => "jpg",
        ImageKind::Gif => "gif",
        ImageKind::Webp => "webp",
        ImageKind::Bmp => "bmp",
    }
}

/// The MIME type of an image by its bytes.
pub fn infer_image_mime(bytes: &Vec<u8>) -> (r: Option<String>)
    ensures
        text::opt(r) == match image_kind(bytes@) {
            Some(k) => Some(image_mime(k)),
            None => None,
        },
{
    match sniff(bytes) {
        Some(k) => Some(mime_of(k).to_owned()),
        None => None,
    }
}

/// The usual extension of a MIME type.
pub uninterp spec fn mime_extension(mime: Seq<char>) -> Option<Seq<char>>;

/// `mime2ext::mime2ext`: the usual extension of a MIME type, from its table;
/// it depends on the type alone.
#[verifier::external_body]
fn extension_of_mime(mime: &str) -> (r: Option<String>)
    ensures
        text::opt(r) == mime_extension(mime@),
{
    mime2ext::mime2ext(mime).map(str::to_owned)
}

/// Where `c` last occurs in `s`; before its start where it does not.
pub open spec fn last_at(s: Seq<char>, c: char) -> int
    decreases s.len(),
{
    if s.len() == 0 {
        -1
    } else if s.last() == c {
        s.len() - 1
    } else {
        last_at(s.drop_last(), c)
    }
}

/// The last component of a path. Slashes that follow one another or end the
/// path do not make one, nor does a dot alone.
pub open spec fn last_component(path: Seq<char>) -> Option<Seq<char>>
    decreases path.len(),
{
    let slash = last_at(path, '/');
    let tail = path.skip(slash + 1);
    if tail.len() > 0 && tail != seq!['.'] {
        Some(tail)
    } else if 0 <= slash < path.len() {
        last_component(path.take(slash))
    } else {
        None
    }
}

/// The file name of a path: its last component, unless that leads up.
pub open spec fn path_file_name(path: Seq<char>) -> Option<Seq<char>> {
    match last_component(path) {
        Some(name) => if name == seq!['.', '.'] {
            None
        } else {
            Some(name)
        },
        None => None,
    }
}

/// The extension of a path: what follows the last dot of its file name, where
/// that has one that is not its first character.
pub open spec fn path_extension(path: Seq<char>) -> Option<Seq<char>> {
    match path_file_name(path) {
        Some(name) => if last_at(name, '.') <= 0 {
            None
        } else {
            Some(name.skip(last_at(name, '.') + 1))
        },
        None => None,
    }
}

/// `std::path::Path::extension`: what follows the last dot of the file name,
/// where it has one that is not its first character. Components are told apart
/// by slashes, as on the Unix systems that the daemon runs on.
#[verifier::external_body]
fn extension_of_path(name: &str) -> (r: Option<String>)
    ensures
        text::opt(r) == path_extension(name@),
{
    std::path::Path::new(name).extension().map(|e| e.to_string_lossy().into_owned())
}

/// The extensions that a cached video may get.
pub open spec fn video_exts() -> Seq<Seq<char>> {
    seq!["mp4"@, "m4v"@, "webm"@, "mkv"@, "mov"@, "qt"@, "ogv"@, "mpeg"@, "avi"@, "3gp"@]
}

/// The extensions that a cached recording may get.
pub open spec fn audio_exts() -> Seq<Seq<char>> {
    seq!["ogg"@, "oga"@, "opus"@, "mp3"@, "mpga"@, "m4a"@, "wav"@, "flac"@, "aac"@, "weba"@]
}

/// The extensions that any other cached file may get.
pub open spec fn file_exts() -> Seq<Seq<char>> {
    seq![
        "pdf"@,
        "txt"@,
        "md"@,
        "csv"@,
        "json"@,
        "zip"@,
        "gz"@,
        "tar"@,
        "7z"@,
        "xz"@,
        "doc"@,
        "docx"@,
        "xls"@,
        "xlsx"@,
        "ppt"@,
        "pptx"@,
        "odt"@,
        "ods"@,
        "odp"@,
        "epub"@,
    ]
}

fn one_of(ext: &str, list: &Vec<&'static str>) -> (r: bool)
    ensures
        r == exists|i: int| 0 <= i < list@.len() && (#[trigger] list@[i])@ == ext@,
{
    let mut i: usize = 0;
    while i < list.len()
        invariant
            i <= list@.len(),
            forall|k: int| 0 <= k < i ==> (#[trigger] list@[k])@ != ext@,
        decreases list.len() - i,
    {
        if text::same(list[i], ext) {
            assert(list@[i as int]@ == ext@);
            return true;
        }
        i += 1;
    }
    false
}

/// The extensions that an attachment of this kind may get; an image gets its
/// own by its bytes.
pub open spec fn allowed(kind: FileKind) -> Seq<Seq<char>> {
    match kind {
        FileKind::Image => Seq::empty(),
        FileKind::Video => video_exts(),
        FileKind::Audio => audio_exts(),
        FileKind::File => file_exts(),
    }
}

fn is_allowed(kind: FileKind, ext: &str) -> (r: bool)
    ensures
        r == allowed(kind).contains(ext@),
{
    let list: Vec<&'static str> = match kind {
        FileKind::Image => Vec::new(),
        FileKind::Video => vec![
            "mp4",
            "m4v",
            "webm",
            "mkv",
            "mov",
            "qt",
            "ogv",
            "mpeg",
            "avi",
            "3gp",
        ],
        FileKind::Audio => vec![
            "ogg",
            "oga",
            "opus",
            "mp3",
            "mpga",
            "m4a",
            "wav",
            "flac",
            "aac",
            "weba",
        ],
        FileKind::File => vec![
            "pdf",
            "txt",
            "md",
            "csv",
            "json",
            "zip",
            "gz",
            "tar",
            "7z",
            "xz",
            "doc",
            "docx",
            "xls",
            "xlsx",
            "ppt",
            "pptx",
            "odt",
            "ods",
            "odp",
            "epub",
        ],
    };
    assert(list@.len() == allowed(kind).len());
    assert forall|i: int| 0 <= i < list@.len() implies (#[trigger] list@[i])@ == allowed(
        kind,
    )[i] by {}
    let r = one_of(ext, &list);
    proof {
        if r {
            let i = choose|i: int| 0 <= i < list@.len() && (#[trigger] list@[i])@ == ext@;
            assert(allowed(kind)[i] == ext@);
        }
        if allowed(kind).contains(ext@) {
            let i = choose|i: int| 0 <= i < allowed(kind).len() && allowed(kind)[i] == ext@;
            assert(list@[i]@ == ext@);
        }
    }
    r
}

/// The extension of what is kept, from those that its MIME type and its file
/// name suggest: an image's goes by its bytes only, and so does that of a plain
/// file that is one; any other's is as suggested, by the type first, where its
/// kind allows that, else `bin`.
pub open spec fn ext_chosen(
    kind: FileKind,
    image: Option<ImageKind>,
    by_mime: Option<Seq<char>>,
    by_name: Option<Seq<char>>,
) -> Seq<char> {
    let s = if by_mime is Some {
        by_mime
    } else {
        by_name
    };
    if image is Some && (kind == FileKind::Image || kind == FileKind::File) {
        image_ext(image->0)
    } else if s is Some && allowed(kind).contains(s->0) {
        s->0
    } else {
        "bin"@
    }
}

/// The extension of what is kept, from those that its MIME type and its file
/// name suggest.
pub fn choose_extension(
    kind: FileKind,
    image: Option<ImageKind>,
    by_mime: Option<String>,
    by_name: Option<String>,
) -> (r: String)
    ensures
        r@ == ext_chosen(kind, image, text::opt(by_mime), text::opt(by_name)),
{
    let suggestion = match by_mime {
        Some(e) => Some(e),
        None => by_name,
    };
    let by_bytes = match kind {
        FileKind::Image => image,
        FileKind::File => image,
        _ => None,
    };
    match by_bytes {
        Some(k) => ext_of(k).to_owned(),
        None => match suggestion {
            Some(e) => if is_allowed(kind, e.as_str()) {
                e
            } else {
                "bin".to_owned()
            },
            None => "bin".to_owned(),
        },
    }
}

/// The extension of a cached attachment.
pub open spec fn cache_ext(
    kind: FileKind,
    image: Option<ImageKind>,
    mime: Option<Seq<char>>,
    filename: Seq<char>,
) -> Seq<char> {
    ext_chosen(
        kind,
        image,
        match mime {
            Some(m) => mime_extension(m),
            None => None,
        },
        path_extension(filename),
    )
}

/// A cached attachment is named after a hash of its event, so that the same
/// file is kept once.
pub open spec fn cached_as(event_id: Seq<char>, thumbnail: bool, ext: Seq<char>) -> Seq<char> {
    hash_text(event_id) + (if thumbnail {
        "-thumb"@
    } else {
        ""@
    }) + ("."@ + ext)
}

/// The name of a cached attachment; `thumbnail` says that a thumbnail was asked
/// for, `kind` what came.
pub fn cache_name(
    event_id: &str,
    thumbnail: bool,
    kind: FileKind,
    image: Option<ImageKind>,
    mime: &Option<String>,
    filename: &str,
) -> (r: String)
    ensures
        r@ == cached_as(
            event_id@,
            thumbnail,
            cache_ext(kind, image, text::opt(*mime), filename@),
        ),
{
    let by_mime = match mime {
        Some(m) => extension_of_mime(m.as_str()),
        None => None,
    };
    let ext = choose_extension(kind, image, by_mime, extension_of_path(filename));
    let tail = text::plus(".", ext.as_str());
    let hash = hash_of(event_id);
    text::plus3(
        hash.as_str(),
        if thumbnail {
            "-thumb"
        } else {
            ""
        },
        tail.as_str(),
    )
}

/// The extension of a cached attachment is that of an image format, one of its
/// kind's list, or `bin`: a file declared as a web page does not become one.
pub proof fn lemma_cache_ext(
    kind: FileKind,
    image: Option<ImageKind>,
    mime: Option<Seq<char>>,
    filename: Seq<char>,
)
    ensures
        ({
            let e = cache_ext(kind, image, mime, filename);
            ||| image is Some && e == image_ext(image->0)
            ||| allowed(kind).contains(e)
            ||| e == "bin"@
        }),
        cache_ext(kind, image, mime, filename) != "html"@,
{
    reveal_strlit("png");
    reveal_strlit("jpg");
    reveal_strlit("gif");
    reveal_strlit("webp");
    reveal_strlit("bmp");
    reveal_strlit("html");
    reveal_strlit("bin");
    reveal_strlit("mp4");
    reveal_strlit("m4v");
    reveal_strlit("webm");
    reveal_strlit("mkv");
    reveal_strlit("mov");
    reveal_strlit("qt");
    reveal_strlit("ogv");
    reveal_strlit("mpeg");
    reveal_strlit("avi");
    reveal_strlit("3gp");
    reveal_strlit("ogg");
    reveal_strlit("oga");
    reveal_strlit("opus");
    reveal_strlit("mp3");
    reveal_strlit("mpga");
    reveal_strlit("m4a");
    reveal_strlit("wav");
    reveal_strlit("flac");
    reveal_strlit("aac");
    reveal_strlit("weba");
    reveal_strlit("json");
    reveal_strlit("docx");
    reveal_strlit("xlsx");
    reveal_strlit("pptx");
    reveal_strlit("epub");
    reveal_strlit("pdf");
    reveal_strlit("txt");
    reveal_strlit("md");
    reveal_strlit("csv");
    reveal_strlit("zip");
    reveal_strlit("gz");
    reveal_strlit("tar");
    reveal_strlit("7z");
    reveal_strlit("xz");
    reveal_strlit("doc");
    reveal_strlit("xls");
    reveal_strlit("ppt");
    reveal_strlit("odt");
    reveal_strlit("ods");
    reveal_strlit("odp");
    let e = cache_ext(kind, image, mime, filename);
    if e == "html"@ {
        assert(e[0] == 'h');
        let list = allowed(kind);
        if list.contains(e) {
            let i = choose|i: int| 0 <= i < list.len() && list[i] == e;
            assert(list[i][0] != 'h');
        }
    }
}

/// The file name of an avatar in the cache, by its address and size in pixels.
pub open spec fn avatar_file(url: Seq<char>, size: int) -> Seq<char> {
    if size == 96 {
        hash_text(url) + ".png"@
    } else {
        hash_text(url) + "-"@ + (text::decimal(size as nat) + ".png"@)
    }
}

/// The size in pixels that an avatar is fetched in.
pub fn avatar_size(size: u32) -> (r: u32)
    ensures
        r == crate::timeline::clamped(size as int, 16, 640),
{
    crate::timeline::clamp(size, 16, 640)
}

/// The default size keeps its name without the size, so that existing caches
/// stay valid.
pub fn avatar_name(url: &str, size: u32) -> (r: String)
    ensures
        r@ == avatar_file(url@, size as int),
{
    let hash = hash_of(url);
    if size == 96 {
        text::plus(hash.as_str(), ".png")
    } else {
        let d = text::to_decimal(size as u64);
        let tail = text::plus(d.as_str(), ".png");
        text::plus3(hash.as_str(), "-", tail.as_str())
    }
}

/// A download that is watched: it ends as soon as it is over its limit.
#[derive(Debug, Clone, PartialEq, Eq)]
pub struct Fetch {
    pub limit: u64,
    pub received: u64,
}

impl Fetch {
    pub open spec fn wf(&self) -> bool {
        self.received <= self.limit
    }

    pub fn new(thumbnail: bool) -> (f: Fetch)
        ensures
            f.wf(),
            f.received == 0,
            f.limit == (if thumbnail {
                MAX_THUMBNAIL
            } else {
                MAX_UPLOAD
            }),
    {
        Fetch {
            limit: if thumbnail {
                MAX_THUMBNAIL
            } else {
                MAX_UPLOAD
            },
            received: 0,
        }
    }

    /// Whether to take a download whose server declares this length, or none.
    pub fn accepts(&self, declared: Option<u64>) -> (r: bool)
        ensures
            r == match declared {
                Some(n) => n <= self.limit,
                None => true,
            },
    {
        match declared {
            Some(n) => n <= self.limit,
            None => true,
        }
    }

    /// Another `n` bytes came. False means that the download is over its limit
    /// and is dropped, those bytes with it.
    pub fn chunk(&mut self, n: u64) -> (r: bool)
        requires
            old(self).wf(),
        ensures
            final(self).wf(),
            r == (old(self).received + n <= old(self).limit),
            final(self).limit == old(self).limit,
            final(self).received == (if r {
                old(self).received + n
            } else {
                old(self).received as int
            }),
    {
        if n <= self.limit - self.received {
            self.received = self.received + n;
            true
        } else {
            false
        }
    }
}

/// An attachment to fetch.
#[derive(Debug, Clone, PartialEq, Eq)]
pub struct DownloadPlan {
    pub kind: FileKind,
    pub filename: String,
    /// The MIME type that the message declares.
    pub mime: Option<String>,
    /// What comes stands for a thumbnail.
    pub thumbnail: bool,
    /// The file itself is fetched.
    pub whole: bool,
    pub voice: bool,
}

/// The event declares its file as larger than allowed.
pub open spec fn oversized(f: File) -> bool {
    f.media.size is Some && f.media.size->0 > MAX_UPLOAD
}

/// There is a thumbnail to fetch: the message names one, or the server scales a
/// picture that it can read. A recording has none.
pub open spec fn has_small(f: File) -> bool {
    f.kind != FileKind::Audio && (f.media.thumbnail || (has_sides(f.kind) && !f.media.sealed))
}

/// Something can stand for a thumbnail: one of its own, or a picture itself,
/// also where the server cannot scale it.
pub open spec fn stands_small(f: File) -> bool {
    f.kind != FileKind::Audio && (f.media.thumbnail || has_sides(f.kind))
}

/// What is fetched of an attachment: its thumbnail, where there is one and it is
/// wanted, else the file.
pub open spec fn planned(f: File, thumbnail: bool) -> DownloadPlan {
    DownloadPlan {
        kind: f.kind,
        filename: f.media.filename,
        mime: f.media.mime,
        thumbnail: thumbnail && stands_small(f),
        whole: !(thumbnail && has_small(f)),
        voice: heard(f) is Some && (heard(f)->0).0,
    }
}

/// The attachment of an event to fetch. A file that the event itself declares
/// as too large is never asked for.
pub fn download_plan(ev: &RoomEvent, thumbnail: bool) -> (r: Result<DownloadPlan, Refusal>)
    ensures
        match ev.what {
            What::Message { file, .. } => match file {
                Some(f) => if oversized(f) && planned(f, thumbnail).whole {
                    r == Err::<DownloadPlan, Refusal>(Refusal::MediaTooLarge)
                } else {
                    r == Ok::<DownloadPlan, Refusal>(planned(f, thumbnail))
                },
                None => r == Err::<DownloadPlan, Refusal>(Refusal::NoAttachment),
            },
            _ => r == Err::<DownloadPlan, Refusal>(Refusal::NotAMessage),
        },
{
    match &ev.what {
        What::Message { file, .. } => match file {
            Some(f) => {
                let fits = match f.media.size {
                    Some(n) => n <= MAX_UPLOAD,
                    None => true,
                };
                let picture = match f.kind {
                    FileKind::Image => true,
                    FileKind::Video => true,
                    _ => false,
                };
                let recording = f.kind == FileKind::Audio;
                let asked = thumbnail && !recording;
                let whole = !(asked && (f.media.thumbnail || (picture && !f.media.sealed)));
                if !fits && whole {
                    return Err(Refusal::MediaTooLarge);
                }
                let voice = match &f.sound {
                    Some(s) => recording && s.voice,
                    None => false,
                };
                Ok(
                    DownloadPlan {
                        kind: f.kind,
                        filename: f.media.filename.clone(),
                        mime: text::copy_opt(&f.media.mime),
                        thumbnail: asked && (f.media.thumbnail || picture),
                        whole,
                        voice,
                    },
                )
            },
            None => Err(Refusal::NoAttachment),
        },
        _ => Err(Refusal::NotAMessage),
    }
}

/// The MIME type of what was fetched. A thumbnail is whatever the server made,
/// so its bytes come first; of a file the declared type does.
pub open spec fn fetched_mime(
    thumbnail: bool,
    image: Option<ImageKind>,
    declared: Option<Seq<char>>,
) -> Seq<char> {
    if thumbnail {
        if image is Some {
            image_mime(image->0)
        } else if declared is Some {
            declared->0
        } else {
            "image/jpeg"@
        }
    } else if declared is Some {
        declared->0
    } else if image is Some {
        image_mime(image->0)
    } else {
        "application/octet-stream"@
    }
}

pub fn mime_fetched(thumbnail: bool, image: Option<ImageKind>, declared: &Option<String>) -> (r:
    String)
    ensures
        r@ == fetched_mime(thumbnail, image, text::opt(*declared)),
{
    match (image, declared) {
        (Some(k), Some(d)) => if thumbnail {
            mime_of(k).to_owned()
        } else {
            d.clone()
        },
        (Some(k), None) => mime_of(k).to_owned(),
        (None, Some(d)) => d.clone(),
        (None, None) => if thumbnail {
            "image/jpeg".to_owned()
        } else {
            "application/octet-stream".to_owned()
        },
    }
}

/// What was fetched, as it is kept: file name, MIME type, and for a voice
/// message the name of its copy at speech level.
#[derive(Debug, Clone, PartialEq, Eq)]
pub struct Kept {
    pub name: String,
    pub mime: String,
    pub normalised: Option<String>,
}

/// Whether bytes are a recording, by their first ones: Ogg, WAV, FLAC, MP3, an
/// ISO media file or Matroska.
pub open spec fn sounds_like(b: Seq<u8>) -> bool {
    &&& b.len() >= 12
    &&& {
        ||| starts(b, seq![0x4fu8, 0x67, 0x67, 0x53])
        ||| starts(b, seq![0x52u8, 0x49, 0x46, 0x46]) && b.subrange(8, 12) == seq![
            0x57u8,
            0x41,
            0x56,
            0x45,
        ]
        ||| starts(b, seq![0x66u8, 0x4c, 0x61, 0x43])
        ||| starts(b, seq![0x49u8, 0x44, 0x33])
        ||| b[0] == 0xff && b[1] >= 0xe0
        ||| b.subrange(4, 8) == seq![0x66u8, 0x74, 0x79, 0x70]
        ||| starts(b, seq![0x1au8, 0x45, 0xdf, 0xa3])
    }
}

fn mark_at(b: &Vec<u8>, at: usize, m0: u8, m1: u8, m2: u8, m3: u8) -> (r: bool)
    requires
        at + 4 <= b@.len(),
    ensures
        r == (b@.subrange(at as int, at + 4) == seq![m0, m1, m2, m3]),
{
    assert(at + 4 <= b.len());
    let r = b[at] == m0 && b[at + 1] == m1 && b[at + 2] == m2 && b[at + 3] == m3;
    proof {
        let s = b@.subrange(at as int, at + 4);
        if r {
            assert(s =~= seq![m0, m1, m2, m3]);
        } else {
            assert(s[0] == b@[at as int] && s[1] == b@[at + 1] && s[2] == b@[at + 2] && s[3]
                == b@[at + 3]);
        }
    }
    r
}

pub fn is_recording(b: &Vec<u8>) -> (r: bool)
    ensures
        r == sounds_like(b@),
{
    if b.len() < 12 {
        return false;
    }
    proof {
        assert(b@.subrange(0, 4) =~= b@.take(4));
        let three = b@.take(3);
        assert(three == seq![0x49u8, 0x44, 0x33] <==> (b@[0] == 0x49 && b@[1] == 0x44 && b@[2]
            == 0x33)) by {
            assert(three[0] == b@[0] && three[1] == b@[1] && three[2] == b@[2]);
            if b@[0] == 0x49 && b@[1] == 0x44 && b@[2] == 0x33 {
                assert(three =~= seq![0x49u8, 0x44, 0x33]);
            }
        }
    }
    mark_at(b, 0, 0x4f, 0x67, 0x67, 0x53) || (mark_at(b, 0, 0x52, 0x49, 0x46, 0x46) && mark_at(
        b,
        8,
        0x57,
        0x41,
        0x56,
        0x45,
    )) || mark_at(b, 0, 0x66, 0x4c, 0x61, 0x43) || (b[0] == 0x49 && b[1] == 0x44 && b[2] == 0x33)
        || (b[0] == 0xff && b[1] >= 0xe0) || mark_at(b, 4, 0x66, 0x74, 0x79, 0x70) || mark_at(
        b,
        0,
        0x1a,
        0x45,
        0xdf,
        0xa3,
    )
}

/// `Kept` as characters: file name, MIME type and name of the copy.
pub struct Keeping {
    pub name: Seq<char>,
    pub mime: Seq<char>,
    pub normalised: Option<Seq<char>>,
}

impl Kept {
    pub open spec fn view(&self) -> Keeping {
        Keeping {
            name: self.name@,
            mime: self.mime@,
            normalised: text::opt(self.normalised),
        }
    }
}

pub open spec fn kept_view(k: Option<Kept>) -> Option<Keeping> {
    match k {
        Some(k) => Some(k@),
        None => None,
    }
}

/// What comes by a plan: a thumbnail is an image, whatever it is of.
pub open spec fn what_comes(plan: DownloadPlan) -> FileKind {
    if !plan.whole {
        FileKind::Image
    } else {
        plan.kind
    }
}

/// The name that what was fetched is kept under, by the format of its bytes.
/// `asked` says whether a thumbnail was asked for.
pub open spec fn kept_as(
    event_id: Seq<char>,
    plan: DownloadPlan,
    asked: bool,
    image: Option<ImageKind>,
) -> Seq<char> {
    cached_as(
        event_id,
        asked,
        cache_ext(
            what_comes(plan),
            image,
            Some(fetched_mime(plan.thumbnail, image, text::opt(plan.mime))),
            plan.filename@,
        ),
    )
}

/// How what was fetched is kept. A voice message that is no recording by its
/// bytes gets no copy at speech level.
pub open spec fn kept(
    event_id: Seq<char>,
    plan: DownloadPlan,
    asked: bool,
    bytes: Seq<u8>,
) -> Keeping {
    Keeping {
        name: kept_as(event_id, plan, asked, image_kind(bytes)),
        mime: fetched_mime(plan.thumbnail, image_kind(bytes), text::opt(plan.mime)),
        normalised: if plan.voice && sounds_like(bytes) {
            Some(
                hash_text(event_id) + (if asked {
                    "-thumb"@
                } else {
                    ""@
                }) + "-norm.ogg"@,
            )
        } else {
            None
        },
    }
}

fn name_for(event_id: &str, plan: &DownloadPlan, asked: bool, image: Option<ImageKind>) -> (r:
    String)
    ensures
        r@ == kept_as(event_id@, *plan, asked, image),
{
    let kind = if !plan.whole {
        FileKind::Image
    } else {
        plan.kind
    };
    let mime = Some(mime_fetched(plan.thumbnail, image, &plan.mime));
    cache_name(event_id, asked, kind, image, &mime, plan.filename.as_str())
}

/// How to keep what was fetched by a plan; `asked` says whether a thumbnail was
/// asked for.
pub fn keep(event_id: &str, plan: &DownloadPlan, asked: bool, bytes: &Vec<u8>) -> (r: Kept)
    ensures
        r@ == kept(event_id@, *plan, asked, bytes@),
{
    let image = sniff(bytes);
    let mime = mime_fetched(plan.thumbnail, image, &plan.mime);
    let name = name_for(event_id, plan, asked, image);
    let normalised = if plan.voice && is_recording(bytes) {
        let hash = hash_of(event_id);
        Some(
            text::plus3(
                hash.as_str(),
                if asked {
                    "-thumb"
                } else {
                    ""
                },
                "-norm.ogg",
            ),
        )
    } else {
        None
    };
    Kept { name, mime, normalised }
}

/// What the bytes of an attachment can be: an image of some format, or none.
pub open spec fn formats() -> Seq<Option<ImageKind>> {
    seq![
        None,
        Some(ImageKind::Png),
        Some(ImageKind::Jpeg),
        Some(ImageKind::Gif),
        Some(ImageKind::Webp),
        Some(ImageKind::Bmp),
    ]
}

/// Where an attachment that was fetched before may be, so that it is not
/// fetched again: its name for each format that its bytes can have.
pub open spec fn places(event_id: Seq<char>, plan: DownloadPlan, asked: bool) -> Seq<Seq<char>> {
    formats().map_values(|image: Option<ImageKind>| kept_as(event_id, plan, asked, image))
}

pub fn cached_names(event_id: &str, plan: &DownloadPlan, asked: bool) -> (r: Vec<String>)
    ensures
        text::views(r@) == places(event_id@, *plan, asked),
{
    let kinds: Vec<Option<ImageKind>> = vec![
        None,
        Some(ImageKind::Png),
        Some(ImageKind::Jpeg),
        Some(ImageKind::Gif),
        Some(ImageKind::Webp),
        Some(ImageKind::Bmp),
    ];
    assert(kinds@ =~= formats());
    let mut out: Vec<String> = Vec::new();
    let mut i: usize = 0;
    while i < kinds.len()
        invariant
            i <= kinds@.len(),
            kinds@ == formats(),
            out@.len() == i,
            forall|k: int|
                0 <= k < i ==> (#[trigger] out@[k])@ == places(event_id@, *plan, asked)[k],
        decreases kinds.len() - i,
    {
        out.push(name_for(event_id, plan, asked, kinds[i]));
        i += 1;
    }
    assert(text::views(out@) =~= places(event_id@, *plan, asked));
    out
}

pub open spec fn contents(files: Seq<Option<Vec<u8>>>) -> Seq<Option<Seq<u8>>> {
    files.map_values(
        |f: Option<Vec<u8>>|
            match f {
                Some(b) => Some(b@),
                None => None,
            },
    )
}

/// The attachment among what the files at those places hold, from the place `i`
/// on: the first whose bytes belong where they are.
pub open spec fn found_from(
    event_id: Seq<char>,
    plan: DownloadPlan,
    asked: bool,
    files: Seq<Option<Seq<u8>>>,
    i: int,
) -> Option<Keeping>
    decreases files.len() - i,
{
    if i < 0 || i >= files.len() {
        None
    } else {
        match files[i] {
            Some(b) => if kept(event_id, plan, asked, b).name == places(event_id, plan, asked)[i] {
                Some(kept(event_id, plan, asked, b))
            } else {
                found_from(event_id, plan, asked, files, i + 1)
            },
            None => found_from(event_id, plan, asked, files, i + 1),
        }
    }
}

/// An attachment that was kept before, from what the files named by
/// `cached_names` hold; nothing where it has to be fetched.
pub fn cached(
    event_id: &str,
    plan: &DownloadPlan,
    asked: bool,
    files: &Vec<Option<Vec<u8>>>,
) -> (r: Option<Kept>)
    requires
        files@.len() == formats().len(),
    ensures
        kept_view(r) == found_from(event_id@, *plan, asked, contents(files@), 0),
{
    let names = cached_names(event_id, plan, asked);
    assert(names@.len() == text::views(names@).len());
    let ghost all = contents(files@);
    let mut i: usize = 0;
    while i < files.len()
        invariant
            i <= files@.len(),
            files@.len() == names@.len(),
            all == contents(files@),
            text::views(names@) == places(event_id@, *plan, asked),
            found_from(event_id@, *plan, asked, all, 0) == found_from(
                event_id@,
                *plan,
                asked,
                all,
                i as int,
            ),
        decreases files.len() - i,
    {
        assert(text::views(names@)[i as int] == names@[i as int]@);
        if let Some(b) = &files[i] {
            assert(all[i as int] == Some(b@));
            let k = keep(event_id, plan, asked, b);
            if text::same(k.name.as_str(), names[i].as_str()) {
                return Some(k);
            }
        } else {
            assert(all[i as int] is None);
        }
        i += 1;
    }
    None
}

/// What a cache, by file name, holds at the places of an attachment.
pub open spec fn looked_up(
    cache: Map<Seq<char>, Seq<u8>>,
    event_id: Seq<char>,
    plan: DownloadPlan,
    asked: bool,
) -> Seq<Option<Seq<u8>>> {
    places(event_id, plan, asked).map_values(
        |name: Seq<char>|
            if cache.contains_key(name) {
                Some(cache[name])
            } else {
                None
            },
    )
}

proof fn lemma_found(
    event_id: Seq<char>,
    plan: DownloadPlan,
    asked: bool,
    before: Map<Seq<char>, Seq<u8>>,
    bytes: Seq<u8>,
    i: int,
    at: int,
)
    requires
        0 <= i <= at < formats().len(),
        formats()[at] == image_kind(bytes),
        found_from(event_id, plan, asked, looked_up(before, event_id, plan, asked), i) is None,
    ensures
        found_from(
            event_id,
            plan,
            asked,
            looked_up(
                before.insert(kept(event_id, plan, asked, bytes).name, bytes),
                event_id,
                plan,
                asked,
            ),
            i,
        ) == Some(kept(event_id, plan, asked, bytes)),
    decreases at - i,
{
    let name = kept(event_id, plan, asked, bytes).name;
    let old_files = looked_up(before, event_id, plan, asked);
    let files = looked_up(before.insert(name, bytes), event_id, plan, asked);
    let here = places(event_id, plan, asked)[i];
    assert(places(event_id, plan, asked)[at] == name);
    if here == name {
        assert(files[i] == Some(bytes));
    } else {
        assert(files[i] == old_files[i]);
        lemma_found(event_id, plan, asked, before, bytes, i + 1, at);
    }
}

/// A download with such a cache, where the server would serve `served`: how the
/// attachment is kept, and the cache after it. What is found is not fetched.
pub open spec fn downloaded(
    cache: Map<Seq<char>, Seq<u8>>,
    event_id: Seq<char>,
    plan: DownloadPlan,
    asked: bool,
    served: Seq<u8>,
) -> (Keeping, Map<Seq<char>, Seq<u8>>) {
    match found_from(event_id, plan, asked, looked_up(cache, event_id, plan, asked), 0) {
        Some(k) => (k, cache),
        None => (
            kept(event_id, plan, asked, served),
            cache.insert(kept(event_id, plan, asked, served).name, served),
        ),
    }
}

/// A second download of an attachment is answered as the first was, whatever the
/// server would serve by then: the same file, with the same MIME type. It is
/// found in the cache, so that nothing is fetched and no file changes. Other
/// files may have come and gone in between.
pub proof fn lemma_downloads_agree(
    cache: Map<Seq<char>, Seq<u8>>,
    later: Map<Seq<char>, Seq<u8>>,
    event_id: Seq<char>,
    plan: DownloadPlan,
    asked: bool,
    served: Seq<u8>,
    served_later: Seq<u8>,
    copy_made: bool,
)
    requires
        looked_up(later, event_id, plan, asked) == looked_up(
            downloaded(cache, event_id, plan, asked, served).1,
            event_id,
            plan,
            asked,
        ),
    ensures
        found_from(event_id, plan, asked, looked_up(later, event_id, plan, asked), 0) is Some,
        downloaded(later, event_id, plan, asked, served_later).1 == later,
        downloaded(later, event_id, plan, asked, served_later).0 == downloaded(
            cache,
            event_id,
            plan,
            asked,
            served,
        ).0,
        handed_out(downloaded(later, event_id, plan, asked, served_later).0, copy_made)
            == handed_out(downloaded(cache, event_id, plan, asked, served).0, copy_made),
{
    if found_from(event_id, plan, asked, looked_up(cache, event_id, plan, asked), 0) is None {
        lemma_kept_is_found(cache, event_id, plan, asked, served);
    }
}

/// What was kept is found again, under the same name and with the same MIME
/// type.
proof fn lemma_kept_is_found(
    cache: Map<Seq<char>, Seq<u8>>,
    event_id: Seq<char>,
    plan: DownloadPlan,
    asked: bool,
    bytes: Seq<u8>,
)
    requires
        found_from(event_id, plan, asked, looked_up(cache, event_id, plan, asked), 0) is None,
    ensures
        found_from(
            event_id,
            plan,
            asked,
            looked_up(
                cache.insert(kept(event_id, plan, asked, bytes).name, bytes),
                event_id,
                plan,
                asked,
            ),
            0,
        ) == Some(kept(event_id, plan, asked, bytes)),
{
    let at: int = match image_kind(bytes) {
        None => 0,
        Some(ImageKind::Png) => 1,
        Some(ImageKind::Jpeg) => 2,
        Some(ImageKind::Gif) => 3,
        Some(ImageKind::Webp) => 4,
        Some(ImageKind::Bmp) => 5,
    };
    lemma_found(event_id, plan, asked, cache, bytes, 0, at);
}

/// Which file the client is handed, and its MIME type: the copy at speech
/// level where there is one.
pub open spec fn handed_out(k: Keeping, copy_made: bool) -> (Seq<char>, Seq<char>) {
    if k.normalised is Some && copy_made {
        (k.normalised->0, "audio/ogg"@)
    } else {
        (k.name, k.mime)
    }
}

pub fn handed(kept: &Kept, copy_made: bool) -> (r: (String, String))
    ensures
        (r.0@, r.1@) == handed_out(kept@, copy_made),
{
    if copy_made {
        if let Some(n) = &kept.normalised {
            return (n.clone(), "audio/ogg".to_owned());
        }
    }
    (kept.name.clone(), kept.mime.clone())
}

/// `std::path::Path::file_name`: the last component of the path, where that is
/// a name. Repeated and trailing slashes and dots alone are passed over, and a
/// path that ends in `..` has no file name. Components are told apart by
/// slashes, as on the Unix systems that the daemon runs on.
#[verifier::external_body]
fn file_name_of(path: &str) -> (r: Option<String>)
    ensures
        text::opt(r) == path_file_name(path@),
{
    std::path::Path::new(path).file_name().map(|n| n.to_string_lossy().into_owned())
}

/// The MIME type that a path suggests: its top level, and the whole of it.
pub uninterp spec fn guessed_mime(path: Seq<char>) -> (Seq<char>, Seq<char>);

/// `mime_guess::from_path` and `first_or_octet_stream`: the type of the
/// path's extension in its table, or `application/octet-stream`; it depends on
/// the path alone.
#[verifier::external_body]
fn guess_mime(path: &str) -> (r: (String, String))
    ensures
        (r.0@, r.1@) == guessed_mime(path@),
{
    let mime = mime_guess::from_path(path).first_or_octet_stream();
    (mime.type_().to_string(), mime.to_string())
}

/// The width and height of an image by its bytes.
pub uninterp spec fn image_dims(bytes: Seq<u8>) -> Option<(u64, u64)>;

/// `imagesize::blob_size`: the width and height of an image, where its bytes
/// are those of one; they depend on the bytes alone. It follows chains in the
/// bytes, which are short enough to end within the size of a file that is
/// sent.
#[verifier::external_body]
fn image_size(bytes: &Vec<u8>) -> (r: Option<(u64, u64)>)
    requires
        bytes@.len() <= MAX_UPLOAD,
    ensures
        r == image_dims(bytes@),
{
    imagesize::blob_size(bytes).ok().map(|s| (s.width as u64, s.height as u64))
}

/// The largest number that Matrix events carry.
pub const MAX_UINT: u64 = 9_007_199_254_740_991;

/// A file to send.
#[derive(Debug, Clone, PartialEq, Eq)]
pub struct Upload {
    pub name: String,
    pub mime: String,
    /// Width and height of an image, as far as they are known.
    pub image: Option<(Option<u64>, Option<u64>)>,
    pub size: u64,
    pub caption: Option<String>,
}

/// A side of an image, unless it is zero or no event can carry it.
pub open spec fn side(n: u64) -> Option<u64> {
    if 0 < n <= MAX_UINT {
        Some(n)
    } else {
        None
    }
}

fn side_of(n: u64) -> (r: Option<u64>)
    ensures
        r == side(n),
{
    if n > 0 && n <= MAX_UINT {
        Some(n)
    } else {
        None
    }
}

/// Whether a path may be sent: a file, and not too large.
pub fn may_send(path: &str, is_file: bool, len: u64) -> (r: Result<(), Refusal>)
    ensures
        !is_file ==> r is Err && r->Err_0 is NotAFile && r->Err_0->NotAFile_0@ == path@,
        is_file && len > MAX_UPLOAD ==> r == Err::<(), Refusal>(Refusal::FileTooLarge),
        is_file && len <= MAX_UPLOAD ==> r is Ok,
{
    if !is_file {
        return Err(Refusal::NotAFile(path.to_owned()));
    }
    if len > MAX_UPLOAD {
        return Err(Refusal::FileTooLarge);
    }
    Ok(())
}

/// A local file as an upload, with its name, its type by the name, and for an
/// image its dimensions by its bytes, so that clients can lay it out before
/// the download.
pub fn upload(path: &str, len: u64, bytes: &Vec<u8>, caption: &Option<String>) -> (r: Upload)
    ensures
        r.name@ == match path_file_name(path@) {
            Some(n) => n,
            None => "file"@,
        },
        r.mime@ == guessed_mime(path@).1,
        r.image == (if guessed_mime(path@).0 == "image"@ {
            match image_dims(bytes@) {
                Some(d) => if bytes@.len() <= MAX_UPLOAD {
                    Some((side(d.0), side(d.1)))
                } else {
                    Some((None, None))
                },
                None => Some((None, None)),
            }
        } else {
            None
        }),
        r.size == len,
        text::opt(r.caption) == text::trimmed_some(text::opt(*caption)),
{
    let name = match file_name_of(path) {
        Some(n) => n,
        None => "file".to_owned(),
    };
    let (top, mime) = guess_mime(path);
    let image = if text::same(top.as_str(), "image") {
        let dims = if bytes.len() as u64 <= MAX_UPLOAD {
            image_size(bytes)
        } else {
            None
        };
        match dims {
            Some((w, h)) => Some((side_of(w), side_of(h))),
            None => Some((None, None)),
        }
    } else {
        None
    };
    Upload { name, mime, image, size: len, caption: text::trim_some(caption) }
}

/// The recording's layout in a WAV file.
#[derive(Debug, Clone, Copy, PartialEq, Eq, Structural)]
pub struct Wav {
    pub channels: u16,
    pub rate: u32,
    pub bits: u16,
    /// Where the samples begin, and how many bytes they are.
    pub start: usize,
    pub len: usize,
}

/// What has been read of a WAV file's chunks: channels, rate and sample size,
/// and where the samples are.
pub struct Chunks {
    pub channels: u16,
    pub rate: u32,
    pub bits: u16,
    pub data: Option<(int, int)>,
}

pub open spec fn le16(b: Seq<u8>, at: int) -> int {
    b[at] + 256 * b[at + 1]
}

pub open spec fn le32(b: Seq<u8>, at: int) -> int {
    b[at] + 256 * b[at + 1] + 65536 * b[at + 2] + 16777216 * b[at + 3]
}

pub open spec fn at_least(n: int, lo: int) -> int {
    if n < lo {
        lo
    } else {
        n
    }
}

/// The chunks from `pos` on: each with a mark, a length and that many bytes,
/// padded to an even number. A chunk cut short by the end of the file counts
/// as far as it goes; the last of a kind counts.
pub open spec fn read_chunks(b: Seq<u8>, pos: int, c: Chunks) -> Chunks
    decreases at_least(b.len() - pos, 0),
{
    if pos < 0 || pos + 8 > b.len() {
        c
    } else {
        let len = le32(b, pos + 4);
        let room = b.len() - (pos + 8);
        let body = if len < room {
            len
        } else {
            room
        };
        let mark = b.subrange(pos, pos + 4);
        let next = if mark == seq![0x66u8, 0x6d, 0x74, 0x20] && body >= 16 {
            Chunks {
                channels: at_least(le16(b, pos + 10), 1) as u16,
                rate: at_least(le32(b, pos + 12), 1) as u32,
                bits: le16(b, pos + 22) as u16,
                data: c.data,
            }
        } else if mark == seq![0x64u8, 0x61, 0x74, 0x61] {
            Chunks { data: Some((pos + 8, body)), ..c }
        } else {
            c
        };
        read_chunks(b, pos + 8 + len + len % 2, next)
    }
}

/// The file begins as a WAV file does.
pub open spec fn is_wav(b: Seq<u8>) -> bool {
    &&& b.len() >= 12
    &&& b.subrange(0, 4) == seq![0x52u8, 0x49, 0x46, 0x46]
    &&& b.subrange(8, 12) == seq![0x57u8, 0x41, 0x56, 0x45]
}

/// What the chunks of a WAV file say; one that does not say otherwise is
/// 48 kHz, mono, 16 bits.
pub open spec fn wav_chunks(b: Seq<u8>) -> Chunks {
    read_chunks(b, 12, Chunks { channels: 1, rate: 48000, bits: 16, data: None })
}

fn word16(b: &Vec<u8>, at: usize) -> (r: u16)
    requires
        at + 2 <= b@.len(),
    ensures
        r == le16(b@, at as int),
{
    assert(at + 2 <= b.len());
    b[at] as u16 + 256 * (b[at + 1] as u16)
}

fn word32(b: &Vec<u8>, at: usize) -> (r: u32)
    requires
        at + 4 <= b@.len(),
    ensures
        r == le32(b@, at as int),
{
    assert(at + 4 <= b.len());
    b[at] as u32 + 256 * (b[at + 1] as u32) + 65536 * (b[at + 2] as u32) + 16777216 * (b[at
        + 3] as u32)
}

/// The layout of a recording: 16-bit or 32-bit integer samples, any number of
/// channels.
pub fn parse_wav(b: &Vec<u8>) -> (r: Result<Wav, Refusal>)
    ensures
        !is_wav(b@) ==> r == Err::<Wav, Refusal>(Refusal::NotWav),
        is_wav(b@) ==> {
            let c = wav_chunks(b@);
            match c.data {
                None => r == Err::<Wav, Refusal>(Refusal::NoAudioData),
                Some(d) => if c.bits == 16 || c.bits == 32 {
                    &&& r is Ok
                    &&& r->Ok_0.channels == c.channels
                    &&& r->Ok_0.rate == c.rate
                    &&& r->Ok_0.bits == c.bits
                    &&& r->Ok_0.start == d.0
                    &&& r->Ok_0.len == d.1
                } else {
                    r == Err::<Wav, Refusal>(Refusal::SampleSize(c.bits))
                },
            }
        },
        r matches Ok(w) ==> {
            &&& w.start + w.len <= b@.len()
            &&& w.channels >= 1
            &&& w.rate >= 1
            &&& w.bits == 16 || w.bits == 32
        },
{
    let end: usize = b.len();
    if end < 12 || !mark_at(b, 0, 0x52, 0x49, 0x46, 0x46) || !mark_at(b, 8, 0x57, 0x41, 0x56, 0x45) {
        return Err(Refusal::NotWav);
    }
    let mut channels: u16 = 1;
    let mut rate: u32 = 48000;
    let mut bits: u16 = 16;
    let mut data: Option<(usize, usize)> = None;
    let mut pos: usize = 12;
    let mut more = true;
    while more && end >= 8 && pos <= end - 8
        invariant
            end == b@.len(),
            is_wav(b@),
            channels >= 1,
            rate >= 1,
            data matches Some(d) ==> d.0 + d.1 <= end,
            more ==> wav_chunks(b@) == read_chunks(
                b@,
                pos as int,
                Chunks {
                    channels,
                    rate,
                    bits,
                    data: match data {
                        Some(d) => Some((d.0 as int, d.1 as int)),
                        None => None,
                    },
                },
            ),
            !more ==> wav_chunks(b@) == (Chunks {
                channels,
                rate,
                bits,
                data: match data {
                    Some(d) => Some((d.0 as int, d.1 as int)),
                    None => None,
                },
            }),
        decreases
                end - pos + if more {
                    1int
                } else {
                    0
                },
    {
        let len: u32 = word32(b, pos + 4);
        let room: usize = end - (pos + 8);
        let body: usize = if (len as u64) < room as u64 {
            len as usize
        } else {
            room
        };
        if mark_at(b, pos, 0x66, 0x6d, 0x74, 0x20) && body >= 16 {
            let c: u16 = word16(b, pos + 10);
            let f: u32 = word32(b, pos + 12);
            channels = if c < 1 {
                1
            } else {
                c
            };
            rate = if f < 1 {
                1
            } else {
                f
            };
            bits = word16(b, pos + 22);
        } else if mark_at(b, pos, 0x64, 0x61, 0x74, 0x61) {
            data = Some((pos + 8, body));
        }
        let step: u64 = len as u64 + (len % 2) as u64;
        proof {
            reveal_with_fuel(read_chunks, 2);
        }
        if step > room as u64 {
            more = false;
        } else {
            pos = pos + 8 + step as usize;
        }
    }
    let (start, len): (usize, usize) = match data {
        Some(d) => d,
        None => return Err(Refusal::NoAudioData),
    };
    if bits != 16 && bits != 32 {
        return Err(Refusal::SampleSize(bits));
    }
    Ok(Wav { channels, rate, bits, start, len })
}

/// Points of a voice message's loudness curve.
pub const BUCKETS: usize = 100;

/// A recording shorter than this is not sent, in nanoseconds.
pub const MIN_VOICE_NS: u128 = 300_000_000;

/// The bytes of one sample of every channel.
pub open spec fn frame_bytes(w: Wav) -> int {
    (w.bits / 8) * w.channels
}

pub open spec fn frames_in(w: Wav) -> int {
    w.len as int / frame_bytes(w)
}

/// How long a recording is, in nanoseconds, to the nearest.
pub open spec fn duration_of(w: Wav) -> int {
    (frames_in(w) * 1_000_000_000 + w.rate as int / 2) / (w.rate as int)
}

pub open spec fn wav_ok(w: Wav) -> bool {
    w.channels >= 1 && w.rate >= 1 && (w.bits == 16 || w.bits == 32)
}

impl Wav {
    fn frame(&self) -> (r: usize)
        requires
            wav_ok(*self),
        ensures
            r == frame_bytes(*self),
            r >= 2,
            self.bits == 32 ==> r >= 4,
    {
        if self.bits == 16 {
            2 * (self.channels as usize)
        } else {
            4 * (self.channels as usize)
        }
    }

    /// How many samples of every channel there are.
    pub fn frames(&self) -> (r: usize)
        requires
            wav_ok(*self),
        ensures
            r == frames_in(*self),
    {
        self.len / self.frame()
    }

    /// How long the recording is, in nanoseconds, to the nearest.
    pub fn duration_ns(&self) -> (r: u128)
        requires
            wav_ok(*self),
        ensures
            r == duration_of(*self),
    {
        let n: u128 = self.frames() as u128;
        (n * 1_000_000_000 + (self.rate / 2) as u128) / (self.rate as u128)
    }

    /// Whether the recording is long enough to be sent.
    pub fn long_enough(&self) -> (r: Result<(), Refusal>)
        requires
            wav_ok(*self),
        ensures
            r == (if duration_of(*self) < MIN_VOICE_NS {
                Err::<(), Refusal>(Refusal::RecordingTooShort)
            } else {
                Ok(())
            }),
    {
        if self.duration_ns() < MIN_VOICE_NS {
            Err(Refusal::RecordingTooShort)
        } else {
            Ok(())
        }
    }

    /// The first channel's sample in the frame `f`.
    pub fn sample(&self, b: &Vec<u8>, f: usize) -> (r: i32)
        requires
            wav_ok(*self),
            self.start + self.len <= b@.len(),
            f < frames_in(*self),
        ensures
            r == sample_value(b@, *self, f as int),
    {
        let end: usize = b.len();
        let frame: usize = self.frame();
        proof {
            lemma_frame(self.len as int, frame as int, f as int);
        }
        let at: usize = self.start + f * frame;
        assert(at + frame <= end);
        if self.bits == 16 {
            let n: u16 = word16(b, at);
            if n >= 0x8000 {
                (n as i32) - 0x10000
            } else {
                n as i32
            }
        } else {
            let n: u32 = word32(b, at);
            if n >= 0x8000_0000 {
                (n as i64 - 0x1_0000_0000) as i32
            } else {
                n as i32
            }
        }
    }
}

proof fn lemma_frame(len: int, frame: int, f: int)
    requires
        frame >= 2,
        0 <= f < len / frame,
    ensures
        0 <= f * frame,
        f * frame + frame <= len,
{
    assert(f * frame + frame <= len) by (nonlinear_arith)
        requires
            frame >= 2,
            0 <= f,
            f + 1 <= len / frame,
    {
        assert((f + 1) * frame <= (len / frame) * frame);
        assert((len / frame) * frame <= len);
    }
    assert(0 <= f * frame) by (nonlinear_arith)
        requires
            frame >= 2,
            0 <= f,
    ;
}

/// A signed sample, little end first.
pub open spec fn sample_value(b: Seq<u8>, w: Wav, f: int) -> int {
    let at = w.start + f * frame_bytes(w);
    if w.bits == 16 {
        let n = le16(b, at);
        if n >= 0x8000 {
            n - 0x10000
        } else {
            n
        }
    } else {
        let n = le32(b, at);
        if n >= 0x8000_0000 {
            n - 0x1_0000_0000
        } else {
            n
        }
    }
}

/// The frames that one point of the curve is made of, from the first to before
/// the last; none for points beyond the recording.
pub open spec fn bucket_of(frames: int, b: int) -> Option<(int, int)> {
    let per = at_least(frames / (BUCKETS as int), 1);
    let start = b * per;
    let end = if (b + 1) * per < frames {
        (b + 1) * per
    } else {
        frames
    };
    if start >= end {
        None
    } else {
        Some((start, end))
    }
}

pub fn bucket(frames: usize, b: usize) -> (r: Option<(usize, usize)>)
    requires
        b < BUCKETS,
    ensures
        match r {
            Some(p) => bucket_of(frames as int, b as int) == Some((p.0 as int, p.1 as int)),
            None => bucket_of(frames as int, b as int) is None,
        },
        frames >= BUCKETS ==> (r matches Some(p) && p.1 - p.0 == frames / BUCKETS),
        frames < BUCKETS ==> (r is Some <==> b < frames),
        r matches Some(p) ==> p.0 < p.1 <= frames,
        r matches Some(p) ==> b == 0 ==> p.0 == 0,
        r matches Some(p) ==> b == BUCKETS - 1 ==> frames - p.1 < BUCKETS,
{
    proof {
        lemma_buckets_fill(frames as int, b as int);
    }
    let share: usize = frames / BUCKETS;
    let per: usize = if share < 1 {
        1
    } else {
        share
    };
    proof {
        assert(0 <= b * per <= 100 * per) by (nonlinear_arith)
            requires
                b < 100,
        ;
        assert(0 <= (b + 1) * per <= 100 * per) by (nonlinear_arith)
            requires
                b < 100,
        ;
    }
    let start: u128 = b as u128 * per as u128;
    let next: u128 = (b as u128 + 1) * per as u128;
    let end: usize = if next < frames as u128 {
        next as usize
    } else {
        frames
    };
    if start >= end as u128 {
        None
    } else {
        Some((start as usize, end))
    }
}

/// The points of a curve are made of frames of the recording, one point after
/// another, none of them twice.
pub proof fn lemma_buckets(frames: int, b: int, c: int)
    requires
        frames >= 0,
        0 <= b < c < BUCKETS,
    ensures
        bucket_of(frames, b) matches Some(p) ==> 0 <= p.0 < p.1 <= frames,
        bucket_of(frames, b) matches Some(p) ==> bucket_of(frames, c) matches Some(q) ==> p.1 <= q.0,
{
    let per = at_least(frames / (BUCKETS as int), 1);
    assert(0 <= b * per && (b + 1) * per <= c * per) by (nonlinear_arith)
        requires
            per >= 1,
            0 <= b,
            b + 1 <= c,
    ;
}

/// The buckets lie side by side from the first frame on: bucket 0 starts at
/// frame 0, and each bucket starts where the one before it ended. A
/// recording with a frame for each bucket has every bucket, of one length,
/// and a shorter one has a bucket for each frame. What is left behind the
/// last bucket is less than a frame for each.
pub proof fn lemma_buckets_fill(frames: int, b: int)
    requires
        frames >= 0,
        0 <= b < BUCKETS,
    ensures
        bucket_of(frames, 0) is Some <==> frames > 0,
        bucket_of(frames, 0) matches Some(p) ==> p.0 == 0,
        bucket_of(frames, b) matches Some(p) ==> 0 <= p.0 < p.1 <= frames,
        b > 0 ==> (bucket_of(frames, b) matches Some(p) ==> (bucket_of(frames, b - 1) matches Some(q)
            && p.0 == q.1)),
        frames >= BUCKETS ==> (bucket_of(frames, b) matches Some(p) && p.1 - p.0 == frames / (
        BUCKETS as int)),
        frames < BUCKETS ==> (bucket_of(frames, b) is Some <==> b < frames),
        frames < BUCKETS && b < frames ==> bucket_of(frames, b) == Some((b, b + 1)),
        b == BUCKETS - 1 || bucket_of(frames, b + 1) is None ==> (bucket_of(frames, b) matches Some(p)
            ==> frames - p.1 < BUCKETS),
{
    let share = frames / (BUCKETS as int);
    let per = at_least(share, 1);
    assert(frames == 100 * share + frames % 100 && 0 <= frames % 100 < 100);
    assert(0 <= b * per) by (nonlinear_arith)
        requires
            per >= 1,
            b >= 0,
    ;
    assert((b + 1) * per == b * per + per && (b - 1 + 1) * per == b * per) by (nonlinear_arith);
    assert((b + 2) * per == b * per + 2 * per) by (nonlinear_arith);
    assert((b + 1 + 1) * per == (b + 2) * per);
    assert(b > 0 ==> (b - 1) * per == b * per - per) by (nonlinear_arith);
    if frames >= BUCKETS {
        assert(per == share);
        assert((b + 1) * per <= 100 * share) by (nonlinear_arith)
            requires
                b + 1 <= 100,
                per == share,
                share >= 0,
        ;
        if b == BUCKETS - 1 {
            assert((b + 1) * per == 100 * share) by (nonlinear_arith)
                requires
                    b + 1 == 100,
                    per == share,
            ;
        } else {
            assert((b + 2) * per <= 100 * share) by (nonlinear_arith)
                requires
                    b + 2 <= 100,
                    per == share,
                    share >= 0,
            ;
        }
    } else {
        assert(per == 1);
        assert(b * per == b && (b + 1) * per == b + 1 && (b - 1) * per == b - 1) by (nonlinear_arith)
            requires
                per == 1,
        ;
    }
}

/// A voice message to send: its name and MIME type, by whether it could be
/// encoded.
pub fn voice_upload(encoded: bool, len: u64) -> (r: Result<(&'static str, &'static str), Refusal>)
    ensures
        len > MAX_UPLOAD ==> r == Err::<(&'static str, &'static str), Refusal>(
            Refusal::RecordingTooLarge,
        ),
        len <= MAX_UPLOAD ==> (r matches Ok(v) && if encoded {
            v.0@ == "Voice message.ogg"@ && v.1@ == "audio/ogg"@
        } else {
            v.0@ == "Voice message.wav"@ && v.1@ == "audio/wav"@
        }),
{
    if len > MAX_UPLOAD {
        return Err(Refusal::RecordingTooLarge);
    }
    if encoded {
        Ok(("Voice message.ogg", "audio/ogg"))
    } else {
        Ok(("Voice message.wav", "audio/wav"))
    }
}

/// What ffmpeg is told to do with a recording.
#[derive(Debug, Clone, Copy, PartialEq, Eq, Structural)]
pub enum Encoding {
    /// Encode a recording of ours, a WAV file, as a voice message.
    Send,
    /// Make a copy of a received one at speech level.
    Play,
}

/// ffmpeg's arguments before the input file, between it and the output file:
/// local files only, a recording of ours read as nothing but WAV, at most
/// fifteen minutes, and the loudness brought to speech level without clipping.
pub open spec fn ffmpeg_args(e: Encoding) -> (Seq<Seq<char>>, Seq<Seq<char>>) {
    match e {
        Encoding::Send => (
            seq![
                "-y"@,
                "-loglevel"@,
                "error"@,
                "-protocol_whitelist"@,
                "file"@,
                "-f"@,
                "wav"@,
                "-i"@,
            ],
            seq![
                "-t"@,
                "900"@,
                "-af"@,
                "loudnorm=I=-16:TP=-1.5:LRA=11"@,
                "-c:a"@,
                "libopus"@,
                "-b:a"@,
                "32k"@,
                "-application"@,
                "voip"@,
            ],
        ),
        Encoding::Play => (
            seq!["-y"@, "-loglevel"@, "error"@, "-protocol_whitelist"@, "file"@, "-i"@],
            seq![
                "-t"@,
                "900"@,
                "-af"@,
                "loudnorm=I=-16:TP=-1.5:LRA=11"@,
                "-c:a"@,
                "libopus"@,
                "-b:a"@,
                "48k"@,
            ],
        ),
    }
}

pub open spec fn str_views(v: Seq<&'static str>) -> Seq<Seq<char>> {
    v.map_values(|s: &'static str| s@)
}

pub fn encoder_args(e: Encoding) -> (r: (Vec<&'static str>, Vec<&'static str>))
    ensures
        (str_views(r.0@), str_views(r.1@)) == ffmpeg_args(e),
{
    let r: (Vec<&'static str>, Vec<&'static str>) = match e {
        Encoding::Send => (
            vec!["-y", "-loglevel", "error", "-protocol_whitelist", "file", "-f", "wav", "-i"],
            vec![
                "-t",
                "900",
                "-af",
                "loudnorm=I=-16:TP=-1.5:LRA=11",
                "-c:a",
                "libopus",
                "-b:a",
                "32k",
                "-application",
                "voip",
            ],
        ),
        Encoding::Play => (
            vec!["-y", "-loglevel", "error", "-protocol_whitelist", "file", "-i"],
            vec![
                "-t",
                "900",
                "-af",
                "loudnorm=I=-16:TP=-1.5:LRA=11",
                "-c:a",
                "libopus",
                "-b:a",
                "48k",
            ],
        ),
    };
    assert(str_views(r.0@) =~= ffmpeg_args(e).0);
    assert(str_views(r.1@) =~= ffmpeg_args(e).1);
    r
}

/// Where ffmpeg is.
pub fn ffmpeg_path() -> (r: &'static str)
    ensures
        r@ == "/usr/bin/ffmpeg"@,
{
    "/usr/bin/ffmpeg"
}

// ---------- laws ----------

/// A waveform is shown from its beginning, as long as it may be, each point
/// as it is or, where it is too high, as high as a point can be.
pub proof fn lemma_waveform(s: Sounds)
    ensures
        waveform_shown(Some(s)) is None <==> s.3.len() == 0,
        waveform_shown(None) is None,
        waveform_shown(Some(s)) matches Some(w) ==> {
            &&& w.len() <= MAX_WAVEFORM
            &&& s.3.len() <= MAX_WAVEFORM ==> w.len() == s.3.len()
            &&& s.3.len() > MAX_WAVEFORM ==> w.len() == MAX_WAVEFORM
            &&& forall|i: int| 0 <= i < w.len() && s.3[i] <= 65535 ==> #[trigger] w[i] == s.3[i]
            &&& forall|i: int| 0 <= i < w.len() && s.3[i] > 65535 ==> #[trigger] w[i] == 65535
        },
{
}

/// An attachment is told as it was sent: its name, type and size, and what
/// belongs to its kind: sides to pictures and videos, length and waveform to
/// recordings only.
pub proof fn lemma_describes(a: Attachment, f: File)
    requires
        describes(a, f),
    ensures
        a.name@ == f.media.filename@,
        text::opt(a.mime) == text::opt(f.media.mime),
        a.size == f.media.size,
        f.kind == FileKind::Image || f.kind == FileKind::Video ==> a.width == f.media.width
            && a.height == f.media.height,
        f.kind == FileKind::File || f.kind == FileKind::Audio ==> a.width is None
            && a.height is None,
        f.kind != FileKind::Audio ==> !a.voice && a.duration_ms is None && a.waveform is None,
        f.kind == FileKind::Audio && f.sound is Some ==> {
            let s = f.sound->0;
            &&& a.voice == s.voice
            &&& s.block_ms is Some ==> a.duration_ms == s.block_ms
            &&& s.block_ms is None ==> a.duration_ms == s.info_ms
            &&& s.waveform@.len() > 0 ==> a.waveform is Some
        },
        f.media.caption is None ==> a.caption is None,
        f.media.caption matches Some(c) ==> text::trimmed(c@).len() > 0 ==> text::opt(a.caption)
            == Some(c@),
        f.media.caption matches Some(c) ==> text::trimmed(c@).len() == 0 ==> a.caption is None,
        f.kind == FileKind::Image ==> a.has_thumbnail,
        f.kind == FileKind::Audio ==> !a.has_thumbnail,
        f.kind == FileKind::Video || f.kind == FileKind::File ==> a.has_thumbnail
            == f.media.thumbnail,
{
}

/// The last place of a character is one where it stands, with none behind
/// it, and none where it stands nowhere.
pub proof fn lemma_last_at(s: Seq<char>, c: char)
    ensures
        -1 <= last_at(s, c) < s.len(),
        last_at(s, c) >= 0 ==> s[last_at(s, c)] == c,
        forall|k: int| last_at(s, c) < k < s.len() ==> #[trigger] s[k] != c,
        last_at(s, c) == -1 <==> !s.contains(c),
    decreases s.len(),
{
    if s.len() > 0 {
        let less = s.drop_last();
        lemma_last_at(less, c);
        assert forall|k: int| last_at(s, c) < k < s.len() implies #[trigger] s[k] != c by {
            if k < less.len() {
                assert(less[k] == s[k]);
            }
        }
        if last_at(s, c) >= 0 {
            assert(s.contains(c));
        }
        if s.contains(c) {
            let k = choose|k: int| 0 <= k < s.len() && s[k] == c;
            assert(last_at(s, c) >= k);
        }
    }
}

/// The name of a file is a piece of its path without a slash, never empty
/// and never one that stands for a directory; where the path has no slash
/// and is no such piece, it is the path itself.
pub proof fn lemma_file_name(path: Seq<char>)
    ensures
        path_file_name(path) matches Some(name) ==> {
            &&& name.len() > 0
            &&& !name.contains('/')
            &&& name != seq!['.']
            &&& name != seq!['.', '.']
            &&& text::occurs(path, name)
        },
        !path.contains('/') && path.len() > 0 && path != seq!['.'] && path != seq!['.', '.']
            ==> path_file_name(path) == Some(path),
        path.len() == 0 ==> path_file_name(path) is None,
{
    lemma_component(path);
    if !path.contains('/') {
        lemma_last_at(path, '/');
        assert(path.skip(0) =~= path);
    }
}

proof fn lemma_component(path: Seq<char>)
    ensures
        last_component(path) matches Some(name) ==> {
            &&& name.len() > 0
            &&& !name.contains('/')
            &&& name != seq!['.']
            &&& text::occurs(path, name)
        },
    decreases path.len(),
{
    lemma_last_at(path, '/');
    let slash = last_at(path, '/');
    let tail = path.skip(slash + 1);
    if tail.len() > 0 && tail != seq!['.'] {
        if tail.contains('/') {
            let k = choose|k: int| 0 <= k < tail.len() && tail[k] == '/';
            assert(path[slash + 1 + k] == '/');
        }
        assert(path.subrange(slash + 1, slash + 1 + tail.len()) =~= tail);
    } else if 0 <= slash < path.len() {
        let head = path.take(slash);
        lemma_component(head);
        if let Some(name) = last_component(head) {
            let i = choose|i: int|
                0 <= i && i + name.len() <= head.len() && #[trigger] head.subrange(
                    i,
                    i + name.len(),
                ) == name;
            assert(path.subrange(i, i + name.len()) =~= name);
        }
    }
}

/// The ending of a file's name is what stands behind its last dot, where
/// something stands before that dot; put together they are the name.
pub proof fn lemma_extension(path: Seq<char>)
    ensures
        path_extension(path) matches Some(ext) ==> {
            &&& path_file_name(path) is Some
            &&& !ext.contains('.')
            &&& exists|stem: Seq<char>|
                stem.len() > 0 && path_file_name(path)->0 == #[trigger] (stem + seq!['.']) + ext
        },
        path_extension(path) is None && path_file_name(path) is Some ==> {
            let name = path_file_name(path)->0;
            forall|k: int| 0 < k < name.len() ==> #[trigger] name[k] != '.'
        },
{
    if let Some(name) = path_file_name(path) {
        lemma_last_at(name, '.');
        let dot = last_at(name, '.');
        if dot > 0 {
            let ext = name.skip(dot + 1);
            let stem = name.take(dot);
            assert(name =~= (stem + seq!['.']) + ext);
            if ext.contains('.') {
                let k = choose|k: int| 0 <= k < ext.len() && ext[k] == '.';
                assert(name[dot + 1 + k] == '.');
            }
        }
    }
}

/// Pictures of one user in two sizes are kept under two names.
pub proof fn lemma_avatar_file(url: Seq<char>, a: nat, b: nat)
    requires
        avatar_file(url, a as int) == avatar_file(url, b as int),
    ensures
        a == b,
{
    reveal_strlit(".png");
    reveal_strlit("-");
    let hash = hash_text(url);
    let n = hash.len() as int;
    text::lemma_decimal(a);
    text::lemma_decimal(b);
    let one = avatar_file(url, a as int);
    let two = avatar_file(url, b as int);
    if a == 96 && b != 96 {
        assert(one[n] == '.' && two[n] == '-');
    } else if a != 96 && b == 96 {
        assert(one[n] == '-' && two[n] == '.');
    } else if a != 96 {
        let x = text::decimal(a);
        let y = text::decimal(b);
        assert(one.len() == n + 1 + x.len() + 4 && two.len() == n + 1 + y.len() + 4);
        assert(one.subrange(n + 1, n + 1 + x.len()) =~= x);
        assert(two.subrange(n + 1, n + 1 + y.len()) =~= y);
    }
}

/// A thumbnail and the whole of one file are kept under two names, and so
/// are files with two endings.
pub proof fn lemma_cached_as(event: Seq<char>, ext: Seq<char>, other: Seq<char>, thumbnail: bool)
    ensures
        cached_as(event, thumbnail, ext) == cached_as(event, thumbnail, other) ==> ext == other,
        cached_as(event, true, ext) != cached_as(event, false, other),
{
    reveal_strlit("-thumb");
    reveal_strlit("");
    reveal_strlit(".");
    let hash = hash_text(event);
    let n = hash.len() as int;
    let whole = cached_as(event, false, other);
    let small = cached_as(event, true, ext);
    assert(whole[n] == '.' && small[n] == '-');
    let a = cached_as(event, thumbnail, ext);
    let b = cached_as(event, thumbnail, other);
    let skip = n + if thumbnail {
        7int
    } else {
        1
    };
    assert(a.skip(skip) =~= ext);
    assert(b.skip(skip) =~= other);
}

/// A whole file is downloaded unless a small picture was asked for and can
/// be had; what was asked for in small and cannot be had small is still
/// told as the file it is.
pub proof fn lemma_planned(f: File, thumbnail: bool)
    ensures
        planned(f, thumbnail).kind == f.kind,
        planned(f, thumbnail).filename == f.media.filename,
        planned(f, thumbnail).mime == f.media.mime,
        !thumbnail ==> planned(f, thumbnail).whole && !planned(f, thumbnail).thumbnail,
        f.kind == FileKind::Audio ==> planned(f, thumbnail).whole && !planned(
            f,
            thumbnail,
        ).thumbnail,
        thumbnail && f.media.thumbnail && f.kind != FileKind::Audio ==> !planned(
            f,
            thumbnail,
        ).whole && planned(f, thumbnail).thumbnail,
        thumbnail && f.kind == FileKind::File && !f.media.thumbnail ==> planned(f, thumbnail).whole
            && !planned(f, thumbnail).thumbnail,
        thumbnail && (f.kind == FileKind::Image || f.kind == FileKind::Video) && !f.media.thumbnail
            ==> (planned(
            f,
            thumbnail,
        ).whole <==> f.media.sealed) && planned(f, thumbnail).thumbnail,
        planned(f, thumbnail).voice ==> f.kind == FileKind::Audio,
        f.kind == FileKind::Audio && f.sound is Some ==> planned(f, thumbnail).voice
            == f.sound->0.voice,
{
}

/// The type of a whole file is the one that was declared; that of a
/// thumbnail is the one that its bytes show. Each stands in for the other
/// where that is missing.
pub proof fn lemma_fetched_mime(
    thumbnail: bool,
    image: Option<ImageKind>,
    declared: Option<Seq<char>>,
)
    ensures
        !thumbnail && declared is Some ==> fetched_mime(thumbnail, image, declared) == declared->0,
        thumbnail && image is Some ==> fetched_mime(thumbnail, image, declared) == image_mime(
            image->0,
        ),
        thumbnail && image is None && declared is Some ==> fetched_mime(thumbnail, image, declared)
            == declared->0,
        !thumbnail && declared is None && image is Some ==> fetched_mime(thumbnail, image, declared)
            == image_mime(image->0),
        image is None && declared is None ==> fetched_mime(thumbnail, image, declared) == (
        if thumbnail {
            "image/jpeg"@
        } else {
            "application/octet-stream"@
        }),
{
}

/// Little-endian numbers: each byte counts 256 times the one before it.
pub proof fn lemma_little_endian(b: Seq<u8>, at: int)
    requires
        0 <= at,
        at + 4 <= b.len(),
    ensures
        0 <= le16(b, at) < 0x1_0000,
        0 <= le32(b, at) < 0x1_0000_0000,
        le16(b, at) % 256 == b[at],
        le16(b, at) / 256 == b[at + 1],
        le32(b, at) % 0x1_0000 == le16(b, at),
        le32(b, at) / 0x1_0000 == le16(b, at + 2),
{
}

/// A sample is the signed number that its bytes stand for.
pub proof fn lemma_sample(b: Seq<u8>, w: Wav, f: int)
    requires
        w.start + f * frame_bytes(w) >= 0,
        w.start + f * frame_bytes(w) + 4 <= b.len(),
    ensures
        ({
            let at = w.start + f * frame_bytes(w);
            let v = sample_value(b, w, f);
            &&& w.bits == 16 ==> -0x8000 <= v < 0x8000 && (v - le16(b, at)) % 0x1_0000 == 0
            &&& w.bits == 32 ==> -0x8000_0000 <= v < 0x8000_0000 && (v - le32(b, at))
                % 0x1_0000_0000 == 0
        }),
{
    lemma_little_endian(b, w.start + f * frame_bytes(w));
}

/// A recording has as many frames as fit into its bytes, and lasts, to the
/// nearest nanosecond, as long as they take at its rate.
pub proof fn lemma_duration(w: Wav)
    requires
        wav_ok(w),
    ensures
        frames_in(w) * frame_bytes(w) <= w.len < (frames_in(w) + 1) * frame_bytes(w),
        2 * (duration_of(w) * w.rate - frames_in(w) * 1_000_000_000) <= w.rate,
        2 * (frames_in(w) * 1_000_000_000 - duration_of(w) * w.rate) <= w.rate,
{
    let n = frame_bytes(w);
    assert(n >= 1) by (nonlinear_arith)
        requires
            n == (w.bits / 8) * w.channels,
            w.bits / 8 >= 1,
            w.channels >= 1,
    ;
    let len = w.len as int;
    assert((len / n) * n <= len < (len / n + 1) * n) by (nonlinear_arith)
        requires
            n >= 1,
    ;
    let rate = w.rate as int;
    let total = frames_in(w) * 1_000_000_000 + rate / 2;
    let d = total / rate;
    assert(d * rate <= total < d * rate + rate) by (nonlinear_arith)
        requires
            rate >= 1,
            d == total / rate,
    ;
}

/// A file with a format chunk and the samples right behind it is read as it
/// says: channels, rate and sample size from the one, and the samples where
/// the other has them, up to the end of the file at most. A chunk of odd
/// length is followed by one byte that belongs to none.
pub proof fn lemma_plain_wav(b: Seq<u8>)
    requires
        is_wav(b),
        b.len() >= 20,
        b.subrange(12, 16) == seq![0x66u8, 0x6d, 0x74, 0x20],
        16 <= le32(b, 16),
        ({
            let at = 20 + le32(b, 16) + le32(b, 16) % 2;
            &&& at + 8 <= b.len()
            &&& b.subrange(at, at + 4) == seq![0x64u8, 0x61, 0x74, 0x61]
            &&& at + 8 + le32(b, at + 4) >= b.len()
        }),
    ensures
        ({
            let at = 20 + le32(b, 16) + le32(b, 16) % 2;
            let c = wav_chunks(b);
            &&& le16(b, 22) >= 1 ==> c.channels == le16(b, 22)
            &&& le32(b, 24) >= 1 ==> c.rate == le32(b, 24)
            &&& c.bits == le16(b, 34)
            &&& c.data == Some((at + 8, b.len() - (at + 8)))
        }),
{
    let len = le32(b, 16);
    let at = 20 + len + len % 2;
    lemma_little_endian(b, 22);
    lemma_little_endian(b, 24);
    lemma_little_endian(b, 34);
    let start = Chunks { channels: 1, rate: 48000, bits: 16, data: None };
    let fmt = Chunks {
        channels: at_least(le16(b, 22), 1) as u16,
        rate: at_least(le32(b, 24), 1) as u32,
        bits: le16(b, 34) as u16,
        data: None,
    };
    assert(read_chunks(b, 12, start) == read_chunks(b, at, fmt));
    let rest = le32(b, at + 4);
    let got = Chunks { data: Some((at + 8, b.len() - (at + 8))), ..fmt };
    assert(seq![0x64u8, 0x61, 0x74, 0x61] != seq![0x66u8, 0x6d, 0x74, 0x20]) by {
        assert(seq![0x64u8, 0x61, 0x74, 0x61][0] != seq![0x66u8, 0x6d, 0x74, 0x20][0]);
    }
    assert(read_chunks(b, at, fmt) == read_chunks(b, at + 8 + rest + rest % 2, got));
    assert(read_chunks(b, at + 8 + rest + rest % 2, got) == got);
}

/// What is found in the cache is the first file that lies where a file of
/// its kind is kept, and nothing is found only where no file does.
pub proof fn lemma_found_first(
    event_id: Seq<char>,
    plan: DownloadPlan,
    asked: bool,
    files: Seq<Option<Seq<u8>>>,
    i: int,
)
    requires
        0 <= i <= files.len(),
    ensures
        found_from(event_id, plan, asked, files, i) is None <==> forall|k: int|
            i <= k < files.len() && (#[trigger] files[k]) is Some ==> kept(
                event_id,
                plan,
                asked,
                files[k]->0,
            ).name != places(event_id, plan, asked)[k],
        found_from(event_id, plan, asked, files, i) matches Some(found) ==> exists|k: int|
            {
                &&& i <= k < files.len()
                &&& (#[trigger] files[k]) is Some
                &&& found == kept(event_id, plan, asked, files[k]->0)
                &&& found.name == places(event_id, plan, asked)[k]
            },
    decreases files.len() - i,
{
    if i < files.len() {
        lemma_found_first(event_id, plan, asked, files, i + 1);
        if files[i] is Some && kept(event_id, plan, asked, files[i]->0).name == places(
            event_id,
            plan,
            asked,
        )[i] {
            assert(found_from(event_id, plan, asked, files, i) == Some(
                kept(event_id, plan, asked, files[i]->0),
            ));
        }
    }
}

/// A side of a picture is told where it is a number that can be told.
pub proof fn lemma_side(n: u64)
    ensures
        n == 0 || n > MAX_UINT ==> side(n) is None,
        0 < n <= MAX_UINT ==> side(n) == Some(n),
{
}

/// The kind of an image is read from its first bytes, which differ from kind
/// to kind; fewer than twelve bytes are no image.
pub proof fn lemma_image_kind(b: Seq<u8>)
    ensures
        b.len() < 12 ==> image_kind(b) is None,
        b.len() >= 12 && b[0] == 0xff && b[1] == 0xd8 && b[2] == 0xff ==> image_kind(b) == Some(
            ImageKind::Jpeg,
        ),
        b.len() >= 12 && b[0] == 0x89 && b[1] == 0x50 && b[2] == 0x4e && b[3] == 0x47
            ==> image_kind(b) == Some(ImageKind::Png),
        b.len() >= 12 && b[0] == 0x47 && b[1] == 0x49 && b[2] == 0x46 && b[3] == 0x38
            ==> image_kind(b) == Some(ImageKind::Gif),
        image_kind(b) == Some(ImageKind::Webp) ==> b[0] == 0x52 && b[8] == 0x57,
        b.len() >= 12 && b.subrange(0, 4) == seq![0x52u8, 0x49, 0x46, 0x46] && b.subrange(8, 12)
            == seq![0x57u8, 0x45, 0x42, 0x50] ==> image_kind(b) == Some(ImageKind::Webp),
        b.len() >= 12 && b[0] == 0x42 && b[1] == 0x4d && b[4] != 0x66 ==> image_kind(b) == Some(
            ImageKind::Bmp,
        ),
        b.len() >= 12 && b.subrange(4, 8) == seq![0x66u8, 0x74, 0x79, 0x70] && b[0] == 0x42
            ==> image_kind(b) is None,
        image_kind(b) == Some(ImageKind::Bmp) ==> b[0] == 0x42 && b[1] == 0x4d,
        image_kind(b) == Some(ImageKind::Jpeg) ==> b[0] == 0xff && b[1] == 0xd8,
        image_kind(b) == Some(ImageKind::Png) ==> b[0] == 0x89 && b[1] == 0x50,
        image_kind(b) == Some(ImageKind::Gif) ==> b[0] == 0x47 && b[1] == 0x49,
{
    if b.len() >= 12 {
        assert(starts(b, seq![0xffu8, 0xd8, 0xff]) <==> b[0] == 0xff && b[1] == 0xd8 && b[2]
            == 0xff) by {
            let head = b.take(3);
            assert(head[0] == b[0] && head[1] == b[1] && head[2] == b[2]);
            if b[0] == 0xff && b[1] == 0xd8 && b[2] == 0xff {
                assert(head =~= seq![0xffu8, 0xd8, 0xff]);
            }
        }
        assert(starts(b, seq![0x89u8, 0x50, 0x4e, 0x47]) <==> b[0] == 0x89 && b[1] == 0x50 && b[2]
            == 0x4e && b[3] == 0x47) by {
            let head = b.take(4);
            assert(head[0] == b[0] && head[1] == b[1] && head[2] == b[2] && head[3] == b[3]);
            if b[0] == 0x89 && b[1] == 0x50 && b[2] == 0x4e && b[3] == 0x47 {
                assert(head =~= seq![0x89u8, 0x50, 0x4e, 0x47]);
            }
        }
        assert(starts(b, seq![0x47u8, 0x49, 0x46, 0x38]) <==> b[0] == 0x47 && b[1] == 0x49 && b[2]
            == 0x46 && b[3] == 0x38) by {
            let head = b.take(4);
            assert(head[0] == b[0] && head[1] == b[1] && head[2] == b[2] && head[3] == b[3]);
            if b[0] == 0x47 && b[1] == 0x49 && b[2] == 0x46 && b[3] == 0x38 {
                assert(head =~= seq![0x47u8, 0x49, 0x46, 0x38]);
            }
        }
        if starts(b, seq![0x52u8, 0x49, 0x46, 0x46]) {
            assert(b.take(4)[0] == b[0]);
            assert(b.subrange(8, 12)[0] == b[8]);
        }
        assert(b.take(2)[0] == b[0] && b.take(2)[1] == b[1]);
        if b[0] == 0x42 && b[1] == 0x4d {
            assert(b.take(2) =~= seq![0x42u8, 0x4d]);
        }
        assert(b.take(4)[0] == b[0]);
        assert(b.subrange(4, 8)[0] == b[4]);
        if b.subrange(0, 4) == seq![0x52u8, 0x49, 0x46, 0x46] {
            assert(b.subrange(0, 4)[0] == b[0]);
            assert(b.take(4) =~= b.subrange(0, 4));
        }
    }
}

/// A hash is told with sixteen digits.
pub proof fn lemma_hash_text(s: Seq<char>)
    ensures
        hash_text(s).len() == 16,
        forall|i: int|
            0 <= i < 16 ==> '0' <= #[trigger] hash_text(s)[i] <= '9' || 'a' <= hash_text(s)[i]
                <= 'f',
{
    let n = DefaultHasher::spec_finish(str_writes(s)) as nat;
    assert(vstd::arithmetic::power::pow(16, 16) == 0x1_0000_0000_0000_0000) by {
        reveal_with_fuel(vstd::arithmetic::power::pow, 17);
    }
    text::lemma_hex(n, n, 16);
}

/// A picture is kept by what its bytes show, even where it was sent as a
/// file; anything else by the ending that its type has, or its name where
/// the type has none, as far as its kind may have that ending.
pub proof fn lemma_ext_chosen(
    kind: FileKind,
    image: Option<ImageKind>,
    by_mime: Option<Seq<char>>,
    by_name: Option<Seq<char>>,
)
    ensures
        ({
            let e = ext_chosen(kind, image, by_mime, by_name);
            let shown = image is Some && (kind == FileKind::Image || kind == FileKind::File);
            &&& shown ==> e == image_ext(image->0)
            &&& !shown && by_mime is Some && allowed(kind).contains(by_mime->0) ==> e == by_mime->0
            &&& !shown && by_mime is None && by_name is Some && allowed(kind).contains(by_name->0)
                ==> e == by_name->0
            &&& !shown && by_mime is Some && !allowed(kind).contains(by_mime->0) ==> e == "bin"@
            &&& !shown && by_mime is None && by_name is None ==> e == "bin"@
            &&& !shown && kind == FileKind::Image ==> e == "bin"@
        }),
{
}

/// Common endings are kept by the files of their kind.
pub proof fn lemma_endings()
    ensures
        forall|e: Seq<char>| #[trigger]
            allowed(FileKind::Video).contains(e) <==> e == "mp4"@ || e == "m4v"@ || e == "webm"@ || e
                == "mkv"@ || e == "mov"@ || e == "qt"@ || e == "ogv"@ || e == "mpeg"@ || e == "avi"@
                || e == "3gp"@,
        forall|e: Seq<char>| #[trigger]
            allowed(FileKind::Audio).contains(e) <==> e == "ogg"@ || e == "oga"@ || e == "opus"@ || e
                == "mp3"@ || e == "mpga"@ || e == "m4a"@ || e == "wav"@ || e == "flac"@ || e == "aac"@
                || e == "weba"@,
        allowed(FileKind::File).len() == 20,
        allowed(FileKind::Image).len() == 0,
{
    let v = video_exts();
    let a = audio_exts();
    assert(v[0] == "mp4"@ && v[1] == "m4v"@ && v[2] == "webm"@ && v[3] == "mkv"@ && v[4] == "mov"@);
    assert(v[5] == "qt"@ && v[6] == "ogv"@ && v[7] == "mpeg"@ && v[8] == "avi"@ && v[9] == "3gp"@);
    assert(a[0] == "ogg"@ && a[1] == "oga"@ && a[2] == "opus"@ && a[3] == "mp3"@ && a[4] == "mpga"@);
    assert(a[5] == "m4a"@ && a[6] == "wav"@ && a[7] == "flac"@ && a[8] == "aac"@ && a[9] == "weba"@);
}

/// What was downloaded is kept under the name and the type that its plan and
/// its bytes give it; a normalised copy is made of a voice message only, and
/// only where its bytes are those of a recording, under a name of its own.
pub proof fn lemma_kept(event_id: Seq<char>, plan: DownloadPlan, asked: bool, bytes: Seq<u8>)
    ensures
        ({
            let k = kept(event_id, plan, asked, bytes);
            &&& k.normalised is Some <==> plan.voice && sounds_like(bytes)
            &&& k.normalised matches Some(n) ==> text::begins(n, hash_text(event_id)) && n.len() >= 9
                && n.skip(n.len() - 9) == "-norm.ogg"@
            &&& text::begins(k.name, hash_text(event_id))
            &&& k.mime == fetched_mime(plan.thumbnail, image_kind(bytes), text::opt(plan.mime))
            &&& !asked ==> k.name[16] == '.'
            &&& asked ==> k.name[16] == '-'
        }),
{
    reveal_strlit("-norm.ogg");
    reveal_strlit("-thumb");
    reveal_strlit("");
    reveal_strlit(".");
    lemma_hash_text(event_id);
    let k = kept(event_id, plan, asked, bytes);
    let hash = hash_text(event_id);
    assert(k.name.take(16) =~= hash);
    if let Some(n) = k.normalised {
        assert(n.take(16) =~= hash);
        assert(n.skip(n.len() - 9) =~= "-norm.ogg"@);
    }
}

/// The normalised copy is handed out where one was made and can be, and else
/// the file itself.
pub proof fn lemma_handed_out(k: Keeping, copy_made: bool)
    ensures
        copy_made && k.normalised is Some ==> handed_out(k, copy_made) == (
            k.normalised->0,
            "audio/ogg"@,
        ),
        !copy_made || k.normalised is None ==> handed_out(k, copy_made) == (k.name, k.mime),
{
}

/// Bytes sound like a recording by the mark of one of the formats for
/// recordings at their beginning, and not by anything else.
pub proof fn lemma_sounds_like(b: Seq<u8>)
    ensures
        b.len() < 12 ==> !sounds_like(b),
        b.len() >= 12 && b[0] == 0x4f && b[1] == 0x67 && b[2] == 0x67 && b[3] == 0x53
            ==> sounds_like(b),
        b.len() >= 12 && b[0] == 0x66 && b[1] == 0x4c && b[2] == 0x61 && b[3] == 0x43
            ==> sounds_like(b),
        b.len() >= 12 && b[0] == 0x49 && b[1] == 0x44 && b[2] == 0x33 ==> sounds_like(b),
        b.len() >= 12 && b[0] == 0xff && b[1] >= 0xe0 ==> sounds_like(b),
        b.len() >= 12 && b[4] == 0x66 && b[5] == 0x74 && b[6] == 0x79 && b[7] == 0x70
            ==> sounds_like(b),
        is_wav(b) ==> sounds_like(b),
        sounds_like(b) && b[4] != 0x66 ==> b[0] == 0x4f || b[0] == 0x52 || b[0] == 0x66 || b[0]
            == 0x49 || b[0] == 0xff || b[0] == 0x1a,
        sounds_like(b) && b[4] != 0x66 && b[0] == 0x52 ==> is_wav(b),
        sounds_like(b) && b[4] != 0x66 && b[0] == 0xff ==> b[1] >= 0xe0,
{
    if b.len() >= 12 {
        let h = b.take(4);
        assert(h[0] == b[0] && h[1] == b[1] && h[2] == b[2] && h[3] == b[3]);
        let t = b.take(3);
        assert(t[0] == b[0] && t[1] == b[1] && t[2] == b[2]);
        let m = b.subrange(4, 8);
        assert(m[0] == b[4] && m[1] == b[5] && m[2] == b[6] && m[3] == b[7]);
        assert(b.subrange(0, 4) =~= h);
        if b[0] == 0x4f && b[1] == 0x67 && b[2] == 0x67 && b[3] == 0x53 {
            assert(h =~= seq![0x4fu8, 0x67, 0x67, 0x53]);
        }
        if b[0] == 0x66 && b[1] == 0x4c && b[2] == 0x61 && b[3] == 0x43 {
            assert(h =~= seq![0x66u8, 0x4c, 0x61, 0x43]);
        }
        if b[0] == 0x49 && b[1] == 0x44 && b[2] == 0x33 {
            assert(t =~= seq![0x49u8, 0x44, 0x33]);
        }
        if b[4] == 0x66 && b[5] == 0x74 && b[6] == 0x79 && b[7] == 0x70 {
            assert(m =~= seq![0x66u8, 0x74, 0x79, 0x70]);
        }
    }
}

/// Every kind of file is told by a word of its own, and every kind of image
/// by its own type and its own ending.
pub proof fn lemma_kind_words(k: ImageKind)
    ensures
        kind_text(FileKind::Image) == "image"@,
        kind_text(FileKind::File) == "file"@,
        kind_text(FileKind::Video) == "video"@,
        kind_text(FileKind::Audio) == "audio"@,
        k == ImageKind::Png ==> image_mime(k) == "image/png"@ && image_ext(k) == "png"@,
        k == ImageKind::Jpeg ==> image_mime(k) == "image/jpeg"@ && image_ext(k) == "jpg"@,
        k == ImageKind::Gif ==> image_mime(k) == "image/gif"@ && image_ext(k) == "gif"@,
        k == ImageKind::Webp ==> image_mime(k) == "image/webp"@ && image_ext(k) == "webp"@,
        k == ImageKind::Bmp ==> image_mime(k) == "image/bmp"@ && image_ext(k) == "bmp"@,
{
}

/// A file is too large to download where it says that it is larger than a
/// file may be; one that does not say is not.
pub proof fn lemma_oversized(f: File)
    ensures
        f.media.size is None ==> !oversized(f),
        f.media.size matches Some(n) ==> (oversized(f) <==> n > MAX_UPLOAD),
{
}

/// A downloaded file is looked for under the name that it has with each kind
/// of image, and with none.
pub proof fn lemma_formats(image: Option<ImageKind>)
    ensures
        formats().contains(image),
        formats().no_duplicates(),
{
    let f = formats();
    assert(f[0] == None::<ImageKind> && f[1] == Some(ImageKind::Png) && f[2] == Some(
        ImageKind::Jpeg,
    ) && f[3] == Some(ImageKind::Gif) && f[4] == Some(ImageKind::Webp) && f[5] == Some(
        ImageKind::Bmp,
    ));
    let at: int = match image {
        None => 0,
        Some(ImageKind::Png) => 1,
        Some(ImageKind::Jpeg) => 2,
        Some(ImageKind::Gif) => 3,
        Some(ImageKind::Webp) => 4,
        Some(ImageKind::Bmp) => 5,
    };
    assert(f[at] == image);
}

/// A chunk that is neither the format nor the samples changes nothing: what
/// follows it is read as if it stood in its place. Reading ends where no
/// chunk fits.
pub proof fn lemma_foreign_chunk(b: Seq<u8>, pos: int, c: Chunks)
    requires
        0 <= pos,
    ensures
        pos + 8 > b.len() ==> read_chunks(b, pos, c) == c,
        pos + 8 <= b.len() && b.subrange(pos, pos + 4) != seq![0x66u8, 0x6d, 0x74, 0x20]
            && b.subrange(pos, pos + 4) != seq![0x64u8, 0x61, 0x74, 0x61] && le32(b, pos + 4) % 2
            == 0 ==> read_chunks(b, pos, c) == read_chunks(b, pos + 8 + le32(b, pos + 4), c),
        pos + 8 <= b.len() && b.subrange(pos, pos + 4) != seq![0x66u8, 0x6d, 0x74, 0x20]
            && b.subrange(pos, pos + 4) != seq![0x64u8, 0x61, 0x74, 0x61] && le32(b, pos + 4) % 2
            == 1 ==> read_chunks(b, pos, c) == read_chunks(b, pos + 9 + le32(b, pos + 4), c),
{
}

/// What comes small is kept as a picture, whatever it was sent as; what
/// comes whole is kept as a file of its kind.
pub proof fn lemma_kept_as(
    event_id: Seq<char>,
    plan: DownloadPlan,
    asked: bool,
    image: Option<ImageKind>,
)
    ensures
        ({
            let mime = Some(fetched_mime(plan.thumbnail, image, text::opt(plan.mime)));
            &&& !plan.whole ==> kept_as(event_id, plan, asked, image) == cached_as(
                event_id,
                asked,
                cache_ext(FileKind::Image, image, mime, plan.filename@),
            )
            &&& plan.whole ==> kept_as(event_id, plan, asked, image) == cached_as(
                event_id,
                asked,
                cache_ext(plan.kind, image, mime, plan.filename@),
            )
        }),
{
}

} // verus!
