use yapperd::events;
use yapperd::events::{File, FileKind, Media, RoomEvent, Sound};
use yapperd::media;
use yapperd::media::{DownloadPlan, Encoding, Fetch, ImageKind, Wav};
use yapperd::refusal::Refusal;

const PNG: [u8; 33] = [
    0x89, 0x50, 0x4e, 0x47, 0x0d, 0x0a, 0x1a, 0x0a, 0, 0, 0, 13, 0x49, 0x48, 0x44, 0x52, 0, 0, 0, 3,
    0, 0, 0, 5, 8, 6, 0, 0, 0, 0, 0, 0, 0,
];

fn plain(kind: FileKind) -> File {
    File {
        kind,
        media: Media {
            filename: "a.bin".to_string(),
            caption: None,
            mime: None,
            size: None,
            width: Some(1),
            height: Some(2),
            thumbnail: false,
            sealed: false,
        },
        sound: None,
    }
}

fn voice(waveform: Vec<u64>) -> File {
    let mut f = plain(FileKind::Audio);
    f.sound = Some(Sound { voice: true, block_ms: Some(1200), info_ms: Some(900), waveform });
    f
}

fn message(content: &str) -> RoomEvent {
    events::read_event(&format!(
        "{{\"type\":\"m.room.message\",\"event_id\":\"$m\",\"sender\":\"@a:b\",\
         \"origin_server_ts\":1,\"content\":{content}}}"
    ))
    .unwrap()
}

fn wav(bits: u16, channels: u16, rate: u32, data: &[u8]) -> Vec<u8> {
    let mut b: Vec<u8> = Vec::new();
    b.extend(b"RIFF");
    b.extend([0, 0, 0, 0]);
    b.extend(b"WAVE");
    b.extend(b"fmt ");
    b.extend(16u32.to_le_bytes());
    b.extend(1u16.to_le_bytes());
    b.extend(channels.to_le_bytes());
    b.extend(rate.to_le_bytes());
    b.extend(0u32.to_le_bytes());
    b.extend(0u16.to_le_bytes());
    b.extend(bits.to_le_bytes());
    b.extend(b"data");
    b.extend((data.len() as u32).to_le_bytes());
    b.extend(data);
    b
}

#[test]
fn hashes_name_the_cache() {
    assert_eq!(media::hash_of(""), "30406ea523c53def");
    assert_eq!(media::hash_of("a"), "719b50b9a4f0e9f3");
    assert_eq!(media::hash_of("$ev:example.org"), "eed4d9ef2db189b5");
}

#[test]
fn attachments_are_described() {
    assert_eq!(media::attachment_of(&None), None);
    let a = media::attachment_of(&Some(plain(FileKind::Image))).unwrap();
    assert_eq!(a.kind, "image");
    // The server scales an image that has no thumbnail of its own.
    assert!(a.has_thumbnail);
    assert_eq!((a.width, a.height), (Some(1), Some(2)));
    assert!(!a.voice);
    let a = media::attachment_of(&Some(plain(FileKind::File))).unwrap();
    assert_eq!((a.kind.as_str(), a.width, a.has_thumbnail), ("file", None, false));
    let a = media::attachment_of(&Some(plain(FileKind::Video))).unwrap();
    assert_eq!((a.kind.as_str(), a.width), ("video", Some(1)));
    let mut f = plain(FileKind::File);
    f.media.caption = Some("  ".to_string());
    assert_eq!(media::attachment_of(&Some(f)).unwrap().caption, None);
}

#[test]
fn voice_messages_carry_length_and_curve() {
    let a = media::attachment_of(&Some(voice(vec![0, 70000, 3]))).unwrap();
    assert_eq!(a.kind, "audio");
    assert!(a.voice);
    assert_eq!(a.duration_ms, Some(1200));
    assert_eq!(a.waveform, Some(vec![0, 65535, 3]));
    assert_eq!(media::attachment_of(&Some(voice(vec![]))).unwrap().waveform, None);
    let long = media::attachment_of(&Some(voice(vec![1; 1000]))).unwrap();
    assert_eq!(long.waveform.unwrap().len(), 256);
    let mut f = voice(vec![]);
    f.sound = Some(Sound { voice: false, block_ms: None, info_ms: Some(900), waveform: vec![] });
    let a = media::attachment_of(&Some(f)).unwrap();
    assert_eq!((a.voice, a.duration_ms), (false, Some(900)));
}

#[test]
fn images_are_known_by_their_bytes() {
    assert_eq!(media::sniff(&PNG.to_vec()), Some(ImageKind::Png));
    assert_eq!(media::infer_image_mime(&PNG.to_vec()), Some("image/png".to_string()));
    let gif = b"GIF89a\x01\x00\x01\x00\x00\x00".to_vec();
    assert_eq!(media::sniff(&gif), Some(ImageKind::Gif));
    let jpeg = vec![0xff, 0xd8, 0xff, 0xe0, 0, 16, 0x4a, 0x46, 0x49, 0x46, 0, 1];
    assert_eq!(media::infer_image_mime(&jpeg), Some("image/jpeg".to_string()));
    assert_eq!(media::sniff(&b"<html><body></body>".to_vec()), None);
    assert_eq!(media::sniff(&vec![]), None);
}

#[test]
fn cached_files_get_a_harmless_extension() {
    let name = |thumb: bool, kind: FileKind, image: Option<ImageKind>, mime: &str, file: &str| {
        let mime = if mime.is_empty() { None } else { Some(mime.to_string()) };
        media::cache_name("$ev:example.org", thumb, kind, image, &mime, file)
    };
    let h = "eed4d9ef2db189b5";
    assert_eq!(name(false, FileKind::File, None, "text/html", "a.html"), format!("{h}.bin"));
    assert_eq!(name(false, FileKind::File, None, "application/pdf", "x"), format!("{h}.pdf"));
    assert_eq!(name(false, FileKind::File, None, "", "notes.txt"), format!("{h}.txt"));
    assert_eq!(name(false, FileKind::File, None, "", "run.desktop"), format!("{h}.bin"));
    assert_eq!(name(false, FileKind::Video, None, "video/mp4", "x"), format!("{h}.mp4"));
    assert_eq!(name(false, FileKind::Video, None, "application/pdf", "x"), format!("{h}.bin"));
    // An image's extension comes from its bytes, whatever it is declared as.
    assert_eq!(
        name(false, FileKind::Image, Some(ImageKind::Png), "image/jpeg", "a.gif"),
        format!("{h}.png")
    );
    assert_eq!(name(false, FileKind::Image, None, "image/svg+xml", "a.svg"), format!("{h}.bin"));
    // A video's thumbnail is an image; the video in its place is not.
    assert_eq!(
        name(true, FileKind::Image, Some(ImageKind::Jpeg), "video/mp4", "x"),
        format!("{h}-thumb.jpg")
    );
    assert_eq!(
        name(true, FileKind::Video, Some(ImageKind::Jpeg), "video/mp4", "x"),
        format!("{h}-thumb.mp4")
    );
}

#[test]
fn avatars_are_kept_by_size() {
    let h = media::hash_of("mxc://example.org/abc");
    assert_eq!(h, "36649c11db6892be");
    assert_eq!(media::avatar_name("mxc://example.org/abc", 96), format!("{h}.png"));
    assert_eq!(media::avatar_name("mxc://example.org/abc", 48), format!("{h}-48.png"));
    assert_eq!(media::avatar_size(1), 16);
    assert_eq!(media::avatar_size(9000), 640);
    assert_eq!(media::avatar_size(96), 96);
}

#[test]
fn downloads_stop_at_their_limit() {
    let mut f = Fetch::new(true);
    assert!(f.accepts(Some(16_777_216)));
    assert!(!f.accepts(Some(16_777_217)));
    assert!(f.accepts(None));
    assert!(f.chunk(16_777_216));
    assert!(!f.chunk(1));
    assert_eq!(f.received, 16_777_216);
    assert_eq!(Fetch::new(false).limit, 104_857_600);
}

#[test]
fn what_to_download() {
    let ev = message(
        r#"{"msgtype":"m.video","body":"a.mp4","url":"mxc://e/x","info":{"mimetype":"video/mp4","size":104857601}}"#,
    );
    assert_eq!(media::download_plan(&ev, false), Err(Refusal::MediaTooLarge));
    // A large video still has a small thumbnail.
    let p = media::download_plan(&ev, true).unwrap();
    assert!(p.thumbnail && !p.whole);
    // Encrypted, it has one only where the message names it.
    let ev = message(
        r#"{"msgtype":"m.video","body":"a.mp4","file":{"v":"v2","url":"mxc://e/x","key":{"kty":"oct","key_ops":["encrypt","decrypt"],"alg":"A256CTR","k":"qcHVMSgYg-71CauWBezXI5qkaRb0LuIy-Wx5kIaHMIA","ext":true},"iv":"X85+XgHN+HEAAAAAAAAAAA","hashes":{"sha256":"5qG4fFnbbVdlAB1Q72JDKwCagV6Dbkx9uds4rSak37c"}},"info":{"mimetype":"video/mp4","size":104857601}}"#,
    );
    assert_eq!(media::download_plan(&ev, true), Err(Refusal::MediaTooLarge));
    let ev = message(
        r#"{"msgtype":"m.audio","body":"a.ogg","url":"mxc://e/x","org.matrix.msc3245.voice":{}}"#,
    );
    let p = media::download_plan(&ev, true).unwrap();
    assert!(!p.thumbnail && p.whole && p.voice);
    assert_eq!(p.filename, "a.ogg");
    let ev = message(r#"{"msgtype":"m.text","body":"x"}"#);
    assert_eq!(media::download_plan(&ev, false), Err(Refusal::NoAttachment));
    let raw = r#"{"type":"m.room.name","event_id":"$m","sender":"@a:b","origin_server_ts":7,"state_key":"","content":{"name":"x"}}"#;
    let ev = events::read_event(raw).unwrap();
    assert_eq!(media::download_plan(&ev, false), Err(Refusal::NotAMessage));
}

#[test]
fn what_was_fetched_is_kept() {
    let ev = message(
        r#"{"msgtype":"m.image","body":"a.png","url":"mxc://e/x","info":{"mimetype":"image/webp"}}"#,
    );
    let plan = media::download_plan(&ev, true).unwrap();
    // A thumbnail's bytes say what it is, a file's declared type does.
    let k = media::keep("$ev:example.org", &plan, true, &PNG.to_vec());
    assert_eq!(k.mime, "image/png");
    assert_eq!(k.name, "eed4d9ef2db189b5-thumb.png");
    let plan = media::download_plan(&ev, false).unwrap();
    let k = media::keep("$ev:example.org", &plan, false, &PNG.to_vec());
    assert_eq!(k.mime, "image/webp");
    assert_eq!(k.name, "eed4d9ef2db189b5.png");
    assert_eq!(k.normalised, None);
    assert_eq!(media::mime_fetched(true, None, &None), "image/jpeg");
    assert_eq!(media::mime_fetched(false, None, &None), "application/octet-stream");
    assert_eq!(media::mime_fetched(false, Some(ImageKind::Bmp), &None), "image/bmp");
}

#[test]
fn voice_notes_get_a_copy_at_speech_level() {
    let ev = message(
        r#"{"msgtype":"m.audio","body":"a.ogg","url":"mxc://e/x","info":{"mimetype":"audio/ogg"},"org.matrix.msc3245.voice":{}}"#,
    );
    let plan = media::download_plan(&ev, false).unwrap();
    let ogg = b"OggS\x00\x02\x00\x00\x00\x00\x00\x00".to_vec();
    assert!(media::is_recording(&ogg));
    let k = media::keep("$ev:example.org", &plan, false, &ogg);
    assert_eq!(k.normalised, Some("eed4d9ef2db189b5-norm.ogg".to_string()));
    assert_eq!(
        media::handed(&k, true),
        ("eed4d9ef2db189b5-norm.ogg".to_string(), "audio/ogg".to_string())
    );
    assert_eq!(media::handed(&k, false).0, k.name);
    // What is no recording by its bytes is not handed to the encoder.
    let k = media::keep("$ev:example.org", &plan, false, &b"<html></html>".to_vec());
    assert_eq!(k.normalised, None);
    assert!(!media::is_recording(&b"OggS".to_vec()));
}

#[test]
fn files_are_sent_with_what_is_known_of_them() {
    assert_eq!(media::may_send("/d", false, 1), Err(Refusal::NotAFile("/d".to_string())));
    assert_eq!(media::may_send("/f", true, 104_857_601), Err(Refusal::FileTooLarge));
    assert_eq!(media::may_send("/f", true, 104_857_600), Ok(()));
    let u = media::upload("/tmp/pic.png", 33, &PNG.to_vec(), &Some(" hello ".to_string()));
    assert_eq!(u.name, "pic.png");
    assert_eq!(u.mime, "image/png");
    assert_eq!(u.image, Some((Some(3), Some(5))));
    assert_eq!(u.size, 33);
    assert_eq!(u.caption, Some("hello".to_string()));
    let u = media::upload("/tmp/pic.png", 4, &b"oops".to_vec(), &Some(" ".to_string()));
    assert_eq!(u.image, Some((None, None)));
    assert_eq!(u.caption, None);
    let u = media::upload("/tmp/x.unknown-thing", 1, &vec![0], &None);
    assert_eq!(u.mime, "application/octet-stream");
    assert_eq!(u.image, None);
    assert_eq!(media::upload("/", 1, &vec![0], &None).name, "file");
}

#[test]
fn recordings_are_read() {
    let data: Vec<u8> = vec![1, 0, 0xff, 0xff, 0, 0x80, 9, 9];
    let b = wav(16, 1, 8000, &data);
    let w = media::parse_wav(&b).unwrap();
    assert_eq!(w, Wav { channels: 1, rate: 8000, bits: 16, start: 44, len: 8 });
    assert_eq!(w.frames(), 4);
    assert_eq!(w.duration_ns(), 500_000);
    assert_eq!(w.long_enough(), Err(Refusal::RecordingTooShort));
    assert_eq!(w.sample(&b, 0), 1);
    assert_eq!(w.sample(&b, 1), -1);
    assert_eq!(w.sample(&b, 2), -32768);
    let b = wav(32, 2, 4, &[0; 32]);
    let w = media::parse_wav(&b).unwrap();
    assert_eq!(w.frames(), 4);
    assert_eq!(w.duration_ns(), 1_000_000_000);
    assert_eq!(w.long_enough(), Ok(()));
    assert_eq!(media::parse_wav(&wav(24, 1, 8000, &data)), Err(Refusal::SampleSize(24)));
    assert_eq!(media::parse_wav(&b"RIFF0000WAVE".to_vec()), Err(Refusal::NoAudioData));
    assert_eq!(media::parse_wav(&b"RIFF0000AVI ".to_vec()), Err(Refusal::NotWav));
    assert_eq!(media::parse_wav(&vec![]), Err(Refusal::NotWav));
}

#[test]
fn a_curve_has_a_hundred_parts() {
    assert_eq!(media::bucket(1000, 0), Some((0, 10)));
    assert_eq!(media::bucket(1000, 99), Some((990, 1000)));
    assert_eq!(media::bucket(5, 4), Some((4, 5)));
    assert_eq!(media::bucket(5, 5), None);
    assert_eq!(media::bucket(0, 0), None);
}

#[test]
fn recordings_are_sent_encoded_where_possible() {
    assert_eq!(media::voice_upload(true, 5), Ok(("Voice message.ogg", "audio/ogg")));
    assert_eq!(media::voice_upload(false, 5), Ok(("Voice message.wav", "audio/wav")));
    assert_eq!(media::voice_upload(true, 104_857_601), Err(Refusal::RecordingTooLarge));
    let (before, after) = media::encoder_args(Encoding::Send);
    assert_eq!(before[before.len() - 1], "-i");
    assert!(before.contains(&"wav"));
    assert!(after.contains(&"900"));
    assert!(after.contains(&"32k"));
    let (before, after) = media::encoder_args(Encoding::Play);
    assert!(!before.contains(&"wav"));
    assert!(after.contains(&"48k"));
    assert!(media::ffmpeg_path().starts_with('/'));
}

#[test]
fn what_was_kept_is_found_again() {
    let id = "$ev:example.org";
    for (kind, mime) in [
        (FileKind::File, None),
        (FileKind::Image, Some("image/webp".to_string())),
        (FileKind::Video, Some("video/mp4".to_string())),
    ] {
        for (asked, thumbnail) in [(false, false), (true, false), (true, true)] {
            let plan = DownloadPlan {
                kind,
                filename: "notes.txt".to_string(),
                mime: mime.clone(),
                thumbnail,
                whole: !thumbnail,
                voice: false,
            };
            for bytes in [PNG.to_vec(), b"just some plain text".to_vec()] {
                let names = media::cached_names(id, &plan, asked);
                assert_eq!(names.len(), 6);
                let none = vec![None; 6];
                assert_eq!(media::cached(id, &plan, asked, &none), None);
                let kept = media::keep(id, &plan, asked, &bytes);
                let files: Vec<Option<Vec<u8>>> =
                    names.iter().map(|n| if *n == kept.name { Some(bytes.clone()) } else { None }).collect();
                // The second answer is the first one.
                assert_eq!(media::cached(id, &plan, asked, &files), Some(kept));
            }
        }
    }
}

#[test]
fn a_file_in_place_of_a_thumbnail_keeps_its_kind() {
    let plan = DownloadPlan {
        kind: FileKind::File,
        filename: "paper.pdf".to_string(),
        mime: Some("application/pdf".to_string()),
        thumbnail: false,
        whole: true,
        voice: false,
    };
    let k = media::keep("$ev:example.org", &plan, true, &b"%PDF-1.7 and so on".to_vec());
    assert_eq!(k.name, "eed4d9ef2db189b5-thumb.pdf");
    assert_eq!(k.mime, "application/pdf");
    // A file that does not belong where it is is passed over.
    let mut files = vec![None; 6];
    files[1] = Some(b"%PDF-1.7 and so on".to_vec());
    assert_eq!(media::cached("$ev:example.org", &plan, true, &files), None);
}

#[test]
fn extensions_are_chosen() {
    let ext = |kind, image, by_mime: Option<&str>, by_name: Option<&str>| {
        media::choose_extension(
            kind,
            image,
            by_mime.map(str::to_string),
            by_name.map(str::to_string),
        )
    };
    assert_eq!(ext(FileKind::Video, None, Some("mp4"), Some("mkv")), "mp4");
    assert_eq!(ext(FileKind::Video, None, None, Some("mkv")), "mkv");
    assert_eq!(ext(FileKind::File, None, Some("html"), Some("pdf")), "bin");
    assert_eq!(ext(FileKind::File, Some(ImageKind::Gif), Some("pdf"), None), "gif");
    assert_eq!(ext(FileKind::Image, None, Some("png"), None), "bin");
    assert_eq!(ext(FileKind::Audio, Some(ImageKind::Gif), None, None), "bin");
}

#[test]
fn names_of_paths() {
    let name = |path: &str| media::upload(path, 1, &vec![0], &None).name;
    assert_eq!(name("/tmp//a.txt/./"), "a.txt");
    assert_eq!(name("./b"), "b");
    assert_eq!(name("/tmp/.."), "file");
    assert_eq!(name("."), "file");
    let kept = |filename: &str| {
        media::cache_name("$ev:example.org", false, FileKind::File, None, &None, filename)
    };
    assert_eq!(kept("a.b.pdf"), "eed4d9ef2db189b5.pdf");
    assert_eq!(kept("x/y.pdf/"), "eed4d9ef2db189b5.pdf");
    assert_eq!(kept(".pdf"), "eed4d9ef2db189b5.bin");
    assert_eq!(kept("pdf"), "eed4d9ef2db189b5.bin");
}

#[test]
fn only_recordings_are_voice_messages() {
    let mut f = voice(vec![1, 2]);
    f.kind = FileKind::Image;
    let a = media::attachment_of(&Some(f)).unwrap();
    assert!(!a.voice);
    assert_eq!(a.duration_ms, None);
    assert_eq!(a.waveform, None);
}

#[test]
fn formats_go_by_their_marks() {
    assert_eq!(media::sniff(&b"BM0123456789".to_vec()), Some(ImageKind::Bmp));
    assert_eq!(media::sniff(&b"BM23ftypmp42".to_vec()), None);
    assert_eq!(media::sniff(&b"BM012345678".to_vec()), None);
    assert_eq!(media::sniff(&b"RIFF0000WEBP".to_vec()), Some(ImageKind::Webp));
    assert_eq!(media::sniff(&b"RIFF0000WAVE".to_vec()), None);
    assert_eq!(media::sniff(&b"GIF89a012345".to_vec()), Some(ImageKind::Gif));
}

#[test]
fn an_encrypted_picture_stands_for_its_thumbnail() {
    let ev = message(
        r#"{"msgtype":"m.image","body":"a.webp","file":{"v":"v2","url":"mxc://e/x","key":{"kty":"oct","key_ops":["encrypt","decrypt"],"alg":"A256CTR","k":"qcHVMSgYg-71CauWBezXI5qkaRb0LuIy-Wx5kIaHMIA","ext":true},"iv":"X85+XgHN+HEAAAAAAAAAAA","hashes":{"sha256":"5qG4fFnbbVdlAB1Q72JDKwCagV6Dbkx9uds4rSak37c"}},"info":{"mimetype":"image/webp"}}"#,
    );
    let plan = media::download_plan(&ev, true).unwrap();
    assert!(plan.thumbnail && plan.whole);
    // Its bytes say what it is, as a thumbnail's do.
    let k = media::keep("$ev:example.org", &plan, true, &PNG.to_vec());
    assert_eq!(k.mime, "image/png");
    assert_eq!(k.name, "eed4d9ef2db189b5-thumb.png");
    let plan = media::download_plan(&ev, false).unwrap();
    assert_eq!(media::keep("$ev:example.org", &plan, false, &PNG.to_vec()).mime, "image/webp");
}
