use sheldrive::safety::{
    check_extension, check_size, is_image, is_jpeg, is_valid_image_header, scan_image,
    skin_tone_sample_counts, verdict_for_extension, ContentVerdict, MAX_FILE_SIZE,
};

#[test]
fn test_blocked_extensions() {
    assert!(check_extension("/test.exe").is_blocked());
    assert!(check_extension("/path/to/virus.bat").is_blocked());
    assert!(check_extension("/script.ps1").is_blocked());
    assert!(check_extension("/malware.DLL").is_blocked());
    assert!(!check_extension("/photo.jpg").is_blocked());
    assert!(!check_extension("/document.pdf").is_blocked());
    assert!(!check_extension("/video.mp4").is_blocked());
}

#[test]
fn test_size_limits() {
    assert!(!check_size(1024).is_blocked());
    assert!(!check_size(MAX_FILE_SIZE).is_blocked());
    assert!(check_size(MAX_FILE_SIZE + 1).is_blocked());
}

#[test]
fn test_image_detection() {
    assert!(is_image("photo.jpg"));
    assert!(is_image("image.PNG"));
    assert!(is_image("pic.webp"));
    assert!(!is_image("doc.pdf"));
    assert!(!is_image("video.mp4"));
}

#[test]
fn test_valid_image_headers() {
    assert!(is_valid_image_header(&[0xFF, 0xD8, 0xFF, 0xE0]));
    assert!(is_valid_image_header(&[0x89, 0x50, 0x4E, 0x47]));
    assert!(is_valid_image_header(&[b'G', b'I', b'F', b'8']));
    assert!(is_valid_image_header(&[b'B', b'M', 0, 0]));
    assert!(!is_valid_image_header(&[0x00, 0x00, 0x00, 0x00]));
}

#[test]
fn webp_and_tiff_headers_and_short_data() {
    assert!(is_valid_image_header(b"RIFF\0\0\0\0WEBP"));
    assert!(!is_valid_image_header(b"RIFF\0\0\0\0WEBX"));
    assert!(is_valid_image_header(b"II*\0"));
    assert!(is_valid_image_header(b"MM\0*"));
    assert!(!is_valid_image_header(&[0xFF, 0xD8, 0xFF]));
    assert!(is_jpeg(&[0xFF, 0xD8, 0xFF]));
    assert!(!is_jpeg(&[0xFF, 0xD8]));
}

#[test]
fn extension_is_text_after_last_dot() {
    match check_extension("archive.tar.EXE") {
        ContentVerdict::BlockedExtension(e) => assert_eq!(e, "exe"),
        other => panic!("unexpected {:?}", other),
    }
    match check_extension("exe") {
        ContentVerdict::BlockedExtension(e) => assert_eq!(e, "exe"),
        other => panic!("unexpected {:?}", other),
    }
    assert!(!check_extension("/dir.exe/readme").is_blocked());
    assert!(verdict_for_extension("lnk".to_string()).is_blocked());
}

#[test]
fn reasons_read_as_messages() {
    assert_eq!(ContentVerdict::Safe.reason(), "safe");
    assert_eq!(
        ContentVerdict::BlockedExtension("exe".to_string()).reason(),
        "blocked file type: .exe"
    );
    assert_eq!(
        ContentVerdict::BlockedSize(3 * 1024 * 1024 * 1024).reason(),
        "file too large: 3072 MB (max 2048 MB)"
    );
    assert_eq!(
        ContentVerdict::BlockedNsfw(87).reason(),
        "NSFW content detected (score: 0.87)"
    );
    assert_eq!(
        ContentVerdict::BlockedNsfw(105).reason(),
        "NSFW content detected (score: 1.05)"
    );
}

#[test]
fn scan_blocks_images_with_a_foreign_header() {
    let fake = vec![0u8; 200];
    match scan_image("holiday.png", &fake) {
        ContentVerdict::BlockedExtension(e) => assert_eq!(e, "fake-image"),
        other => panic!("unexpected {:?}", other),
    }
    assert!(!scan_image("holiday.png", &fake[..99]).is_blocked());
    assert!(!scan_image("notes.txt", &fake).is_blocked());
    let mut png = vec![0u8; 200];
    png[..4].copy_from_slice(&[0x89, 0x50, 0x4E, 0x47]);
    assert!(!scan_image("holiday.png", &png).is_blocked());
}

#[test]
fn skin_tone_samples_every_hundredth_triplet() {
    assert_eq!(skin_tone_sample_counts(&[200u8; 999]), (0, 0));
    let data = vec![0u8; 1000];
    // from 250 up to 997, every 100 bytes: 250, 350, ..., 950
    assert_eq!(skin_tone_sample_counts(&data), (8, 0));
    let mut skin = vec![0u8; 1000];
    for i in (250..997).step_by(100) {
        skin[i] = 200;
        skin[i + 1] = 120;
        skin[i + 2] = 90;
    }
    assert_eq!(skin_tone_sample_counts(&skin), (8, 8));
}

#[test]
fn blocked_content_is_recorded_with_its_reason() {
    assert_eq!(check_extension("/virus.exe").blocked_cid(), "blocked:blocked file type: .exe");
    assert_eq!(
        ContentVerdict::BlockedNsfw(87).blocked_cid(),
        "blocked:NSFW content detected (score: 0.87)"
    );
}
