use disk_usage::classify::{
    classify, classify_mime, is_archive, is_binary, is_document, same_text, starts_with, Category,
};
use disk_usage::totals::CategoryTotals;
use disk_usage::utils::chars_of;

#[test]
fn images_audio_and_video_go_by_their_top_level_type() {
    assert_eq!(classify_mime("image/png"), Category::Images);
    assert_eq!(classify_mime("image/"), Category::Images);
    assert_eq!(classify_mime("audio/mpeg"), Category::Music);
    assert_eq!(classify_mime("video/mp4"), Category::Videos);
    assert_eq!(classify_mime("ximage/png"), Category::Other);
    assert_eq!(classify_mime("image"), Category::Other);
}

#[test]
fn documents_go_by_the_fixed_list() {
    assert_eq!(classify_mime("application/msword"), Category::Documents);
    assert_eq!(
        classify_mime("application/vnd.openxmlformats-officedocument.wordprocessingml.document"),
        Category::Documents
    );
    assert_eq!(classify_mime("application/vnd.ms-excel"), Category::Documents);
    assert_eq!(
        classify_mime("application/vnd.openxmlformats-officedocument.spreadsheetml.sheet"),
        Category::Documents
    );
    assert_eq!(classify_mime("text/plain"), Category::Documents);
    assert_eq!(classify_mime("text/plain2"), Category::Other);
    assert_eq!(classify_mime("text/html"), Category::Other);
    assert!(is_document("text/plain"));
    assert!(!is_document("text/plai"));
}

#[test]
fn archives_go_by_the_fixed_list() {
    for mime in [
        "application/x-bzip",
        "application/x-bzip2",
        "application/zip",
        "application/x-tar",
        "application/gzip",
        "application/x-7z-compressed",
    ] {
        assert_eq!(classify_mime(mime), Category::Archives);
        assert!(is_archive(mime));
    }
    assert!(!is_archive("application/x-rar"));
}

#[test]
fn octet_streams_are_binaries() {
    assert_eq!(classify_mime("application/octet-stream"), Category::Binaries);
    assert!(is_binary("application/octet-stream"));
    assert!(!is_binary("application/octet"));
}

#[test]
fn unknown_types_are_other() {
    assert_eq!(classify_mime(""), Category::Other);
    assert_eq!(classify_mime("application/json"), Category::Other);
}

#[test]
fn paths_are_classified_by_their_extension() {
    assert_eq!(classify("/photos/b.jpg"), Category::Images);
    assert_eq!(classify("/photos/B.PNG"), Category::Images);
    assert_eq!(classify("song.mp3"), Category::Music);
    assert_eq!(classify("clip.mp4"), Category::Videos);
    assert_eq!(classify("a.txt"), Category::Documents);
    assert_eq!(classify("letter.docx"), Category::Documents);
    assert_eq!(classify("sheet.xls"), Category::Documents);
    assert_eq!(classify("backup.zip"), Category::Archives);
    assert_eq!(classify("backup.tar"), Category::Archives);
    assert_eq!(classify("setup.exe"), Category::Binaries);
    assert_eq!(classify("page.html"), Category::Other);
}

#[test]
fn paths_without_a_known_extension_are_other() {
    assert_eq!(classify("Makefile"), Category::Other);
    assert_eq!(classify("/dir.jpg/file"), Category::Other);
    assert_eq!(classify("file.no-such-extension"), Category::Other);
    assert_eq!(classify(""), Category::Other);
}

#[test]
fn prefix_and_equality_of_text() {
    let text = chars_of("image/png");
    assert!(starts_with(&text, "image/"));
    assert!(starts_with(&text, ""));
    assert!(starts_with(&text, "image/png"));
    assert!(!starts_with(&text, "image/png "));
    assert!(!starts_with(&text, "mage/"));
    assert!(same_text(&text, "image/png"));
    assert!(!same_text(&text, "image/"));
    assert!(!same_text(&text, "image/pngs"));
    assert!(same_text(&chars_of(""), ""));
}

#[test]
fn totals_start_at_zero() {
    let totals = CategoryTotals::new();
    for (_, total) in totals.entries() {
        assert_eq!(total, 0);
    }
}

#[test]
fn adding_raises_one_category_only() {
    let mut totals = CategoryTotals::new();
    totals.add(Category::Music, 7);
    totals.add(Category::Music, 5);
    totals.add(Category::Other, 1);
    assert_eq!(totals.get(Category::Music), 12);
    assert_eq!(totals.get(Category::Other), 1);
    assert_eq!(totals.get(Category::Images), 0);
    assert_eq!(totals.music, 12);
    totals.add(Category::Images, u64::MAX);
    assert_eq!(totals.get(Category::Images), u64::MAX);
}

#[test]
fn entries_come_in_reporting_order() {
    let totals = CategoryTotals {
        images: 1,
        videos: 2,
        music: 3,
        documents: 4,
        archives: 5,
        binaries: 6,
        other: 7,
    };
    assert_eq!(
        totals.entries(),
        vec![
            (Category::Images, 1),
            (Category::Videos, 2),
            (Category::Music, 3),
            (Category::Documents, 4),
            (Category::Archives, 5),
            (Category::Binaries, 6),
            (Category::Other, 7),
        ]
    );
}
