use jmcomic_downloader::cbz::{
    cbz_entry_names, cbz_save_path, cover_export_path, CbzError, ExportProgress,
};
use jmcomic_downloader::chapter_info::{ChapterInfo, ChapterInfoError};
use jmcomic_downloader::export::{get_downloaded_chapters, get_image_paths, is_img, ExportArchive};
use jmcomic_downloader::order::{order_by_names, sort_by_file_name};

fn chapter(id: i64, dir: Option<&str>, downloaded: Option<bool>) -> ChapterInfo {
    ChapterInfo {
        chapter_id: id,
        chapter_title: format!("ch{id}"),
        order: id,
        is_downloaded: downloaded,
        chapter_download_dir: dir.map(|d| d.to_string()),
    }
}

fn strings(v: &[&str]) -> Vec<String> {
    v.iter().map(|s| s.to_string()).collect()
}

#[test]
fn archive_extensions() {
    assert_eq!(ExportArchive::Cbz.extension(), "cbz");
    assert_eq!(ExportArchive::Pdf.extension(), "pdf");
}

#[test]
fn downloaded_chapters_in_order() {
    let infos = vec![
        chapter(1, None, Some(true)),
        chapter(2, None, Some(false)),
        chapter(3, None, None),
        chapter(4, Some("/x"), Some(true)),
    ];
    let got = get_downloaded_chapters(&infos);
    let ids: Vec<i64> = got.iter().map(|c| c.chapter_id).collect();
    assert_eq!(ids, vec![1, 4]);
    assert_eq!(got[1].chapter_download_dir, Some("/x".to_string()));
    assert!(get_downloaded_chapters(&[]).is_empty());
}

#[test]
fn image_detection_by_extension() {
    assert!(is_img("/d/1.JPG", true));
    assert!(is_img("/d/1.jpeg", true));
    assert!(is_img("/d/1.png", false));
    assert!(is_img("/d/1.webp", false));
    assert!(!is_img("/d/1.webp", true));
    assert!(is_img("/d/1.Gif", false));
    assert!(!is_img("/d/1.gif", true));
    assert!(!is_img("/d/notes.txt", false));
    assert!(!is_img("/d/jpg", false));
    assert!(!is_img("/d/.jpg", false));
}

#[test]
fn names_order_with_ties() {
    let keys = vec![
        Some("b".to_string()),
        None,
        Some("a".to_string()),
        Some("a".to_string()),
        None,
    ];
    assert_eq!(order_by_names(&keys), vec![1, 4, 2, 3, 0]);
    assert!(order_by_names(&vec![]).is_empty());
}

#[test]
fn sort_is_by_file_name_code_points() {
    let paths = strings(&["/d/2.jpg", "/d/10.jpg", "/e/1.jpg", "/"]);
    assert_eq!(sort_by_file_name(&paths), strings(&["/", "/e/1.jpg", "/d/10.jpg", "/d/2.jpg"]));
}

#[test]
fn image_paths_filtered_and_sorted() {
    let entries = strings(&[
        "/c/3.webp",
        "/c/notes.txt",
        "/c/1.JPG",
        "/c/2.gif",
        "/c/ComicInfo.xml",
        "/c/0.png",
    ]);
    assert_eq!(
        get_image_paths(&entries, false),
        strings(&["/c/0.png", "/c/1.JPG", "/c/2.gif", "/c/3.webp"])
    );
    assert_eq!(get_image_paths(&entries, true), strings(&["/c/0.png", "/c/1.JPG"]));
}

#[test]
fn cbz_path_from_dir_name() {
    let c = chapter(1, Some("/downloads/comic/第1话"), Some(true));
    assert_eq!(cbz_save_path(&c, "/export/comic/cbz"), Ok("/export/comic/cbz/第1话.cbz".to_string()));
    let c = chapter(1, None, Some(true));
    assert_eq!(
        cbz_save_path(&c, "/export"),
        Err(CbzError::Chapter(ChapterInfoError::MissingDownloadDir))
    );
    let c = chapter(1, Some("/"), Some(true));
    assert_eq!(
        cbz_save_path(&c, "/export"),
        Err(CbzError::Chapter(ChapterInfoError::NoDirName { dir: "/".to_string() }))
    );
}

#[test]
fn cbz_entries_start_with_metadata() {
    let images = strings(&["/c/1.jpg", "/c/2.png"]);
    assert_eq!(
        cbz_entry_names(&images),
        Ok(strings(&["ComicInfo.xml", "1.jpg", "2.png"]))
    );
    assert_eq!(cbz_entry_names(&vec![]), Ok(strings(&["ComicInfo.xml"])));
    let images = strings(&["/c/1.jpg", "/c/..", "/"]);
    assert_eq!(
        cbz_entry_names(&images),
        Err(CbzError::NoFileName { path: "/c/..".to_string() })
    );
}

#[test]
fn cover_goes_under_its_name() {
    assert_eq!(cover_export_path("/comic/cover.jpg", "/export/cbz"), Some("/export/cbz/cover.jpg".to_string()));
    assert_eq!(cover_export_path("/", "/export/cbz"), None);
}

#[test]
fn progress_counts_chapters() {
    let mut p = ExportProgress::start(3);
    assert_eq!((p.total, p.current), (3, 0));
    assert!(p.reports_error());
    assert_eq!(p.chapter_exported(), 1);
    assert_eq!(p.chapter_exported(), 2);
    assert_eq!(p.chapter_exported(), 3);
    p.finish();
    assert!(!p.reports_error());
    assert_eq!(p.current, 3);
}
