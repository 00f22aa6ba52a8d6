use jmcomic_downloader::chapter_info::{
    chapter_dir_from_formatted, dir_names_of, temp_dir_name, ChapterInfo, ChapterInfoError,
    DirFmtError, DirFmtParams,
};
use jmcomic_downloader::names::filename_filter;

fn chapter(dir: Option<&str>, downloaded: Option<bool>) -> ChapterInfo {
    ChapterInfo {
        chapter_id: 7,
        chapter_title: "第1话".to_string(),
        order: 1,
        is_downloaded: downloaded,
        chapter_download_dir: dir.map(|d| d.to_string()),
    }
}

fn params() -> DirFmtParams {
    DirFmtParams {
        comic_id: 350234,
        comic_title: "My Comic".to_string(),
        author: "Someone".to_string(),
        chapter_id: 350235,
        chapter_title: "Ch: 1?".to_string(),
        order: 3,
    }
}

#[test]
fn dir_name_is_final_component() {
    let c = chapter(Some("/downloads/My Comic/第1话"), None);
    assert_eq!(c.get_chapter_download_dir_name(), Ok("第1话".to_string()));
}

#[test]
fn dir_name_ignores_trailing_separator() {
    let c = chapter(Some("/downloads/comic/ch/"), None);
    assert_eq!(c.get_chapter_download_dir_name(), Ok("ch".to_string()));
}

#[test]
fn dir_name_missing_dir() {
    let c = chapter(None, None);
    assert_eq!(c.get_chapter_download_dir_name(), Err(ChapterInfoError::MissingDownloadDir));
}

#[test]
fn dir_name_of_root_fails() {
    let c = chapter(Some("/"), None);
    assert_eq!(
        c.get_chapter_download_dir_name(),
        Err(ChapterInfoError::NoDirName { dir: "/".to_string() })
    );
}

#[test]
fn dir_name_of_parent_reference_fails() {
    let c = chapter(Some("a/.."), None);
    assert_eq!(
        c.get_chapter_download_dir_name(),
        Err(ChapterInfoError::NoDirName { dir: "a/..".to_string() })
    );
}

#[test]
fn temp_dir_is_marked_sibling() {
    let c = chapter(Some("/downloads/comic/ch1"), None);
    assert_eq!(c.get_temp_download_dir(), Ok("/downloads/comic/.下载中-ch1".to_string()));
}

#[test]
fn temp_dir_of_relative_dir() {
    let c = chapter(Some("ch1"), None);
    assert_eq!(c.get_temp_download_dir(), Ok(".下载中-ch1".to_string()));
}

#[test]
fn temp_dir_errors() {
    assert_eq!(chapter(None, None).get_temp_download_dir(), Err(ChapterInfoError::MissingDownloadDir));
    assert_eq!(
        chapter(Some("/"), None).get_temp_download_dir(),
        Err(ChapterInfoError::NoDirName { dir: "/".to_string() })
    );
}

#[test]
fn temp_dir_name_has_marker() {
    assert_eq!(temp_dir_name("abc"), ".下载中-abc");
    assert_eq!(temp_dir_name(""), ".下载中-");
}

#[test]
fn metadata_file_inside_download_dir() {
    let c = chapter(Some("/downloads/comic/ch1"), Some(true));
    let f = c.save_chapter_metadata().unwrap();
    assert_eq!(f.path, "/downloads/comic/ch1/章节元数据.json");
    assert_eq!(f.record.chapter_id, 7);
    assert_eq!(f.record.chapter_title, "第1话");
    assert_eq!(f.record.order, 1);
    assert_eq!(f.record.is_downloaded, None);
    assert_eq!(f.record.chapter_download_dir, None);
}

#[test]
fn metadata_needs_download_dir() {
    let c = chapter(None, Some(true));
    assert!(matches!(c.save_chapter_metadata(), Err(ChapterInfoError::MissingDownloadDir)));
}

#[test]
fn duplicate_copies_every_field() {
    let c = chapter(Some("/x"), Some(false));
    let d = c.duplicate();
    assert_eq!(d.chapter_id, c.chapter_id);
    assert_eq!(d.chapter_title, c.chapter_title);
    assert_eq!(d.order, c.order);
    assert_eq!(d.is_downloaded, c.is_downloaded);
    assert_eq!(d.chapter_download_dir, c.chapter_download_dir);
}

#[test]
fn format_vars_render_fields() {
    let vars = params().format_vars();
    assert_eq!(
        vars,
        vec![
            ("comic_id".to_string(), "350234".to_string()),
            ("comic_title".to_string(), "My Comic".to_string()),
            ("author".to_string(), "Someone".to_string()),
            ("chapter_id".to_string(), "350235".to_string()),
            ("chapter_title".to_string(), "Ch: 1?".to_string()),
            ("order".to_string(), "3".to_string()),
        ]
    );
}

#[test]
fn dir_by_fmt_two_levels() {
    let r = ChapterInfo::get_chapter_download_dir_by_fmt(
        "/downloads",
        "{comic_title}/{chapter_title}",
        &params(),
    );
    assert_eq!(r, Ok("/downloads/My Comic/Ch： 1？".to_string()));
}

#[test]
fn dir_by_fmt_uses_numbers_and_literal_text() {
    let r = ChapterInfo::get_chapter_download_dir_by_fmt(
        "/d",
        "{comic_id}-{author}/{order}_{chapter_id}",
        &params(),
    );
    assert_eq!(r, Ok("/d/350234-Someone/3_350235".to_string()));
}

#[test]
fn dir_by_fmt_drops_empty_levels() {
    let r = ChapterInfo::get_chapter_download_dir_by_fmt(
        "/d",
        "{comic_title}/ /../{chapter_title}/",
        &params(),
    );
    assert_eq!(r, Ok("/d/My Comic/Ch： 1？".to_string()));
}

#[test]
fn dir_by_fmt_needs_two_levels() {
    let r = ChapterInfo::get_chapter_download_dir_by_fmt("/d", "{chapter_title}", &params());
    assert_eq!(r, Err(DirFmtError::TooFewLevels));
    let r = ChapterInfo::get_chapter_download_dir_by_fmt("/d", "{chapter_title}/  ", &params());
    assert_eq!(r, Err(DirFmtError::TooFewLevels));
}

#[test]
fn dir_by_fmt_unknown_variable() {
    let r = ChapterInfo::get_chapter_download_dir_by_fmt("/d", "{comic_title}/{volume}", &params());
    assert_eq!(r, Err(DirFmtError::Format));
}

#[test]
fn dir_by_fmt_format_error_comes_first() {
    // The template has a single level, but the bad brace is reported.
    let r = ChapterInfo::get_chapter_download_dir_by_fmt("/d", "{comic_title", &params());
    assert_eq!(r, Err(DirFmtError::Format));
}

#[test]
fn title_with_slash_stays_one_level() {
    let mut p = params();
    p.comic_title = "A/B".to_string();
    let r = ChapterInfo::get_chapter_download_dir_by_fmt("/d", "{comic_title}/{order}", &p);
    assert_eq!(r, Ok("/d/A B/3".to_string()));
}

#[test]
fn dir_names_filter_and_drop_empty() {
    let formatted = vec!["a<b>".to_string(), "...".to_string(), " c. ".to_string()];
    assert_eq!(dir_names_of(&formatted), vec!["a《b》".to_string(), "c".to_string()]);
}

#[test]
fn dir_from_formatted_joins_under_download_dir() {
    let formatted = vec!["x".to_string(), "".to_string(), "y".to_string()];
    assert_eq!(chapter_dir_from_formatted("/root", &formatted), Ok("/root/x/y".to_string()));
    let formatted = vec!["x".to_string()];
    assert_eq!(chapter_dir_from_formatted("/root", &formatted), Err(DirFmtError::TooFewLevels));
}

#[test]
fn filename_filter_replaces_reserved() {
    assert_eq!(
        filename_filter("a/b:c*d?e\"f<g>h|i\\j"),
        "a b：c⭐d？e'f《g》h丨i j"
    );
}

#[test]
fn filename_filter_trims() {
    assert_eq!(filename_filter("  name.. "), "name");
    assert_eq!(filename_filter("\u{3000}标题\t"), "标题");
    assert_eq!(filename_filter("a. ."), "a.");
    assert_eq!(filename_filter(""), "");
    assert_eq!(filename_filter(" . "), "");
}

#[test]
fn filtered_name_is_clean() {
    for s in ["<|>", "  ?  ", "x/y\\z", "a:b. .", "\"q\""] {
        let n = filename_filter(s);
        assert!(!n.chars().any(|c| "\\/:*?\"<>|".contains(c)));
        assert!(!n.starts_with(char::is_whitespace));
        assert!(!n.ends_with(char::is_whitespace));
    }
}

#[test]
fn default_params_render_zeros() {
    let r = ChapterInfo::get_chapter_download_dir_by_fmt(
        "/d",
        "{comic_id}/{order}/{comic_title}",
        &DirFmtParams::default(),
    );
    assert_eq!(r, Ok("/d/0/0".to_string()));
}
