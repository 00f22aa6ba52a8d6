use jmcomic_downloader::chapter_info::ChapterInfo;
use jmcomic_downloader::download_task::{
    cover_url, find_chapter_info, plan_image_download, plan_image_downloads, should_keep_temp_file,
    ChapterDownload, ChapterStep, DownloadTaskState, ImageCounts, PermitAction, SleepCountdown,
    StateChangeAction, StepOutcome, TaskControl,
};

fn chapter(id: i64, title: &str) -> ChapterInfo {
    ChapterInfo {
        chapter_id: id,
        chapter_title: title.to_string(),
        order: 0,
        is_downloaded: None,
        chapter_download_dir: None,
    }
}

#[test]
fn finds_first_chapter_with_id() {
    let infos = vec![chapter(1, "a"), chapter(2, "b"), chapter(2, "c")];
    assert_eq!(find_chapter_info(&infos, 2).unwrap().chapter_title, "b");
    assert!(find_chapter_info(&infos, 3).is_none());
    assert!(find_chapter_info(&vec![], 1).is_none());
}

#[test]
fn plans_webp_with_stem() {
    let p = plan_image_download("00001.webp", 350235, "cdn.example.org").unwrap();
    assert_eq!(p.url, "https://cdn.example.org/media/photos/350235/00001.webp");
    assert_eq!(p.scramble_stem, Some("00001".to_string()));
    let p = plan_image_download("00002.WEBP", -5, "h").unwrap();
    assert_eq!(p.url, "https://h/media/photos/-5/00002.WEBP");
    assert_eq!(p.scramble_stem, Some("00002".to_string()));
}

#[test]
fn plans_gif_unscrambled() {
    let p = plan_image_download("anim.GIF", 9, "h").unwrap();
    assert_eq!(p.url, "https://h/media/photos/9/anim.GIF");
    assert_eq!(p.scramble_stem, None);
}

#[test]
fn skips_other_files() {
    assert!(plan_image_download("a.jpg", 9, "h").is_none());
    assert!(plan_image_download("noext", 9, "h").is_none());
    assert!(plan_image_download(".webp", 9, "h").is_none());
}

#[test]
fn plans_keep_order() {
    let names: Vec<String> = ["2.webp", "x.txt", "1.gif"].iter().map(|s| s.to_string()).collect();
    let plans = plan_image_downloads(&names, 1, "h");
    let urls: Vec<&str> = plans.iter().map(|p| p.url.as_str()).collect();
    assert_eq!(urls, vec!["https://h/media/photos/1/2.webp", "https://h/media/photos/1/1.gif"]);
}

#[test]
fn temp_files_kept() {
    assert!(should_keep_temp_file("/t/001.gif", "jpg"));
    assert!(should_keep_temp_file("/t/001.jpg", "jpg"));
    assert!(!should_keep_temp_file("/t/001.JPG", "jpg"));
    assert!(!should_keep_temp_file("/t/001.png", "jpg"));
    assert!(!should_keep_temp_file("/t/part", "jpg"));
}

#[test]
fn task_queues_then_downloads() {
    let mut t = TaskControl::new();
    assert!(t.waits_for_permit());
    assert!(!t.may_download());
    assert!(t.needs_permit());
    assert_eq!(t.permit_answered(true, DownloadTaskState::Pending), PermitAction::StartDownloading);
    assert!(t.holds_permit);
    assert_eq!(t.state_changed(DownloadTaskState::Downloading), StateChangeAction::Report);
    assert!(t.may_download());
    t.download_finished();
    assert!(!t.holds_permit);
    assert!(!t.may_download());
}

#[test]
fn task_paused_releases_permit() {
    let mut t = TaskControl::new();
    t.permit_answered(true, DownloadTaskState::Pending);
    t.state_changed(DownloadTaskState::Downloading);
    assert_eq!(t.state_changed(DownloadTaskState::Paused), StateChangeAction::ReportThenRelease);
    assert!(!t.holds_permit);
    assert!(!t.may_download());
    assert!(!t.waits_for_permit());
    assert!(!t.deleted());
}

#[test]
fn task_failed_permit() {
    let mut t = TaskControl::new();
    assert_eq!(t.permit_answered(false, DownloadTaskState::Pending), PermitAction::FailAndReport);
    assert_eq!(t.state, DownloadTaskState::Failed);
    assert!(!t.holds_permit);
}

#[test]
fn task_permit_after_state_moved_on() {
    let mut t = TaskControl::new();
    assert_eq!(t.permit_answered(true, DownloadTaskState::Paused), PermitAction::Keep);
    assert!(t.holds_permit);
    assert!(t.deleted());
    t.start_failed();
    assert_eq!(t.state, DownloadTaskState::Failed);
}

fn run(cover: bool, outcomes: &[StepOutcome]) -> ChapterDownload {
    let mut d = ChapterDownload::start(cover);
    for o in outcomes {
        d.advance(*o);
    }
    d
}

#[test]
fn clean_chapter_download_completes() {
    let images = StepOutcome::ImagesDone { downloaded: 4, total: 4 };
    let d = run(true, &[StepOutcome::Succeeded, StepOutcome::Succeeded, StepOutcome::Succeeded, StepOutcome::Succeeded, StepOutcome::Succeeded, images, StepOutcome::Succeeded, StepOutcome::Succeeded, StepOutcome::Succeeded]);
    assert_eq!(d.step, ChapterStep::Completed);
    assert_eq!(d.final_state(), Some(DownloadTaskState::Completed));
    let d = run(false, &[StepOutcome::Succeeded, StepOutcome::Succeeded, StepOutcome::Succeeded, StepOutcome::Succeeded, images, StepOutcome::Succeeded, StepOutcome::Succeeded, StepOutcome::Succeeded]);
    assert_eq!(d.final_state(), Some(DownloadTaskState::Completed));
}

#[test]
fn required_step_failure_fails() {
    let d = run(true, &[StepOutcome::Succeeded, StepOutcome::Failed]);
    assert_eq!(d.step, ChapterStep::Failed);
    assert_eq!(d.final_state(), Some(DownloadTaskState::Failed));
    let mut d = d;
    assert_eq!(d.advance(StepOutcome::Succeeded), ChapterStep::Failed);
}

#[test]
fn optional_step_failure_continues() {
    let images = StepOutcome::ImagesDone { downloaded: 1, total: 1 };
    let d = run(false, &[StepOutcome::Succeeded, StepOutcome::Succeeded, StepOutcome::Succeeded, StepOutcome::Failed, images, StepOutcome::Succeeded, StepOutcome::Failed, StepOutcome::Succeeded]);
    assert_eq!(d.step, ChapterStep::Completed);
}

#[test]
fn incomplete_images_fail() {
    let d = run(false, &[StepOutcome::Succeeded, StepOutcome::Succeeded, StepOutcome::Succeeded, StepOutcome::Succeeded, StepOutcome::ImagesDone { downloaded: 3, total: 4 }]);
    assert_eq!(d.step, ChapterStep::Failed);
    let d = run(false, &[StepOutcome::Succeeded, StepOutcome::Succeeded, StepOutcome::Succeeded, StepOutcome::Succeeded]);
    assert_eq!(d.step, ChapterStep::DownloadImages);
    assert_eq!(d.final_state(), None);
}

#[test]
fn image_counts() {
    let mut c = ImageCounts::new();
    c.add_planned(2);
    c.image_downloaded();
    assert_eq!(c.outcome(), StepOutcome::ImagesDone { downloaded: 1, total: 2 });
    c.image_downloaded();
    assert_eq!(c.outcome(), StepOutcome::ImagesDone { downloaded: 2, total: 2 });
}

#[test]
fn countdown_announces_each_second() {
    let mut c = SleepCountdown::new(3);
    assert_eq!(c.next_announcement(), Some(3));
    assert_eq!(c.next_announcement(), Some(2));
    assert_eq!(c.next_announcement(), Some(1));
    assert_eq!(c.next_announcement(), None);
    assert_eq!(SleepCountdown::new(0).next_announcement(), None);
}

#[test]
fn settled_tasks_are_idle() {
    for state in [DownloadTaskState::Paused, DownloadTaskState::Completed, DownloadTaskState::Failed] {
        let mut t = TaskControl::new();
        t.permit_answered(true, DownloadTaskState::Pending);
        t.state_changed(state);
        assert!(!t.may_download());
        assert!(!t.waits_for_permit());
    }
}

#[test]
fn cover_address() {
    assert_eq!(cover_url(350234), "https://cdn-msp3.18comic.vip/media/albums/350234.jpg");
}
