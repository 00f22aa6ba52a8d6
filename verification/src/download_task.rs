//! The decisions of a chapter download task: which chapter it is for, which
//! images it fetches, which leftovers it keeps, how it reacts to state
//! changes and permits, and how a chapter download runs to its end.
use vstd::prelude::*;
use crate::chapter_info::ChapterInfo;
use crate::paths::{
    lowercase, path_extension, path_file_stem, std_extension, std_file_stem, std_lowercase,
};
use crate::text::{decimal, decimal_text, join_text, same_text, texts};

verus! {

/// Where a chapter download stands.
#[derive(Clone, Copy, Debug, PartialEq, Eq, Structural)]
pub enum DownloadTaskState {
    Pending,
    Downloading,
    Paused,
    Completed,
    Failed,
}

// ---------------------------------------------------------------------
// The chapter a task is for
// ---------------------------------------------------------------------

/// The first of `chapter_infos` with the id `chapter_id`.
pub fn find_chapter_info(chapter_infos: &Vec<ChapterInfo>, chapter_id: i64) -> (found: Option<
    ChapterInfo,
>)
    ensures
        match found {
            None => forall|i: int|
                0 <= i < chapter_infos@.len() ==> #[trigger] chapter_infos@[i].chapter_id
                    != chapter_id,
            Some(c) => exists|i: int|
                0 <= i < chapter_infos@.len() && #[trigger] chapter_infos@[i] == c && c.chapter_id
                    == chapter_id && forall|j: int|
                    0 <= j < i ==> #[trigger] chapter_infos@[j].chapter_id != chapter_id,
        },
{
    let mut i: usize = 0;
    while i < chapter_infos.len()
        invariant
            i <= chapter_infos@.len(),
            forall|j: int| 0 <= j < i ==> #[trigger] chapter_infos@[j].chapter_id != chapter_id,
        decreases chapter_infos@.len() - i,
    {
        if chapter_infos[i].chapter_id == chapter_id {
            let c = chapter_infos[i].duplicate();
            assert(chapter_infos@[i as int] == c);
            return Some(c);
        }
        i = i + 1;
    }
    None
}

// ---------------------------------------------------------------------
// Which images a chapter download fetches
// ---------------------------------------------------------------------

/// One image to fetch: its address, and for a scrambled (webp) image the
/// file stem its block count is derived from (none for a gif, which is not
/// scrambled).
pub struct ImageDownload {
    pub url: String,
    pub scramble_stem: Option<String>,
}

impl ImageDownload {
    pub open spec fn spec_view(self) -> (Seq<char>, Option<Seq<char>>) {
        (self.url@, self.scramble_stem.deep_view())
    }
}

/// The address of the image `filename` of chapter `chapter_id` on the host
/// `image_domain`.
pub open spec fn image_url(image_domain: Seq<char>, chapter_id: i64, filename: Seq<char>) -> Seq<
    char,
> {
    "https://"@ + image_domain + "/media/photos/"@ + decimal(chapter_id as int) + "/"@ + filename
}

/// What is fetched for the image file `filename`: gif images as they are,
/// webp images with their stem, anything else (by extension, ignoring
/// case) not at all.
pub open spec fn image_plan(filename: Seq<char>, chapter_id: i64, image_domain: Seq<char>) -> Option<
    (Seq<char>, Option<Seq<char>>),
> {
    match std_extension(filename) {
        None => None,
        Some(ext) => {
            let kind = std_lowercase(ext);
            let url = image_url(image_domain, chapter_id, filename);
            if kind == "gif"@ {
                Some((url, None))
            } else if kind != "webp"@ {
                None
            } else {
                match std_file_stem(filename) {
                    None => None,
                    Some(stem) => Some((url, Some(stem))),
                }
            }
        },
    }
}

/// The images fetched for the files `filenames`, in their order.
pub open spec fn image_plans(filenames: Seq<Seq<char>>, chapter_id: i64, image_domain: Seq<char>) -> Seq<
    (Seq<char>, Option<Seq<char>>),
>
    decreases filenames.len(),
{
    if filenames.len() == 0 {
        Seq::empty()
    } else {
        let rest = image_plans(filenames.drop_last(), chapter_id, image_domain);
        match image_plan(filenames.last(), chapter_id, image_domain) {
            None => rest,
            Some(p) => rest.push(p),
        }
    }
}

/// The address of the cover image of comic `comic_id`.
pub open spec fn spec_cover_url(comic_id: i64) -> Seq<char> {
    "https://cdn-msp3.18comic.vip/media/albums/"@ + decimal(comic_id as int) + ".jpg"@
}

/// The address the cover image of comic `comic_id` is downloaded from.
pub fn cover_url(comic_id: i64) -> (url: String)
    ensures
        url@ == spec_cover_url(comic_id),
{
    let id = decimal_text(comic_id);
    let a = join_text("https://cdn-msp3.18comic.vip/media/albums/", id.as_str());
    join_text(a.as_str(), ".jpg")
}

/// Only gif and webp files are fetched (by extension, ignoring case); a gif
/// is fetched without a stem and a webp with its own file stem; the address
/// ends with `/` and the file name; every gif is fetched.
pub proof fn lemma_image_plan_kinds(filename: Seq<char>, chapter_id: i64, image_domain: Seq<char>)
    ensures
        image_plan(filename, chapter_id, image_domain) matches Some((url, stem)) ==> (
        std_extension(filename) matches Some(ext) && ((std_lowercase(ext) == "gif"@ && stem is None)
            || (std_lowercase(ext) == "webp"@ && stem == std_file_stem(filename)))) && url.len()
            > filename.len() && url.subrange(url.len() - filename.len() - 1, url.len() as int)
            == seq!['/'] + filename,
        (std_extension(filename) matches Some(ext) && std_lowercase(ext) == "gif"@) ==> image_plan(
            filename,
            chapter_id,
            image_domain,
        ) is Some,
{
    if let Some((url, stem)) = image_plan(filename, chapter_id, image_domain) {
        reveal_strlit("/");
        let head = "https://"@ + image_domain + "/media/photos/"@ + decimal(chapter_id as int);
        assert(url == head + "/"@ + filename);
        assert(url.subrange(url.len() - filename.len() - 1, url.len() as int) =~= seq!['/']
            + filename);
    }
}

/// What is fetched for the image file `filename` of chapter `chapter_id`.
pub fn plan_image_download(filename: &str, chapter_id: i64, image_domain: &str) -> (plan: Option<
    ImageDownload,
>)
    ensures
        match image_plan(filename@, chapter_id, image_domain@) {
            None => plan is None,
            Some(p) => plan matches Some(d) && d.spec_view() == p,
        },
{
    let ext = match path_extension(filename) {
        None => {
            return None;
        },
        Some(e) => e,
    };
    let kind = lowercase(ext.as_str());
    let a = join_text("https://", image_domain);
    let b = join_text(a.as_str(), "/media/photos/");
    let id = decimal_text(chapter_id);
    let c = join_text(b.as_str(), id.as_str());
    let d = join_text(c.as_str(), "/");
    let url = join_text(d.as_str(), filename);
    if same_text(kind.as_str(), "gif") {
        return Some(ImageDownload { url, scramble_stem: None });
    } else if !same_text(kind.as_str(), "webp") {
        return None;
    }
    match path_file_stem(filename) {
        None => None,
        Some(stem) => Some(ImageDownload { url, scramble_stem: Some(stem) }),
    }
}

/// What is fetched for the image files `filenames` of chapter `chapter_id`,
/// in their order; files that are not fetched are left out.
pub fn plan_image_downloads(filenames: &Vec<String>, chapter_id: i64, image_domain: &str) -> (plans:
    Vec<ImageDownload>)
    ensures
        plans@.map_values(|d: ImageDownload| d.spec_view()) == image_plans(
            texts(filenames@),
            chapter_id,
            image_domain@,
        ),
{
    let mut plans: Vec<ImageDownload> = Vec::new();
    let mut i: usize = 0;
    while i < filenames.len()
        invariant
            i <= filenames@.len(),
            plans@.map_values(|d: ImageDownload| d.spec_view()) == image_plans(
                texts(filenames@).take(i as int),
                chapter_id,
                image_domain@,
            ),
        decreases filenames@.len() - i,
    {
        let ghost prefix = texts(filenames@).take(i + 1);
        assert(prefix.drop_last() =~= texts(filenames@).take(i as int));
        assert(prefix.last() == filenames@[i as int]@);
        let ghost prev = plans@.map_values(|d: ImageDownload| d.spec_view());
        match plan_image_download(filenames[i].as_str(), chapter_id, image_domain) {
            None => {},
            Some(p) => {
                plans.push(p);
                assert(plans@.map_values(|d: ImageDownload| d.spec_view()) =~= prev.push(
                    plans@[plans@.len() - 1].spec_view(),
                ));
            },
        }
        i = i + 1;
    }
    assert(texts(filenames@).take(filenames@.len() as int) =~= texts(filenames@));
    plans
}

/// Whether a file left in a temporary download directory is kept: gif
/// images and images in the configured download format (by exact
/// extension) are, everything else is removed.
pub open spec fn keeps_temp_file(path: Seq<char>, format_extension: Seq<char>) -> bool {
    match std_extension(path) {
        None => false,
        Some(ext) => ext == "gif"@ || ext == format_extension,
    }
}

/// Whether the file at `path` in a temporary download directory is kept
/// when the directory is cleaned before a download.
pub fn should_keep_temp_file(path: &str, format_extension: &str) -> (keep: bool)
    ensures
        keep == keeps_temp_file(path@, format_extension@),
{
    match path_extension(path) {
        None => false,
        Some(ext) => same_text(ext.as_str(), "gif") || same_text(ext.as_str(), format_extension),
    }
}

// ---------------------------------------------------------------------
// Reacting to state changes, permits and deletion
// ---------------------------------------------------------------------

/// What a task does when its state changes.
#[derive(Clone, Copy, Debug, PartialEq, Eq, Structural)]
pub enum StateChangeAction {
    /// Report the task's state.
    Report,
    /// Report the task's state, wait a moment, then give back the permit.
    ReportThenRelease,
}

/// What a task does once its request for a download permit is answered.
#[derive(Clone, Copy, Debug, PartialEq, Eq, Structural)]
pub enum PermitAction {
    /// Nothing more: the task is no longer waiting to start.
    Keep,
    /// Move the task to `Downloading`.
    StartDownloading,
    /// No permit could be had: the task is failed and reported.
    FailAndReport,
}

/// The part of a task that its decisions depend on: its current state and
/// whether it holds one of the permits that limit concurrent downloads.
#[derive(Clone, Copy, Debug, PartialEq, Eq, Structural)]
pub struct TaskControl {
    pub state: DownloadTaskState,
    pub holds_permit: bool,
}

impl TaskControl {
    /// A new task: pending, without a permit.
    pub fn new() -> (t: TaskControl)
        ensures
            t.state == DownloadTaskState::Pending,
            !t.holds_permit,
    {
        TaskControl { state: DownloadTaskState::Pending, holds_permit: false }
    }

    pub open spec fn spec_may_download(self) -> bool {
        self.state == DownloadTaskState::Downloading && self.holds_permit
    }

    pub open spec fn spec_waits_for_permit(self) -> bool {
        self.state == DownloadTaskState::Pending
    }

    /// Whether the chapter download may run: the task is downloading and
    /// holds a permit.
    pub fn may_download(&self) -> (r: bool)
        ensures
            r == self.spec_may_download(),
    {
        self.state == DownloadTaskState::Downloading && self.holds_permit
    }

    /// Whether the task queues for a permit: it is pending.
    pub fn waits_for_permit(&self) -> (r: bool)
        ensures
            r == self.spec_waits_for_permit(),
    {
        self.state == DownloadTaskState::Pending
    }

    /// Whether a permit must be requested (the task holds none).
    pub fn needs_permit(&self) -> (r: bool)
        ensures
            r == !self.holds_permit,
    {
        !self.holds_permit
    }

    /// The chapter download finished: its permit is given back.
    pub fn download_finished(&mut self)
        ensures
            final(self).state == old(self).state,
            !final(self).holds_permit,
    {
        self.holds_permit = false;
    }

    /// The request for a permit was answered (`acquired` tells whether a
    /// permit was granted); `current` is the task's state at that moment.
    pub fn permit_answered(&mut self, acquired: bool, current: DownloadTaskState) -> (action:
        PermitAction)
        ensures
            !acquired ==> action == PermitAction::FailAndReport && final(self).state
                == DownloadTaskState::Failed && final(self).holds_permit == old(self).holds_permit,
            acquired ==> final(self).holds_permit && final(self).state == current && (action
                == if current == DownloadTaskState::Pending {
                PermitAction::StartDownloading
            } else {
                PermitAction::Keep
            }),
    {
        if !acquired {
            self.state = DownloadTaskState::Failed;
            return PermitAction::FailAndReport;
        }
        self.holds_permit = true;
        self.state = current;
        if current == DownloadTaskState::Pending {
            PermitAction::StartDownloading
        } else {
            PermitAction::Keep
        }
    }

    /// Moving to `Downloading` could not be announced: the task is failed.
    pub fn start_failed(&mut self)
        ensures
            final(self).state == DownloadTaskState::Failed,
            final(self).holds_permit == old(self).holds_permit,
    {
        self.state = DownloadTaskState::Failed;
    }

    /// The task's state changed to `state`. A paused or failed task gives its
    /// permit back.
    pub fn state_changed(&mut self, state: DownloadTaskState) -> (action: StateChangeAction)
        ensures
            final(self).state == state,
            (state == DownloadTaskState::Paused || state == DownloadTaskState::Failed) ==> action
                == StateChangeAction::ReportThenRelease && !final(self).holds_permit,
            !(state == DownloadTaskState::Paused || state == DownloadTaskState::Failed) ==> action
                == StateChangeAction::Report && final(self).holds_permit == old(self).holds_permit,
    {
        self.state = state;
        if state == DownloadTaskState::Paused || state == DownloadTaskState::Failed {
            self.holds_permit = false;
            StateChangeAction::ReportThenRelease
        } else {
            StateChangeAction::Report
        }
    }

    /// The task is deleted; the result tells whether to wait a moment
    /// before it stops (it does when it holds a permit).
    pub fn deleted(&self) -> (wait: bool)
        ensures
            wait == self.holds_permit,
    {
        self.holds_permit
    }
}

/// The chapter download runs only while the task is `Downloading` and
/// holds a permit, and a task queues for a permit only while it is
/// `Pending`; so it never does both.
pub proof fn lemma_download_runs_only_when_downloading(t: TaskControl)
    ensures
        t.spec_may_download() <==> (t.state == DownloadTaskState::Downloading && t.holds_permit),
        t.spec_waits_for_permit() <==> t.state == DownloadTaskState::Pending,
        !(t.spec_may_download() && t.spec_waits_for_permit()),
{
}

/// A leftover file is kept exactly when its extension is `gif` or exactly
/// the download format's extension; a file without an extension is removed.
pub proof fn lemma_kept_temp_files(path: Seq<char>, format_extension: Seq<char>)
    ensures
        keeps_temp_file(path, format_extension) <==> (std_extension(path) == Some("gif"@)
            || std_extension(path) == Some(format_extension)),
{
}

/// A task that is paused, completed or failed does no work of its own: it
/// neither runs its download nor queues for a permit until its state is
/// changed.
pub proof fn lemma_settled_task_is_idle(t: TaskControl)
    requires
        t.state == DownloadTaskState::Paused || t.state == DownloadTaskState::Completed || t.state
            == DownloadTaskState::Failed,
    ensures
        !t.spec_may_download(),
        !t.spec_waits_for_permit(),
{
}

// ---------------------------------------------------------------------
// Running a chapter download
// ---------------------------------------------------------------------

/// The steps of a chapter download, in the order they run.
#[derive(Clone, Copy, Debug, PartialEq, Eq, Structural)]
pub enum ChapterStep {
    SaveComicMetadata,
    DownloadCover,
    FetchImageUrls,
    CreateTempDir,
    CleanTempDir,
    DownloadImages,
    RenameTempDir,
    SaveChapterMetadata,
    SleepBetweenChapters,
    /// The chapter is downloaded.
    Completed,
    /// The chapter download failed.
    Failed,
}

/// How a step came out. For `DownloadImages`, the image counts.
#[derive(Clone, Copy, Debug, PartialEq, Eq, Structural)]
pub enum StepOutcome {
    Succeeded,
    Failed,
    ImagesDone { downloaded: u32, total: u32 },
}

/// Whether a failure of `step` fails the chapter (the others are only
/// logged).
pub open spec fn is_required(step: ChapterStep) -> bool {
    match step {
        ChapterStep::CleanTempDir | ChapterStep::SaveChapterMetadata
        | ChapterStep::SleepBetweenChapters => false,
        _ => true,
    }
}

/// The step that follows `step` when it went well.
pub open spec fn step_after(step: ChapterStep, download_cover: bool) -> ChapterStep {
    match step {
        ChapterStep::SaveComicMetadata => if download_cover {
            ChapterStep::DownloadCover
        } else {
            ChapterStep::FetchImageUrls
        },
        ChapterStep::DownloadCover => ChapterStep::FetchImageUrls,
        ChapterStep::FetchImageUrls => ChapterStep::CreateTempDir,
        ChapterStep::CreateTempDir => ChapterStep::CleanTempDir,
        ChapterStep::CleanTempDir => ChapterStep::DownloadImages,
        ChapterStep::DownloadImages => ChapterStep::RenameTempDir,
        ChapterStep::RenameTempDir => ChapterStep::SaveChapterMetadata,
        ChapterStep::SaveChapterMetadata => ChapterStep::SleepBetweenChapters,
        ChapterStep::SleepBetweenChapters => ChapterStep::Completed,
        ChapterStep::Completed => ChapterStep::Completed,
        ChapterStep::Failed => ChapterStep::Failed,
    }
}

/// Whether `outcome` counts as success for `step`: for the image download,
/// every image of the chapter was downloaded.
pub open spec fn went_well(step: ChapterStep, outcome: StepOutcome) -> bool {
    match outcome {
        StepOutcome::Succeeded => step != ChapterStep::DownloadImages,
        StepOutcome::Failed => false,
        StepOutcome::ImagesDone { downloaded, total } => step == ChapterStep::DownloadImages
            && downloaded == total,
    }
}

/// The step that follows `step` after `outcome`.
pub open spec fn next_step(step: ChapterStep, download_cover: bool, outcome: StepOutcome) -> ChapterStep {
    if step == ChapterStep::Completed || step == ChapterStep::Failed {
        step
    } else if went_well(step, outcome) || !is_required(step) {
        step_after(step, download_cover)
    } else {
        ChapterStep::Failed
    }
}

/// A chapter download in progress.
pub struct ChapterDownload {
    pub step: ChapterStep,
    /// Whether the comic's cover is downloaded too.
    pub download_cover: bool,
}

impl ChapterDownload {
    /// A chapter download begins by saving the comic's metadata.
    pub fn start(download_cover: bool) -> (d: ChapterDownload)
        ensures
            d.step == ChapterStep::SaveComicMetadata,
            d.download_cover == download_cover,
    {
        ChapterDownload { step: ChapterStep::SaveComicMetadata, download_cover }
    }

    /// The current step came out as `outcome`; the download moves on.
    pub fn advance(&mut self, outcome: StepOutcome) -> (next: ChapterStep)
        ensures
            final(self).download_cover == old(self).download_cover,
            final(self).step == next_step(old(self).step, old(self).download_cover, outcome),
            next == final(self).step,
    {
        let step = self.step;
        let finished = match step {
            ChapterStep::Completed | ChapterStep::Failed => true,
            _ => false,
        };
        if finished {
            return step;
        }
        let ok = match outcome {
            StepOutcome::Succeeded => match step {
                ChapterStep::DownloadImages => false,
                _ => true,
            },
            StepOutcome::Failed => false,
            StepOutcome::ImagesDone { downloaded, total } => match step {
                ChapterStep::DownloadImages => downloaded == total,
                _ => false,
            },
        };
        let required = match step {
            ChapterStep::CleanTempDir | ChapterStep::SaveChapterMetadata
            | ChapterStep::SleepBetweenChapters => false,
            _ => true,
        };
        let next = if ok || !required {
            match step {
                ChapterStep::SaveComicMetadata => if self.download_cover {
                    ChapterStep::DownloadCover
                } else {
                    ChapterStep::FetchImageUrls
                },
                ChapterStep::DownloadCover => ChapterStep::FetchImageUrls,
                ChapterStep::FetchImageUrls => ChapterStep::CreateTempDir,
                ChapterStep::CreateTempDir => ChapterStep::CleanTempDir,
                ChapterStep::CleanTempDir => ChapterStep::DownloadImages,
                ChapterStep::DownloadImages => ChapterStep::RenameTempDir,
                ChapterStep::RenameTempDir => ChapterStep::SaveChapterMetadata,
                ChapterStep::SaveChapterMetadata => ChapterStep::SleepBetweenChapters,
                ChapterStep::SleepBetweenChapters => ChapterStep::Completed,
                ChapterStep::Completed => ChapterStep::Completed,
                ChapterStep::Failed => ChapterStep::Failed,
            }
        } else {
            ChapterStep::Failed
        };
        self.step = next;
        next
    }

    /// The state the task takes when the download has ended (none while it
    /// is still running).
    pub fn final_state(&self) -> (state: Option<DownloadTaskState>)
        ensures
            self.step == ChapterStep::Completed ==> state == Some(DownloadTaskState::Completed),
            self.step == ChapterStep::Failed ==> state == Some(DownloadTaskState::Failed),
            self.step != ChapterStep::Completed && self.step != ChapterStep::Failed ==> state
                is None,
    {
        match self.step {
            ChapterStep::Completed => Some(DownloadTaskState::Completed),
            ChapterStep::Failed => Some(DownloadTaskState::Failed),
            _ => None,
        }
    }
}

/// The steps of a chapter download from `step` on, given the outcome of
/// each step in turn.
pub open spec fn run_steps(step: ChapterStep, download_cover: bool, outcomes: Seq<StepOutcome>) -> ChapterStep
    decreases outcomes.len(),
{
    if outcomes.len() == 0 {
        step
    } else {
        run_steps(next_step(step, download_cover, outcomes[0]), download_cover, outcomes.drop_first())
    }
}

/// A failure of any step that the chapter needs (saving the comic's
/// metadata, downloading the cover, fetching the image list, creating the
/// temporary directory, downloading the images, renaming the directory)
/// fails the download; so does an image download that got fewer or more
/// images than planned.
pub proof fn lemma_required_step_failure_fails(download_cover: bool, downloaded: u32, total: u32)
    ensures
        next_step(ChapterStep::SaveComicMetadata, download_cover, StepOutcome::Failed)
            == ChapterStep::Failed,
        next_step(ChapterStep::DownloadCover, download_cover, StepOutcome::Failed)
            == ChapterStep::Failed,
        next_step(ChapterStep::FetchImageUrls, download_cover, StepOutcome::Failed)
            == ChapterStep::Failed,
        next_step(ChapterStep::CreateTempDir, download_cover, StepOutcome::Failed)
            == ChapterStep::Failed,
        next_step(ChapterStep::DownloadImages, download_cover, StepOutcome::Failed)
            == ChapterStep::Failed,
        next_step(ChapterStep::RenameTempDir, download_cover, StepOutcome::Failed)
            == ChapterStep::Failed,
        downloaded != total ==> next_step(
            ChapterStep::DownloadImages,
            download_cover,
            StepOutcome::ImagesDone { downloaded, total },
        ) == ChapterStep::Failed,
{
}

/// Failures of the steps the chapter does not need (cleaning the temporary
/// directory, saving the chapter's metadata, waiting) are passed over.
pub proof fn lemma_optional_step_failure_continues(download_cover: bool)
    ensures
        next_step(ChapterStep::CleanTempDir, download_cover, StepOutcome::Failed)
            == ChapterStep::DownloadImages,
        next_step(ChapterStep::SaveChapterMetadata, download_cover, StepOutcome::Failed)
            == ChapterStep::SleepBetweenChapters,
        next_step(ChapterStep::SleepBetweenChapters, download_cover, StepOutcome::Failed)
            == ChapterStep::Completed,
{
}

/// Steps that go well follow one another in this order: comic metadata,
/// cover (when wanted), image list, temporary directory, cleaning, images
/// (all of them), renaming, chapter metadata, waiting, completed.
pub proof fn lemma_steps_in_order(download_cover: bool, count: u32)
    ensures
        next_step(ChapterStep::SaveComicMetadata, true, StepOutcome::Succeeded)
            == ChapterStep::DownloadCover,
        next_step(ChapterStep::SaveComicMetadata, false, StepOutcome::Succeeded)
            == ChapterStep::FetchImageUrls,
        next_step(ChapterStep::DownloadCover, download_cover, StepOutcome::Succeeded)
            == ChapterStep::FetchImageUrls,
        next_step(ChapterStep::FetchImageUrls, download_cover, StepOutcome::Succeeded)
            == ChapterStep::CreateTempDir,
        next_step(ChapterStep::CreateTempDir, download_cover, StepOutcome::Succeeded)
            == ChapterStep::CleanTempDir,
        next_step(ChapterStep::CleanTempDir, download_cover, StepOutcome::Succeeded)
            == ChapterStep::DownloadImages,
        next_step(
            ChapterStep::DownloadImages,
            download_cover,
            StepOutcome::ImagesDone { downloaded: count, total: count },
        ) == ChapterStep::RenameTempDir,
        next_step(ChapterStep::RenameTempDir, download_cover, StepOutcome::Succeeded)
            == ChapterStep::SaveChapterMetadata,
        next_step(ChapterStep::SaveChapterMetadata, download_cover, StepOutcome::Succeeded)
            == ChapterStep::SleepBetweenChapters,
        next_step(ChapterStep::SleepBetweenChapters, download_cover, StepOutcome::Succeeded)
            == ChapterStep::Completed,
{
}

/// An ended download stays ended, whatever else is reported.
pub proof fn lemma_ended_download_stays(step: ChapterStep, download_cover: bool, outcomes: Seq<
    StepOutcome,
>)
    requires
        step == ChapterStep::Completed || step == ChapterStep::Failed,
    ensures
        run_steps(step, download_cover, outcomes) == step,
    decreases outcomes.len(),
{
    if outcomes.len() > 0 {
        lemma_ended_download_stays(step, download_cover, outcomes.drop_first());
    }
}

/// When every step goes well, a chapter download passes each step once and
/// completes: nine steps with the cover, eight without.
pub proof fn lemma_clean_run_completes(download_cover: bool, outcomes: Seq<StepOutcome>)
    requires
        outcomes.len() == if download_cover { 9int } else { 8int },
        forall|i: int| 0 <= i < outcomes.len() ==> #[trigger] outcomes[i] == StepOutcome::Succeeded
            || outcomes[i] is ImagesDone,
        forall|i: int|
            0 <= i < outcomes.len() && #[trigger] outcomes[i] is ImagesDone ==> outcomes[i]->downloaded
                == outcomes[i]->total,
        outcomes[if download_cover { 5int } else { 4int }] is ImagesDone,
        forall|i: int|
            0 <= i < outcomes.len() && i != (if download_cover { 5int } else { 4int })
                ==> #[trigger] outcomes[i] == StepOutcome::Succeeded,
    ensures
        run_steps(ChapterStep::SaveComicMetadata, download_cover, outcomes) == ChapterStep::Completed,
{
    reveal_with_fuel(run_steps, 10);
    let o = outcomes;
    if download_cover {
        assert(o.drop_first().drop_first().drop_first().drop_first().drop_first()[0] == o[5]);
    } else {
        assert(o.drop_first().drop_first().drop_first().drop_first()[0] == o[4]);
    }
}

/// Whether `outcome` reports an image download in which every image of
/// the chapter was downloaded.
pub open spec fn all_images_done(outcome: StepOutcome) -> bool {
    match outcome {
        StepOutcome::ImagesDone { downloaded, total } => downloaded == total,
        _ => false,
    }
}

/// A chapter download completes only if its images were all downloaded:
/// whatever the outcomes, if the run from the start ends completed, some
/// image download reported equal counts.
pub proof fn lemma_completion_needs_all_images(
    step: ChapterStep,
    download_cover: bool,
    outcomes: Seq<StepOutcome>,
)
    requires
        step != ChapterStep::Completed && step != ChapterStep::Failed && step != ChapterStep::RenameTempDir
            && step != ChapterStep::SaveChapterMetadata && step != ChapterStep::SleepBetweenChapters,
        run_steps(step, download_cover, outcomes) == ChapterStep::Completed,
    ensures
        exists|i: int| 0 <= i < outcomes.len() && all_images_done(#[trigger] outcomes[i]),
    decreases outcomes.len(),
{
    if outcomes.len() == 0 {
    } else {
        let next = next_step(step, download_cover, outcomes[0]);
        if step == ChapterStep::DownloadImages && next != ChapterStep::Failed {
            assert(all_images_done(outcomes[0]));
        } else if next == ChapterStep::Failed {
            lemma_ended_download_stays(next, download_cover, outcomes.drop_first());
        } else {
            lemma_completion_needs_all_images(next, download_cover, outcomes.drop_first());
            let i = choose|i: int|
                0 <= i < outcomes.drop_first().len() && all_images_done(
                    #[trigger] outcomes.drop_first()[i],
                );
            assert(outcomes[i + 1] == outcomes.drop_first()[i]);
        }
    }
}

/// The image counts a task reports. Both are 32-bit counters that wrap
/// around, and the expected total grows by each batch of images planned.
#[derive(Clone, Copy, Debug, PartialEq, Eq, Structural)]
pub struct ImageCounts {
    pub downloaded: u32,
    pub total: u32,
}

impl ImageCounts {
    pub fn new() -> (c: ImageCounts)
        ensures
            c.downloaded == 0,
            c.total == 0,
    {
        ImageCounts { downloaded: 0, total: 0 }
    }

    /// `planned` more images are expected (their count taken in 32 bits).
    pub fn add_planned(&mut self, planned: usize)
        ensures
            final(self).total == (old(self).total + (planned as u32)) % 0x1_0000_0000,
            final(self).downloaded == old(self).downloaded,
    {
        let more: u32 = #[verifier::truncate] (planned as u32);
        self.total = self.total.wrapping_add(more);
    }

    /// One more image was downloaded.
    pub fn image_downloaded(&mut self)
        ensures
            final(self).downloaded == (old(self).downloaded + 1) % 0x1_0000_0000,
            final(self).total == old(self).total,
    {
        self.downloaded = self.downloaded.wrapping_add(1);
    }

    /// How the image download came out.
    pub fn outcome(&self) -> (o: StepOutcome)
        ensures
            o == (StepOutcome::ImagesDone { downloaded: self.downloaded, total: self.total }),
    {
        StepOutcome::ImagesDone { downloaded: self.downloaded, total: self.total }
    }
}

// ---------------------------------------------------------------------
// Waiting between chapters
// ---------------------------------------------------------------------

/// The countdown between two chapter downloads, in seconds.
pub struct SleepCountdown {
    pub remaining_sec: u64,
}

impl SleepCountdown {
    pub fn new(interval_sec: u64) -> (c: SleepCountdown)
        ensures
            c.remaining_sec == interval_sec,
    {
        SleepCountdown { remaining_sec: interval_sec }
    }

    /// The number of seconds to announce before the next second of sleep,
    /// or none when the wait is over; the countdown goes down by one.
    pub fn next_announcement(&mut self) -> (announced: Option<u64>)
        ensures
            old(self).remaining_sec == 0 ==> announced is None && final(self).remaining_sec == 0,
            old(self).remaining_sec > 0 ==> announced == Some(old(self).remaining_sec)
                && final(self).remaining_sec == old(self).remaining_sec - 1,
    {
        if self.remaining_sec > 0 {
            let r = self.remaining_sec;
            self.remaining_sec = r - 1;
            Some(r)
        } else {
            None
        }
    }
}

} // verus!
