//! Planning a CBZ export: where each chapter's archive goes, what entries it
//! holds, where the cover is copied, and the progress reported on the way.
use vstd::prelude::*;
use crate::chapter_info::{ChapterInfo, ChapterInfoError};
use crate::export::ExportArchive;
use crate::paths::{path_file_name, path_join, std_file_name, std_join};
use crate::text::{join_text, texts};

verus! {

/// Why a chapter could not be put into its archive.
#[derive(Debug, PartialEq, Eq)]
pub enum CbzError {
    /// The chapter's directories could not be worked out.
    Chapter(ChapterInfoError),
    /// The image at `path` has no file name to store it under.
    NoFileName { path: String },
}

/// The name of the metadata entry every archive starts with.
pub open spec fn comic_info_entry() -> Seq<char> {
    "ComicInfo.xml"@
}

/// The file name of a chapter's archive: its download directory's name,
/// a dot, and the archive extension.
pub open spec fn archive_file_name(dir_name: Seq<char>) -> Seq<char> {
    dir_name + seq!['.'] + ExportArchive::Cbz.spec_extension()
}

/// Where the archive of `chapter` goes inside `chapter_export_dir`.
pub fn cbz_save_path(chapter: &ChapterInfo, chapter_export_dir: &str) -> (r: Result<
    String,
    CbzError,
>)
    ensures
        match chapter.chapter_download_dir {
            None => r matches Err(CbzError::Chapter(ChapterInfoError::MissingDownloadDir)),
            Some(d) => match std_file_name(d@) {
                Some(n) => r matches Ok(p) && p@ == std_join(
                    chapter_export_dir@,
                    archive_file_name(n),
                ),
                None => r matches Err(CbzError::Chapter(ChapterInfoError::NoDirName { dir: e }))
                    && e@ == d@,
            },
        },
{
    let name = match chapter.get_chapter_download_dir_name() {
        Ok(n) => n,
        Err(e) => {
            return Err(CbzError::Chapter(e));
        },
    };
    proof {
        reveal_strlit(".");
        assert("."@ =~= seq!['.']);
    }
    let with_dot = join_text(name.as_str(), ".");
    let file_name = join_text(with_dot.as_str(), ExportArchive::Cbz.extension());
    Ok(path_join(chapter_export_dir, file_name.as_str()))
}

/// The entry names of an archive holding the images at `image_paths`:
/// the metadata entry first, then each image under its file name.
pub open spec fn entry_names(image_paths: Seq<Seq<char>>) -> Option<Seq<Seq<char>>>
    decreases image_paths.len(),
{
    if image_paths.len() == 0 {
        Some(seq![comic_info_entry()])
    } else {
        match entry_names(image_paths.drop_last()) {
            None => None,
            Some(names) => match std_file_name(image_paths.last()) {
                None => None,
                Some(n) => Some(names.push(n)),
            },
        }
    }
}

/// An archive's entries are the metadata entry first and then, in order,
/// each image under its own file name.
pub proof fn lemma_entry_names_in_order(image_paths: Seq<Seq<char>>)
    ensures
        entry_names(image_paths) matches Some(names) ==> names.len() == image_paths.len() + 1
            && names[0] == comic_info_entry() && forall|k: int|
            0 <= k < image_paths.len() ==> std_file_name(#[trigger] image_paths[k]) == Some(
                names[k + 1],
            ),
    decreases image_paths.len(),
{
    if image_paths.len() > 0 {
        let init = image_paths.drop_last();
        lemma_entry_names_in_order(init);
        if let Some(names) = entry_names(image_paths) {
            let before = entry_names(init)->0;
            assert forall|k: int| 0 <= k < image_paths.len() implies std_file_name(
                #[trigger] image_paths[k],
            ) == Some(names[k + 1]) by {
                if k < init.len() {
                    assert(init[k] == image_paths[k]);
                    assert(names[k + 1] == before[k + 1]);
                }
            }
        }
    }
}

/// The first of `image_paths` without a file name, if any.
pub open spec fn first_nameless(image_paths: Seq<Seq<char>>) -> Option<Seq<char>>
    decreases image_paths.len(),
{
    if image_paths.len() == 0 {
        None
    } else {
        match first_nameless(image_paths.drop_last()) {
            Some(p) => Some(p),
            None => if std_file_name(image_paths.last()) is None {
                Some(image_paths.last())
            } else {
                None
            },
        }
    }
}

/// An archive's entries can be named exactly when every image has a file
/// name, and then there is one entry more than there are images (the
/// metadata entry).
pub proof fn lemma_entry_names_fail_together(image_paths: Seq<Seq<char>>)
    ensures
        entry_names(image_paths) is None <==> first_nameless(image_paths) is Some,
        entry_names(image_paths) matches Some(names) ==> names.len() == image_paths.len() + 1,
    decreases image_paths.len(),
{
    if image_paths.len() > 0 {
        lemma_entry_names_fail_together(image_paths.drop_last());
    }
}

/// The entry names of the archive for the images at `image_paths` (already
/// in the order they are stored), or the first image without a file name.
pub fn cbz_entry_names(image_paths: &Vec<String>) -> (r: Result<Vec<String>, CbzError>)
    ensures
        match entry_names(texts(image_paths@)) {
            Some(names) => r matches Ok(v) && texts(v@) == names,
            None => r matches Err(CbzError::NoFileName { path: p }) && first_nameless(
                texts(image_paths@),
            ) == Some(p@),
        },
{
    let mut names: Vec<String> = Vec::new();
    names.push("ComicInfo.xml".to_owned());
    let mut i: usize = 0;
    proof {
        assert(texts(image_paths@).take(0) =~= Seq::<Seq<char>>::empty());
        assert(texts(names@) =~= seq![comic_info_entry()]);
    }
    while i < image_paths.len()
        invariant
            i <= image_paths@.len(),
            entry_names(texts(image_paths@).take(i as int)) == Some(texts(names@)),
            first_nameless(texts(image_paths@).take(i as int)) is None,
        decreases image_paths@.len() - i,
    {
        let ghost prefix = texts(image_paths@).take(i + 1);
        assert(prefix.drop_last() =~= texts(image_paths@).take(i as int));
        assert(prefix.last() == image_paths@[i as int]@);
        match path_file_name(image_paths[i].as_str()) {
            Some(n) => {
                let ghost prev = texts(names@);
                names.push(n);
                assert(texts(names@) =~= prev.push(names@[names@.len() - 1]@));
            },
            None => {
                proof {
                    lemma_first_nameless_stays(texts(image_paths@), i + 1, image_paths@.len() as int);
                    lemma_entry_names_fail_together(texts(image_paths@));
                    assert(texts(image_paths@).take(image_paths@.len() as int) =~= texts(image_paths@));
                }
                return Err(CbzError::NoFileName { path: image_paths[i].clone() });
            },
        }
        i = i + 1;
    }
    assert(texts(image_paths@).take(image_paths@.len() as int) =~= texts(image_paths@));
    Ok(names)
}

/// The first nameless path of a prefix stays the first of every longer one.
proof fn lemma_first_nameless_stays(paths: Seq<Seq<char>>, i: int, k: int)
    requires
        0 < i <= k <= paths.len(),
        first_nameless(paths.take(i)) is Some,
    ensures
        first_nameless(paths.take(k)) == first_nameless(paths.take(i)),
    decreases k - i,
{
    if k > i {
        lemma_first_nameless_stays(paths, i, k - 1);
        assert(paths.take(k).drop_last() =~= paths.take(k - 1));
    }
}

/// Where the cover at `cover_path` is copied to in `chapter_export_dir`:
/// under its own file name (none when it has no file name).
pub fn cover_export_path(cover_path: &str, chapter_export_dir: &str) -> (dest: Option<String>)
    ensures
        match std_file_name(cover_path@) {
            None => dest is None,
            Some(n) => dest matches Some(d) && d@ == std_join(chapter_export_dir@, n),
        },
{
    match path_file_name(cover_path) {
        None => None,
        Some(name) => Some(path_join(chapter_export_dir, name.as_str())),
    }
}

/// The progress reported while chapters are exported.
pub struct ExportProgress {
    /// How many chapters the export covers (as the start report gives it).
    pub total: u32,
    /// How many chapters have been written so far.
    pub current: u32,
    /// Whether the export ran to its end.
    pub succeeded: bool,
}

impl ExportProgress {
    /// An export of `chapter_count` chapters begins; the count is reported
    /// in 32 bits.
    pub fn start(chapter_count: usize) -> (p: ExportProgress)
        ensures
            p.total == chapter_count as u32,
            p.current == 0,
            !p.succeeded,
    {
        ExportProgress { total: #[verifier::truncate] (chapter_count as u32), current: 0, succeeded: false }
    }

    /// One more chapter has been written; the new count is reported.
    pub fn chapter_exported(&mut self) -> (current: u32)
        requires
            old(self).current < u32::MAX,
        ensures
            final(self).current == old(self).current + 1,
            current == final(self).current,
            final(self).total == old(self).total,
            final(self).succeeded == old(self).succeeded,
    {
        self.current = self.current + 1;
        self.current
    }

    /// Every chapter has been written.
    pub fn finish(&mut self)
        ensures
            final(self).succeeded,
            final(self).current == old(self).current,
            final(self).total == old(self).total,
    {
        self.succeeded = true;
    }

    /// Whether the export, now that it stops, must report an error: exactly
    /// when it did not run to its end.
    pub fn reports_error(&self) -> (r: bool)
        ensures
            r == !self.succeeded,
    {
        !self.succeeded
    }
}

} // verus!
