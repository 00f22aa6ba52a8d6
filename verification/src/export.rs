use vstd::prelude::*;
use crate::chapter_info::ChapterInfo;
use crate::order::{file_names, in_file_name_order, is_name_order, sort_by_file_name};
use crate::paths::{lowercase, path_extension, std_extension, std_lowercase};
use crate::text::{same_text, texts};

verus! {

/// The archive formats a comic can be exported to.
#[derive(Clone, Copy, Debug, PartialEq, Eq, Structural)]
pub enum ExportArchive {
    Cbz,
    Pdf,
}

impl ExportArchive {
    /// The file extension (without the dot) used for this archive format.
    pub open spec fn spec_extension(self) -> Seq<char> {
        match self {
            ExportArchive::Cbz => seq!['c', 'b', 'z'],
            ExportArchive::Pdf => seq!['p', 'd', 'f'],
        }
    }

    pub fn extension(&self) -> (ext: &'static str)
        ensures
            ext@ == self.spec_extension(),
    {
        match self {
            ExportArchive::Cbz => {
                proof { reveal_strlit("cbz"); }
                "cbz"
            },
            ExportArchive::Pdf => {
                proof { reveal_strlit("pdf"); }
                "pdf"
            },
        }
    }
}

/// Whether a chapter is recorded as downloaded.
pub open spec fn is_downloaded(c: ChapterInfo) -> bool {
    c.is_downloaded == Some(true)
}

/// The chapters that are recorded as downloaded, in their given order.
pub fn get_downloaded_chapters(chapter_infos: &[ChapterInfo]) -> (downloaded: Vec<ChapterInfo>)
    ensures
        downloaded@ == chapter_infos@.filter(|c: ChapterInfo| is_downloaded(c)),
{
    let mut downloaded: Vec<ChapterInfo> = Vec::new();
    let mut i: usize = 0;
    while i < chapter_infos.len()
        invariant
            i <= chapter_infos@.len(),
            downloaded@ == chapter_infos@.take(i as int).filter(|c: ChapterInfo| is_downloaded(c)),
        decreases chapter_infos@.len() - i,
    {
        let chapter = &chapter_infos[i];
        proof {
            reveal(Seq::filter);
            assert(chapter_infos@.take(i + 1).drop_last() =~= chapter_infos@.take(i as int));
        }
        let downloaded_flag = match chapter.is_downloaded {
            Some(b) => b,
            None => false,
        };
        if downloaded_flag {
            downloaded.push(chapter.duplicate());
        }
        i = i + 1;
    }
    assert(chapter_infos@.take(chapter_infos@.len() as int) =~= chapter_infos@);
    downloaded
}

/// Extensions (lower case) of the image files an export takes.
pub open spec fn is_image_extension(ext: Seq<char>) -> bool {
    ext == "jpg"@ || ext == "jpeg"@ || ext == "png"@ || ext == "webp"@ || ext == "gif"@
}

/// Extensions (lower case) of the image formats that every export target
/// can embed as they are.
pub open spec fn is_common_image_extension(ext: Seq<char>) -> bool {
    ext == "jpg"@ || ext == "jpeg"@ || ext == "png"@
}

/// Whether the file at `path` is taken as an image: by its extension,
/// compared without regard to case.
pub open spec fn is_image_path(path: Seq<char>, must_be_common_img: bool) -> bool {
    match std_extension(path) {
        None => false,
        Some(ext) => if must_be_common_img {
            is_common_image_extension(std_lowercase(ext))
        } else {
            is_image_extension(std_lowercase(ext))
        },
    }
}

/// Whether the file at `path` is taken as an image (of a common format,
/// when `must_be_common_img`).
pub fn is_img(path: &str, must_be_common_img: bool) -> (r: bool)
    ensures
        r == is_image_path(path@, must_be_common_img),
{
    match path_extension(path) {
        None => false,
        Some(ext) => {
            let lower = lowercase(ext.as_str());
            let l = lower.as_str();
            let common = same_text(l, "jpg") || same_text(l, "jpeg") || same_text(l, "png");
            if must_be_common_img {
                common
            } else {
                common || same_text(l, "webp") || same_text(l, "gif")
            }
        },
    }
}

/// The image files among `entries` (the paths found in a chapter
/// directory), sorted by file name.
pub fn get_image_paths(entries: &Vec<String>, must_be_common_img: bool) -> (image_paths: Vec<
    String,
>)
    ensures
        in_file_name_order(
            texts(entries@).filter(|p: Seq<char>| is_image_path(p, must_be_common_img)),
            texts(image_paths@),
        ),
{
    let ghost keep = |p: Seq<char>| is_image_path(p, must_be_common_img);
    let mut images: Vec<String> = Vec::new();
    let mut i: usize = 0;
    while i < entries.len()
        invariant
            i <= entries@.len(),
            keep == (|p: Seq<char>| is_image_path(p, must_be_common_img)),
            texts(images@) == texts(entries@).take(i as int).filter(keep),
        decreases entries@.len() - i,
    {
        proof {
            reveal(Seq::filter);
            assert(texts(entries@).take(i + 1).drop_last() =~= texts(entries@).take(i as int));
        }
        if is_img(entries[i].as_str(), must_be_common_img) {
            let ghost prev = texts(images@);
            images.push(entries[i].clone());
            assert(texts(images@) =~= prev.push(entries@[i as int]@));
        }
        i = i + 1;
    }
    assert(texts(entries@).take(entries@.len() as int) =~= texts(entries@));
    sort_by_file_name(&images)
}

/// Only files with an extension are taken as images; whether one is
/// depends only on its extension without regard to case; and an image of a
/// common format is an image.
pub proof fn lemma_image_choice(p: Seq<char>, q: Seq<char>, must_be_common_img: bool)
    ensures
        is_image_path(p, must_be_common_img) ==> std_extension(p) is Some,
        is_image_path(p, true) ==> is_image_path(p, false),
        (std_extension(p) matches Some(e) && std_extension(q) matches Some(f) && std_lowercase(e)
            == std_lowercase(f)) ==> is_image_path(p, must_be_common_img) == is_image_path(
            q,
            must_be_common_img,
        ),
{
}

/// Whatever is listed in file-name order from the image files of a
/// directory listing is exactly those images: one per image, each an entry
/// of the listing that is taken as an image.
pub proof fn lemma_listed_images_are_images(
    entries: Seq<Seq<char>>,
    must_be_common_img: bool,
    listed: Seq<Seq<char>>,
)
    requires
        in_file_name_order(
            entries.filter(|p: Seq<char>| is_image_path(p, must_be_common_img)),
            listed,
        ),
    ensures
        listed.len() == entries.filter(|p: Seq<char>| is_image_path(p, must_be_common_img)).len(),
        forall|i: int|
            0 <= i < listed.len() ==> is_image_path(#[trigger] listed[i], must_be_common_img)
                && entries.contains(listed[i]),
{
    let keep = |p: Seq<char>| is_image_path(p, must_be_common_img);
    let images = entries.filter(keep);
    let order = choose|order: Seq<usize>|
        #[trigger] is_name_order(file_names(images), order) && listed == order.map_values(
            |i: usize| images[i as int],
        );
    assert forall|i: int| 0 <= i < listed.len() implies is_image_path(
        #[trigger] listed[i],
        must_be_common_img,
    ) && entries.contains(listed[i]) by {
        let j = order[i] as int;
        assert(listed[i] == images[j]);
        entries.lemma_filter_pred(keep, j);
        assert(images.contains(images[j]));
        entries.lemma_filter_contains_rev(keep, images[j]);
    }
}

} // verus!
