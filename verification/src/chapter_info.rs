//! A chapter of a comic and where its files go on disk.
use vstd::prelude::*;
use crate::names::{filename_filter, is_reserved, is_white_space, lemma_safe_name_is_clean, safe_name};
use crate::paths::{
    join_all, path_file_name, path_join, path_join_all, path_parent, std_file_name, std_join,
    std_parent,
};
use crate::text::{decimal, decimal_text, join_text, split_on, split_text, texts};

verus! {

/// One chapter of a comic, as the downloader keeps it.
#[derive(Clone, Debug)]
pub struct ChapterInfo {
    pub chapter_id: i64,
    pub chapter_title: String,
    pub order: i64,
    /// Whether the chapter has been downloaded; `None` when not recorded.
    pub is_downloaded: Option<bool>,
    /// The directory that holds the chapter's downloaded images.
    pub chapter_download_dir: Option<String>,
}

/// Why a chapter's directories could not be worked out.
#[derive(Debug, PartialEq, Eq)]
pub enum ChapterInfoError {
    /// The chapter has no download directory.
    MissingDownloadDir,
    /// The download directory `dir` has no final name component.
    NoDirName { dir: String },
    /// The download directory `dir` has no parent directory.
    NoParent { dir: String },
}

/// What is written when a chapter's metadata is saved: the record, at `path`.
#[derive(Debug)]
pub struct ChapterMetadataFile {
    pub path: String,
    pub record: ChapterInfo,
}

/// The name of the file that holds a chapter's metadata, inside its
/// download directory.
pub open spec fn metadata_file_name() -> Seq<char> {
    "章节元数据.json"@
}

/// What a temporary download directory's name starts with.
pub open spec fn temp_dir_prefix() -> Seq<char> {
    ".下载中-"@
}

/// The name of the temporary directory a chapter is downloaded into before
/// it is moved to its final name `dir_name`.
pub fn temp_dir_name(dir_name: &str) -> (name: String)
    ensures
        name@ == temp_dir_prefix() + dir_name@,
{
    join_text(".下载中-", dir_name)
}

/// The final name component of a chapter directory, given what
/// `Path::file_name` found for `dir`.
pub fn dir_name_from(dir: &str, file_name: Option<String>) -> (r: Result<String, ChapterInfoError>)
    ensures
        match file_name {
            Some(n) => r matches Ok(s) && s@ == n@,
            None => r matches Err(ChapterInfoError::NoDirName { dir: d }) && d@ == dir@,
        },
{
    match file_name {
        Some(n) => Ok(n),
        None => Err(ChapterInfoError::NoDirName { dir: dir.to_owned() }),
    }
}

impl ChapterInfo {
    /// An exact copy of this chapter.
    pub fn duplicate(&self) -> (c: ChapterInfo)
        ensures
            c == *self,
    {
        ChapterInfo {
            chapter_id: self.chapter_id,
            chapter_title: self.chapter_title.clone(),
            order: self.order,
            is_downloaded: self.is_downloaded,
            chapter_download_dir: match &self.chapter_download_dir {
                Some(d) => Some(d.clone()),
                None => None,
            },
        }
    }

    /// The name of the chapter's download directory (its final component).
    pub fn get_chapter_download_dir_name(&self) -> (r: Result<String, ChapterInfoError>)
        ensures
            match self.chapter_download_dir {
                None => r matches Err(ChapterInfoError::MissingDownloadDir),
                Some(d) => match std_file_name(d@) {
                    Some(n) => r matches Ok(s) && s@ == n,
                    None => r matches Err(ChapterInfoError::NoDirName { dir: e }) && e@ == d@,
                },
            },
    {
        match &self.chapter_download_dir {
            None => Err(ChapterInfoError::MissingDownloadDir),
            Some(dir) => {
                let name = path_file_name(dir.as_str());
                dir_name_from(dir.as_str(), name)
            },
        }
    }

    /// The temporary directory a chapter is downloaded into: a sibling of
    /// its download directory, named after it with a marker in front.
    pub fn get_temp_download_dir(&self) -> (r: Result<String, ChapterInfoError>)
        ensures
            match self.chapter_download_dir {
                None => r matches Err(ChapterInfoError::MissingDownloadDir),
                Some(d) => match (std_file_name(d@), std_parent(d@)) {
                    (None, _) => r matches Err(ChapterInfoError::NoDirName { dir: e }) && e@ == d@,
                    (Some(_), None) => r matches Err(ChapterInfoError::NoParent { dir: e }) && e@
                        == d@,
                    (Some(n), Some(p)) => r matches Ok(t) && t@ == std_join(
                        p,
                        temp_dir_prefix() + n,
                    ),
                },
            },
    {
        let dir = match &self.chapter_download_dir {
            None => {
                return Err(ChapterInfoError::MissingDownloadDir);
            },
            Some(d) => d,
        };
        let name = match self.get_chapter_download_dir_name() {
            Ok(n) => n,
            Err(e) => {
                return Err(e);
            },
        };
        let parent = match path_parent(dir.as_str()) {
            Some(p) => p,
            None => {
                return Err(ChapterInfoError::NoParent { dir: dir.clone() });
            },
        };
        let temp_name = temp_dir_name(name.as_str());
        Ok(path_join(parent.as_str(), temp_name.as_str()))
    }

    /// The chapter as its metadata file records it: the download state and
    /// the download directory are left out.
    pub open spec fn metadata_record(self) -> ChapterInfo {
        ChapterInfo { is_downloaded: None, chapter_download_dir: None, ..self }
    }

    /// Where the chapter's metadata goes and what it holds: the record
    /// without download state and directory, at the metadata file inside the
    /// download directory.
    pub fn save_chapter_metadata(&self) -> (r: Result<ChapterMetadataFile, ChapterInfoError>)
        ensures
            match self.chapter_download_dir {
                None => r matches Err(ChapterInfoError::MissingDownloadDir),
                Some(d) => r matches Ok(f) && f.path@ == std_join(d@, metadata_file_name())
                    && f.record == self.metadata_record(),
            },
    {
        let mut record = self.duplicate();
        record.is_downloaded = None;
        record.chapter_download_dir = None;
        match &self.chapter_download_dir {
            None => Err(ChapterInfoError::MissingDownloadDir),
            Some(dir) => {
                let path = path_join(dir.as_str(), "章节元数据.json");
                Ok(ChapterMetadataFile { path, record })
            },
        }
    }
}

// ---------------------------------------------------------------------
// Download directories from a name template
// ---------------------------------------------------------------------

/// The values a directory-name template can refer to.
#[derive(Clone, Debug)]
pub struct DirFmtParams {
    pub comic_id: i64,
    pub comic_title: String,
    pub author: String,
    pub chapter_id: i64,
    pub chapter_title: String,
    pub order: i64,
}

/// Why no download directory could be made from the template.
#[derive(Debug, PartialEq, Eq)]
pub enum DirFmtError {
    /// A part of the template could not be formatted.
    Format,
    /// The template gives fewer than two non-empty directory levels.
    TooFewLevels,
}

#[verifier::external_type_specification]
#[verifier::external_body]
pub struct ExFmtError(strfmt::FmtError);

/// What `strfmt::strfmt` gives for the template `fmt` with the named
/// variables `vars` (`None` where it reports an error).
pub uninterp spec fn strfmt_text(fmt: Seq<char>, vars: Seq<(Seq<char>, Seq<char>)>) -> Option<
    Seq<char>,
>;

/// Formats the template `fmt` with `strfmt::strfmt`, the variables given as
/// name/value pairs (gathered into the map that `strfmt` looks them up in).
/// Claimed: `Ok` exactly where `strfmt_text` is `Some`, with that text.
/// Not claimed: anything about which error comes; a width in the template
/// is honoured as given, so a vast one is not expected to return.
#[verifier::external_body]
fn format_template(fmt: &str, vars: &Vec<(String, String)>) -> (r: Result<String, strfmt::FmtError>)
    ensures
        r is Ok <==> strfmt_text(fmt@, vars.deep_view()) is Some,
        r matches Ok(s) ==> s@ == strfmt_text(fmt@, vars.deep_view())->0,
{
    let map: std::collections::HashMap<String, String> = vars.iter().cloned().collect();
    strfmt::strfmt(fmt, &map)
}

impl Default for DirFmtParams {
    fn default() -> (p: DirFmtParams)
        ensures
            p.comic_id == 0,
            p.comic_title@ == Seq::<char>::empty(),
            p.author@ == Seq::<char>::empty(),
            p.chapter_id == 0,
            p.chapter_title@ == Seq::<char>::empty(),
            p.order == 0,
    {
        DirFmtParams {
            comic_id: 0,
            comic_title: String::new(),
            author: String::new(),
            chapter_id: 0,
            chapter_title: String::new(),
            order: 0,
        }
    }
}

impl DirFmtParams {
    /// The template variables: each field under its own name, numbers in
    /// decimal.
    pub open spec fn vars(self) -> Seq<(Seq<char>, Seq<char>)> {
        seq![
            ("comic_id"@, decimal(self.comic_id as int)),
            ("comic_title"@, self.comic_title@),
            ("author"@, self.author@),
            ("chapter_id"@, decimal(self.chapter_id as int)),
            ("chapter_title"@, self.chapter_title@),
            ("order"@, decimal(self.order as int)),
        ]
    }

    /// The template variables as name/value pairs.
    pub fn format_vars(&self) -> (vars: Vec<(String, String)>)
        ensures
            vars.deep_view() == self.vars(),
    {
        let mut vars: Vec<(String, String)> = Vec::new();
        vars.push(("comic_id".to_owned(), decimal_text(self.comic_id)));
        vars.push(("comic_title".to_owned(), self.comic_title.clone()));
        vars.push(("author".to_owned(), self.author.clone()));
        vars.push(("chapter_id".to_owned(), decimal_text(self.chapter_id)));
        vars.push(("chapter_title".to_owned(), self.chapter_title.clone()));
        vars.push(("order".to_owned(), decimal_text(self.order)));
        assert(vars.deep_view() =~= self.vars());
        vars
    }
}

/// Each template part formatted in turn; `None` as soon as one fails.
pub open spec fn format_parts(parts: Seq<Seq<char>>, vars: Seq<(Seq<char>, Seq<char>)>) -> Option<
    Seq<Seq<char>>,
>
    decreases parts.len(),
{
    if parts.len() == 0 {
        Some(Seq::<Seq<char>>::empty())
    } else {
        match format_parts(parts.drop_last(), vars) {
            None => None,
            Some(done) => match strfmt_text(parts.last(), vars) {
                None => None,
                Some(t) => Some(done.push(t)),
            },
        }
    }
}

/// The directory names made from formatted template parts: each made safe,
/// the empty ones dropped.
pub open spec fn dir_names(formatted: Seq<Seq<char>>) -> Seq<Seq<char>>
    decreases formatted.len(),
{
    if formatted.len() == 0 {
        Seq::<Seq<char>>::empty()
    } else {
        let rest = dir_names(formatted.drop_last());
        let name = safe_name(formatted.last());
        if name.len() == 0 {
            rest
        } else {
            rest.push(name)
        }
    }
}

/// The chapter directory made from formatted template parts under
/// `download_dir`, or why there is none.
pub open spec fn dir_from_formatted(download_dir: Seq<char>, formatted: Seq<Seq<char>>) -> Result<
    Seq<char>,
    DirFmtError,
> {
    let names = dir_names(formatted);
    if names.len() < 2 {
        Err(DirFmtError::TooFewLevels)
    } else {
        Ok(join_all(download_dir, names))
    }
}

/// The chapter directory that the template `dir_fmt` gives under
/// `download_dir`: the template is split at `/`, each part formatted with
/// the variables and made safe as a name; empty names are dropped and at
/// least two must remain.
pub open spec fn chapter_dir_by_fmt(
    download_dir: Seq<char>,
    dir_fmt: Seq<char>,
    vars: Seq<(Seq<char>, Seq<char>)>,
) -> Result<Seq<char>, DirFmtError> {
    match format_parts(split_on(dir_fmt, '/'), vars) {
        None => Err(DirFmtError::Format),
        Some(formatted) => dir_from_formatted(download_dir, formatted),
    }
}

/// The directory names that formatted template parts give: each made safe
/// as a name, the empty ones dropped.
pub fn dir_names_of(formatted: &Vec<String>) -> (names: Vec<String>)
    ensures
        texts(names@) == dir_names(texts(formatted@)),
{
    let mut names: Vec<String> = Vec::new();
    let mut i: usize = 0;
    while i < formatted.len()
        invariant
            i <= formatted@.len(),
            texts(names@) == dir_names(texts(formatted@).take(i as int)),
        decreases formatted@.len() - i,
    {
        let ghost prefix = texts(formatted@).take(i + 1);
        assert(prefix.drop_last() =~= texts(formatted@).take(i as int));
        assert(prefix.last() == formatted@[i as int]@);
        let name = filename_filter(formatted[i].as_str());
        if !name.as_str().is_empty() {
            names.push(name);
            assert(texts(names@) =~= dir_names(texts(formatted@).take(i as int)).push(
                safe_name(formatted@[i as int]@),
            ));
        }
        i = i + 1;
    }
    assert(texts(formatted@).take(formatted@.len() as int) =~= texts(formatted@));
    names
}

/// The chapter directory under `download_dir` from already formatted
/// template parts.
pub fn chapter_dir_from_formatted(download_dir: &str, formatted: &Vec<String>) -> (r: Result<
    String,
    DirFmtError,
>)
    ensures
        match dir_from_formatted(download_dir@, texts(formatted@)) {
            Ok(d) => r matches Ok(s) && s@ == d,
            Err(e) => r == Err::<String, DirFmtError>(e),
        },
{
    let names = dir_names_of(formatted);
    if names.len() < 2 {
        return Err(DirFmtError::TooFewLevels);
    }
    assert(texts(names@) =~= names.deep_view());
    Ok(path_join_all(download_dir, &names))
}

impl ChapterInfo {
    /// The download directory of a chapter: the template `dir_fmt` (levels
    /// separated by `/`) filled in from `fmt_params` and placed under
    /// `download_dir`.
    pub fn get_chapter_download_dir_by_fmt(
        download_dir: &str,
        dir_fmt: &str,
        fmt_params: &DirFmtParams,
    ) -> (r: Result<String, DirFmtError>)
        ensures
            match chapter_dir_by_fmt(download_dir@, dir_fmt@, fmt_params.vars()) {
                Ok(d) => r matches Ok(s) && s@ == d,
                Err(e) => r == Err::<String, DirFmtError>(e),
            },
    {
        let vars = fmt_params.format_vars();
        let parts = split_text(dir_fmt, '/');
        let mut formatted: Vec<String> = Vec::new();
        let mut i: usize = 0;
        while i < parts.len()
            invariant
                vars.deep_view() == fmt_params.vars(),
                texts(parts@) == split_on(dir_fmt@, '/'),
                i <= parts@.len(),
                formatted@.len() == i,
                format_parts(texts(parts@).take(i as int), fmt_params.vars()) == Some(
                    texts(formatted@),
                ),
            decreases parts@.len() - i,
        {
            let ghost prefix = texts(parts@).take(i + 1);
            assert(prefix.drop_last() =~= texts(parts@).take(i as int));
            assert(prefix.last() == parts@[i as int]@);
            match format_template(parts[i].as_str(), &vars) {
                Ok(text) => {
                    let ghost before = texts(formatted@);
                    formatted.push(text);
                    assert(texts(formatted@) =~= before.push(formatted@[i as int]@));
                },
                Err(_) => {
                    proof {
                        lemma_format_parts_fails_later(
                            texts(parts@),
                            i as int,
                            parts@.len() as int,
                            fmt_params.vars(),
                        );
                        assert(texts(parts@).take(parts@.len() as int) =~= texts(parts@));
                    }
                    return Err(DirFmtError::Format);
                },
            }
            i = i + 1;
        }
        assert(texts(parts@).take(parts@.len() as int) =~= texts(parts@));
        chapter_dir_from_formatted(download_dir, &formatted)
    }
}

/// A name that can stand as one level of a directory path: not empty, no
/// reserved character, no white space at either end.
pub open spec fn is_clean_name(n: Seq<char>) -> bool {
    &&& n.len() > 0
    &&& forall|i: int| 0 <= i < n.len() ==> !is_reserved(#[trigger] n[i])
    &&& !is_white_space(n[0])
    &&& !is_white_space(n.last())
}

/// Every directory name made from formatted template parts is clean.
pub proof fn lemma_dir_names_are_clean(formatted: Seq<Seq<char>>)
    ensures
        forall|k: int| 0 <= k < dir_names(formatted).len() ==> is_clean_name(#[trigger] dir_names(formatted)[k]),
    decreases formatted.len(),
{
    if formatted.len() > 0 {
        let rest = dir_names(formatted.drop_last());
        let name = safe_name(formatted.last());
        lemma_dir_names_are_clean(formatted.drop_last());
        lemma_safe_name_is_clean(formatted.last());
        if name.len() > 0 {
            assert(is_clean_name(name));
            assert forall|k: int| 0 <= k < dir_names(formatted).len() implies is_clean_name(
                #[trigger] dir_names(formatted)[k],
            ) by {
                if k < rest.len() {
                    assert(dir_names(formatted)[k] == rest[k]);
                }
            }
        }
    }
}

/// A download directory made from a template lies at least two clean
/// levels below the download directory: it is the download directory with
/// two or more clean names joined onto it.
pub proof fn lemma_dir_by_fmt_levels(
    download_dir: Seq<char>,
    dir_fmt: Seq<char>,
    vars: Seq<(Seq<char>, Seq<char>)>,
)
    requires
        chapter_dir_by_fmt(download_dir, dir_fmt, vars) is Ok,
    ensures
        exists|names: Seq<Seq<char>>|
            #![trigger join_all(download_dir, names)]
            names.len() >= 2 && (forall|k: int| 0 <= k < names.len() ==> is_clean_name(#[trigger] names[k]))
                && chapter_dir_by_fmt(download_dir, dir_fmt, vars) == Ok::<Seq<char>, DirFmtError>(
                join_all(download_dir, names),
            ),
{
    let formatted = format_parts(split_on(dir_fmt, '/'), vars)->0;
    let names = dir_names(formatted);
    lemma_dir_names_are_clean(formatted);
    assert(chapter_dir_by_fmt(download_dir, dir_fmt, vars) == Ok::<Seq<char>, DirFmtError>(
        join_all(download_dir, names),
    ));
}

/// The directory levels are every formatted part made safe, in order,
/// with exactly the empty ones dropped (none is dropped for any other
/// reason, and none is added).
pub proof fn lemma_dir_names_keep_every_level(formatted: Seq<Seq<char>>)
    ensures
        dir_names(formatted) == formatted.map_values(|t: Seq<char>| safe_name(t)).filter(
            |n: Seq<char>| n.len() > 0,
        ),
    decreases formatted.len(),
{
    reveal(Seq::filter);
    let m = formatted.map_values(|t: Seq<char>| safe_name(t));
    if formatted.len() > 0 {
        lemma_dir_names_keep_every_level(formatted.drop_last());
        assert(formatted.drop_last().map_values(|t: Seq<char>| safe_name(t)) =~= m.drop_last());
        assert(m.last() == safe_name(formatted.last()));
    } else {
        assert(m =~= Seq::<Seq<char>>::empty());
    }
}

/// Once the template's parts are formatted, the chapter directory is the
/// download directory with every non-empty safe level joined on in order,
/// and it is refused exactly when fewer than two such levels remain.
pub proof fn lemma_dir_by_fmt_joins_every_level(
    download_dir: Seq<char>,
    dir_fmt: Seq<char>,
    vars: Seq<(Seq<char>, Seq<char>)>,
    formatted: Seq<Seq<char>>,
)
    requires
        format_parts(split_on(dir_fmt, '/'), vars) == Some(formatted),
    ensures
        ({
            let levels = formatted.map_values(|t: Seq<char>| safe_name(t)).filter(
                |n: Seq<char>| n.len() > 0,
            );
            &&& levels.len() >= 2 ==> chapter_dir_by_fmt(download_dir, dir_fmt, vars) == Ok::<
                Seq<char>,
                DirFmtError,
            >(join_all(download_dir, levels))
            &&& levels.len() < 2 ==> chapter_dir_by_fmt(download_dir, dir_fmt, vars) == Err::<
                Seq<char>,
                DirFmtError,
            >(DirFmtError::TooFewLevels)
        }),
{
    lemma_dir_names_keep_every_level(formatted);
}

/// Formatting the template's parts succeeds exactly when every part
/// formats, and then gives each part's text, in order.
pub proof fn lemma_format_parts_each_part(parts: Seq<Seq<char>>, vars: Seq<(Seq<char>, Seq<char>)>)
    ensures
        format_parts(parts, vars) is Some <==> forall|k: int|
            0 <= k < parts.len() ==> #[trigger] strfmt_text(parts[k], vars) is Some,
        format_parts(parts, vars) matches Some(f) ==> f.len() == parts.len() && forall|k: int|
            0 <= k < parts.len() ==> f[k] == #[trigger] strfmt_text(parts[k], vars)->0,
    decreases parts.len(),
{
    if parts.len() > 0 {
        let init = parts.drop_last();
        lemma_format_parts_each_part(init, vars);
        assert forall|k: int| 0 <= k < init.len() implies #[trigger] init[k] == parts[k] by {}
        if (forall|k: int| 0 <= k < parts.len() ==> #[trigger] strfmt_text(parts[k], vars) is Some) {
            assert forall|k: int| 0 <= k < init.len() implies #[trigger] strfmt_text(init[k], vars) is Some by {
                assert(strfmt_text(parts[k], vars) is Some);
            }
            assert(strfmt_text(parts[parts.len() - 1], vars) is Some);
        }
        if format_parts(parts, vars) is Some {
            assert forall|k: int| 0 <= k < parts.len() implies #[trigger] strfmt_text(parts[k], vars) is Some by {
                if k < init.len() {
                    assert(strfmt_text(init[k], vars) is Some);
                }
            }
        }
    }
}

/// Once a part fails to format, every longer prefix fails too.
proof fn lemma_format_parts_fails_later(
    parts: Seq<Seq<char>>,
    i: int,
    k: int,
    vars: Seq<(Seq<char>, Seq<char>)>,
)
    requires
        0 <= i < k <= parts.len(),
        strfmt_text(parts[i], vars) is None,
    ensures
        format_parts(parts.take(k), vars) is None,
    decreases k - i,
{
    assert(parts.take(k).drop_last() =~= parts.take(k - 1));
    if k > i + 1 {
        lemma_format_parts_fails_later(parts, i, k - 1, vars);
    }
}

} // verus!
