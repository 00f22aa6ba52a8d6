# jmcomic_downloader

The decision-making core of a comic downloader, verified with Verus.

- `src/` — the verified library:
  - `text` — character-level string helpers (decimal rendering, splitting,
    code-point order);
  - `paths` — the std path operations the library uses, with named results;
  - `names` — turning titles into safe directory names;
  - `chapter_info` — chapters, their download, temporary and metadata paths,
    and download directories built from a name template (`strfmt`);
  - `order` — ordering files by name;
  - `export` — export formats, downloaded chapters, image selection;
  - `cbz` — planning CBZ archives and export progress;
  - `download_task` — the decisions of a chapter download task.
- `app/` — file-system work and the loops that drive a task, built on the
  library.
- `tests/` — tests of the library on concrete values.
