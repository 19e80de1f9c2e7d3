# griphook

Batch renaming of image files by regular expression, with previews of
ordinary images and of RAW files.

The library follows the newer design of the tool: the logic crate with
its iced frontend (typed file and rename errors, `webp` among the image
extensions, bounded background thumbnail jobs). Of the older single-crate
program only the `rename_error` message is kept; its zoom and its
plain-text errors are not carried over.

- `src/` is the verified library (Verus):
  - `files.rs`: which files count as images, and listing a directory's
    images that match a filter, sorted by file name;
  - `rename.rs`: planning a batch rename (`$name` expansion, regular
    expression replacement, conflict checks) and its error messages;
  - `jpeg.rs`: finding the largest JPEG preview embedded in a RAW file;
  - `raw.rs`, `thumbs.rs`: choosing which RAW thumbnail to show;
  - `picture.rs`: decoded images with their size and history, and the
    `image` crate's decoding, scaling and PNG encoding behind trusted
    wrappers;
  - `preview.rs`, `thumbnail.rs`: previews and thumbnails of files, RAW
    files included;
  - `app.rs`: the state machine of the interactive renamer (file list,
    selection, previews, bounded thumbnail jobs);
  - `filter.rs`, `paths.rs`: the `regex` crate and `std::path` behind small
    trusted wrappers; `text.rs`, `pathlist.rs`: text and list helpers;
  - `opt.rs`: the command line options.
- `tests/` holds the tests.
- `app/` is the iced frontend: it runs the jobs the library asks for
  (reading directories and files, renaming, reading RAW files through
  `rsraw`) and draws the state.
