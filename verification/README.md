# km_package_builder

The rules of a karaoke package builder, verified with Verus: how a song's names are read and
shown, how the browse filter is read from a form and written into every link, how a handful of
copies of one song is put in order, which folders are remembered, how the lyric search picks the
phrases it asks an index for, and in what order a start does its work.

- `src/` is the library. Every function in it carries a contract that Verus proves; the few calls
  into `std`, `serde_urlencoded` and `directories` that Verus cannot read stand behind small
  wrappers whose contracts say what is assumed of them.
  - `names`, `hint`, `model`: names and titles, the quality hint's order, the rows and facts the
    pages draw.
  - `form`, `filter`, `browse`, `requests`: reading form bodies, the filter's values and their
    spellings, the browse filter and the links it writes, and the smaller queries each page reads.
    A link written for a filter reads back as that filter.
  - `lyric`: the phrases of a lyric body and the search made of them.
  - `recent`: the list of folders curated before.
  - `bulk`: the decisions of the bulk pages (favorite, language, a package made from the filter,
    replacing a packaged song, restoring a backup), each taking what the database answered and
    giving the next step.
  - `song`: which sentences a song's page says about it, and with which numbers.
  - `shell`, `unescape`, `startup`, `register`: how a run is shaped and what escaping a text for a
    page keeps, the order a start goes in, and what registering the file type writes.
- `tests/` runs the library on concrete cases.
- `app/` is the executable: the command line, the files on disk, and the writes registration makes.
  It serves no pages: the web server, the database and the page templates are not part of this
  crate, so the bulk decisions above have no caller there yet, and backup, restore and reanalysis
  stop with an error.
