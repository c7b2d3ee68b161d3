# forum_scraper

Tools that archive the Volvo 240 forum (volvo240.dk): they fetch the
site's pages from the Wayback Machine, give the files their pages'
names, re-read them from ISO-8859-1, parse each forum page into a post
and its replies, and store those in an SQLite database.

The parsing and bookkeeping are a library verified with Verus:

- `src/text.rs`: string primitives (trim, prefix/suffix/infix tests,
  replace, `i32` parsing) with exact specifications.
- `src/dates.rs`: forum dates `DD-MM-YYYY HH:MM` rewritten as
  `YYYY-MM-DD HH:MM`.
- `src/forum.rs`: file names to post numbers, and a page's table rows
  and reply list to replies and the post.
- `src/flat.rs`: the flat reading of a page into one record.
- `src/recode.rs`: ISO-8859-1 bytes to text.
- `src/wayback.rs`: the job list, the choice of downloads, the handling
  of each answer, and the renaming plan.
- `src/outside.rs`: the trusted wrappers around `regex`, `url`,
  `sha256`, `urlencoding`, `encoding`, `serde_json` and
  `str::to_lowercase`.

`app/` holds the command-line program: directory walks, file and
network I/O, HTML reading with the `scraper` crate, threads and the
database.
