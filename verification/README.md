# m3u8_core

A download manager for HLS (M3U8) video streams: it reads a media playlist,
downloads and decrypts its segments with bounded parallelism, merges them with
FFmpeg into one MP4, and keeps parent tasks (a series, a film collection) and their
subtasks in SQLite. A small HTTP server exposes tasks, settings, the download folder
and a TMDB search.

## Layout

- `src/` is the library, verified with Verus. Each module states what it computes
  in `requires`/`ensures` over spec functions, and proves it:
  - `m3u8` lists the segments of a media playlist (keys, maps, file names, sizes),
    follows a master playlist's single downloadable variant, and proves that the
    files it names never clash;
  - `crypto` reads IVs and decrypts AES-128-CBC segments;
  - `naming` turns a task request into named subtasks; `placement` decides where a
    finished video is saved;
  - `task` holds the status rules (parent status, pause, resume, overwrite) and the
    course of a download run, step by step;
  - `files` formats sizes, builds the listing of the download folder from the
    directory tree as read from disk (hidden entries left out, newest first), and
    proves that folder counts and times agree at every depth of that listing;
  - `merger` writes the local playlist and FFmpeg arguments and picks the FFmpeg
    executable; `downloads` the bookkeeping of a download;
  - `settings`, `tmdb`, `db`, `api` hold configuration, TMDB requests, the database
    location and the HTTP shapes; `text` and `pattern` are the character-level and
    regular-expression helpers they share.
- `tests/` exercises the library on concrete values.
- `app/` is the server: HTTP handlers, SQLite access, file system, HTTP downloads,
  running FFmpeg, and the floating-point progress figures. It calls the library for
  every decision.
