# sorta

Sorta keeps a video library organised on one or more external drives:
it scans a drive for uncatalogued videos, links each to a TMDB movie or
series (renaming it into `<Movies|Series>/[<Genre>/]<Title> [tmdb-<id>]/`
together with its subtitles), catalogues series season by season, keeps
genre folders in step with translated genre names, and re-encodes videos
to save space.

## Layout

- `src/` — the library, verified with Verus. Every decision the backend
  makes lives here with a contract: names and paths (`naming`, `path`,
  `series`), folder classification and the drive walk (`classify`,
  `entry`, `walker`), link/rename/unlink/re-catalogue plans (`plan`,
  `link`, `recatalog`, `sidecars`, `execute`), configuration and drives
  (`config`, `library`), genres (`genres`, `media`), TMDB data
  (`tmdb`), ffmpeg arguments and output parsing (`ffmpeg`), the
  compression job state machine (`job`), and the catalogue helpers
  (`catalog`, `inline`). Laws that span several functions are public
  proof functions named `law_*`.
- `tests/` — tests of the library on concrete values.
- `app/` — the desktop backend around the library: file system, SQLite
  (`sqlx`), HTTP (`reqwest`), ffmpeg processes (`tokio`), the file
  watcher (`notify`) and the serde shapes the frontend exchanges.
