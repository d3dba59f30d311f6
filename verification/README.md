# ncblog

The back end of a minimalist Hugo blog with an admin panel. `src/` is the
verified library (Verus); `app/` is the HTTP server around it (axum), which
does the file, process and network work and hands the library plain values.

Library modules:

- `text`: characters of strings, trimming, text order.
- `front_matter`: splitting a file into its `+++` TOML front matter and body.
- `toml_doc`: TOML documents as trees (date-times keep their text), read and written through the `toml` crate.
- `names`: post and page names (`^[a-zA-Z0-9_\-]+$`, through `regex`), file stems and extensions.
- `content`: posts and pages read from their files.
- `render`: the file text written for posts and pages, and what splitting it gives back.
- `post_list`: the post list, sorted by date, newest first, stable.
- `config`: the site settings in `hugo.toml`, read and written.
- `session`: the shared state and the 24-hour admin sessions (ids from `uuid`).
- `auth`: login, logout and the session cookie.
- `project`: the directories tried as the project root (`PROJECT_ROOT`, then the working directory and the executable's directory, each with up to five ancestors).
- `site_build`: the outcome of a Hugo build.
