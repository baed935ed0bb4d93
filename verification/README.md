# mezon_desktop

Native side of the Mezon desktop shell, split into a verified library and a
thin command-line program.

* `src/` — the library, checked with Verus:
  * `clipboard` — the tolerant base64 decoder (trimming, dropped line breaks and
    spaces, `=` padding per group), data-URL payloads, and the checks made
    before an image goes on the clipboard, and the PNG file made of the image read
    from the clipboard; proofs that decoding what the encoder wrote gives the
    bytes back, that canonical base64 text is given back by decoding and
    encoding again, and that spaces and line breaks never change what decodes.
  * `commands` (with `commands::base64`) — the padded base64 encoder and the
    decisions behind the desktop commands: title bar actions, dock badge text
    and script, download file names, image actions, update reports, the device
    id (hash of host and user name, in hexadecimal).
  * `screen_capture` — the per-type cache of screen and window sources, its
    first answer and pages, and thumbnails as PNG data URLs; proofs that paging
    visits every source exactly once and that the cache reads back what was
    stored.
  * `capture_platform` — pixel layout conversions (BGRA bitmaps, X11 pixmaps,
    padded CoreGraphics rows), which windows are offered, and source ids/names.
  * `active_window` — the focused-window record (none when it would name
    neither a class nor a title) and the parsing of window properties
    (`WM_CLASS`, titles, UTF-16 window texts, process names).
  * `shell`, `lite_commands` — deep links, tray menu, focus events, shortcuts,
    and the commands of the lighter shell.
  * `text`, `image_ops` — character helpers (trimming, decimal and hexadecimal
    notation, a UTF-16 decoder proved lossless on well-formed input); the calls
    into the `image` crate.
* `app/` — the program: system clipboard (arboard), X11 queries (x11rb),
  downloads (reqwest), the process-wide source cache, JSON output (serde).
* `tests/` — tests of the library on concrete values.
