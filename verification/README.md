# weixin_agent

Verified core of an SDK for the Weixin iLink Bot API, written in Verus.

- `src/` — the library, verified by Verus:
  - `messaging::markdown_filter` — CJK-aware Markdown cleanup of outbound text,
    streaming line by line (code fences, image lines, H5/H6 headings, `*`/`**` spans);
  - `messaging::{debug_mode, slash_commands, error_notice, send_media}` — debug
    switch and timing report, `/echo` and `/toggle-debug`, notice texts, media
    routing and message items;
  - `api::client` — client-version encoding, base URL, headers, response
    classification (business codes in HTTP-200 bodies) and the retry policy;
  - `media::{mime, voice_transcode, wav, remote_download}` — MIME types and
    extensions, SILK detection, WAV container and SILK encoder input, download limits;
  - `codec`, `api::json`, `media::wav` hold the calls into `base64`, `rand`,
    `serde_json` and `hound`.
- `app/` — HTTP client (`reqwest`), client object, downloads, SILK transcoding
  (`silk-rs`) and other I/O around the library.
- `tests/` — runtime tests of the library, including a comparison of the
  Markdown filter with a `regex`-based rendering of the same rules.
