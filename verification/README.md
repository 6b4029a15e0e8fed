# yt_dlp_rs

Lists the formats of a YouTube video, as `yt-dlp -F` does.

The library under `src/` is written in Verus and verified: reading the
player response out of a watch page, turning its stream entries into
formats (`format`, `mime`), ordering them (`ordering`, with `rate` for the
exact double arithmetic of bitrates in kilobits), refusing videos that
cannot be played (`extract`), the cookie file (`cookies`), the challenge
solver's request and answer (`solver`), and the cells of the listing
(`listing`, `utils`). `json` is the plain-data JSON document that these read, parsed with
`serde_json` behind a trusted wrapper.

`app/` is the command around it: argument parsing, HTTP, the Node.js solver
process, and coloured output.
