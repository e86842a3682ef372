# memolo

Meeting recorder that transcribes and summarizes locally and can file the
minutes as a Notion page.

- `src/` — the verified library (Verus):
  - `text` — Unicode whitespace, trimming, UTF-8 widths, decimal rendering.
  - `markdown` — Markdown minutes to Notion blocks; cutting text into
    rich-text items of at most 2000 UTF-8 bytes.
  - `page_id` — the 8-4-4-4-12 page id from a URL or a bare id.
  - `title` — page titles `会議議事録 YYYY-MM-DD HH:MM` in local time.
  - `notion` — settings validation, status, export requests and responses.
  - `sessions` — the table of open recording sessions.
  - `recorder` — WAV format, file names, decoding of audio chunks.
  - `sidecar` — request lines, output handling and outcomes of the
    transcription and summarization helper processes.
- `app/` — the Tauri shell: commands, files, keychain, HTTP, processes.
- `tests/` — tests of the library.
