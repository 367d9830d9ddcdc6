# moranote

The verified core of MoraNote, a Markdown editor with live preview and
export to HTML, PDF, images, Word and the Pandoc formats.

`src/` is checked by Verus. Every public function states what it returns
(or how it changes its `&mut` arguments) over mathematical models of the
data; the properties that span several calls are proof functions named
`lemma_*`.

- `text`, `paths`, `html` — characters, `std::path`-style paths (Unix
  meaning) and the small HTML reading the Word writer needs.
- `preview` — front matter, outline and statistics, resource URLs, and the
  preview page with its export forms (`renderer`). Markdown itself goes
  through pulldown-cmark.
- `docx`, `export` — the Word document parts, export profiles, file naming,
  and the arguments and messages of the converter runs.
- `settings`, `model`, `workspace`, `shell` — configuration, documents,
  the file tree, search, and what the editor window decides.
- `sidebar` — the rows of the folder tree and the recent lists, and the
  texts of the status bar.

`app/` is the program around the library: settings on disk (TOML), reading
folders and files, copying assets, running Pandoc and Chromium, writing the
Word archive and converting screenshots. The window itself (gpui) is not
part of this build.
