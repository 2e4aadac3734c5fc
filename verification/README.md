# rendermd

The text processing of RenderMD, a GTK4 Markdown viewer/editor, as a
library verified with Verus, and the application around it.

`src/` is the library. Its functions carry contracts that Verus proves,
except three small trusted wrappers whose contracts are assumed: the
calls to `pulldown_cmark` (table events), `char::is_alphanumeric` and
`String::push`.

- `tables` — GFM pipe tables: parsing (over the events of pulldown-cmark),
  the three serialisation styles, cell edits and row inserts that patch
  the buffer in place, and the character offsets an editor buffer needs.
- `emoji`, `alerts`, `mermaid`, `preview` — the passes that run before the
  Markdown renderer: `:shortcode:` emoji, GitHub alerts, Mermaid fences.
- `diff`, `markers` — line and word diffs and the change markers shown
  after a reload or for a commit of the history.
- `images`, `history`, `messages`, `editor`, `page`, `html`, `text` —
  image references in the source, the git history rail, the messages the
  preview posts, the window title and pasted images, the preview page
  itself, escaping, string helpers.

`app/` is the GTK program: windows, dialogs, file and git I/O, the file
watcher and the calls into comrak, which renders Markdown to HTML (its
raw-HTML option is the raw identifier `r#unsafe`, which the library's
source rules do not admit).

Of the table editor, cell edits and row inserts are here. Sorting, column
insert/delete, row delete, alignment changes, smart paste and the
click-to-edit attributes of the preview are not implemented: the table
model, paste and render code they are built on was not available to
this project, so there was nothing to carry them over from. Without the
click-to-edit attributes the preview posts no table messages; the
application's handlers for them are kept for when it does. The Mermaid
bundle is read from `data/js/mermaid.min.js` at run time; without it,
diagrams show as their source.

`tests/` holds the tests, run against the compiled library.
