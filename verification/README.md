# admin_editor

The logic of an admin site's rich text editor and its widgets, written in
Verus: each function carries a contract, and Verus proves the code meets it.

## Layout

- `src/` — the verified library.
  - `ast`, `model`: the document model (blocks, inline runs, marks, links) and
    its mathematical views.
  - `commands`, `edit_laws`: editing commands (insert text, toggle marks, split,
    delete, links, block types) and the laws that relate them.
  - `render`, `escape`, `sanitize`, `embed`, `markup`: HTML output of documents,
    escaping, URL and colour checks, embed recognition, image and embed markup.
  - `html`, `parser`, `parse_laws`: reading editor HTML back into a document,
    and what holds of the documents read.
  - `shortcuts`, `slash`, `palette`, `classes`, `formatting`: keyboard
    shortcuts, the slash menu, command palette navigation, class lists of
    elements, and the choices behind formatting the page under the cursor.
  - `grid`: the dots that wander over the animated background grid.
  - `chart`: the scale of the page views chart.
  - `text`, `shorten`, `score`, `crop`, `table_header`: smaller helpers.
- `tests/` — tests of the library.
- `app/` — what stays outside the proofs: JSON (de)serialisation of documents
  through serde copies of the model, and computations on floating-point numbers
  (pixel geometry, scores, number formatting).

Calls into other crates (`uuid`, `regex`, `scraper`, `getrandom`) and a few
string functions of `std` go through small trusted wrappers whose contracts
say what the library relies on.
