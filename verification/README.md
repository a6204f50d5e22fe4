# chloride

`cl`, the Chloride command line and terminal UI: uploads with an expiry
picker and progress block, link regeneration, quota, a local file manager,
and `cl find`, a name and content search with an inline picker.

The decisions live in the library under `src/`, written in Verus and proved
against their contracts:

- `api`, `config`: endpoints, which token a request carries, when the
  refresh token is traded in, how a failed reply reads.
- `app`, `keys`, `screen`: the full-screen interface as a state machine
  (listing, cursor, modes, forms, search results) and the text it shows.
- `search`, `glob`, `order`, `find`, `picker`, `frame`: search planning,
  name matching, result order, the streamed and grouped outputs, and every
  line of the inline picker.
- `inline`, `text`, `paths`: width-aware truncation and redraw, text and
  path helpers.
- `upload`, `regenerate`, `update`, `commands`: the inline commands' rules.

`app/` is the program around it: argument parsing, the terminal, the disk,
the network, the walker threads and the ratatui drawing. `tests/` exercises
the library with the outside crates linked.
