# hl2web

Renders a HyperList outline as one self-contained interactive HTML page:
native `details`/`summary` folding, live search, and the hyperlist.vim colors.

The library under `src/` is verified with Verus:

- `parse` reads the list: one item per non-blank line, its level from the
  indentation (tabs or three spaces), literal blocks between lone backslashes.
- `head` renders Starters, Identifiers, State/Transition markers, checkboxes
  and Operator/Property heads; `elements` renders the inline elements.
- `refs` computes the keys references are matched against and renders
  `<references>`; `render` nests the items into `details` elements and
  `page` frames the result.

`app/` holds the command line: `hl2web [--title T] file.hl > file.html`.
