# Paperback

The verified core of a document reader for people who read with a screen reader or a braille
display. The library in `src/` holds what the reader decides and computes; Verus proves its
contracts.

- `math` reads formulas: AsciiMath and speech from MathCAT, with bounded caches and the author's
  alternative text as a fallback. `xml` and `dom` find formulas in documents; `xml_reading` says what
  a reader makes of the fragments that `xml` writes.
- `parse_registry` keeps track of the documents that are being opened, of the startup restore and of
  re-parses, and says what the application is busy with.
- `open_as` finds out which parser reads a document.
- `window` holds what the main window decides: how a request to open a document goes on, what a
  finished parse leads to, and what menus, options, timers and hotkeys do.
- `text`, `html`, `names`, `paths` and `locale` are shared helpers; `paths`, `locale`,
  `math::mathcat`, `xml` and `dom` hold the boundaries to code that is not verified.

Where a decision needs the outside (a question to the user, a file, a parser), it is a state machine:
each state says what has to be found out or done, and the next step takes the answer.

`app/` carries the decisions out: threads, settings, dialogs and native windows. `tests/` runs the
library with the real outside crates.
