# plinko

The verified core of the Plinko planning server and its editor widgets,
written in Verus.

- `src/` — the library. Its functions are proved against their contracts,
  except the small wrappers marked `#[verifier::external_body]` around std,
  bcrypt, chrono and rusqlite calls. Their contracts, trusted rather than
  proved, state what the called function returns, or tie its result to a
  name (an uninterpreted spec function) where it takes pages to state. The modules: UTF-8 cursor arithmetic and text editing
  (`utf8_text`, `editing`, `text_input`, `multi_line_input`), redraw tracking
  (`dirty`), the authentication and visibility rules (`auth`), the client
  connection as a state machine (`server`), static file serving
  (`static_files`), command-line parsing (`cli`), Monday.com status and user
  mapping (`status`), calendar arithmetic and navigation (`calendar`) and tag
  reordering (`tags`).
- `tests/` — tests run against the compiled library.
- `app/` — the program around it: the SQLite account store, the static file
  server, and the pixel geometry of the editor widgets.
