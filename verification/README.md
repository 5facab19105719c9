# proton_api

Contact and calendar cards of an end-to-end encrypted Proton account: how they
are read, edited, folded, sealed and sent, and how a client logs in. The
library is written in Verus. The contracts of its own functions are proved.
What it calls of other crates, and of std where it has no contract, stands
behind small wrappers: their contracts are believed, not proved, and the proofs
rest on them.

## Layout

- `vcard`, `keygroups`, `vcard_back`: contact cards, the crypto settings that a
  rebuild carries over, and what a written contact reads back as.
- `ical`, `calendar`, `calendar_cards`, `rrule`, `dates`: events as they come
  from the server.
- `listing`: listings that come in pages, and that they miss no row.
- `calendar_write`, `calendar_seal`, `edits`: edits of events, what is sent for
  them, and what an edited event reads back as.
- `contact_seal`, `sealing`, `crypto`, `openpgp`, `keys`: encryption and
  signatures. `openpgp` holds everything that is believed of the OpenPGP
  library.
- `auth`, `srp`, `naturals`, `tokens`: login, second factor and refresh.
- `contacts`, `diag`, `bridge`, `error`: the rest of what a client needs.
- `models`, `rows`, `fields`, `wire`, `json`: what crosses the network.
- `text`, `lines`, `escape`, `numbers`, `encoding`, `utf8`, `lists`, `ordered`:
  texts and collections.

Public proof functions whose names begin with `law_` state what holds of
several functions together.

`tests/` runs the library on concrete values. `app/` is ordinary Rust round it:
the HTTP clients, the log file, and the functions that a C++ sync plugin calls.
