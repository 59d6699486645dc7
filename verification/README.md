# singeros

The verified core of SingerOS, a karaoke and vocal-recording service.

- `src/` is the library, checked by Verus:
  - `text` — character classes, trimming, decimal numbers;
  - `names` — the checks on ids, path components and relative paths, song
    file names, MIME extensions and content types;
  - `ids` — how fresh recording ids are spelled, and why they are well formed;
  - `clock` — instants and their China Standard Time texts;
  - `sessions` — the chunked upload protocol and its laws;
  - `recordings`, `karaoke` — the two recording stores' decisions and the
    karaoke catalog's track lookup;
  - `order` — newest-first listings and putting items in listing order;
  - `client_log` — the client log's lines and the JSON metadata of requests;
  - `console`, `upload` — the browser console's levels, meter and upload
    state machines;
  - `panel` — the recording panel's badge and button rules;
  - `routes`, `protocol` — audio route types and shared protocol types.
- `app/` is the HTTP server, the file system work and the browser glue.
- `tests/` exercises the library with the real outside crates.
