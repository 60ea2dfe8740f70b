# memoq

The core of a computer-assisted translation server, verified with Verus.

`src/` is the library. Every function there carries a contract that Verus
proves:

- `sentences`, `xliff`, `xml`: sentences of TXT, XLIFF and DOCX documents and
  the segments of XLIFF files.
- `qa`: tag, number, untranslated, identical and forbidden-term checks.
- `tm`: edit distance, fuzzy scores and the ranking of memory matches.
- `terms`: tokens, n-gram counts and the C-value statistics of term candidates.
- `alignment`: token counts of sentences and the pairing read back from the
  alignment table.
- `locks`: the table of segment locks and the messages of a live connection.
- `vendor`: the assignment workflow (pending, submitted, approved or rejected).
- `records`, `auth`, `mt`, `analytics`, `plugins`, `plugin_api`, `forms`,
  `config`: the records and requests of the API and the rules applied to them.

The few calls into other crates and into the standard library that Verus does
not know (`quick_xml`, `zip`, `argon2`, `std::path`, Unicode case and
classes) sit behind small functions marked `#[verifier::external_body]`, each
with a doc comment saying what its contract assumes.

`app/` is the HTTP server around the library (axum, SQLite, JSON Web Tokens,
HTTP clients for DeepL and Google, the live-connection loop, and the
floating-point scores). `tests/` holds the tests of the library.
