# fast_xbrl_parser

Reads XBRL instance documents (XML filings, as published on SEC EDGAR) into a
flat list of facts, each with the units, periods and explicit dimensions that
its `unitRef` and `contextRef` point to. The library is written in Verus: its
functions carry contracts over mathematical models of their inputs and
results, and Verus proves them.

Layout:

- `src/parser/document.rs`: the parsed XML tree as plain records (nodes in
  document order) and the call into `roxmltree` that produces it.
- `src/parser/xml.rs`: facts, units, periods, dimensions and filings; what the
  facts of a document are (spec functions) and the verified code that reads
  them; the facts as table rows; laws about the facts.
- `src/helpers/input.rs`: classifying and checking an input (EDGAR address or
  local path), the file's base name, the CIK and accession number, and the
  user agent sent to the SEC.
- `src/helpers/sanitize.rs`: plain text out of text that may hold HTML (calls
  `scraper` and `regex`).
- `src/text.rs`, `src/decimal.rs`: string and number utilities with their
  specifications and laws.
- `app/`: the command-line program (argument parsing, downloads, file I/O,
  JSON and CSV output).
- `tests/`: tests of the library on concrete inputs.
