# openapi_yml

Reads and writes a small subset of OpenAPI documents in YAML form, line by
line, and prepares request reports from documents parsed by
`openapi3_parser`.  The library is verified with Verus against
specifications over character sequences; the calls into `regex`,
`serde_yaml`, `openapi3_parser` and `std`'s `Debug` formatting sit behind
small trusted wrappers whose contracts state what those calls give.

## Layout

- `src/text.rs`: splitting text into lines, trimming, and picking keys and
  values out of `key: value` lines, with the lemmas the readers rely on.
- `src/status_pattern.rs`: recognising response lines such as `"200":` with
  the `regex` crate, behind trusted wrappers.
- `src/yml.rs`: the document model (`OpenApi` and its parts), its reader
  (`from_yml_string`) and its writer (`to_string`).
- `src/open_api.rs`: a second, simpler reader and writer of the same kind of
  document (methods without headers or request bodies).
- `src/fill_curl.rs`: the operations of a path, the `Content-Type` line and
  example bodies of a request body, and the report printed for a document
  parsed by `serde_yaml` into `openapi3_parser` types.
- `src/my_requests.rs`: the request type the report is meant to fill.
- `src/laws.rs`, `src/round_trip.rs`: properties that relate the readers and
  writers, above all that writing a document and reading it back gives the
  same document (`law_document_round_trip`), with the conditions under which
  this holds.
- `app/`: the program around the library: reading the file, printing the
  report, and running `curl`.
- `tests/`: tests of the library on concrete documents.
