# reheader_core

The rule engine of ReHeader Desktop, a local proxy that rewrites HTTP request
and response headers for a dedicated browser window, written in Verus and
proved against its contracts.

- `src/` is the verified library: the profile model and its compilation into
  a ruleset (`rules`), what a request is planned and decided (`rules`,
  `inspect`), header edits on an `http::HeaderMap` (`headers`), the inspector
  page, the parsers that read a system proxy setting (`proxydetect`,
  `upstream`), the browser launch choices (`launch`) and the certificate pin
  (`ca`). Regular expressions, base64, SHA-256 and the header map are used
  through small trusted wrappers whose contracts name what those crates
  compute.
- `tests/` runs the library with the real crates linked.
- `app/` is the program around it: command line, the hudsucker proxy, the
  axum control panel, files, processes and the system's proxy settings.
