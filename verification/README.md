# crypton_sweep

A verified library for an authorized network cipher sweeper and post-quantum
migration report generator, with the command line around it.

- `src/` is the library, written in Verus: port lists, target expansion, the
  prompt tokenizer, TLS evidence and risk assessment, the report model, CycloneDX
  export and import, dashboard naming and the dashboard server's decisions. Each
  public function states its result in its `ensures`; the public `lemma_*` proof
  functions state properties that hold across functions.
- `tests/` runs the library on concrete values.
- `app/` is the `crypton-sweep` program: argument parsing, files, sockets, the
  OpenSSL probe process and the terminal. It reads the dashboard template from
  `templates/report.html` and the logo from `assets/crypton-sweep-logo.svg`.
