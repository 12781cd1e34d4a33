# weaver

A schema-driven toolkit for OpenTelemetry: telemetry schemas, semantic
convention catalogs, version changes, reference resolution and the decisions
of a client SDK generator.

## Layout

- `src/` is the library, written and proved with Verus:
  - `text`, `text_map`, `key_map`, `sorted`: texts, maps keyed by text and
    their sorted values.
  - `tags`: sets of tags and how they merge.
  - `version`: schema versions, their renamings and the changes in force at
    a version.
  - `semconv`: semantic convention groups, attributes and metrics, how groups
    are validated, and the catalog that indexes and resolves them.
  - `resolved`: self-contained resolved schemas and registries.
  - `resolver`: reference resolution of attributes, registries, resources,
    metrics and whole schemas.
  - `schema`: telemetry schemas and where they are loaded from.
  - `template`: the filters, functions and testers of the templates, case
    conventions, and the generator's decisions.
  - `cache`: the errors of the local cache.
- `tests/` exercises the library.
- `app/` holds the input and output around it: YAML loading (serde),
  HTTP (ureq), the git cache, the console logger (paris) and the Tera
  template rendering.
