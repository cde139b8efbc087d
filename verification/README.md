# docpact

`docpact` is a deterministic, diff-driven documentation governance engine: it loads
repository and workspace configuration, matches changed paths against rule triggers,
reports the governed documents a change should have reviewed or updated, checks their
review metadata, routes readers to the documents they should read before coding, and
manages baselines and waivers as explicit artifacts.

## Layout

- `src/` is the verified library. Every function carries a `requires`/`ensures`
  contract stated over spec functions and views, and Verus proves it. Where a result
  comes from `yaml_serde` or from `std::path`, the contract speaks of it through a
  named, unproved specification of that call (`yaml_top`, `stripped_path`).
  - `config/` models the configuration (rules, scoped blocks, catalog, ownership),
    validates it, resolves workspace inheritance and computes effective configs.
  - `rules/` matches paths against glob patterns and collects expected documents.
  - `check.rs`, `metadata.rs`, `yamldoc.rs` and `reporters.rs` evaluate a change and
    render its problems as text, JSON-ready reports and SARIF.
  - `baseline.rs`, `waiver.rs` and `diagnostics.rs` handle the adoption artifacts.
  - `route.rs`, `explain.rs`, `list_rules.rs`, `doctor.rs` and `validate_config.rs`
    build the reports of the inspection commands.
  - Public `law_*` proof functions state properties that span several functions,
    such as what re-applying a baseline or a waiver file does.
- `app/` is the command-line program around the library: argument parsing, file and
  git access, and serialization.
- `tests/` exercises the library on concrete values.
