# dprint

The core of the dprint command line as a verified library: how configuration
files are read, merged and edited, how plugins are named, resolved, cached and
checked, which files go to which plugins, and how formatting work is planned
and throttled. Each public function states in its contract what it returns,
and the laws that span several functions are proof functions (`law_*`).
Where the result comes from an outside crate, the contract states what the
library does with it: the edits made through jsonc_parser's syntax tree, for
instance, are stated by what the edited text reads back as; when it does not
read back as planned, the planned value is written out as JSON instead.

## Layout

- `src/` — the library, verified with Verus.
  - `configuration.rs`, `deserialize.rs`, `template.rs`, `global_config.rs`,
    `config_discovery.rs`: the configuration file's values, the root object
    read from its JSON, templates in it, the global configuration and where
    configuration files are looked for.
  - `resolve.rs`: what configuration files contribute when they extend or
    inherit from one another, and which plugins a remote file may name.
  - `changes.rs`, `json_edit.rs`, `config_edit.rs`, `manipulation.rs`:
    where a plugin's changes to its section land and what they do to its
    JSON value, applying them through the file's syntax tree; adding and
    updating a plugin's url.
  - `init_config.rs`, `project_type.rs`: `dprint init`.
  - `patterns.rs`, `paths.rs`, `name_resolution.rs`, `path.rs`,
    `canonicalized_path_buf.rs`: file patterns, paths and which plugins
    format a file.
  - `permissions.rs`, `process_plugin.rs`, `executables.rs`, `wasm.rs`,
    `cache_meta.rs`, `cache_file_names.rs`, `collection.rs`, `downloads.rs`:
    plugins — deno permissions, process plugin manifests, the wasm boundary,
    the cache and the names of its files, the collection of plugins, and
    following redirects.
  - `format.rs`, `incremental.rs`, `environment.rs`: planning and throttling
    the formatting work, incremental formatting, and what the environment
    contributes.
  - `text.rs`: text helpers shared by the modules.
- `tests/` — tests of the library.
- `app/` — the command line around the library: the file system, the
  environment, prompts, `serde` copies of manifest types, and the CPU
  bounds, which are computed in floating point.
