# mcode_plugin_host

A verified library for a plugin host: it checks what providers and resource
plugins hand over, and keeps the registry of plugins.

- `provider_validation` checks catalogs, requests, prepared bodies, headers and
  decoded responses of providers. Wire JSON is a flat list of nodes; accepted
  lists are exactly the bounded trees, and their canonical text determines
  their value. Closed adapter contracts say which body a request must become.
- `resources_validation` checks requests and results of resource plugins and
  computes their logical charge.
- `registry` holds plugins and their contributions in immutable snapshots that
  transactions replace.
- `name_map` and `text` hold what the others share.

Every function states in its contract what it returns. What spans several
functions is stated as a public proof function, mostly in modules named after
the laws that they hold (`laws`, `prepare_laws`, `wire_tree`, `wire_value`,
`round_trip`, `preimage`, `domains`, `placement`).

Hashing, base64, semantic versions and JSON syntax come from the crates `sha2`,
`base64`, `semver` and `serde_json`, each behind a small function whose contract
names what is relied on.

`app/` wraps the library for use in a process: a registry behind a lock, the
JSON form of host bindings, and error types with `Display`.
