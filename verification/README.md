# sozune-redirectionio

A [redirection.io](https://redirection.io/) redirect engine, run as a Sozune
plugin compiled to WebAssembly. It matches rules locally, with no agent. Rules
are carried in the plugin config, and a small sync process refreshes them from
redirection.io.

## Layout

- `src/` is the library, verified with Verus. It holds what the plugin and the
  sync decide and compute:
  - `guest`: what becomes of a request, step by step;
  - `host`: texts and lists read from the http-wasm host;
  - `request`: the engine's model of a request;
  - `ruleset`: the rules of a config, and the router built from them;
  - `random`: the random source of the guest;
  - `translate`: editor rules (`GET /rules`) into engine rules;
  - `sync`: the sync cycle, its config, its URL, its files;
  - `json`, `text`: the calls into `serde_json` and the standard library.
- `app/` performs the steps: the wasm entry points and host calls, HTTP, files,
  the `redirectionio` engine.
- `tests/` are the library's tests.

## Behaviour

- **Redirect**: a matching rule with a status code sets that status and the
  headers of its action, and short-circuits; the backend is never reached.
- **Router**: built when the config is first read, kept from one request to the
  next, and built anew only when the config changes.
- **No match, empty ruleset, no config**: the request continues untouched.
- **A failed sync** leaves the previous ruleset file as it was.

## Sync

| Env | Description |
|---|---|
| `RIO_API_TOKEN` | redirection.io API token. Required. |
| `RIO_PROJECT_ID` | Project UUID. Required. |
| `RIO_OUT` | Path to write the ruleset config. Default `rules.json`. |
| `RIO_INTERVAL` | Seconds between syncs. Default `300`. `0` runs once and exits. |
| `RIO_API_BASE` | API base URL. Default `https://api.redirection.io`. |
