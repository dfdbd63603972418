# llama-preset-proxy

An HTTP proxy for a `llama-server` in router mode (`--models-preset`). Aliases of
the router may share one model. A request for an alias whose model is loaded
under another alias is rewritten for that one, with the sampling parameters of
the alias that was asked for, so the model is not unloaded and loaded again.

## Layout

- `src/` is the library: everything that is decided about presets and requests,
  with contracts that Verus proves.
  - `text`, `table`, `json`: text, maps keyed by text, JSON values
  - `wire`: JSON values as bytes, through `serde_json`
  - `ini`, `ini_laws`: INI documents
  - `keys`, `settings`, `identity`, `identity_laws`: the keys of a preset
  - `preset`, `preset_laws`: presets and what they add to a request
  - `models`: the backend's model list
  - `tracker`, `refresh`, `run_laws`: which alias is active, when to ask the
    backend, and what many callers at once can rely on
  - `intercept`, `exchange`, `routing_laws`: the way of a request
  - `headers`, `paths`, `path_laws`: what of a request is forwarded, and where
  - `reply`, `startup`: the proxy's own answers, and its settings
- `app/` is the program: arguments, the server, the client, locks and clocks.
- `tests/` runs the library.

## Behaviour

- `POST` bodies that name an alias with a model identity are rerouted where
  another alias is active for the model; what the client has set stays.
- All other requests are forwarded as they are. Headers of one connection are
  not forwarded, and neither are paths with `.` or `..` segments.
- `GET /healthz`, `GET /readyz` and `GET /version` are answered by the proxy.
- Errors are JSON, `{"error": "..."}`: 404 for a refused path, 413 for a body
  over the limit, 400 for one that cannot be read, 502 for a backend that cannot
  be reached, 503 under overload.
