# oxirast

A fine-grained reactive WebAssembly framework, with its logic verified by Verus.

- `src/` is the verified library:
  - `rsx`, `tokens`: the `rsx` markup language — tokens, parser, the Rust
    code a macro expands to, and static HTML rendering.
  - `vdom`: virtual-DOM nodes, their builders, and server-side HTML rendering.
  - `signal`: reactive values that hand back the listeners to notify, and
    a store of shared cells keyed by handle.
  - `router`: route tables, `:param` and `*` matching, guards, query strings,
    and server-side route rendering.
  - `cli`: the command line's decisions and a new project's files.
  - `boundary`: what the error boundary shows and logs.
  - `demo`, `wallet`: the demo pages and the wallet choice per chain.
  - `keyed`, `text`: keyed sequences and character helpers.
- `app/` is the unverified shell: the development server and scaffolder,
  the browser DOM engine, live signal cells, fetching and wallet calls, and
  the body of the `rsx!` macro.
- `tests/` exercises the library.
