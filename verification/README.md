# zappy

The game logic of a Zappy server, of its learning AI client and of its
graphical front-end, written in Verus with contracts proved by the verifier.

* `src/` is the verified library:
  * server side: `map`, `resources` (spreading resources at their densities),
    `team`, `egg`, `player`, `config`, `command` (the bounded command queue),
    `client` and `server_protocol` (the handshake and line handling, as a
    relation `line_step` between states), `rng` (the random draws);
  * AI client side: `ai_protocol` (parsing server lines), `ai_state` (the
    state vector and the action mask);
  * front-end side: `input_bindings`, `console`, `host_commands` (the
    commands and log lines that the engine offers its plugins; the log
    lines are styled with `colored`);
  * `text` (characters, trimming, splitting, numbers) and `laws`
    (properties that span several operations).
* `app/` is the server program (command line, sockets with `mio`), and the
  glue that needs floating point, `macroquad`, `notify`, `serde_json`, `dirs`
  or `colored` for console output. Loading WebAssembly plugins is not part
  of it: the plugin interface definitions (the `.wit` files) that such a
  host is generated from are not in this project.
* `tests/` runs the library on concrete values.
