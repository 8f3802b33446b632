# mzkana_core

The input logic of MzKana, a kana-layout and kanji-direct input engine that
uses Mozc for conversion, written in Verus with its behaviour proved.

- `src/` — the verified library:
  - `config.rs`, `strmap.rs`, `text.rs`, `error.rs`: layout files, grid
    parsing, alias tables and validation.
  - `machine.rs`: the mathematical model of the key-handling state machine
    and its laws; `statemachine.rs`: the executable machine, proved against
    the model.
  - `codec.rs`, `message.rs`, `proto.rs`: the protobuf wire format, the
    field-by-field reading of messages, and the Mozc `Command`/`Output`
    messages.
  - `client.rs`, `worker.rs`: Mozc session requests, socket discovery and
    the batch runner; `engine.rs`: how key actions become Mozc operations
    and what the input method is told; `ffi.rs`: the C-facing result record;
    `cli.rs`: key sequences typed as text.
- `tests/` — tests of the library on concrete values.
- `app/` — the `mzkana` command-line tool, the Fcitx5-facing C ABI, socket
  I/O, the worker thread and the TOML/JSON-Schema copies of the layout types.
