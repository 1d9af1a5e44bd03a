# llama_cpp_config

The configuration and measurement side of a llama.cpp front end, with its rules
proved by Verus.

- `src/` is the library. INI files are read and edited as text (`ini`), and sections
  are written so that they read back (`sections`, `preset_file`, `server_file`);
  presets and server settings become forms and command-line changes (`presets`,
  `form`, `server_cfg`, `cli`) and the arguments and steps of a server
  (`server_run`); a model is spread over GPUs (`gpu_split`, `devices`,
  `kv_cache`); model files and their headers are listed and described
  (`model_scan`, `gguf`); benchmarks and parameter sweeps are planned, read and
  reported (`bench`, `exec`, `runs`, `results`, `report`, `sweep`, `stamp`); the
  configuration of OpenCode is merged (`integrations`). `text`, `utf8`, `letters`,
  `rounding`, `decimal`, `json` and `sha256` carry the rest.
- `tests/` runs the library on concrete values.
- `app/` is the program: its command line, the files on disk, sockets, child
  processes and clocks, and floating-point arithmetic on measured rates.

Contracts speak of texts as sequences of characters. What the library takes from
outside and does not prove is small: JSON is read and written by `serde_json`
(`json.rs`), letters change their case as std has it (`letters.rs`), and
`String::push` appends a character (`text.rs`).
