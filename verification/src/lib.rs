//! Configuration model of a llama.cpp front end.
//!
//! Settings are text: INI files, forms, command lines, JSON documents, reports. Every
//! contract says what a text is, as a sequence of characters, or which of its
//! readings is meant. Files, sockets and processes are the caller's; what was read
//! comes in as text, and what is to be written goes out as text.

pub mod bench;
pub mod bench_laws;
pub mod cli;
pub mod decimal;
pub mod device_laws;
pub mod devices;
pub mod exec;
pub mod file_laws;
pub mod form;
pub mod form_laws;
pub mod gguf;
pub mod gguf_laws;
pub mod gpu_split;
pub mod http;
pub mod ini;
pub mod ini_laws;
pub mod ini_line_ends;
pub mod ini_text_laws;
pub mod iface_laws;
pub mod integration_laws;
pub mod integrations;
pub mod json;
pub mod kv_cache;
pub mod letters;
pub mod line_laws;
pub mod log_tail;
pub mod machine;
pub mod model_scan;
pub mod net_ifaces;
pub mod pathname;
pub mod preset_file;
pub mod presets;
pub mod report;
pub mod report_laws;
pub mod result_laws;
pub mod results;
pub mod rounding;
pub mod run_status;
pub mod runs;
pub mod sections;
pub mod selection;
pub mod selection_laws;
pub mod server_cfg;
pub mod server_file;
pub mod server_laws;
pub mod server_run;
pub mod sha256;
pub mod split_laws;
pub mod stamp;
pub mod sweep;
pub mod sweep_laws;
pub mod text;
pub mod utf8;
