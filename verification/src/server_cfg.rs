//! The server-wide settings: server.ini, as typed fields.
use vstd::prelude::*;
use crate::presets::copied;
use crate::text::{opt, to_chars, trim, trimmed};

verus! {

/// The settings; `None` is a key that is not set.
#[derive(Debug, PartialEq, Eq)]
pub struct ServerConfig {
    /// The port the server listens on.
    pub port: Option<i32>,
    /// The address it binds.
    pub hostname: Option<String>,
    /// Keep the model in RAM.
    pub mlock: Option<bool>,
    /// Read the weights instead of mapping the file.
    pub no_mmap: Option<bool>,
    /// CPU threads for generation.
    pub threads: Option<i32>,
    /// Minimum prompt-cache reuse chunk.
    pub cache_reuse: Option<i32>,
    /// CPU threads for prompt processing.
    pub threads_batch: Option<i32>,
    /// Models kept resident at once; 0 means unlimited.
    pub models_max: Option<i32>,
    /// Where the model files are.
    pub models_dir: Option<String>,
    /// GPUs in split order; none means all detected.
    pub device: Option<String>,
    /// `--split-mode`.
    pub split_mode: Option<String>,
    /// `--tensor-split`.
    pub tensor_split: Option<String>,
    /// `--override-tensor`.
    pub override_tensor: Option<String>,
    /// GPU for the image encoder.
    pub mmproj_device: Option<String>,
    /// The web UI's MCP proxy.
    pub webui_mcp_proxy: Option<bool>,
    /// Fit unset arguments to device memory.
    pub fit: Option<bool>,
    /// Continue a trailing assistant message.
    pub prefill_assistant: Option<bool>,
    /// Log verbosity threshold.
    pub log_verbosity: Option<i32>,
    /// Base URL of the integrations, where it is not the server's own.
    pub opencode_base_url: Option<String>,
    /// API key of the integrations.
    pub opencode_api_key: Option<String>,
}

impl ServerConfig {
    /// Two configurations with the same values.
    pub open spec fn same(self, other: ServerConfig) -> bool {
        &&& self.port == other.port
        &&& opt(self.hostname) == opt(other.hostname)
        &&& self.mlock == other.mlock
        &&& self.no_mmap == other.no_mmap
        &&& self.threads == other.threads
        &&& self.cache_reuse == other.cache_reuse
        &&& self.threads_batch == other.threads_batch
        &&& self.models_max == other.models_max
        &&& opt(self.models_dir) == opt(other.models_dir)
        &&& opt(self.device) == opt(other.device)
        &&& opt(self.split_mode) == opt(other.split_mode)
        &&& opt(self.tensor_split) == opt(other.tensor_split)
        &&& opt(self.override_tensor) == opt(other.override_tensor)
        &&& opt(self.mmproj_device) == opt(other.mmproj_device)
        &&& self.webui_mcp_proxy == other.webui_mcp_proxy
        &&& self.fit == other.fit
        &&& self.prefill_assistant == other.prefill_assistant
        &&& self.log_verbosity == other.log_verbosity
        &&& opt(self.opencode_base_url) == opt(other.opencode_base_url)
        &&& opt(self.opencode_api_key) == opt(other.opencode_api_key)
    }

    /// The port, or the one that the server takes by itself.
    pub fn port_or_default(&self) -> (r: i32)
        ensures
            r == match self.port {
                Some(p) => p,
                None => 8080,
            },
    {
        match self.port {
            Some(p) => p,
            None => 8080,
        }
    }
}

impl Clone for ServerConfig {
    fn clone(&self) -> (r: Self)
        ensures
            r.same(*self),
    {
        ServerConfig {
            port: self.port,
            hostname: copied(&self.hostname),
            mlock: self.mlock,
            no_mmap: self.no_mmap,
            threads: self.threads,
            cache_reuse: self.cache_reuse,
            threads_batch: self.threads_batch,
            models_max: self.models_max,
            models_dir: copied(&self.models_dir),
            device: copied(&self.device),
            split_mode: copied(&self.split_mode),
            tensor_split: copied(&self.tensor_split),
            override_tensor: copied(&self.override_tensor),
            mmproj_device: copied(&self.mmproj_device),
            webui_mcp_proxy: self.webui_mcp_proxy,
            fit: self.fit,
            prefill_assistant: self.prefill_assistant,
            log_verbosity: self.log_verbosity,
            opencode_base_url: copied(&self.opencode_base_url),
            opencode_api_key: copied(&self.opencode_api_key),
        }
    }
}

impl Default for ServerConfig {
    /// Nothing is set.
    fn default() -> (r: Self)
        ensures
            r.port is None,
            r.hostname is None,
            r.mlock is None,
            r.no_mmap is None,
            r.threads is None,
            r.cache_reuse is None,
            r.threads_batch is None,
            r.models_max is None,
            r.models_dir is None,
            r.device is None,
            r.split_mode is None,
            r.tensor_split is None,
            r.override_tensor is None,
            r.mmproj_device is None,
            r.webui_mcp_proxy is None,
            r.fit is None,
            r.prefill_assistant is None,
            r.log_verbosity is None,
            r.opencode_base_url is None,
            r.opencode_api_key is None,
    {
        ServerConfig {
            port: None,
            hostname: None,
            mlock: None,
            no_mmap: None,
            threads: None,
            cache_reuse: None,
            threads_batch: None,
            models_max: None,
            models_dir: None,
            device: None,
            split_mode: None,
            tensor_split: None,
            override_tensor: None,
            mmproj_device: None,
            webui_mcp_proxy: None,
            fit: None,
            prefill_assistant: None,
            log_verbosity: None,
            opencode_base_url: None,
            opencode_api_key: None,
        }
    }
}

/// An optional text, none where it is blank.
pub open spec fn nonblank(v: Option<Seq<char>>) -> Option<Seq<char>> {
    match v {
        Some(s) => if trim(s).len() > 0 {
            Some(s)
        } else {
            None
        },
        None => None,
    }
}

/// A text that is set, unless it is blank.
pub fn opt_nonblank(v: Option<String>) -> (r: Option<String>)
    ensures
        opt(r) == nonblank(opt(v)),
{
    match v {
        Some(s) => {
            let c = to_chars(s.as_str());
            if trimmed(c.as_slice()).len() > 0 {
                Some(s)
            } else {
                None
            }
        },
        None => None,
    }
}

} // verus!
