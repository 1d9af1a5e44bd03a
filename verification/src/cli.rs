//! The command line's view of the server settings: what `server set` changes and
//! what `server show` prints.
use vstd::prelude::*;
use vstd::string::*;
use crate::presets::copied;
use crate::server_cfg::{nonblank, opt_nonblank, ServerConfig};
use crate::text::{concat, dec_int, int_str, opt, to_chars};

verus! {

/// The flags of `server set`: what was given.
#[derive(Debug)]
pub struct ServerSet {
    pub port: Option<i32>,
    pub hostname: Option<String>,
    pub mlock: Option<bool>,
    pub no_mmap: Option<bool>,
    pub threads: Option<i32>,
    pub cache_reuse: Option<i32>,
    pub threads_batch: Option<i32>,
    pub models_max: Option<i32>,
    pub models_dir: Option<String>,
    pub device: Option<String>,
    pub split_mode: Option<String>,
    pub tensor_split: Option<String>,
    pub override_tensor: Option<String>,
    pub mmproj_device: Option<String>,
    pub webui_mcp_proxy: Option<bool>,
    pub fit: Option<bool>,
    pub prefill_assistant: Option<bool>,
    pub log_verbosity: Option<i32>,
    pub opencode_base_url: Option<String>,
    pub opencode_api_key: Option<String>,
}

impl Default for ServerSet {
    /// No flag was given.
    fn default() -> (r: Self)
        ensures
            r.port is None,
            r.hostname is None,
            r.mlock is None,
            r.no_mmap is None,
            r.threads is None,
            r.cache_reuse is None,
            r.threads_batch is None,
            r.models_max is None,
            r.models_dir is None,
            r.device is None,
            r.split_mode is None,
            r.tensor_split is None,
            r.override_tensor is None,
            r.mmproj_device is None,
            r.webui_mcp_proxy is None,
            r.fit is None,
            r.prefill_assistant is None,
            r.log_verbosity is None,
            r.opencode_base_url is None,
            r.opencode_api_key is None,
    {
        ServerSet {
            port: None,
            hostname: None,
            mlock: None,
            no_mmap: None,
            threads: None,
            cache_reuse: None,
            threads_batch: None,
            models_max: None,
            models_dir: None,
            device: None,
            split_mode: None,
            tensor_split: None,
            override_tensor: None,
            mmproj_device: None,
            webui_mcp_proxy: None,
            fit: None,
            prefill_assistant: None,
            log_verbosity: None,
            opencode_base_url: None,
            opencode_api_key: None,
        }
    }
}

/// A text flag: what was given, unless it is blank; nothing given changes nothing.
pub open spec fn set_text(flag: Option<String>, was: Option<String>) -> Option<Seq<char>> {
    match flag {
        Some(s) => nonblank(Some(s@)),
        None => opt(was),
    }
}

/// A flag whose every value counts.
pub open spec fn set_value<T>(flag: Option<T>, was: Option<T>) -> Option<T> {
    match flag {
        Some(v) => Some(v),
        None => was,
    }
}

/// A flag that clears the setting where it is not positive.
pub open spec fn set_positive(flag: Option<i32>, was: Option<i32>) -> Option<i32> {
    match flag {
        Some(v) => if v > 0 {
            Some(v)
        } else {
            None
        },
        None => was,
    }
}

fn apply_text(flag: &Option<String>, was: &Option<String>) -> (r: Option<String>)
    ensures
        opt(r) == set_text(*flag, *was),
{
    match flag {
        Some(s) => opt_nonblank(Some(s.clone())),
        None => copied(was),
    }
}

fn apply_int(flag: Option<i32>, was: Option<i32>) -> (r: Option<i32>)
    ensures
        r == set_value(flag, was),
{
    match flag {
        Some(v) => Some(v),
        None => was,
    }
}

fn apply_bool(flag: Option<bool>, was: Option<bool>) -> (r: Option<bool>)
    ensures
        r == set_value(flag, was),
{
    match flag {
        Some(v) => Some(v),
        None => was,
    }
}

fn apply_positive(flag: Option<i32>, was: Option<i32>) -> (r: Option<i32>)
    ensures
        r == set_positive(flag, was),
{
    match flag {
        Some(v) => if v > 0 {
            Some(v)
        } else {
            None
        },
        None => was,
    }
}

impl ServerSet {
    /// Whether a configuration is another one with the flags applied.
    pub open spec fn applied(self, now: ServerConfig, was: ServerConfig) -> bool {
        &&& now.port == set_value(self.port, was.port)
        &&& opt(now.hostname) == set_text(self.hostname, was.hostname)
        &&& now.mlock == set_value(self.mlock, was.mlock)
        &&& now.no_mmap == set_value(self.no_mmap, was.no_mmap)
        &&& now.threads == set_positive(self.threads, was.threads)
        &&& now.cache_reuse == set_positive(self.cache_reuse, was.cache_reuse)
        &&& now.threads_batch == set_positive(self.threads_batch, was.threads_batch)
        &&& now.models_max == set_value(self.models_max, was.models_max)
        &&& opt(now.models_dir) == set_text(self.models_dir, was.models_dir)
        &&& opt(now.device) == set_text(self.device, was.device)
        &&& opt(now.split_mode) == set_text(self.split_mode, was.split_mode)
        &&& opt(now.tensor_split) == set_text(self.tensor_split, was.tensor_split)
        &&& opt(now.override_tensor) == set_text(self.override_tensor, was.override_tensor)
        &&& opt(now.mmproj_device) == set_text(self.mmproj_device, was.mmproj_device)
        &&& now.webui_mcp_proxy == set_value(self.webui_mcp_proxy, was.webui_mcp_proxy)
        &&& now.fit == set_value(self.fit, was.fit)
        &&& now.prefill_assistant == set_value(self.prefill_assistant, was.prefill_assistant)
        &&& now.log_verbosity == set_value(self.log_verbosity, was.log_verbosity)
        &&& opt(now.opencode_base_url) == set_text(self.opencode_base_url, was.opencode_base_url)
        &&& opt(now.opencode_api_key) == set_text(self.opencode_api_key, was.opencode_api_key)
    }

    /// Copies every flag that was given into the configuration. A blank text
    /// unsets the field; so does a count of threads, or of reuse, that is not
    /// positive.
    pub fn apply(&self, cfg: &mut ServerConfig)
        ensures
            self.applied(*final(cfg), *old(cfg)),
    {
        cfg.port = apply_int(self.port, cfg.port);
        cfg.hostname = apply_text(&self.hostname, &cfg.hostname);
        cfg.mlock = apply_bool(self.mlock, cfg.mlock);
        cfg.no_mmap = apply_bool(self.no_mmap, cfg.no_mmap);
        cfg.threads = apply_positive(self.threads, cfg.threads);
        cfg.cache_reuse = apply_positive(self.cache_reuse, cfg.cache_reuse);
        cfg.threads_batch = apply_positive(self.threads_batch, cfg.threads_batch);
        cfg.models_max = apply_int(self.models_max, cfg.models_max);
        cfg.models_dir = apply_text(&self.models_dir, &cfg.models_dir);
        cfg.device = apply_text(&self.device, &cfg.device);
        cfg.split_mode = apply_text(&self.split_mode, &cfg.split_mode);
        cfg.tensor_split = apply_text(&self.tensor_split, &cfg.tensor_split);
        cfg.override_tensor = apply_text(&self.override_tensor, &cfg.override_tensor);
        cfg.mmproj_device = apply_text(&self.mmproj_device, &cfg.mmproj_device);
        cfg.webui_mcp_proxy = apply_bool(self.webui_mcp_proxy, cfg.webui_mcp_proxy);
        cfg.fit = apply_bool(self.fit, cfg.fit);
        cfg.prefill_assistant = apply_bool(self.prefill_assistant, cfg.prefill_assistant);
        cfg.log_verbosity = apply_int(self.log_verbosity, cfg.log_verbosity);
        cfg.opencode_base_url = apply_text(&self.opencode_base_url, &cfg.opencode_base_url);
        cfg.opencode_api_key = apply_text(&self.opencode_api_key, &cfg.opencode_api_key);
    }
}

/// Without a flag nothing changes.
pub proof fn law_no_flag_no_change(set: ServerSet, now: ServerConfig, was: ServerConfig)
    requires
        set.applied(now, was),
        set.port is None,
        set.hostname is None,
        set.mlock is None,
        set.no_mmap is None,
        set.threads is None,
        set.cache_reuse is None,
        set.threads_batch is None,
        set.models_max is None,
        set.models_dir is None,
        set.device is None,
        set.split_mode is None,
        set.tensor_split is None,
        set.override_tensor is None,
        set.mmproj_device is None,
        set.webui_mcp_proxy is None,
        set.fit is None,
        set.prefill_assistant is None,
        set.log_verbosity is None,
        set.opencode_base_url is None,
        set.opencode_api_key is None,
    ensures
        now.same(was),
{
}

// ── server show ──────────────────────────────────────────────────────────

/// A label in its column: spaces behind it up to the width.
pub open spec fn in_column(label: Seq<char>, width: nat) -> Seq<char> {
    if label.len() < width {
        label + Seq::new((width - label.len()) as nat, |i: int| ' ')
    } else {
        label
    }
}

/// One line of the listing.
pub open spec fn show_row(label: Seq<char>, value: Seq<char>) -> Seq<char> {
    "  "@ + in_column(label, 18) + " "@ + value + "\n"@
}

pub open spec fn shown_text(v: Option<String>, unset: Seq<char>) -> Seq<char> {
    match v {
        Some(s) => s@,
        None => unset,
    }
}

pub open spec fn shown_int(v: Option<i32>, unset: Seq<char>) -> Seq<char> {
    match v {
        Some(n) => dec_int(n as int),
        None => unset,
    }
}

pub open spec fn shown_bool(v: Option<bool>, unset: Seq<char>) -> Seq<char> {
    match v {
        Some(true) => "true"@,
        Some(false) => "false"@,
        None => unset,
    }
}

/// The rows of the listing: one for each setting, in order.
pub open spec fn shown_rows(cfg: ServerConfig) -> Seq<Seq<char>> {
    seq![
        show_row("Port:"@, shown_int(cfg.port, "-"@)),
        show_row("Hostname:"@, shown_text(cfg.hostname, "-"@)),
        show_row("Mlock:"@, shown_bool(cfg.mlock, "-"@)),
        show_row("NoMmap:"@, shown_bool(cfg.no_mmap, "false (default)"@)),
        show_row("Threads:"@, shown_int(cfg.threads, "auto"@)),
        show_row("CacheReuse:"@, shown_int(cfg.cache_reuse, "-"@)),
        show_row("ThreadsBatch:"@, shown_int(cfg.threads_batch, "auto"@)),
        show_row("ModelsMax:"@, shown_int(cfg.models_max, "auto (default: 4)"@)),
        show_row("ModelsDir:"@, shown_text(cfg.models_dir, "-"@)),
        show_row("Device:"@, shown_text(cfg.device, "auto (all)"@)),
        show_row("SplitMode:"@, shown_text(cfg.split_mode, "layer (default)"@)),
        show_row("TensorSplit:"@, shown_text(cfg.tensor_split, "auto (by free VRAM)"@)),
        show_row("OverrideTensor:"@, shown_text(cfg.override_tensor, "none"@)),
        show_row("MmprojDevice:"@, shown_text(cfg.mmproj_device, "auto (first GPU)"@)),
        show_row("WebuiMcpProxy:"@, shown_bool(cfg.webui_mcp_proxy, "true (default)"@)),
        show_row("Fit:"@, shown_bool(cfg.fit, "false (default)"@)),
        show_row("PrefillAssistant:"@, shown_bool(cfg.prefill_assistant, "true (default)"@)),
        show_row("LogVerbosity:"@, shown_int(cfg.log_verbosity, "4 (default)"@)),
        show_row("OpencodeBaseUrl:"@, shown_text(cfg.opencode_base_url, "auto (host:port, /v1 appended)"@)),
        show_row("OpencodeApiKey:"@, shown_text(cfg.opencode_api_key, "(none)"@)),
    ]
}

fn push_row(out: &mut String, label: &str, value: String)
    ensures
        final(out)@ == old(out)@ + show_row(label@, value@),
{
    let ghost start = out@;
    let c = to_chars(label);
    out.append("  ");
    out.append(label);
    let mut i: usize = c.len();
    let ghost mid = out@;
    while i < 18
        invariant
            c@.len() <= i,
            i <= 18 || i == c@.len(),
            out@ == mid + Seq::new((i - c@.len()) as nat, |k: int| ' '),
        decreases 18 - i,
    {
        out.push(' ');
        i += 1;
    }
    out.append(" ");
    out.append(value.as_str());
    out.append("\n");
    assert(out@ =~= start + show_row(label@, value@));
}

fn text_or(v: &Option<String>, unset: &str) -> (r: String)
    ensures
        r@ == shown_text(*v, unset@),
{
    match v {
        Some(s) => s.clone(),
        None => unset.to_owned(),
    }
}

fn int_or(v: Option<i32>, unset: &str) -> (r: String)
    ensures
        r@ == shown_int(v, unset@),
{
    match v {
        Some(n) => int_str(n as i64),
        None => unset.to_owned(),
    }
}

fn bool_or(v: Option<bool>, unset: &str) -> (r: String)
    ensures
        r@ == shown_bool(v, unset@),
{
    match v {
        Some(true) => "true".to_owned(),
        Some(false) => "false".to_owned(),
        None => unset.to_owned(),
    }
}

/// The body of `server show`: one aligned row for each setting.
pub fn show_lines(cfg: &ServerConfig) -> (r: String)
    ensures
        r@ == concat(shown_rows(*cfg)),
{
    let mut out: String = String::new();
    let ghost rows = shown_rows(*cfg);
    assert(rows.take(0) =~= Seq::<Seq<char>>::empty());
    push_row(&mut out, "Port:", int_or(cfg.port, "-"));
    proof {
        lemma_one_more(rows, 0);
    }
    push_row(&mut out, "Hostname:", text_or(&cfg.hostname, "-"));
    proof {
        lemma_one_more(rows, 1);
    }
    push_row(&mut out, "Mlock:", bool_or(cfg.mlock, "-"));
    proof {
        lemma_one_more(rows, 2);
    }
    push_row(&mut out, "NoMmap:", bool_or(cfg.no_mmap, "false (default)"));
    proof {
        lemma_one_more(rows, 3);
    }
    push_row(&mut out, "Threads:", int_or(cfg.threads, "auto"));
    proof {
        lemma_one_more(rows, 4);
    }
    push_row(&mut out, "CacheReuse:", int_or(cfg.cache_reuse, "-"));
    proof {
        lemma_one_more(rows, 5);
    }
    push_row(&mut out, "ThreadsBatch:", int_or(cfg.threads_batch, "auto"));
    proof {
        lemma_one_more(rows, 6);
    }
    push_row(&mut out, "ModelsMax:", int_or(cfg.models_max, "auto (default: 4)"));
    proof {
        lemma_one_more(rows, 7);
    }
    push_row(&mut out, "ModelsDir:", text_or(&cfg.models_dir, "-"));
    proof {
        lemma_one_more(rows, 8);
    }
    push_row(&mut out, "Device:", text_or(&cfg.device, "auto (all)"));
    proof {
        lemma_one_more(rows, 9);
    }
    push_row(&mut out, "SplitMode:", text_or(&cfg.split_mode, "layer (default)"));
    proof {
        lemma_one_more(rows, 10);
    }
    push_row(&mut out, "TensorSplit:", text_or(&cfg.tensor_split, "auto (by free VRAM)"));
    proof {
        lemma_one_more(rows, 11);
    }
    push_row(&mut out, "OverrideTensor:", text_or(&cfg.override_tensor, "none"));
    proof {
        lemma_one_more(rows, 12);
    }
    push_row(&mut out, "MmprojDevice:", text_or(&cfg.mmproj_device, "auto (first GPU)"));
    proof {
        lemma_one_more(rows, 13);
    }
    push_row(&mut out, "WebuiMcpProxy:", bool_or(cfg.webui_mcp_proxy, "true (default)"));
    proof {
        lemma_one_more(rows, 14);
    }
    push_row(&mut out, "Fit:", bool_or(cfg.fit, "false (default)"));
    proof {
        lemma_one_more(rows, 15);
    }
    push_row(&mut out, "PrefillAssistant:", bool_or(cfg.prefill_assistant, "true (default)"));
    proof {
        lemma_one_more(rows, 16);
    }
    push_row(&mut out, "LogVerbosity:", int_or(cfg.log_verbosity, "4 (default)"));
    proof {
        lemma_one_more(rows, 17);
    }
    push_row(&mut out, "OpencodeBaseUrl:", text_or(&cfg.opencode_base_url, "auto (host:port, /v1 appended)"));
    proof {
        lemma_one_more(rows, 18);
    }
    push_row(&mut out, "OpencodeApiKey:", text_or(&cfg.opencode_api_key, "(none)"));
    proof {
        lemma_one_more(rows, 19);
    }
    assert(rows.take(20) =~= rows);
    out
}

proof fn lemma_one_more(rows: Seq<Seq<char>>, i: int)
    requires
        0 <= i < rows.len(),
    ensures
        concat(rows.take(i + 1)) == concat(rows.take(i)) + rows[i],
{
    assert(rows.take(i + 1).drop_last() =~= rows.take(i));
}

} // verus!
