//! The server's settings as they stand in their file: one section.
use vstd::prelude::*;
use vstd::string::*;
use crate::ini::{
    keys_of, read, read_section, replace_section, section_at, section_set, Keys, SectionView,
};
use crate::ini_laws::{ends_at_header, plain_key};
use crate::sections::{
    flag_at, flag_of, flag_shown, flag_value, is_number, is_word, keys_in, law_section_is_saved,
    law_section_reads_back, lemma_flag_reads, lemma_less_at, lemma_number_reads, lemma_word_is_key,
    lookup, number_at, number_shown, number_value, pair_texts, problem_in, problem_of, render,
    section_of, text_at, text_shown, text_value, well_listed, writable,
};
use crate::server_cfg::{nonblank, opt_nonblank, ServerConfig};
use crate::text::{lemma_text_less_transitive, opt, text_less, trim_end, trim_start};

verus! {

/// The section that holds the settings.
pub const SERVER_SECTION: &'static str = "Server";

/// How many keys the settings have.
pub open spec fn server_keys() -> int {
    20
}

/// The keys of the settings, in their order.
pub open spec fn server_key(i: int) -> Seq<char> {
    if i == 0 {
        "CacheReuse"@
    } else if i == 1 {
        "Device"@
    } else if i == 2 {
        "Fit"@
    } else if i == 3 {
        "Hostname"@
    } else if i == 4 {
        "LogVerbosity"@
    } else if i == 5 {
        "Mlock"@
    } else if i == 6 {
        "MmprojDevice"@
    } else if i == 7 {
        "ModelsDir"@
    } else if i == 8 {
        "ModelsMax"@
    } else if i == 9 {
        "NoMmap"@
    } else if i == 10 {
        "OpencodeApiKey"@
    } else if i == 11 {
        "OpencodeBaseUrl"@
    } else if i == 12 {
        "OverrideTensor"@
    } else if i == 13 {
        "Port"@
    } else if i == 14 {
        "PrefillAssistant"@
    } else if i == 15 {
        "SplitMode"@
    } else if i == 16 {
        "TensorSplit"@
    } else if i == 17 {
        "Threads"@
    } else if i == 18 {
        "ThreadsBatch"@
    } else if i == 19 {
        "WebuiMcpProxy"@
    } else {
        Seq::empty()
    }
}

/// The values of the settings, in the order of their keys. What is not set is empty.
pub open spec fn server_value(c: ServerConfig, i: int) -> Seq<char> {
    if i == 0 {
        number_shown(c.cache_reuse)
    } else if i == 1 {
        text_shown(c.device)
    } else if i == 2 {
        flag_shown(c.fit)
    } else if i == 3 {
        text_shown(c.hostname)
    } else if i == 4 {
        number_shown(c.log_verbosity)
    } else if i == 5 {
        flag_shown(c.mlock)
    } else if i == 6 {
        text_shown(c.mmproj_device)
    } else if i == 7 {
        text_shown(c.models_dir)
    } else if i == 8 {
        number_shown(c.models_max)
    } else if i == 9 {
        flag_shown(c.no_mmap)
    } else if i == 10 {
        text_shown(c.opencode_api_key)
    } else if i == 11 {
        text_shown(c.opencode_base_url)
    } else if i == 12 {
        text_shown(c.override_tensor)
    } else if i == 13 {
        number_shown(c.port)
    } else if i == 14 {
        flag_shown(c.prefill_assistant)
    } else if i == 15 {
        text_shown(c.split_mode)
    } else if i == 16 {
        text_shown(c.tensor_split)
    } else if i == 17 {
        number_shown(c.threads)
    } else if i == 18 {
        number_shown(c.threads_batch)
    } else if i == 19 {
        flag_shown(c.webui_mcp_proxy)
    } else {
        Seq::empty()
    }
}

/// The keys and values of the settings.
pub open spec fn server_pairs(c: ServerConfig) -> Seq<(Seq<char>, Seq<char>)> {
    Seq::new(server_keys() as nat, |i: int| (server_key(i), server_value(c, i)))
}

fn pairs_of(c: &ServerConfig) -> (r: Vec<(&'static str, String)>)
    ensures
        pair_texts(r@) == server_pairs(*c),
{
    let mut v: Vec<(&'static str, String)> = Vec::new();
    v.push(("CacheReuse", number_value(c.cache_reuse)));
    v.push(("Device", text_value(&c.device)));
    v.push(("Fit", flag_value(c.fit)));
    v.push(("Hostname", text_value(&c.hostname)));
    v.push(("LogVerbosity", number_value(c.log_verbosity)));
    v.push(("Mlock", flag_value(c.mlock)));
    v.push(("MmprojDevice", text_value(&c.mmproj_device)));
    v.push(("ModelsDir", text_value(&c.models_dir)));
    v.push(("ModelsMax", number_value(c.models_max)));
    v.push(("NoMmap", flag_value(c.no_mmap)));
    v.push(("OpencodeApiKey", text_value(&c.opencode_api_key)));
    v.push(("OpencodeBaseUrl", text_value(&c.opencode_base_url)));
    v.push(("OverrideTensor", text_value(&c.override_tensor)));
    v.push(("Port", number_value(c.port)));
    v.push(("PrefillAssistant", flag_value(c.prefill_assistant)));
    v.push(("SplitMode", text_value(&c.split_mode)));
    v.push(("TensorSplit", text_value(&c.tensor_split)));
    v.push(("Threads", number_value(c.threads)));
    v.push(("ThreadsBatch", number_value(c.threads_batch)));
    v.push(("WebuiMcpProxy", flag_value(c.webui_mcp_proxy)));
    assert(v@.len() == server_keys());
    assert forall|i: int| 0 <= i < server_keys() implies #[trigger] v@[i].0@ == server_key(i) && v@[i].1@
        == server_value(*c, i) by {}
    assert(pair_texts(v@) =~= server_pairs(*c));
    v
}

/// The text of a settings file with the settings written into it, or why they cannot
/// be: a value would reload cut short.
pub fn save(text: &str, c: &ServerConfig) -> (r: Result<String, String>)
    ensures
        match problem_of(server_pairs(*c)) {
            Some(e) => r is Err && r->Err_0@ == e,
            None => r is Ok && r->Ok_0@ == section_set(
                text@,
                SERVER_SECTION@,
                section_of(SERVER_SECTION@, server_pairs(*c)),
            ),
        },
{
    let v = pairs_of(c);
    if let Some(e) = problem_in(&v) {
        return Err(e);
    }
    let body = render(SERVER_SECTION, &v);
    Ok(replace_section(text, SERVER_SECTION, body.as_str()))
}

/// Whether the settings are what some keys say. A blank text is not set.
pub open spec fn held_in(c: ServerConfig, m: Map<Seq<char>, Seq<char>>) -> bool {
    &&& is_number(c.cache_reuse, lookup(m, "CacheReuse"@))
    &&& opt(c.device) == nonblank(Some(lookup(m, "Device"@)))
    &&& c.fit == flag_of(lookup(m, "Fit"@))
    &&& opt(c.hostname) == nonblank(Some(lookup(m, "Hostname"@)))
    &&& is_number(c.log_verbosity, lookup(m, "LogVerbosity"@))
    &&& c.mlock == flag_of(lookup(m, "Mlock"@))
    &&& opt(c.mmproj_device) == nonblank(Some(lookup(m, "MmprojDevice"@)))
    &&& opt(c.models_dir) == nonblank(Some(lookup(m, "ModelsDir"@)))
    &&& is_number(c.models_max, lookup(m, "ModelsMax"@))
    &&& c.no_mmap == flag_of(lookup(m, "NoMmap"@))
    &&& opt(c.opencode_api_key) == nonblank(Some(lookup(m, "OpencodeApiKey"@)))
    &&& opt(c.opencode_base_url) == nonblank(Some(lookup(m, "OpencodeBaseUrl"@)))
    &&& opt(c.override_tensor) == nonblank(Some(lookup(m, "OverrideTensor"@)))
    &&& is_number(c.port, lookup(m, "Port"@))
    &&& c.prefill_assistant == flag_of(lookup(m, "PrefillAssistant"@))
    &&& opt(c.split_mode) == nonblank(Some(lookup(m, "SplitMode"@)))
    &&& opt(c.tensor_split) == nonblank(Some(lookup(m, "TensorSplit"@)))
    &&& is_number(c.threads, lookup(m, "Threads"@))
    &&& is_number(c.threads_batch, lookup(m, "ThreadsBatch"@))
    &&& c.webui_mcp_proxy == flag_of(lookup(m, "WebuiMcpProxy"@))
}

fn text_in(k: &Keys, key: &str) -> (r: Option<String>)
    ensures
        opt(r) == nonblank(Some(lookup(k@, key@))),
{
    opt_nonblank(Some(text_at(k, key)))
}

/// The settings of a file's text.
pub fn load(text: &str) -> (r: ServerConfig)
    ensures
        held_in(r, keys_of(text@, SERVER_SECTION@)),
{
    let k = read_section(text, SERVER_SECTION);
    ServerConfig {
        cache_reuse: number_at(&k, "CacheReuse"),
        device: text_in(&k, "Device"),
        fit: flag_at(&k, "Fit"),
        hostname: text_in(&k, "Hostname"),
        log_verbosity: number_at(&k, "LogVerbosity"),
        mlock: flag_at(&k, "Mlock"),
        mmproj_device: text_in(&k, "MmprojDevice"),
        models_dir: text_in(&k, "ModelsDir"),
        models_max: number_at(&k, "ModelsMax"),
        no_mmap: flag_at(&k, "NoMmap"),
        opencode_api_key: text_in(&k, "OpencodeApiKey"),
        opencode_base_url: text_in(&k, "OpencodeBaseUrl"),
        override_tensor: text_in(&k, "OverrideTensor"),
        port: number_at(&k, "Port"),
        prefill_assistant: flag_at(&k, "PrefillAssistant"),
        split_mode: text_in(&k, "SplitMode"),
        tensor_split: text_in(&k, "TensorSplit"),
        threads: number_at(&k, "Threads"),
        threads_batch: number_at(&k, "ThreadsBatch"),
        webui_mcp_proxy: flag_at(&k, "WebuiMcpProxy"),
    }
}

// ── Laws ─────────────────────────────────────────────────────────────────

proof fn lemma_order_one(i: int)
    requires
        0 <= i < 10,
    ensures
        text_less(server_key(i), server_key(i + 1)),
        is_word(server_key(i)),
        is_word(server_key(i + 1)),
{
    if i == 0 {
        reveal_strlit("CacheReuse");
        reveal_strlit("Device");
        lemma_less_at("CacheReuse"@, "Device"@, 0);
    } else if i == 1 {
        reveal_strlit("Device");
        reveal_strlit("Fit");
        lemma_less_at("Device"@, "Fit"@, 0);
    } else if i == 2 {
        reveal_strlit("Fit");
        reveal_strlit("Hostname");
        lemma_less_at("Fit"@, "Hostname"@, 0);
    } else if i == 3 {
        reveal_strlit("Hostname");
        reveal_strlit("LogVerbosity");
        lemma_less_at("Hostname"@, "LogVerbosity"@, 0);
    } else if i == 4 {
        reveal_strlit("LogVerbosity");
        reveal_strlit("Mlock");
        lemma_less_at("LogVerbosity"@, "Mlock"@, 0);
    } else if i == 5 {
        reveal_strlit("Mlock");
        reveal_strlit("MmprojDevice");
        lemma_less_at("Mlock"@, "MmprojDevice"@, 1);
    } else if i == 6 {
        reveal_strlit("MmprojDevice");
        reveal_strlit("ModelsDir");
        lemma_less_at("MmprojDevice"@, "ModelsDir"@, 1);
    } else if i == 7 {
        reveal_strlit("ModelsDir");
        reveal_strlit("ModelsMax");
        lemma_less_at("ModelsDir"@, "ModelsMax"@, 6);
    } else if i == 8 {
        reveal_strlit("ModelsMax");
        reveal_strlit("NoMmap");
        lemma_less_at("ModelsMax"@, "NoMmap"@, 0);
    } else if i == 9 {
        reveal_strlit("NoMmap");
        reveal_strlit("OpencodeApiKey");
        lemma_less_at("NoMmap"@, "OpencodeApiKey"@, 0);
    }
}

proof fn lemma_order_two(i: int)
    requires
        10 <= i < 19,
    ensures
        text_less(server_key(i), server_key(i + 1)),
        is_word(server_key(i)),
        is_word(server_key(i + 1)),
{
    if i == 10 {
        reveal_strlit("OpencodeApiKey");
        reveal_strlit("OpencodeBaseUrl");
        lemma_less_at("OpencodeApiKey"@, "OpencodeBaseUrl"@, 8);
    } else if i == 11 {
        reveal_strlit("OpencodeBaseUrl");
        reveal_strlit("OverrideTensor");
        lemma_less_at("OpencodeBaseUrl"@, "OverrideTensor"@, 1);
    } else if i == 12 {
        reveal_strlit("OverrideTensor");
        reveal_strlit("Port");
        lemma_less_at("OverrideTensor"@, "Port"@, 0);
    } else if i == 13 {
        reveal_strlit("Port");
        reveal_strlit("PrefillAssistant");
        lemma_less_at("Port"@, "PrefillAssistant"@, 1);
    } else if i == 14 {
        reveal_strlit("PrefillAssistant");
        reveal_strlit("SplitMode");
        lemma_less_at("PrefillAssistant"@, "SplitMode"@, 0);
    } else if i == 15 {
        reveal_strlit("SplitMode");
        reveal_strlit("TensorSplit");
        lemma_less_at("SplitMode"@, "TensorSplit"@, 0);
    } else if i == 16 {
        reveal_strlit("TensorSplit");
        reveal_strlit("Threads");
        lemma_less_at("TensorSplit"@, "Threads"@, 1);
    } else if i == 17 {
        reveal_strlit("Threads");
        reveal_strlit("ThreadsBatch");
        lemma_less_at("Threads"@, "ThreadsBatch"@, 7);
    } else if i == 18 {
        reveal_strlit("ThreadsBatch");
        reveal_strlit("WebuiMcpProxy");
        lemma_less_at("ThreadsBatch"@, "WebuiMcpProxy"@, 0);
    }
}

proof fn lemma_next_key(i: int)
    requires
        0 <= i < server_keys() - 1,
    ensures
        text_less(server_key(i), server_key(i + 1)),
        is_word(server_key(i)),
        is_word(server_key(i + 1)),
{
    if i < 10 {
        lemma_order_one(i);
    } else {
        lemma_order_two(i);
    }
}

proof fn lemma_keys_rise(i: int, k: int)
    requires
        0 <= i < k < server_keys(),
    ensures
        text_less(server_key(i), server_key(k)),
    decreases k - i,
{
    lemma_next_key(k - 1);
    if i < k - 1 {
        lemma_keys_rise(i, k - 1);
        lemma_text_less_transitive(server_key(i), server_key(k - 1), server_key(k));
    }
}

/// Settings whose values can stand on lines.
pub open spec fn can_write(c: ServerConfig) -> bool {
    forall|i: int| 0 <= i < server_keys() ==> writable(#[trigger] server_value(c, i))
}

/// A text that is absent or has something in it.
pub open spec fn says_something(v: Option<String>) -> bool {
    nonblank(opt(v)) == opt(v)
}

/// Settings none of whose texts is blank.
pub open spec fn no_blanks(c: ServerConfig) -> bool {
    &&& says_something(c.device)
    &&& says_something(c.hostname)
    &&& says_something(c.mmproj_device)
    &&& says_something(c.models_dir)
    &&& says_something(c.opencode_api_key)
    &&& says_something(c.opencode_base_url)
    &&& says_something(c.override_tensor)
    &&& says_something(c.split_mode)
    &&& says_something(c.tensor_split)
}

proof fn lemma_pairs_are_listed(c: ServerConfig)
    requires
        can_write(c),
    ensures
        well_listed(server_pairs(c)),
{
    let v = server_pairs(c);
    assert forall|i: int| 0 <= i < v.len() implies plain_key((#[trigger] v[i]).0) by {
        if i < server_keys() - 1 {
            lemma_next_key(i);
        } else {
            lemma_next_key(i - 1);
        }
        lemma_word_is_key(server_key(i));
    }
    assert forall|i: int| 0 <= i < v.len() implies writable((#[trigger] v[i]).1) by {
        assert(writable(server_value(c, i)));
    }
    assert forall|i: int, k: int| 0 <= i < k < v.len() implies text_less(
        (#[trigger] v[i]).0,
        (#[trigger] v[k]).0,
    ) by {
        lemma_keys_rise(i, k);
    }
}

/// Settings that were written read back: the reader sees their section alone, and
/// settings that are what it says are the same as those that were written.
pub proof fn law_settings_read_back(c: ServerConfig, d: ServerConfig)
    requires
        can_write(c),
        no_blanks(c),
        held_in(d, keys_in(server_pairs(c))),
    ensures
        read(section_of(SERVER_SECTION@, server_pairs(c))) == seq![
            SectionView { id: SERVER_SECTION@, keys: keys_in(server_pairs(c)) },
        ],
        d.same(c),
{
    reveal_strlit("Server");
    let name = "Server"@;
    assert(trim_start(name) == name);
    assert(trim_end(name) == name);
    let v = server_pairs(c);
    lemma_pairs_are_listed(c);
    law_section_reads_back(name, v);
    let e = Seq::<char>::empty();
    assert(trim_start(e) == e && trim_end(e) == e);
    assert(v[0] == (server_key(0), server_value(c, 0)));
    assert(v[1] == (server_key(1), server_value(c, 1)));
    assert(v[2] == (server_key(2), server_value(c, 2)));
    assert(v[3] == (server_key(3), server_value(c, 3)));
    assert(v[4] == (server_key(4), server_value(c, 4)));
    assert(v[5] == (server_key(5), server_value(c, 5)));
    assert(v[6] == (server_key(6), server_value(c, 6)));
    assert(v[7] == (server_key(7), server_value(c, 7)));
    assert(v[8] == (server_key(8), server_value(c, 8)));
    assert(v[9] == (server_key(9), server_value(c, 9)));
    assert(v[10] == (server_key(10), server_value(c, 10)));
    assert(v[11] == (server_key(11), server_value(c, 11)));
    assert(v[12] == (server_key(12), server_value(c, 12)));
    assert(v[13] == (server_key(13), server_value(c, 13)));
    assert(v[14] == (server_key(14), server_value(c, 14)));
    assert(v[15] == (server_key(15), server_value(c, 15)));
    assert(v[16] == (server_key(16), server_value(c, 16)));
    assert(v[17] == (server_key(17), server_value(c, 17)));
    assert(v[18] == (server_key(18), server_value(c, 18)));
    assert(v[19] == (server_key(19), server_value(c, 19)));
    lemma_number_reads(c.cache_reuse);
    lemma_flag_reads(c.fit);
    lemma_number_reads(c.log_verbosity);
    lemma_flag_reads(c.mlock);
    lemma_number_reads(c.models_max);
    lemma_flag_reads(c.no_mmap);
    lemma_number_reads(c.port);
    lemma_flag_reads(c.prefill_assistant);
    lemma_number_reads(c.threads);
    lemma_number_reads(c.threads_batch);
    lemma_flag_reads(c.webui_mcp_proxy);
}

/// A file with the settings written into it: the reader sees their section, in the
/// place it had or behind the others, which are as they were.
pub proof fn law_settings_are_saved(text: Seq<char>, c: ServerConfig)
    requires
        can_write(c),
        ends_at_header(text, SERVER_SECTION@),
    ensures
        ({
            let at = section_at(read(text), SERVER_SECTION@);
            let new = seq![SectionView { id: SERVER_SECTION@, keys: keys_in(server_pairs(c)) }];
            read(section_set(text, SERVER_SECTION@, section_of(SERVER_SECTION@, server_pairs(c))))
                == if at >= 0 {
                read(text).take(at) + new + read(text).skip(at + 1)
            } else {
                read(text) + new
            }
        }),
{
    reveal_strlit("Server");
    let name = "Server"@;
    assert(trim_start(name) == name);
    assert(trim_end(name) == name);
    lemma_pairs_are_listed(c);
    law_section_is_saved(text, name, server_pairs(c));
}

} // verus!
