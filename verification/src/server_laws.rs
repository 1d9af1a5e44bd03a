//! What the server is told of its settings.
use vstd::prelude::*;
use vstd::string::*;
use crate::bench_laws::{has_pair, lemma_pair, lemma_pair_left, lemma_pair_right};
use crate::server_cfg::ServerConfig;
use crate::server_run::{flag_argument, number_argument, server_argv, text_argument};
use crate::text::dec_int;

verus! {

/// The arguments, setting by setting.
spec fn pieces(c: ServerConfig, presets: Seq<char>) -> Seq<Seq<Seq<char>>> {
    let port: i32 = match c.port {
        Some(p) => p,
        None => 8080,
    };
    seq![
        seq!["--models-preset"@, presets, "--port"@, dec_int(port as int)],
        text_argument("--host"@, c.hostname),
        text_argument("--models-dir"@, c.models_dir),
        text_argument("--device"@, c.device),
        text_argument("--split-mode"@, c.split_mode),
        text_argument("--tensor-split"@, c.tensor_split),
        text_argument("--override-tensor"@, c.override_tensor),
        number_argument("--threads"@, c.threads),
        number_argument("--threads-batch"@, c.threads_batch),
        number_argument("--cache-reuse"@, c.cache_reuse),
        number_argument("--models-max"@, c.models_max),
        number_argument("--log-verbosity"@, c.log_verbosity),
        flag_argument("--mlock"@, c.mlock == Some(true)),
        flag_argument("--no-mmap"@, c.no_mmap == Some(true)),
        flag_argument("--webui-mcp-proxy"@, c.webui_mcp_proxy != Some(false)),
        flag_argument("--no-prefill-assistant"@, c.prefill_assistant == Some(false)),
    ]
}

spec fn flat(ps: Seq<Seq<Seq<char>>>) -> Seq<Seq<char>>
    decreases ps.len(),
{
    if ps.len() == 0 {
        Seq::empty()
    } else {
        flat(ps.drop_last()) + ps.last()
    }
}

proof fn lemma_flat_pair(ps: Seq<Seq<Seq<char>>>, i: int, flag: Seq<char>, value: Seq<char>)
    requires
        0 <= i < ps.len(),
        has_pair(ps[i], flag, value),
    ensures
        has_pair(flat(ps), flag, value),
    decreases ps.len(),
{
    if i == ps.len() - 1 {
        lemma_pair_right(flat(ps.drop_last()), ps.last(), flag, value);
    } else {
        lemma_flat_pair(ps.drop_last(), i, flag, value);
        lemma_pair_left(flat(ps.drop_last()), ps.last(), flag, value);
    }
}

proof fn lemma_flat_has(ps: Seq<Seq<Seq<char>>>, i: int, word: Seq<char>)
    requires
        0 <= i < ps.len(),
        ps[i].contains(word),
    ensures
        flat(ps).contains(word),
    decreases ps.len(),
{
    let front = flat(ps.drop_last());
    if i == ps.len() - 1 {
        let k = ps.last().index_of(word);
        assert(flat(ps)[front.len() + k] == word);
    } else {
        lemma_flat_has(ps.drop_last(), i, word);
        assert(flat(ps)[front.index_of(word)] == word);
    }
}

proof fn lemma_flat_step(ps: Seq<Seq<Seq<char>>>, n: int)
    requires
        0 <= n < ps.len(),
    ensures
        flat(ps.subrange(0, n + 1)) == flat(ps.subrange(0, n)) + ps[n],
{
    assert(ps.subrange(0, n + 1).drop_last() =~= ps.subrange(0, n));
}

proof fn lemma_pieces(c: ServerConfig, presets: Seq<char>)
    ensures
        server_argv(c, presets) == flat(pieces(c, presets)),
{
    let ps = pieces(c, presets);
    lemma_flat_step(ps, 0);
    lemma_flat_step(ps, 1);
    lemma_flat_step(ps, 2);
    lemma_flat_step(ps, 3);
    lemma_flat_step(ps, 4);
    lemma_flat_step(ps, 5);
    lemma_flat_step(ps, 6);
    lemma_flat_step(ps, 7);
    lemma_flat_step(ps, 8);
    lemma_flat_step(ps, 9);
    lemma_flat_step(ps, 10);
    lemma_flat_step(ps, 11);
    lemma_flat_step(ps, 12);
    lemma_flat_step(ps, 13);
    lemma_flat_step(ps, 14);
    lemma_flat_step(ps, 15);
    assert(flat(ps.subrange(0, 0)) + ps[0] =~= ps[0]);
    assert(ps.subrange(0, 16) =~= ps);
}

/// Every setting of the server that it takes as an argument is passed under its name: the
/// presets and the port always, texts and numbers where they are set, and switches where
/// they are on.
pub proof fn law_settings_are_passed(c: ServerConfig, presets: Seq<char>)
    ensures
        has_pair(server_argv(c, presets), "--models-preset"@, presets),
        c.port matches Some(n) ==> has_pair(server_argv(c, presets), "--port"@, dec_int(n as int)),
        c.port is None ==> has_pair(server_argv(c, presets), "--port"@, dec_int(8080)),
        c.hostname matches Some(s) ==> has_pair(server_argv(c, presets), "--host"@, s@),
        c.models_dir matches Some(s) ==> has_pair(server_argv(c, presets), "--models-dir"@, s@),
        c.device matches Some(s) ==> has_pair(server_argv(c, presets), "--device"@, s@),
        c.split_mode matches Some(s) ==> has_pair(server_argv(c, presets), "--split-mode"@, s@),
        c.tensor_split matches Some(s) ==> has_pair(server_argv(c, presets), "--tensor-split"@, s@),
        c.override_tensor matches Some(s) ==> has_pair(server_argv(c, presets), "--override-tensor"@, s@),
        c.threads matches Some(n) ==> has_pair(
            server_argv(c, presets),
            "--threads"@,
            dec_int(n as int),
        ),
        c.threads_batch matches Some(n) ==> has_pair(
            server_argv(c, presets),
            "--threads-batch"@,
            dec_int(n as int),
        ),
        c.cache_reuse matches Some(n) ==> has_pair(
            server_argv(c, presets),
            "--cache-reuse"@,
            dec_int(n as int),
        ),
        c.models_max matches Some(n) ==> has_pair(
            server_argv(c, presets),
            "--models-max"@,
            dec_int(n as int),
        ),
        c.log_verbosity matches Some(n) ==> has_pair(
            server_argv(c, presets),
            "--log-verbosity"@,
            dec_int(n as int),
        ),
        c.mlock == Some(true) ==> server_argv(c, presets).contains("--mlock"@),
        c.no_mmap == Some(true) ==> server_argv(c, presets).contains("--no-mmap"@),
        c.webui_mcp_proxy != Some(false) ==> server_argv(c, presets).contains("--webui-mcp-proxy"@),
        c.prefill_assistant == Some(false) ==> server_argv(c, presets).contains("--no-prefill-assistant"@),
{
    let ps = pieces(c, presets);
    lemma_pieces(c, presets);
    let port: i32 = match c.port {
        Some(p) => p,
        None => 8080,
    };
    let s0 = ps[0];
    assert(s0[0] == "--models-preset"@ && s0[1] == presets && s0[2] == "--port"@ && s0[3] == dec_int(
        port as int,
    ));
    assert(has_pair(s0, "--models-preset"@, presets));
    assert(has_pair(s0, "--port"@, dec_int(port as int)));
    lemma_flat_pair(ps, 0, "--models-preset"@, presets);
    lemma_flat_pair(ps, 0, "--port"@, dec_int(port as int));
    if let Some(t) = c.hostname {
        lemma_pair("--host"@, t@);
        lemma_flat_pair(ps, 1, "--host"@, t@);
    }
    if let Some(t) = c.models_dir {
        lemma_pair("--models-dir"@, t@);
        lemma_flat_pair(ps, 2, "--models-dir"@, t@);
    }
    if let Some(t) = c.device {
        lemma_pair("--device"@, t@);
        lemma_flat_pair(ps, 3, "--device"@, t@);
    }
    if let Some(t) = c.split_mode {
        lemma_pair("--split-mode"@, t@);
        lemma_flat_pair(ps, 4, "--split-mode"@, t@);
    }
    if let Some(t) = c.tensor_split {
        lemma_pair("--tensor-split"@, t@);
        lemma_flat_pair(ps, 5, "--tensor-split"@, t@);
    }
    if let Some(t) = c.override_tensor {
        lemma_pair("--override-tensor"@, t@);
        lemma_flat_pair(ps, 6, "--override-tensor"@, t@);
    }
    if let Some(n) = c.threads {
        lemma_pair("--threads"@, dec_int(n as int));
        lemma_flat_pair(ps, 7, "--threads"@, dec_int(n as int));
    }
    if let Some(n) = c.threads_batch {
        lemma_pair("--threads-batch"@, dec_int(n as int));
        lemma_flat_pair(ps, 8, "--threads-batch"@, dec_int(n as int));
    }
    if let Some(n) = c.cache_reuse {
        lemma_pair("--cache-reuse"@, dec_int(n as int));
        lemma_flat_pair(ps, 9, "--cache-reuse"@, dec_int(n as int));
    }
    if let Some(n) = c.models_max {
        lemma_pair("--models-max"@, dec_int(n as int));
        lemma_flat_pair(ps, 10, "--models-max"@, dec_int(n as int));
    }
    if let Some(n) = c.log_verbosity {
        lemma_pair("--log-verbosity"@, dec_int(n as int));
        lemma_flat_pair(ps, 11, "--log-verbosity"@, dec_int(n as int));
    }
    if c.mlock == Some(true) {
        assert(ps[12][0] == "--mlock"@);
        lemma_flat_has(ps, 12, "--mlock"@);
    }
    if c.no_mmap == Some(true) {
        assert(ps[13][0] == "--no-mmap"@);
        lemma_flat_has(ps, 13, "--no-mmap"@);
    }
    if c.webui_mcp_proxy != Some(false) {
        assert(ps[14][0] == "--webui-mcp-proxy"@);
        lemma_flat_has(ps, 14, "--webui-mcp-proxy"@);
    }
    if c.prefill_assistant == Some(false) {
        assert(ps[15][0] == "--no-prefill-assistant"@);
        lemma_flat_has(ps, 15, "--no-prefill-assistant"@);
    }
}

/// What is not set is not passed: without a setting there are the presets, the port and
/// the proxy, and without the proxy no more than the first two.
pub proof fn law_unset_settings_are_not_passed(c: ServerConfig, presets: Seq<char>)
    requires
        c.hostname is None,
        c.models_dir is None,
        c.device is None,
        c.split_mode is None,
        c.tensor_split is None,
        c.override_tensor is None,
        c.threads is None,
        c.threads_batch is None,
        c.cache_reuse is None,
        c.models_max is None,
        c.log_verbosity is None,
        c.mlock != Some(true),
        c.no_mmap != Some(true),
        c.prefill_assistant != Some(false),
    ensures
        server_argv(c, presets).len() == if c.webui_mcp_proxy == Some(false) {
            4int
        } else {
            5
        },
{
}

} // verus!
