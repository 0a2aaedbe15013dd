use vstd::prelude::*;

use crate::launcher_laws::{
    law_decimal_parses_back, lemma_decimal_reads_back, lemma_words_concat_space,
    lemma_words_of_join, plain_word,
};
use crate::server::{pids_in, server_args_spec};
use crate::text::{decimal, is_digit, is_ws, join, words};

verus! {

/// The arguments of `llama-server` begin with the model file, the host, the port, the context
/// size and the GPU layer count, in that order.
pub proof fn law_server_args_begin(
    model_path: Seq<char>,
    host: Seq<char>,
    port: u16,
    ctx_size: u32,
    n_gpu_layers: u32,
    mtp_enabled: bool,
    spec_draft_n_max: u32,
    flash_attn: Seq<char>,
    mmproj: Seq<char>,
    mmproj_resolved: Result<Seq<char>, Seq<char>>,
    extra_args: Seq<char>,
)
    ensures
        ({
            let a = server_args_spec(
                model_path,
                host,
                port,
                ctx_size,
                n_gpu_layers,
                mtp_enabled,
                spec_draft_n_max,
                flash_attn,
                mmproj,
                mmproj_resolved,
                extra_args,
            );
            &&& a.len() >= 10
            &&& a.subrange(0, 10) == seq![
                "-m"@,
                model_path,
                "--host"@,
                host,
                "--port"@,
                decimal(port as nat),
                "-c"@,
                decimal(ctx_size as nat),
                "--n-gpu-layers"@,
                decimal(n_gpu_layers as nat),
            ]
        }),
{
    let a = server_args_spec(
        model_path,
        host,
        port,
        ctx_size,
        n_gpu_layers,
        mtp_enabled,
        spec_draft_n_max,
        flash_attn,
        mmproj,
        mmproj_resolved,
        extra_args,
    );
    assert(a.subrange(0, 10) =~= seq![
        "-m"@,
        model_path,
        "--host"@,
        host,
        "--port"@,
        decimal(port as nat),
        "-c"@,
        decimal(ctx_size as nat),
        "--n-gpu-layers"@,
        decimal(n_gpu_layers as nat),
    ]);
}

/// Turning MTP on puts `--spec-type draft-mtp --spec-draft-n-max <count>` right after the first
/// ten arguments and changes nothing else, whatever the flash-attention setting, the vision
/// projector and the extra arguments; with MTP off the draft count does not matter.
pub proof fn law_server_args_mtp(
    model_path: Seq<char>,
    host: Seq<char>,
    port: u16,
    ctx_size: u32,
    n_gpu_layers: u32,
    spec_draft_n_max: u32,
    other_n_max: u32,
    flash_attn: Seq<char>,
    mmproj: Seq<char>,
    mmproj_resolved: Result<Seq<char>, Seq<char>>,
    extra_args: Seq<char>,
)
    ensures
        ({
            let on = server_args_spec(
                model_path,
                host,
                port,
                ctx_size,
                n_gpu_layers,
                true,
                spec_draft_n_max,
                flash_attn,
                mmproj,
                mmproj_resolved,
                extra_args,
            );
            let off = server_args_spec(
                model_path,
                host,
                port,
                ctx_size,
                n_gpu_layers,
                false,
                spec_draft_n_max,
                flash_attn,
                mmproj,
                mmproj_resolved,
                extra_args,
            );
            let off2 = server_args_spec(
                model_path,
                host,
                port,
                ctx_size,
                n_gpu_layers,
                false,
                other_n_max,
                flash_attn,
                mmproj,
                mmproj_resolved,
                extra_args,
            );
            &&& off.len() >= 10
            &&& on == off.subrange(0, 10) + seq![
                "--spec-type"@,
                "draft-mtp"@,
                "--spec-draft-n-max"@,
                decimal(spec_draft_n_max as nat),
            ] + off.subrange(10, off.len() as int)
            &&& off2 == off
        }),
{
    let on = server_args_spec(
        model_path,
        host,
        port,
        ctx_size,
        n_gpu_layers,
        true,
        spec_draft_n_max,
        flash_attn,
        mmproj,
        mmproj_resolved,
        extra_args,
    );
    let off = server_args_spec(
        model_path,
        host,
        port,
        ctx_size,
        n_gpu_layers,
        false,
        spec_draft_n_max,
        flash_attn,
        mmproj,
        mmproj_resolved,
        extra_args,
    );
    assert(on =~= off.subrange(0, 10) + seq![
        "--spec-type"@,
        "draft-mtp"@,
        "--spec-draft-n-max"@,
        decimal(spec_draft_n_max as nat),
    ] + off.subrange(10, off.len() as int));
}

/// A flash-attention setting other than `auto` puts `--flash-attn=<value>` right after the
/// first ten arguments and the MTP arguments, and changes nothing else.
pub proof fn law_server_args_flash_attn(
    model_path: Seq<char>,
    host: Seq<char>,
    port: u16,
    ctx_size: u32,
    n_gpu_layers: u32,
    mtp_enabled: bool,
    spec_draft_n_max: u32,
    flash_attn: Seq<char>,
    mmproj: Seq<char>,
    mmproj_resolved: Result<Seq<char>, Seq<char>>,
    extra_args: Seq<char>,
)
    requires
        flash_attn != "auto"@,
    ensures
        ({
            let k: int = if mtp_enabled {
                14
            } else {
                10
            };
            let set = server_args_spec(
                model_path,
                host,
                port,
                ctx_size,
                n_gpu_layers,
                mtp_enabled,
                spec_draft_n_max,
                flash_attn,
                mmproj,
                mmproj_resolved,
                extra_args,
            );
            let auto = server_args_spec(
                model_path,
                host,
                port,
                ctx_size,
                n_gpu_layers,
                mtp_enabled,
                spec_draft_n_max,
                "auto"@,
                mmproj,
                mmproj_resolved,
                extra_args,
            );
            &&& auto.len() >= k
            &&& set == auto.subrange(0, k) + seq!["--flash-attn="@ + flash_attn] + auto.subrange(
                k,
                auto.len() as int,
            )
        }),
{
    let k: int = if mtp_enabled {
        14
    } else {
        10
    };
    let set = server_args_spec(
        model_path,
        host,
        port,
        ctx_size,
        n_gpu_layers,
        mtp_enabled,
        spec_draft_n_max,
        flash_attn,
        mmproj,
        mmproj_resolved,
        extra_args,
    );
    let auto = server_args_spec(
        model_path,
        host,
        port,
        ctx_size,
        n_gpu_layers,
        mtp_enabled,
        spec_draft_n_max,
        "auto"@,
        mmproj,
        mmproj_resolved,
        extra_args,
    );
    assert(set =~= auto.subrange(0, k) + seq!["--flash-attn="@ + flash_attn] + auto.subrange(
        k,
        auto.len() as int,
    ));
}

/// The arguments end with the words of the extra arguments: the arguments with extra text are
/// those without it, followed by its words.
pub proof fn law_server_args_extras(
    model_path: Seq<char>,
    host: Seq<char>,
    port: u16,
    ctx_size: u32,
    n_gpu_layers: u32,
    mtp_enabled: bool,
    spec_draft_n_max: u32,
    flash_attn: Seq<char>,
    mmproj: Seq<char>,
    mmproj_resolved: Result<Seq<char>, Seq<char>>,
    extra_args: Seq<char>,
)
    ensures
        server_args_spec(
            model_path,
            host,
            port,
            ctx_size,
            n_gpu_layers,
            mtp_enabled,
            spec_draft_n_max,
            flash_attn,
            mmproj,
            mmproj_resolved,
            extra_args,
        ) == server_args_spec(
            model_path,
            host,
            port,
            ctx_size,
            n_gpu_layers,
            mtp_enabled,
            spec_draft_n_max,
            flash_attn,
            mmproj,
            mmproj_resolved,
            Seq::<char>::empty(),
        ) + words(extra_args),
{
    assert(words(Seq::<char>::empty()) == Seq::<Seq<char>>::empty());
    let a = server_args_spec(
        model_path,
        host,
        port,
        ctx_size,
        n_gpu_layers,
        mtp_enabled,
        spec_draft_n_max,
        flash_attn,
        mmproj,
        mmproj_resolved,
        Seq::<char>::empty(),
    );
    assert(a + Seq::<Seq<char>>::empty() =~= a);
}

/// A vision projector puts `--mmproj` and its path (its name when the path was not found) just
/// before the extra arguments, and changes nothing else.
pub proof fn law_server_args_mmproj(
    model_path: Seq<char>,
    host: Seq<char>,
    port: u16,
    ctx_size: u32,
    n_gpu_layers: u32,
    mtp_enabled: bool,
    spec_draft_n_max: u32,
    flash_attn: Seq<char>,
    mmproj: Seq<char>,
    mmproj_resolved: Result<Seq<char>, Seq<char>>,
)
    requires
        mmproj.len() > 0,
    ensures
        server_args_spec(
            model_path,
            host,
            port,
            ctx_size,
            n_gpu_layers,
            mtp_enabled,
            spec_draft_n_max,
            flash_attn,
            mmproj,
            mmproj_resolved,
            Seq::<char>::empty(),
        ) == server_args_spec(
            model_path,
            host,
            port,
            ctx_size,
            n_gpu_layers,
            mtp_enabled,
            spec_draft_n_max,
            flash_attn,
            Seq::<char>::empty(),
            mmproj_resolved,
            Seq::<char>::empty(),
        ) + seq![
            "--mmproj"@,
            match mmproj_resolved {
                Ok(p) => p,
                Err(_) => mmproj,
            },
        ],
{
    assert(words(Seq::<char>::empty()) == Seq::<Seq<char>>::empty());
}

/// A decimal number is a plain word.
proof fn lemma_decimal_plain(n: nat)
    ensures
        plain_word(decimal(n)),
{
    lemma_decimal_reads_back(n);
    let d = decimal(n);
    assert forall|i: int| 0 <= i < d.len() implies !is_ws(#[trigger] d[i]) by {
        assert(is_digit(d[i]));
    }
}

/// Every word of `fuser`'s output that is the decimal of a process id (any `u32`, up to
/// 4294967295) gives that id, after the ids of the words before it.
pub proof fn law_pid_words(output: Seq<char>, n: nat)
    requires
        n <= 4294967295,
    ensures
        pids_in(words(decimal(n))) == seq![n as u32],
        pids_in(words(output + " "@ + decimal(n))) == pids_in(words(output)).push(n as u32),
{
    let d = decimal(n);
    lemma_decimal_plain(n);
    law_decimal_parses_back(n, 4294967295);
    lemma_words_of_join(seq![d]);
    assert(join(seq![d], " "@) == d);
    assert(words(d) == seq![d]);
    assert(seq![d].drop_last() =~= Seq::<Seq<char>>::empty());
    assert(pids_in(Seq::<Seq<char>>::empty()) == Seq::<u32>::empty());
    lemma_words_concat_space(output, d);
    let ws = words(output) + seq![d];
    assert(ws.drop_last() =~= words(output));
    assert(ws.last() == d);
}

} // verus!
