use vstd::prelude::*;

use crate::i18n::{pick, Lang};
use crate::launcher::ServerEvent;
use crate::text::{
    decimal, decimal_string, ends_with, extend_str, from_chars, parse_unsigned, parse_unsigned_chars,
    slice_chars, span_text, spans_within, str_ends_with, str_eq, string_views, to_chars, word_spans,
    words,
};

verus! {

fn lit(s: &str) -> (r: String)
    ensures
        r@ == s@,
{
    String::from_str(s)
}

fn concat(parts: &Vec<&str>) -> (r: String)
    ensures
        r@ == concat_strs(parts@),
{
    let mut v: Vec<char> = Vec::new();
    let n = parts.len();
    for i in 0..n
        invariant
            n == parts@.len(),
            v@ == concat_strs(parts@.take(i as int)),
    {
        extend_str(&mut v, parts[i]);
        assert(parts@.take(i + 1).drop_last() =~= parts@.take(i as int));
    }
    assert(parts@.take(n as int) =~= parts@);
    from_chars(&v)
}

/// The characters of string slices, one after the other.
pub open spec fn concat_strs(parts: Seq<&str>) -> Seq<char>
    decreases parts.len(),
{
    if parts.len() == 0 {
        seq![]
    } else {
        concat_strs(parts.drop_last()) + parts.last()@
    }
}

// ---------------------------------------------------------------------------
// Finding the model file
// ---------------------------------------------------------------------------

/// `name.gguf`.
pub fn with_gguf_extension(name: &str) -> (r: String)
    ensures
        r@ == name@ + ".gguf"@,
{
    let mut v = to_chars(name);
    extend_str(&mut v, ".gguf");
    from_chars(&v)
}

pub open spec fn model_not_found_message(lang: Lang, dir: Seq<char>, name: Seq<char>) -> Seq<char> {
    pick(lang, "模型文件不存在: "@, "Model file not found: "@) + dir + "/"@ + name
}

/// The model file: the path of `model_dir` joined with `model_name` when that file exists
/// (`existing_direct`), else, for a name without the `.gguf` extension, the path joined with the
/// name plus `.gguf` when that file exists (`existing_with_ext`); otherwise the message that the
/// model file was not found.
pub open spec fn resolve_model_result(
    model_dir: Seq<char>,
    model_name: Seq<char>,
    lang: Lang,
    existing_direct: Option<Seq<char>>,
    existing_with_ext: Option<Seq<char>>,
) -> Result<Seq<char>, Seq<char>> {
    match existing_direct {
        Some(p) => Ok(p),
        None => match existing_with_ext {
            Some(p) if !ends_with(model_name, ".gguf"@) => Ok(p),
            _ => Err(model_not_found_message(lang, model_dir, model_name)),
        },
    }
}

pub open spec fn opt_view(o: Option<String>) -> Option<Seq<char>> {
    match o {
        Some(s) => Some(s@),
        None => None,
    }
}

pub open spec fn result_view(r: Result<String, String>) -> Result<Seq<char>, Seq<char>> {
    match r {
        Ok(s) => Ok(s@),
        Err(s) => Err(s@),
    }
}

pub fn resolve_model_path(
    model_dir: &str,
    model_name: &str,
    lang: Lang,
    existing_direct: Option<String>,
    existing_with_ext: Option<String>,
) -> (r: Result<String, String>)
    ensures
        result_view(r) == resolve_model_result(
            model_dir@,
            model_name@,
            lang,
            opt_view(existing_direct),
            opt_view(existing_with_ext),
        ),
{
    proof {
        reveal_with_fuel(concat_strs, 8);
    }
    if let Some(p) = existing_direct {
        return Ok(p);
    }
    if !str_ends_with(model_name, ".gguf") {
        if let Some(p) = existing_with_ext {
            return Ok(p);
        }
    }
    Err(
        concat(
            &vec![
                match lang {
                    Lang::Zh => "模型文件不存在: ",
                    Lang::En => "Model file not found: ",
                },
                model_dir,
                "/",
                model_name,
            ],
        ),
    )
}

// ---------------------------------------------------------------------------
// The command line of `llama-server`
// ---------------------------------------------------------------------------

/// The arguments that `llama-server` is started with.
pub open spec fn server_args_spec(
    model_path: Seq<char>,
    host: Seq<char>,
    port: u16,
    ctx_size: u32,
    n_gpu_layers: u32,
    mtp_enabled: bool,
    spec_draft_n_max: u32,
    flash_attn: Seq<char>,
    mmproj: Seq<char>,
    mmproj_resolved: Result<Seq<char>, Seq<char>>,
    extra_args: Seq<char>,
) -> Seq<Seq<char>> {
    let a = seq![
        "-m"@,
        model_path,
        "--host"@,
        host,
        "--port"@,
        decimal(port as nat),
        "-c"@,
        decimal(ctx_size as nat),
        "--n-gpu-layers"@,
        decimal(n_gpu_layers as nat),
    ];
    let a = if mtp_enabled {
        a + seq!["--spec-type"@, "draft-mtp"@, "--spec-draft-n-max"@, decimal(spec_draft_n_max as nat)]
    } else {
        a
    };
    let a = if flash_attn != "auto"@ {
        a.push("--flash-attn="@ + flash_attn)
    } else {
        a
    };
    let a = if mmproj.len() > 0 {
        a + seq![
            "--mmproj"@,
            match mmproj_resolved {
                Ok(p) => p,
                Err(_) => mmproj,
            },
        ]
    } else {
        a
    };
    a + words(extra_args)
}

fn push_arg(args: &mut Vec<String>, a: String)
    ensures
        string_views(final(args)@) == string_views(old(args)@).push(a@),
{
    assert(string_views(args@.push(a)) =~= string_views(args@).push(a@));
    args.push(a);
}

#[verifier::rlimit(50)]
/// The arguments that `llama-server` is started with; `mmproj_resolved` is `resolve_model_path`
/// of the vision projector (its name is used when it was not found).
pub fn server_args(
    model_path: &str,
    host: &str,
    port: u16,
    ctx_size: u32,
    n_gpu_layers: u32,
    mtp_enabled: bool,
    spec_draft_n_max: u32,
    flash_attn: &str,
    mmproj: &str,
    mmproj_resolved: Result<String, String>,
    extra_args: &str,
) -> (r: Vec<String>)
    ensures
        string_views(r@) == server_args_spec(
            model_path@,
            host@,
            port,
            ctx_size,
            n_gpu_layers,
            mtp_enabled,
            spec_draft_n_max,
            flash_attn@,
            mmproj@,
            result_view(mmproj_resolved),
            extra_args@,
        ),
{
    proof {
        reveal_with_fuel(concat_strs, 8);
    }
    let mut args: Vec<String> = Vec::new();
    push_arg(&mut args, lit("-m"));
    push_arg(&mut args, lit(model_path));
    push_arg(&mut args, lit("--host"));
    push_arg(&mut args, lit(host));
    push_arg(&mut args, lit("--port"));
    push_arg(&mut args, decimal_string(port as u64));
    push_arg(&mut args, lit("-c"));
    push_arg(&mut args, decimal_string(ctx_size as u64));
    push_arg(&mut args, lit("--n-gpu-layers"));
    push_arg(&mut args, decimal_string(n_gpu_layers as u64));
    if mtp_enabled {
        push_arg(&mut args, lit("--spec-type"));
        push_arg(&mut args, lit("draft-mtp"));
        push_arg(&mut args, lit("--spec-draft-n-max"));
        push_arg(&mut args, decimal_string(spec_draft_n_max as u64));
    }
    if !str_eq(flash_attn, "auto") {
        push_arg(&mut args, concat(&vec!["--flash-attn=", flash_attn]));
    }
    if !mmproj.is_empty() {
        push_arg(&mut args, lit("--mmproj"));
        let p = match mmproj_resolved {
            Ok(p) => p,
            Err(_) => lit(mmproj),
        };
        push_arg(&mut args, p);
    }
    let ghost before = string_views(args@);
    let v = to_chars(extra_args);
    let spans = word_spans(&v);
    let n = spans.len();
    for i in 0..n
        invariant
            n == spans@.len(),
            spans_within(v@, spans@),
            string_views(args@) == before + span_text(v@, spans@).take(i as int),
    {
        let (a, b) = spans[i];
        push_arg(&mut args, from_chars(&slice_chars(&v, a, b)));
        assert(span_text(v@, spans@).take(i + 1) =~= span_text(v@, spans@).take(i as int).push(
            v@.subrange(a as int, b as int),
        ));
    }
    assert(span_text(v@, spans@).take(n as int) =~= span_text(v@, spans@));
    args
}

/// The address of the health check: `http://host:port/v1/models`.
pub fn health_url(host: &str, port: u16) -> (r: String)
    ensures
        r@ == "http://"@ + host@ + ":"@ + decimal(port as nat) + "/v1/models"@,
{
    proof {
        reveal_with_fuel(concat_strs, 8);
    }
    let p = decimal_string(port as u64);
    concat(&vec!["http://", host, ":", p.as_str(), "/v1/models"])
}

// ---------------------------------------------------------------------------
// Messages of the start-up
// ---------------------------------------------------------------------------

pub fn executable_not_found_message(lang: Lang, executable: &str) -> (r: String)
    ensures
        r@ == pick(lang, "可执行文件不存在: "@, "Executable not found: "@) + executable@,
{
    proof {
        reveal_with_fuel(concat_strs, 8);
    }
    concat(
        &vec![
            match lang {
                Lang::Zh => "可执行文件不存在: ",
                Lang::En => "Executable not found: ",
            },
            executable,
        ],
    )
}

/// `error` is what the failed spawn reported.
pub fn spawn_failed_message(lang: Lang, error: &str) -> (r: String)
    ensures
        r@ == pick(lang, "启动失败: "@, "Start failed: "@) + error@,
{
    proof {
        reveal_with_fuel(concat_strs, 8);
    }
    concat(
        &vec![
            match lang {
                Lang::Zh => "启动失败: ",
                Lang::En => "Start failed: ",
            },
            error,
        ],
    )
}

pub fn started_message(lang: Lang, pid: u32) -> (r: String)
    ensures
        r@ == pick(lang, "llama-server 已启动, PID: "@, "llama-server started, PID: "@) + decimal(
            pid as nat,
        ),
{
    proof {
        reveal_with_fuel(concat_strs, 8);
    }
    let p = decimal_string(pid as u64);
    concat(
        &vec![
            match lang {
                Lang::Zh => "llama-server 已启动, PID: ",
                Lang::En => "llama-server started, PID: ",
            },
            p.as_str(),
        ],
    )
}

/// How a start-up ended.
#[derive(Clone, Copy, PartialEq, Eq, Structural, Debug)]
pub enum StartupOutcome {
    /// The server answered the health check and was still running.
    Ready,
    /// The deadline passed first.
    TimedOut,
    /// The process ended (or its state could not be read) first.
    Exited,
}

/// The last message of a start-up: the address when ready; otherwise why it failed.
pub open spec fn startup_message_spec(
    lang: Lang,
    outcome: StartupOutcome,
    host: Seq<char>,
    port: u16,
    timeout_secs: u64,
) -> Seq<char> {
    let hp = host + ":"@ + decimal(port as nat);
    match outcome {
        StartupOutcome::Ready => pick(lang, "llama-server 已就绪: http://"@, "llama-server ready: http://"@)
            + hp,
        StartupOutcome::TimedOut => pick(lang, "启动失败: 等待 "@, "start failed: waiting for "@) + hp
            + pick(lang, " 超时 ("@, " timeout ("@) + decimal(timeout_secs as nat) + "s)"@,
        StartupOutcome::Exited => pick(lang, "启动失败: 端口 "@, "start failed: port "@) + hp + pick(
            lang,
            " 被占用"@,
            " in use"@,
        ),
    }
}

pub fn startup_message(
    lang: Lang,
    outcome: StartupOutcome,
    host: &str,
    port: u16,
    timeout_secs: u64,
) -> (r: String)
    ensures
        r@ == startup_message_spec(lang, outcome, host@, port, timeout_secs),
{
    proof {
        reveal_with_fuel(concat_strs, 8);
    }
    let p = decimal_string(port as u64);
    let zh = match lang {
        Lang::Zh => true,
        Lang::En => false,
    };
    match outcome {
        StartupOutcome::Ready => concat(
            &vec![
                if zh {
                    "llama-server 已就绪: http://"
                } else {
                    "llama-server ready: http://"
                },
                host,
                ":",
                p.as_str(),
            ],
        ),
        StartupOutcome::TimedOut => {
            let t = decimal_string(timeout_secs);
            concat(
                &vec![
                    if zh {
                        "启动失败: 等待 "
                    } else {
                        "start failed: waiting for "
                    },
                    host,
                    ":",
                    p.as_str(),
                    if zh {
                        " 超时 ("
                    } else {
                        " timeout ("
                    },
                    t.as_str(),
                    "s)",
                ],
            )
        },
        StartupOutcome::Exited => concat(
            &vec![
                if zh {
                    "启动失败: 端口 "
                } else {
                    "start failed: port "
                },
                host,
                ":",
                p.as_str(),
                if zh {
                    " 被占用"
                } else {
                    " in use"
                },
            ],
        ),
    }
}

// ---------------------------------------------------------------------------
// Before the spawn; what the start-up reports
// ---------------------------------------------------------------------------

/// What a start does before spawning `llama-server`: it fails with the model's message when the
/// model file was not found, then with the executable's message when the executable does not
/// exist; otherwise it has the server's arguments.
pub open spec fn start_plan_spec(
    lang: Lang,
    executable: Seq<char>,
    executable_exists: bool,
    model_resolved: Result<Seq<char>, Seq<char>>,
    host: Seq<char>,
    port: u16,
    ctx_size: u32,
    n_gpu_layers: u32,
    mtp_enabled: bool,
    spec_draft_n_max: u32,
    flash_attn: Seq<char>,
    mmproj: Seq<char>,
    mmproj_resolved: Result<Seq<char>, Seq<char>>,
    extra_args: Seq<char>,
) -> Result<Seq<Seq<char>>, Seq<char>> {
    match model_resolved {
        Err(e) => Err(e),
        Ok(p) => if !executable_exists {
            Err(pick(lang, "可执行文件不存在: "@, "Executable not found: "@) + executable)
        } else {
            Ok(
                server_args_spec(
                    p,
                    host,
                    port,
                    ctx_size,
                    n_gpu_layers,
                    mtp_enabled,
                    spec_draft_n_max,
                    flash_attn,
                    mmproj,
                    mmproj_resolved,
                    extra_args,
                ),
            )
        },
    }
}

/// `model_resolved` and `mmproj_resolved` are `resolve_model_path` of the model and of the
/// vision projector; `executable_exists` says whether the executable's file exists.
pub fn start_plan(
    lang: Lang,
    executable: &str,
    executable_exists: bool,
    model_resolved: Result<String, String>,
    host: &str,
    port: u16,
    ctx_size: u32,
    n_gpu_layers: u32,
    mtp_enabled: bool,
    spec_draft_n_max: u32,
    flash_attn: &str,
    mmproj: &str,
    mmproj_resolved: Result<String, String>,
    extra_args: &str,
) -> (r: Result<Vec<String>, String>)
    ensures
        match r {
            Ok(args) => start_plan_spec(
                lang,
                executable@,
                executable_exists,
                result_view(model_resolved),
                host@,
                port,
                ctx_size,
                n_gpu_layers,
                mtp_enabled,
                spec_draft_n_max,
                flash_attn@,
                mmproj@,
                result_view(mmproj_resolved),
                extra_args@,
            ) == Ok::<Seq<Seq<char>>, Seq<char>>(string_views(args@)),
            Err(e) => start_plan_spec(
                lang,
                executable@,
                executable_exists,
                result_view(model_resolved),
                host@,
                port,
                ctx_size,
                n_gpu_layers,
                mtp_enabled,
                spec_draft_n_max,
                flash_attn@,
                mmproj@,
                result_view(mmproj_resolved),
                extra_args@,
            ) == Err::<Seq<Seq<char>>, Seq<char>>(e@),
        },
{
    let model_path = match model_resolved {
        Ok(p) => p,
        Err(e) => {
            return Err(e);
        },
    };
    if !executable_exists {
        return Err(executable_not_found_message(lang, executable));
    }
    Ok(
        server_args(
            model_path.as_str(),
            host,
            port,
            ctx_size,
            n_gpu_layers,
            mtp_enabled,
            spec_draft_n_max,
            flash_attn,
            mmproj,
            mmproj_resolved,
            extra_args,
        ),
    )
}

/// What a start that fails reports: the message as a log line, then as the failure.
pub fn failure_events(msg: String) -> (r: Vec<ServerEvent>)
    ensures
        r.len() == 2,
        r[0] matches ServerEvent::Log(m) && m@ == msg@,
        r[1] matches ServerEvent::Failed(m) && m@ == msg@,
{
    let mut r: Vec<ServerEvent> = Vec::new();
    r.push(ServerEvent::Log(msg.clone()));
    r.push(ServerEvent::Failed(msg));
    r
}

/// What the end of the start-up reports, with its message `msg`: when the server is ready, the
/// message as a log line and then the server's process id; otherwise the message as the
/// failure (and the process is to be ended).
pub fn startup_end_events(outcome: StartupOutcome, msg: String, pid: u32) -> (r: Vec<ServerEvent>)
    ensures
        outcome == StartupOutcome::Ready ==> r.len() == 2 && (r[0] matches ServerEvent::Log(m)
            && m@ == msg@) && (r[1] matches ServerEvent::Started(p) && p == pid),
        outcome != StartupOutcome::Ready ==> r.len() == 1 && (r[0] matches ServerEvent::Failed(m)
            && m@ == msg@),
{
    let mut r: Vec<ServerEvent> = Vec::new();
    match outcome {
        StartupOutcome::Ready => {
            r.push(ServerEvent::Log(msg));
            r.push(ServerEvent::Started(pid));
        },
        _ => {
            r.push(ServerEvent::Failed(msg));
        },
    }
    r
}

// ---------------------------------------------------------------------------
// Watching the start-up
// ---------------------------------------------------------------------------

/// What to look at next while `llama-server` starts (after the new log lines are passed on).
#[derive(Clone, Copy, PartialEq, Eq, Structural, Debug)]
pub enum StartupCheck {
    /// Has the process ended (or can its state not be read)?
    Exit,
    /// Has the deadline passed?
    Deadline,
    /// Does the health check answer with status 200?
    Health,
    /// After a short pause: is the process still running?
    StillRunning,
}

#[derive(Clone, Copy, PartialEq, Eq, Structural, Debug)]
pub enum StartupStep {
    /// Look at this next.
    Check(StartupCheck),
    /// Pause, pass on the new log lines, and start over with `Exit`.
    Wait,
    /// The start-up is over.
    Finish(StartupOutcome),
}

/// One decision of the start-up watch: `observed` answers the question of `check`.
pub open spec fn startup_next(check: StartupCheck, observed: bool) -> StartupStep {
    match check {
        StartupCheck::Exit => if observed {
            StartupStep::Finish(StartupOutcome::Exited)
        } else {
            StartupStep::Check(StartupCheck::Deadline)
        },
        StartupCheck::Deadline => if observed {
            StartupStep::Finish(StartupOutcome::TimedOut)
        } else {
            StartupStep::Check(StartupCheck::Health)
        },
        StartupCheck::Health => if observed {
            StartupStep::Check(StartupCheck::StillRunning)
        } else {
            StartupStep::Wait
        },
        StartupCheck::StillRunning => if observed {
            StartupStep::Finish(StartupOutcome::Ready)
        } else {
            StartupStep::Finish(StartupOutcome::Exited)
        },
    }
}

pub fn startup_step(check: StartupCheck, observed: bool) -> (r: StartupStep)
    ensures
        r == startup_next(check, observed),
{
    match check {
        StartupCheck::Exit => if observed {
            StartupStep::Finish(StartupOutcome::Exited)
        } else {
            StartupStep::Check(StartupCheck::Deadline)
        },
        StartupCheck::Deadline => if observed {
            StartupStep::Finish(StartupOutcome::TimedOut)
        } else {
            StartupStep::Check(StartupCheck::Health)
        },
        StartupCheck::Health => if observed {
            StartupStep::Check(StartupCheck::StillRunning)
        } else {
            StartupStep::Wait
        },
        StartupCheck::StillRunning => if observed {
            StartupStep::Finish(StartupOutcome::Ready)
        } else {
            StartupStep::Finish(StartupOutcome::Exited)
        },
    }
}

/// The outcome of one round of checks, each answered by `answer`; `None` when the round ends
/// in a pause.
pub open spec fn startup_round(answer: spec_fn(StartupCheck) -> bool) -> Option<StartupOutcome> {
    match startup_next(StartupCheck::Exit, answer(StartupCheck::Exit)) {
        StartupStep::Finish(o) => Some(o),
        _ => match startup_next(StartupCheck::Deadline, answer(StartupCheck::Deadline)) {
            StartupStep::Finish(o) => Some(o),
            _ => match startup_next(StartupCheck::Health, answer(StartupCheck::Health)) {
                StartupStep::Wait => None,
                _ => match startup_next(StartupCheck::StillRunning, answer(StartupCheck::StillRunning)) {
                    StartupStep::Finish(o) => Some(o),
                    _ => None,
                },
            },
        },
    }
}

/// A round of the start-up watch ends `Ready` exactly when the process had not ended, the
/// deadline had not passed, the health check answered, and the process was still running after
/// the pause.
pub proof fn startup_ready_needs_health(answer: spec_fn(StartupCheck) -> bool)
    ensures
        startup_round(answer) == Some(StartupOutcome::Ready) <==> (!answer(StartupCheck::Exit)
            && !answer(StartupCheck::Deadline) && answer(StartupCheck::Health) && answer(
            StartupCheck::StillRunning,
        )),
{
}

// ---------------------------------------------------------------------------
// Stopping
// ---------------------------------------------------------------------------

/// What happened when the server was asked to stop.
pub enum StopOutcome {
    /// It exited in time, with this status.
    Exited(String),
    /// It did not exit in time.
    NoResponse,
    /// Waiting for it failed with this error.
    WaitFailed(String),
    /// Asking it to stop failed with this error.
    TerminateFailed(String),
}

/// The log lines of a stop; when the server did not exit by itself it is killed after the first.
pub open spec fn stop_logs_spec(lang: Lang, outcome: StopOutcome) -> Seq<Seq<char>> {
    let forced = pick(lang, "llama-server 已强制停止"@, "llama-server force stopped"@);
    match outcome {
        StopOutcome::Exited(status) => seq![
            pick(lang, "llama-server 已停止 (exit: "@, "llama-server stopped (exit: "@) + status@ + ")"@,
        ],
        StopOutcome::NoResponse => seq![
            pick(lang, "llama-server 未响应, 强制终止"@, "llama-server no response, killing"@),
            forced,
        ],
        StopOutcome::WaitFailed(e) => seq![
            pick(lang, "等待退出失败: "@, "Wait exit failed: "@) + e@ + ", "@ + pick(lang, "强制终止"@, "killing"@),
            forced,
        ],
        StopOutcome::TerminateFailed(e) => seq![
            pick(lang, "停止失败: "@, "Stop failed: "@) + e@ + ", "@ + pick(lang, "强制终止"@, "killing"@),
            forced,
        ],
    }
}

pub open spec fn stop_needs_kill(outcome: StopOutcome) -> bool {
    !(outcome is Exited)
}

/// The log lines of a stop and whether the server must be killed (between the first line and
/// the second).
pub fn stop_server_logs(lang: Lang, outcome: &StopOutcome) -> (r: (Vec<String>, bool))
    ensures
        string_views(r.0@) == stop_logs_spec(lang, *outcome),
        r.1 == stop_needs_kill(*outcome),
{
    proof {
        reveal_with_fuel(concat_strs, 8);
    }
    let zh = match lang {
        Lang::Zh => true,
        Lang::En => false,
    };
    let forced = lit(
        if zh {
            "llama-server 已强制停止"
        } else {
            "llama-server force stopped"
        },
    );
    let killing = if zh {
        "强制终止"
    } else {
        "killing"
    };
    let mut logs: Vec<String> = Vec::new();
    match outcome {
        StopOutcome::Exited(status) => {
            push_arg(
                &mut logs,
                concat(
                    &vec![
                        if zh {
                            "llama-server 已停止 (exit: "
                        } else {
                            "llama-server stopped (exit: "
                        },
                        status.as_str(),
                        ")",
                    ],
                ),
            );
            (logs, false)
        },
        StopOutcome::NoResponse => {
            push_arg(
                &mut logs,
                lit(
                    if zh {
                        "llama-server 未响应, 强制终止"
                    } else {
                        "llama-server no response, killing"
                    },
                ),
            );
            push_arg(&mut logs, forced);
            (logs, true)
        },
        StopOutcome::WaitFailed(e) => {
            push_arg(
                &mut logs,
                concat(
                    &vec![
                        if zh {
                            "等待退出失败: "
                        } else {
                            "Wait exit failed: "
                        },
                        e.as_str(),
                        ", ",
                        killing,
                    ],
                ),
            );
            push_arg(&mut logs, forced);
            (logs, true)
        },
        StopOutcome::TerminateFailed(e) => {
            push_arg(
                &mut logs,
                concat(
                    &vec![
                        if zh {
                            "停止失败: "
                        } else {
                            "Stop failed: "
                        },
                        e.as_str(),
                        ", ",
                        killing,
                    ],
                ),
            );
            push_arg(&mut logs, forced);
            (logs, true)
        },
    }
}

// ---------------------------------------------------------------------------
// Freeing the port
// ---------------------------------------------------------------------------

/// The process ids in the words of `fuser`'s output: each word that parses as a `u32`.
pub open spec fn pids_in(ws: Seq<Seq<char>>) -> Seq<u32>
    decreases ws.len(),
{
    if ws.len() == 0 {
        seq![]
    } else {
        let rest = pids_in(ws.drop_last());
        match parse_unsigned(ws.last(), u32::MAX as nat) {
            Some(n) => rest.push(n as u32),
            None => rest,
        }
    }
}

/// The processes that hold the port, from what `fuser -n tcp <port>` printed.
pub fn pids_to_kill(fuser_output: &str) -> (r: Vec<u32>)
    ensures
        r@ == pids_in(words(fuser_output@)),
{
    let v = to_chars(fuser_output);
    let spans = word_spans(&v);
    let ghost ws = span_text(v@, spans@);
    let n = spans.len();
    let mut r: Vec<u32> = Vec::new();
    for i in 0..n
        invariant
            n == spans@.len(),
            ws == span_text(v@, spans@),
            spans_within(v@, spans@),
            r@ == pids_in(ws.take(i as int)),
    {
        let (a, b) = spans[i];
        let w = slice_chars(&v, a, b);
        assert(ws[i as int] == w@);
        assert(ws.take(i + 1).drop_last() =~= ws.take(i as int));
        match parse_unsigned_chars(&w, 0xFFFF_FFFF) {
            Some(p) => {
                r.push(p as u32);
            },
            None => {},
        }
    }
    assert(ws.take(n as int) =~= ws);
    r
}

} // verus!
