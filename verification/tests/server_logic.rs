use llamacpp_launcher::i18n::Lang;
use llamacpp_launcher::launcher::ServerEvent;
use llamacpp_launcher::server::{failure_events, start_plan, startup_end_events};
use llamacpp_launcher::server::{
    executable_not_found_message, health_url, pids_to_kill, resolve_model_path, server_args,
    spawn_failed_message, started_message, startup_message, startup_step, stop_server_logs,
    with_gguf_extension, StartupCheck, StartupOutcome, StartupStep, StopOutcome,
};

fn strings(v: &[&str]) -> Vec<String> {
    v.iter().map(|s| s.to_string()).collect()
}

#[test]
fn resolve_model_path_prefers_the_exact_file() {
    assert_eq!(with_gguf_extension("m"), "m.gguf");
    assert_eq!(
        resolve_model_path("/d", "m", Lang::En, Some("/d/m".to_string()), Some("/d/m.gguf".to_string())),
        Ok("/d/m".to_string())
    );
    assert_eq!(
        resolve_model_path("/d", "m", Lang::En, None, Some("/d/m.gguf".to_string())),
        Ok("/d/m.gguf".to_string())
    );
    assert_eq!(
        resolve_model_path("/d", "m.gguf", Lang::En, None, Some("/d/m.gguf.gguf".to_string())),
        Err("Model file not found: /d/m.gguf".to_string())
    );
    assert_eq!(
        resolve_model_path("/d", "m", Lang::Zh, None, None),
        Err("模型文件不存在: /d/m".to_string())
    );
}

#[test]
fn server_args_in_order() {
    let args = server_args(
        "/d/m.gguf",
        "127.0.0.1",
        8080,
        4096,
        30,
        true,
        3,
        "on",
        "mmproj-x",
        Ok("/d/mmproj-x.gguf".to_string()),
        "  --temp 0.5 ",
    );
    assert_eq!(
        args,
        strings(&[
            "-m",
            "/d/m.gguf",
            "--host",
            "127.0.0.1",
            "--port",
            "8080",
            "-c",
            "4096",
            "--n-gpu-layers",
            "30",
            "--spec-type",
            "draft-mtp",
            "--spec-draft-n-max",
            "3",
            "--flash-attn=on",
            "--mmproj",
            "/d/mmproj-x.gguf",
            "--temp",
            "0.5"
        ])
    );
}

#[test]
fn server_args_minimal_and_unresolved_projector() {
    let args = server_args("m", "h", 1, 2, 3, false, 9, "auto", "", Err("x".to_string()), "");
    assert_eq!(args, strings(&["-m", "m", "--host", "h", "--port", "1", "-c", "2", "--n-gpu-layers", "3"]));
    let args2 = server_args("m", "h", 1, 2, 3, false, 9, "auto", "proj", Err("nope".to_string()), "");
    assert_eq!(&args2[10..], &strings(&["--mmproj", "proj"])[..]);
}

#[test]
fn start_up_messages() {
    assert_eq!(health_url("0.0.0.0", 11433), "http://0.0.0.0:11433/v1/models");
    assert_eq!(executable_not_found_message(Lang::En, "/x"), "Executable not found: /x");
    assert_eq!(executable_not_found_message(Lang::Zh, "/x"), "可执行文件不存在: /x");
    assert_eq!(spawn_failed_message(Lang::En, "denied"), "Start failed: denied");
    assert_eq!(spawn_failed_message(Lang::Zh, "denied"), "启动失败: denied");
    assert_eq!(started_message(Lang::En, 77), "llama-server started, PID: 77");
    assert_eq!(started_message(Lang::Zh, 77), "llama-server 已启动, PID: 77");
    assert_eq!(
        startup_message(Lang::En, StartupOutcome::Ready, "h", 5, 120),
        "llama-server ready: http://h:5"
    );
    assert_eq!(
        startup_message(Lang::En, StartupOutcome::TimedOut, "h", 5, 120),
        "start failed: waiting for h:5 timeout (120s)"
    );
    assert_eq!(
        startup_message(Lang::Zh, StartupOutcome::Exited, "h", 5, 120),
        "启动失败: 端口 h:5 被占用"
    );
}

#[test]
fn startup_watch_decisions() {
    assert_eq!(startup_step(StartupCheck::Exit, true), StartupStep::Finish(StartupOutcome::Exited));
    assert_eq!(startup_step(StartupCheck::Exit, false), StartupStep::Check(StartupCheck::Deadline));
    assert_eq!(startup_step(StartupCheck::Deadline, true), StartupStep::Finish(StartupOutcome::TimedOut));
    assert_eq!(startup_step(StartupCheck::Deadline, false), StartupStep::Check(StartupCheck::Health));
    assert_eq!(startup_step(StartupCheck::Health, false), StartupStep::Wait);
    assert_eq!(startup_step(StartupCheck::Health, true), StartupStep::Check(StartupCheck::StillRunning));
    assert_eq!(startup_step(StartupCheck::StillRunning, true), StartupStep::Finish(StartupOutcome::Ready));
    assert_eq!(startup_step(StartupCheck::StillRunning, false), StartupStep::Finish(StartupOutcome::Exited));
}

#[test]
fn stop_logs_for_each_outcome() {
    let (logs, kill) = stop_server_logs(Lang::En, &StopOutcome::Exited("exit status: 0".to_string()));
    assert_eq!(logs, strings(&["llama-server stopped (exit: exit status: 0)"]));
    assert!(!kill);
    let (logs, kill) = stop_server_logs(Lang::En, &StopOutcome::NoResponse);
    assert_eq!(logs, strings(&["llama-server no response, killing", "llama-server force stopped"]));
    assert!(kill);
    let (logs, kill) = stop_server_logs(Lang::Zh, &StopOutcome::WaitFailed("e1".to_string()));
    assert_eq!(logs, strings(&["等待退出失败: e1, 强制终止", "llama-server 已强制停止"]));
    assert!(kill);
    let (logs, kill) = stop_server_logs(Lang::En, &StopOutcome::TerminateFailed("e2".to_string()));
    assert_eq!(logs, strings(&["Stop failed: e2, killing", "llama-server force stopped"]));
    assert!(kill);
}

#[test]
fn pids_from_fuser_output() {
    assert_eq!(pids_to_kill(" 1234  5678\n"), vec![1234, 5678]);
    assert_eq!(pids_to_kill("8080/tcp: 42 x 4294967296 +7"), vec![42, 7]);
    assert!(pids_to_kill("").is_empty());
}

#[test]
fn start_plan_fails_first_on_model_then_on_executable() {
    let bad_model = start_plan(Lang::En, "/bin/srv", false, Err("Model file not found: /d/m".to_string()),
        "h", 1, 2, 3, false, 4, "auto", "", Err(String::new()), "");
    assert_eq!(bad_model, Err("Model file not found: /d/m".to_string()));
    let no_exe = start_plan(Lang::En, "/bin/srv", false, Ok("/d/m.gguf".to_string()),
        "h", 1, 2, 3, false, 4, "auto", "", Err(String::new()), "");
    assert_eq!(no_exe, Err("Executable not found: /bin/srv".to_string()));
    let ok = start_plan(Lang::En, "/bin/srv", true, Ok("/d/m.gguf".to_string()),
        "h", 1, 2, 3, false, 4, "off", "", Err(String::new()), "--x");
    assert_eq!(ok, Ok(strings(&["-m", "/d/m.gguf", "--host", "h", "--port", "1", "-c", "2",
        "--n-gpu-layers", "3", "--flash-attn=off", "--x"])));
}

#[test]
fn start_up_events() {
    let f = failure_events("boom".to_string());
    assert_eq!(f.len(), 2);
    assert!(matches!(&f[0], ServerEvent::Log(m) if m == "boom"));
    assert!(matches!(&f[1], ServerEvent::Failed(m) if m == "boom"));
    let r = startup_end_events(StartupOutcome::Ready, "ready".to_string(), 7);
    assert_eq!(r.len(), 2);
    assert!(matches!(&r[0], ServerEvent::Log(m) if m == "ready"));
    assert!(matches!(&r[1], ServerEvent::Started(7)));
    let t = startup_end_events(StartupOutcome::TimedOut, "late".to_string(), 7);
    assert_eq!(t.len(), 1);
    assert!(matches!(&t[0], ServerEvent::Failed(m) if m == "late"));
}
