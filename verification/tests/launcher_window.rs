use llamacpp_launcher::config::Config;
use llamacpp_launcher::i18n::{L10n, Lang};
use llamacpp_launcher::launcher::{
    browser_url, log_link, start_enabled, stop_enabled, Launcher, ServerEvent,
};
use llamacpp_launcher::profiles::Profiles;

fn en() -> L10n {
    L10n::new(Lang::En)
}

fn window() -> Launcher {
    Launcher::new(&Profiles::new(), "", &en())
}

#[test]
fn new_window_uses_last_profile() {
    let mut profiles = Profiles::new();
    let mut c = Config::default();
    c.port = 9999;
    c.command_text = "srv --port 9999".to_string();
    profiles.insert("dev".to_string(), c);
    let w = Launcher::new(&profiles, "dev", &en());
    assert_eq!(w.config.port, 9999);
    assert_eq!(w.port_text, "9999");
    assert_eq!(w.command_text, "srv --port 9999");
    assert_eq!(w.current_profile, "dev");
    assert_eq!(w.loaded_profile, "dev");
    assert_eq!(w.status, "Not Running");
    assert!(!w.running && !w.waiting && w.logs.is_empty());
    let d = Launcher::new(&profiles, "missing", &L10n::new(Lang::Zh));
    assert_eq!(d.config.port, 11433);
    assert_eq!(d.gpu_layers_text, "30");
    assert_eq!(d.ctx_size_text, "4096");
    assert_eq!(d.spec_nmax_text, "2");
    assert_eq!(d.models_max_text, "1");
    assert_eq!(d.command_text, "");
    assert_eq!(d.status, "未运行");
}

#[test]
fn generate_command_lists_the_settings() {
    let mut w = window();
    w.config.executable = "/bin/llama-server".to_string();
    w.config.model_dir = "/models/".to_string();
    w.config.model_name = "qwen".to_string();
    w.config.mtp_enabled = true;
    w.config.flash_attn = "on".to_string();
    w.config.mmproj = "mmproj-q".to_string();
    assert_eq!(
        w.generate_command("/x/config.ini"),
        "/bin/llama-server -m /models/qwen.gguf --host 127.0.0.1 --port 11433 -c 4096 --n-gpu-layers 30 --spec-type draft-mtp --spec-draft-n-max 2 --flash-attn on --mmproj /models/mmproj-q.gguf"
    );
    w.config.route_mode = true;
    assert_eq!(w.generate_command("/x/config.ini"), "/bin/llama-server --models-preset /x/config.ini");
}

#[test]
fn generate_command_without_model() {
    let mut w = window();
    w.config.executable = "srv".to_string();
    assert_eq!(
        w.generate_command("c.ini"),
        "srv --host 127.0.0.1 --port 11433 -c 4096 --n-gpu-layers 30"
    );
}

#[test]
fn parse_command_takes_the_typed_settings() {
    let mut w = window();
    w.parse_command(
        "srv -m /m/x.gguf --host 0.0.0.0 --port 8081 -c 2048 --n-gpu-layers 99 --spec-type draft-mtp --spec-draft-n-max 4 -fa on --mmproj /m/p.gguf --models-max 3 --temp 1",
    );
    assert_eq!(w.config.host, "0.0.0.0");
    assert_eq!(w.port_text, "8081");
    assert_eq!(w.ctx_size_text, "2048");
    assert_eq!(w.gpu_layers_text, "99");
    assert!(w.config.mtp_enabled);
    assert_eq!(w.spec_nmax_text, "4");
    assert_eq!(w.config.flash_attn, "on");
    assert_eq!(w.config.mmproj, "/m/p.gguf");
    assert_eq!(w.models_max_text, "3");
    assert!(!w.config.route_mode);
    // -m's value is not taken
    assert_eq!(w.config.model_name, "");
}

#[test]
fn parse_command_edge_cases() {
    let mut w = window();
    w.parse_command("srv --flash-attn=off=x --spec-type other --flash-attn -1 --models-preset p --port");
    assert_eq!(w.config.flash_attn, "off");
    assert!(!w.config.mtp_enabled);
    assert!(w.config.route_mode);
    assert_eq!(w.port_text, "11433");
}

#[test]
fn shown_command_reads_back() {
    let mut w = window();
    w.config.executable = "srv".to_string();
    w.config.model_dir = "/m".to_string();
    w.config.model_name = "x".to_string();
    w.config.flash_attn = "off".to_string();
    w.config.mtp_enabled = true;
    let cmd = w.generate_command("c.ini");
    let mut r = window();
    r.config.executable = "srv".to_string();
    r.config.model_dir = "/m".to_string();
    r.config.model_name = "x".to_string();
    r.parse_command(&cmd);
    assert_eq!(r.config.flash_attn, "off");
    assert!(r.config.mtp_enabled);
    assert_eq!(r.port_text, w.port_text);
    w.command_text = cmd.clone();
    assert_eq!(w.extract_extra_args(), "");
    w.command_text = format!("{} --temp 0.5", cmd);
    assert_eq!(w.extract_extra_args(), "--temp 0.5");
}

#[test]
fn sync_numbers_takes_valid_numbers_only() {
    let mut w = window();
    w.port_text = "8080".to_string();
    w.gpu_layers_text = "+12".to_string();
    w.ctx_size_text = "abc".to_string();
    w.spec_nmax_text = "4294967296".to_string();
    w.models_max_text = "".to_string();
    w.sync_numbers();
    assert_eq!(w.config.port, 8080);
    assert_eq!(w.config.n_gpu_layers, 12);
    assert_eq!(w.config.ctx_size, 4096);
    assert_eq!(w.config.spec_draft_n_max, 2);
    assert_eq!(w.config.models_max, 1);
    w.port_text = "65536".to_string();
    w.sync_numbers();
    assert_eq!(w.config.port, 8080);
}

#[test]
fn apply_config_shows_profile() {
    let mut w = window();
    let mut c = Config::default();
    c.model_dir = "/new".to_string();
    c.ctx_size = 1024;
    c.command_text = "srv".to_string();
    assert!(w.apply_config("p", &c));
    assert_eq!(w.ctx_size_text, "1024");
    assert_eq!(w.current_profile, "p");
    assert_eq!(w.command_text, "srv");
    assert!(!w.apply_config("p", &c));
    let mut e = Config::default();
    e.model_dir = String::new();
    assert!(!w.apply_config("q", &e));
    // taking the shown numbers changes nothing
    w.sync_numbers();
    assert_eq!(w.config.ctx_size, 4096);
    assert_eq!(w.config.port, 11433);
}

#[test]
fn log_keeps_last_two_hundred_lines() {
    let mut w = window();
    for i in 0..250 {
        w.add_log(&format!("line {}", i));
    }
    assert_eq!(w.logs.len(), 200);
    assert_eq!(w.logs[0], "line 50");
    assert_eq!(w.logs[199], "line 249");
}

#[test]
fn server_events_update_the_window() {
    let l = en();
    let mut w = window();
    w.config.host = "localhost".to_string();
    w.config.port = 8000;
    w.add_log("old");
    w.begin_start(&l);
    assert_eq!(w.logs, vec!["Starting llama-server...".to_string()]);
    assert_eq!(w.status, "Starting...");
    assert!(w.waiting && !w.running);
    assert!(w.on_event(&l, ServerEvent::Log("loading".to_string())).is_none());
    assert_eq!(w.logs.len(), 2);
    let url = w.on_event(&l, ServerEvent::Started(42));
    assert_eq!(url, Some("http://localhost:8000".to_string()));
    assert_eq!(w.status, "Running (PID: 42)");
    assert!(w.running && !w.waiting);
    w.begin_stop(&l);
    assert_eq!(w.logs.last().unwrap(), "Stopping llama-server...");
    w.finish_stop(&l, &vec!["a".to_string(), "b".to_string()]);
    assert_eq!(w.logs[w.logs.len() - 2..].to_vec(), vec!["a".to_string(), "b".to_string()]);
    assert_eq!(w.status, "Not Running");
    assert!(!w.running);
}

#[test]
fn failed_start_is_logged() {
    let l = L10n::new(Lang::Zh);
    let mut w = window();
    w.begin_start(&l);
    assert!(w.on_event(&l, ServerEvent::Failed("boom".to_string())).is_none());
    assert_eq!(w.logs.last().unwrap(), "失败: boom");
    assert_eq!(w.status, "启动失败");
    assert!(!w.waiting && !w.running);
}

#[test]
fn forget_profile_clears_names() {
    let mut w = window();
    w.current_profile = "a".to_string();
    w.loaded_profile = "b".to_string();
    w.forget_profile("a");
    assert_eq!(w.current_profile, "");
    assert_eq!(w.loaded_profile, "b");
    w.forget_profile("b");
    assert_eq!(w.loaded_profile, "");
}

#[test]
fn buttons_and_links() {
    let mut c = Config::default();
    assert!(!start_enabled(false, false, &c));
    c.executable = "srv".to_string();
    assert!(!start_enabled(false, false, &c));
    c.route_mode = true;
    assert!(start_enabled(false, false, &c));
    assert!(!start_enabled(true, false, &c));
    assert!(!start_enabled(false, true, &c));
    c.route_mode = false;
    c.model_name = "m".to_string();
    assert!(start_enabled(false, false, &c));
    assert!(stop_enabled(true, false));
    assert!(!stop_enabled(true, true));
    assert!(!stop_enabled(false, false));
    assert_eq!(browser_url(&c), "http://127.0.0.1:11433");
    c.route_mode = true;
    assert_eq!(browser_url(&c), "http://127.0.0.1:8080");
    assert_eq!(
        log_link("ready: http://a:1 now"),
        Some(("ready: ".to_string(), "http://a:1".to_string(), " now".to_string()))
    );
    assert_eq!(
        log_link("http://x"),
        Some((String::new(), "http://x".to_string(), String::new()))
    );
    assert_eq!(log_link("no link here"), None);
}

#[test]
fn extras_are_extracted_with_a_projector_and_dash_program() {
    let mut w = window();
    w.config.executable = "-server".to_string();
    w.config.model_dir = "/m".to_string();
    w.config.model_name = "x".to_string();
    w.config.mmproj = "mmproj-x".to_string();
    w.config.flash_attn = "on".to_string();
    let cmd = w.generate_command("c.ini");
    w.command_text = format!("{} --temp 0.5 --jinja", cmd);
    assert_eq!(w.extract_extra_args(), "--temp 0.5 --jinja");
}

#[test]
fn shown_command_reads_back_with_empty_flash_value() {
    let mut w = window();
    w.config.executable = "-server".to_string();
    w.config.flash_attn = String::new();
    let cmd = w.generate_command("c.ini");
    assert_eq!(cmd, "-server --host 127.0.0.1 --port 11433 -c 4096 --n-gpu-layers 30 --flash-attn ");
    let mut r = window();
    r.config.executable = "-server".to_string();
    r.config.flash_attn = String::new();
    r.config.host = "other".to_string();
    r.parse_command(&cmd);
    assert_eq!(r.config.host, "127.0.0.1");
    assert_eq!(r.config.flash_attn, "");
}

#[test]
fn typed_text_with_any_spacing_gives_its_words() {
    let mut w = window();
    w.config.executable = "srv".to_string();
    w.config.mmproj = "p".to_string();
    w.config.model_dir = "/m".to_string();
    let cmd = w.generate_command("c.ini");
    w.command_text = format!("{} \t --a   b  \n", cmd);
    assert_eq!(w.extract_extra_args(), "--a b");
    w.command_text = format!("{} ", cmd);
    assert_eq!(w.extract_extra_args(), "");
    assert!(w.begin_start(&en()) == false);
    w.config.route_mode = true;
    assert!(w.begin_start(&en()));
}
