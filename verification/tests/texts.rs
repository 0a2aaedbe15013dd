use llamacpp_launcher::i18n::{lang_of_locale, L10n, Lang};

#[test]
fn language_of_locale() {
    assert!(lang_of_locale(Some("zh-CN".to_string())) == Lang::Zh);
    assert!(lang_of_locale(Some("zh".to_string())) == Lang::Zh);
    assert!(lang_of_locale(Some("en-US".to_string())) == Lang::En);
    assert!(lang_of_locale(Some("z".to_string())) == Lang::En);
    assert!(lang_of_locale(None) == Lang::En);
}

#[test]
fn detect_picks_a_language() {
    let l = L10n::detect();
    assert!(l.lang() == Lang::Zh || l.lang() == Lang::En);
}

#[test]
fn english_texts() {
    let l = L10n::new(Lang::En);
    assert!(l.lang() == Lang::En);
    assert_eq!(l.config_title(), "⚙  Server Config");
    assert_eq!(l.executable(), "Executable");
    assert_eq!(l.browse(), "Browse");
    assert_eq!(l.model_dir(), "Model Directory");
    assert_eq!(l.model_file(), "Model File");
    assert_eq!(l.host(), "Host");
    assert_eq!(l.port(), "Port");
    assert_eq!(l.gpu_layers(), "GPU Layers");
    assert_eq!(l.ctx_size(), "Context Size");
    assert_eq!(l.save_config(), "💾  Save Config");
    assert_eq!(l.start_server(), "▶  Start");
    assert_eq!(l.stop_server(), "⏹  Stop");
    assert_eq!(l.logs(), "Logs:");
    assert_eq!(l.not_running(), "Not Running");
    assert_eq!(l.starting(), "Starting...");
    assert_eq!(l.start_failed(), "Start Failed");
    assert_eq!(l.starting_server(), "Starting llama-server...");
    assert_eq!(l.stopping_server(), "Stopping llama-server...");
    assert_eq!(l.exec_hint(), "Select llama-server ...");
    assert_eq!(l.dir_hint(), "Select model folder ...");
    assert_eq!(l.exec_filter(), "Executable");
    assert_eq!(l.running_with_pid(1234), "Running (PID: 1234)");
    assert_eq!(l.failed("oops"), "Failed: oops");
}

#[test]
fn chinese_texts() {
    let l = L10n::new(Lang::Zh);
    assert!(l.lang() == Lang::Zh);
    assert_eq!(l.config_title(), "⚙  服务配置");
    assert_eq!(l.executable(), "可执行文件");
    assert_eq!(l.browse(), "浏览");
    assert_eq!(l.model_dir(), "模型目录");
    assert_eq!(l.model_file(), "模型文件");
    assert_eq!(l.host(), "监听地址");
    assert_eq!(l.port(), "端口");
    assert_eq!(l.gpu_layers(), "GPU 层数");
    assert_eq!(l.ctx_size(), "上下文大小");
    assert_eq!(l.save_config(), "💾  保存配置");
    assert_eq!(l.start_server(), "▶  启动服务");
    assert_eq!(l.stop_server(), "⏹  停止服务");
    assert_eq!(l.logs(), "日志:");
    assert_eq!(l.not_running(), "未运行");
    assert_eq!(l.starting(), "启动中...");
    assert_eq!(l.start_failed(), "启动失败");
    assert_eq!(l.starting_server(), "正在启动 llama-server...");
    assert_eq!(l.stopping_server(), "正在停止 llama-server...");
    assert_eq!(l.exec_hint(), "选择 llama-server ...");
    assert_eq!(l.dir_hint(), "选择模型文件夹 ...");
    assert_eq!(l.exec_filter(), "可执行文件");
    assert_eq!(l.running_with_pid(0), "运行中 (PID: 0)");
    assert_eq!(l.failed("x"), "失败: x");
}
