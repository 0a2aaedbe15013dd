use vstd::prelude::*;

use crate::text::{chars_starts_with, decimal, decimal_string, extend_str, from_chars, starts_with, to_chars};

verus! {

/// The language of the user interface.
#[derive(Clone, Copy, PartialEq, Eq, Structural, Debug)]
pub enum Lang {
    Zh,
    En,
}

/// The text for `lang` out of a Chinese and an English one.
pub open spec fn pick(lang: Lang, zh: Seq<char>, en: Seq<char>) -> Seq<char> {
    match lang {
        Lang::Zh => zh,
        Lang::En => en,
    }
}

/// The language for a system locale: Chinese for a locale that starts with `zh`, else English.
pub open spec fn lang_for_locale(locale: Option<Seq<char>>) -> Lang {
    match locale {
        Some(l) => if starts_with(l, "zh"@) {
            Lang::Zh
        } else {
            Lang::En
        },
        None => Lang::En,
    }
}

pub fn lang_of_locale(locale: Option<String>) -> (r: Lang)
    ensures
        r == lang_for_locale(
            match locale {
                Some(l) => Some(l@),
                None => None,
            },
        ),
{
    match locale {
        Some(l) => {
            let v = to_chars(l.as_str());
            if chars_starts_with(&v, "zh") {
                Lang::Zh
            } else {
                Lang::En
            }
        },
        None => Lang::En,
    }
}

/// `sys_locale::get_locale`: the most preferred locale of the system, if it can be found. What it
/// returns depends on the environment, so nothing is promised of it.
#[verifier::external_body]
fn system_locale() -> Option<String> {
    sys_locale::get_locale()
}

/// The texts of the user interface in one language.
pub struct L10n {
    lang: Lang,
}

impl L10n {
    /// Texts in the language of the system locale.
    pub fn detect() -> (r: Self)
        ensures
            exists|locale: Option<Seq<char>>| r.lang() == lang_for_locale(locale),
    {
        let locale = system_locale();
        let lang = lang_of_locale(locale);
        L10n { lang }
    }

    /// Texts in the given language.
    pub fn new(lang: Lang) -> (r: Self)
        ensures
            r.lang() == lang,
    {
        L10n { lang }
    }

    pub closed spec fn spec_lang(&self) -> Lang {
        self.lang
    }

    #[verifier::when_used_as_spec(spec_lang)]
    pub fn lang(&self) -> (r: Lang)
        ensures
            r == self.spec_lang(),
    {
        self.lang
    }

    pub fn config_title(&self) -> (r: &str)
        ensures
            r@ == pick(self.spec_lang(), "⚙  服务配置"@, "⚙  Server Config"@),
    {
        match self.lang {
            Lang::Zh => "⚙  服务配置",
            Lang::En => "⚙  Server Config",
        }
    }

    pub fn executable(&self) -> (r: &str)
        ensures
            r@ == pick(self.spec_lang(), "可执行文件"@, "Executable"@),
    {
        match self.lang {
            Lang::Zh => "可执行文件",
            Lang::En => "Executable",
        }
    }

    pub fn browse(&self) -> (r: &str)
        ensures
            r@ == pick(self.spec_lang(), "浏览"@, "Browse"@),
    {
        match self.lang {
            Lang::Zh => "浏览",
            Lang::En => "Browse",
        }
    }

    pub fn model_dir(&self) -> (r: &str)
        ensures
            r@ == pick(self.spec_lang(), "模型目录"@, "Model Directory"@),
    {
        match self.lang {
            Lang::Zh => "模型目录",
            Lang::En => "Model Directory",
        }
    }

    pub fn model_file(&self) -> (r: &str)
        ensures
            r@ == pick(self.spec_lang(), "模型文件"@, "Model File"@),
    {
        match self.lang {
            Lang::Zh => "模型文件",
            Lang::En => "Model File",
        }
    }

    pub fn host(&self) -> (r: &str)
        ensures
            r@ == pick(self.spec_lang(), "监听地址"@, "Host"@),
    {
        match self.lang {
            Lang::Zh => "监听地址",
            Lang::En => "Host",
        }
    }

    pub fn port(&self) -> (r: &str)
        ensures
            r@ == pick(self.spec_lang(), "端口"@, "Port"@),
    {
        match self.lang {
            Lang::Zh => "端口",
            Lang::En => "Port",
        }
    }

    pub fn gpu_layers(&self) -> (r: &str)
        ensures
            r@ == pick(self.spec_lang(), "GPU 层数"@, "GPU Layers"@),
    {
        match self.lang {
            Lang::Zh => "GPU 层数",
            Lang::En => "GPU Layers",
        }
    }

    pub fn ctx_size(&self) -> (r: &str)
        ensures
            r@ == pick(self.spec_lang(), "上下文大小"@, "Context Size"@),
    {
        match self.lang {
            Lang::Zh => "上下文大小",
            Lang::En => "Context Size",
        }
    }

    pub fn save_config(&self) -> (r: &str)
        ensures
            r@ == pick(self.spec_lang(), "💾  保存配置"@, "💾  Save Config"@),
    {
        match self.lang {
            Lang::Zh => "💾  保存配置",
            Lang::En => "💾  Save Config",
        }
    }

    pub fn start_server(&self) -> (r: &str)
        ensures
            r@ == pick(self.spec_lang(), "▶  启动服务"@, "▶  Start"@),
    {
        match self.lang {
            Lang::Zh => "▶  启动服务",
            Lang::En => "▶  Start",
        }
    }

    pub fn stop_server(&self) -> (r: &str)
        ensures
            r@ == pick(self.spec_lang(), "⏹  停止服务"@, "⏹  Stop"@),
    {
        match self.lang {
            Lang::Zh => "⏹  停止服务",
            Lang::En => "⏹  Stop",
        }
    }

    pub fn logs(&self) -> (r: &str)
        ensures
            r@ == pick(self.spec_lang(), "日志:"@, "Logs:"@),
    {
        match self.lang {
            Lang::Zh => "日志:",
            Lang::En => "Logs:",
        }
    }

    pub fn not_running(&self) -> (r: &str)
        ensures
            r@ == pick(self.spec_lang(), "未运行"@, "Not Running"@),
    {
        match self.lang {
            Lang::Zh => "未运行",
            Lang::En => "Not Running",
        }
    }

    pub fn starting(&self) -> (r: &str)
        ensures
            r@ == pick(self.spec_lang(), "启动中..."@, "Starting..."@),
    {
        match self.lang {
            Lang::Zh => "启动中...",
            Lang::En => "Starting...",
        }
    }

    pub fn start_failed(&self) -> (r: &str)
        ensures
            r@ == pick(self.spec_lang(), "启动失败"@, "Start Failed"@),
    {
        match self.lang {
            Lang::Zh => "启动失败",
            Lang::En => "Start Failed",
        }
    }

    pub fn starting_server(&self) -> (r: &str)
        ensures
            r@ == pick(self.spec_lang(), "正在启动 llama-server..."@, "Starting llama-server..."@),
    {
        match self.lang {
            Lang::Zh => "正在启动 llama-server...",
            Lang::En => "Starting llama-server...",
        }
    }

    pub fn stopping_server(&self) -> (r: &str)
        ensures
            r@ == pick(self.spec_lang(), "正在停止 llama-server..."@, "Stopping llama-server..."@),
    {
        match self.lang {
            Lang::Zh => "正在停止 llama-server...",
            Lang::En => "Stopping llama-server...",
        }
    }

    pub fn exec_hint(&self) -> (r: &str)
        ensures
            r@ == pick(self.spec_lang(), "选择 llama-server ..."@, "Select llama-server ..."@),
    {
        match self.lang {
            Lang::Zh => "选择 llama-server ...",
            Lang::En => "Select llama-server ...",
        }
    }

    pub fn dir_hint(&self) -> (r: &str)
        ensures
            r@ == pick(self.spec_lang(), "选择模型文件夹 ..."@, "Select model folder ..."@),
    {
        match self.lang {
            Lang::Zh => "选择模型文件夹 ...",
            Lang::En => "Select model folder ...",
        }
    }

    pub fn exec_filter(&self) -> (r: &str)
        ensures
            r@ == pick(self.spec_lang(), "可执行文件"@, "Executable"@),
    {
        match self.lang {
            Lang::Zh => "可执行文件",
            Lang::En => "Executable",
        }
    }

    /// `运行中 (PID: {pid})` / `Running (PID: {pid})`.
    pub fn running_with_pid(&self, pid: u32) -> (r: String)
        ensures
            r@ == pick(self.spec_lang(), "运行中 (PID: "@, "Running (PID: "@) + decimal(pid as nat) + ")"@,
    {
        let mut v = to_chars(match self.lang {
            Lang::Zh => "运行中 (PID: ",
            Lang::En => "Running (PID: ",
        });
        let d = decimal_string(pid as u64);
        extend_str(&mut v, d.as_str());
        extend_str(&mut v, ")");
        from_chars(&v)
    }

    /// `失败: {msg}` / `Failed: {msg}`.
    pub fn failed(&self, msg: &str) -> (r: String)
        ensures
            r@ == pick(self.spec_lang(), "失败: "@, "Failed: "@) + msg@,
    {
        let mut v = to_chars(match self.lang {
            Lang::Zh => "失败: ",
            Lang::En => "Failed: ",
        });
        extend_str(&mut v, msg);
        from_chars(&v)
    }
}

} // verus!
