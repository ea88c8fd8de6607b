//! Start-up settings: which model backend to use, where templates and the
//! workspace live, and how outbound HTTP is proxied.  The values of
//! environment variables are read by the caller and handed in.

use vstd::prelude::*;
use crate::json::str_eq;
use crate::mailer::{get_trimmed, setting};
use crate::text::{lower, eq_ignore_ascii_case};
use crate::workspace::{join_path, path_join};

verus! {

/// An environment variable's value with surrounding whitespace removed;
/// blank counts as unset.
pub fn read_env(raw: &Option<String>) -> (r: Option<String>)
    ensures
        r.deep_view() == setting(raw.deep_view()),
{
    get_trimmed(raw)
}

/// The model used for a provider when none is configured.
pub open spec fn default_model_spec(provider: Seq<char>) -> Seq<char> {
    if provider == "mock"@ {
        "mock-dev"@
    } else {
        "deepseek-chat"@
    }
}

pub fn default_model_for(provider: &str) -> (r: String)
    ensures
        r@ == default_model_spec(provider@),
{
    if str_eq(provider, "mock") {
        "mock-dev".to_owned()
    } else {
        "deepseek-chat".to_owned()
    }
}

/// The model backend settings.
#[derive(Debug)]
pub struct LlmConfig {
    pub provider: String,
    pub model: String,
    /// The script of the scripted model, for the `mock` provider.
    pub mock_script_path: Option<String>,
    /// Whether the scripted model keeps answering once its script is used up.
    pub mock_repeat_on_exhaustion: bool,
    /// Whether the bundled development examples are used.
    pub uses_dev_examples: bool,
}

/// The backend settings for the values of `LLM_PROVIDER`, `LLM_MODEL` and
/// `MOCK_LLM_SCRIPT_PATH`: a configured provider is used as given (the
/// scripted one with its script, or the bundled example script); without
/// one, the bundled scripted model and examples are used.
pub open spec fn llm_config_ok(provider: Option<Seq<char>>, model: Option<Seq<char>>, script: Option<Seq<char>>, default_script: Seq<char>, c: LlmConfig) -> bool {
    match setting(provider) {
        Some(p) => {
            &&& c.provider@ == p
            &&& c.model@ == (match setting(model) {
                Some(m) => m,
                None => default_model_spec(p),
            })
            &&& c.mock_script_path.deep_view() == (if p == "mock"@ {
                Some(
                    match setting(script) {
                        Some(s) => s,
                        None => default_script,
                    },
                )
            } else {
                None
            })
            &&& !c.mock_repeat_on_exhaustion
            &&& !c.uses_dev_examples
        },
        None => {
            &&& c.provider@ == "mock"@
            &&& c.model@ == "mock-dev"@
            &&& c.mock_script_path.deep_view() == Some(default_script)
            &&& c.mock_repeat_on_exhaustion
            &&& c.uses_dev_examples
        },
    }
}

pub fn resolve_llm_config(
    provider: &Option<String>,
    model: &Option<String>,
    script: &Option<String>,
    default_script: &str,
) -> (c: LlmConfig)
    ensures
        llm_config_ok(provider.deep_view(), model.deep_view(), script.deep_view(), default_script@, c),
{
    match read_env(provider) {
        Some(p) => {
            let model = match read_env(model) {
                Some(m) => m,
                None => default_model_for(p.as_str()),
            };
            let mock_script_path = if str_eq(p.as_str(), "mock") {
                match read_env(script) {
                    Some(s) => Some(s),
                    None => Some(default_script.to_owned()),
                }
            } else {
                None
            };
            LlmConfig {
                provider: p,
                model,
                mock_script_path,
                mock_repeat_on_exhaustion: false,
                uses_dev_examples: false,
            }
        },
        None => LlmConfig {
            provider: "mock".to_owned(),
            model: "mock-dev".to_owned(),
            mock_script_path: Some(default_script.to_owned()),
            mock_repeat_on_exhaustion: true,
            uses_dev_examples: true,
        },
    }
}

/// Where the resume templates are read from when none is configured
/// outside development: the template repository next to the project.
pub open spec fn default_template_dir() -> Seq<char> {
    "../resume"@
}

/// The template directory: `RESUME_TEMPLATE_DIR` when set, else the bundled
/// development template in development mode, else `../resume`.
pub fn resolve_template_dir(uses_dev_examples: bool, configured: &Option<String>, dev_dir: &str) -> (r: String)
    ensures
        r@ == (match setting(configured.deep_view()) {
            Some(d) => d,
            None => if uses_dev_examples {
                dev_dir@
            } else {
                default_template_dir()
            },
        }),
{
    match read_env(configured) {
        Some(d) => d,
        None => if uses_dev_examples {
            dev_dir.to_owned()
        } else {
            "../resume".to_owned()
        },
    }
}

/// The development template, relative to the project directory.
pub fn default_dev_template_dir(project_dir: &str) -> (r: String)
    ensures
        r@ == path_join(project_dir@, "dev/template"@),
{
    join_path(project_dir, "dev/template")
}

/// The development model script, relative to the project directory.
pub fn default_dev_mock_script_path(project_dir: &str) -> (r: String)
    ensures
        r@ == path_join(project_dir@, "dev/mock-llm-script.example.json"@),
{
    join_path(project_dir, "dev/mock-llm-script.example.json")
}

/// The operating system the program runs on, as far as the default
/// workspace location depends on it.
#[derive(Debug, Clone, Copy, PartialEq, Eq, Structural)]
pub enum HostOs {
    MacOs,
    Linux,
    Other,
}

/// Where the workspace lives by default: under `Library/Application
/// Support` on macOS, under `$XDG_DATA_HOME` (or `~/.local/share`) on
/// Linux, and in `~/.resumeclaw` otherwise or when those are unknown.
pub open spec fn default_workspace_spec(os: HostOs, xdg_data_home: Option<Seq<char>>, home: Option<Seq<char>>) -> Seq<char> {
    let fallback = path_join(
        match home {
            Some(h) => h,
            None => "."@,
        },
        ".resumeclaw"@,
    );
    match os {
        HostOs::MacOs => match home {
            Some(h) => path_join(h, "Library/Application Support/resumeclaw"@),
            None => fallback,
        },
        HostOs::Linux => match xdg_data_home {
            Some(x) => path_join(x, "resumeclaw"@),
            None => match home {
                Some(h) => path_join(h, ".local/share/resumeclaw"@),
                None => fallback,
            },
        },
        HostOs::Other => fallback,
    }
}

pub fn default_workspace_dir(os: HostOs, xdg_data_home: &Option<String>, home: &Option<String>) -> (r: String)
    ensures
        r@ == default_workspace_spec(os, xdg_data_home.deep_view(), home.deep_view()),
{
    match os {
        HostOs::MacOs => {
            if let Some(h) = home {
                return join_path(h.as_str(), "Library/Application Support/resumeclaw");
            }
        },
        HostOs::Linux => {
            if let Some(x) = xdg_data_home {
                return join_path(x.as_str(), "resumeclaw");
            }
            if let Some(h) = home {
                return join_path(h.as_str(), ".local/share/resumeclaw");
            }
        },
        HostOs::Other => {},
    }
    match home {
        Some(h) => join_path(h.as_str(), ".resumeclaw"),
        None => join_path(".", ".resumeclaw"),
    }
}

/// Whether `PROXY_MODE` asks for an external proxy (its value is
/// `external`, in any ASCII case).
pub fn is_external_proxy(mode: &Option<String>) -> (r: bool)
    ensures
        r == (match mode.deep_view() {
            Some(m) => lower(m) == lower("external"@),
            None => false,
        }),
{
    match mode {
        Some(m) => eq_ignore_ascii_case(m.as_str(), "external"),
        None => false,
    }
}

} // verus!
