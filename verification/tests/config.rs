use resumeclaw::config::{
    default_dev_mock_script_path, default_dev_template_dir,
    default_model_for, default_workspace_dir, is_external_proxy, read_env, resolve_llm_config,
    resolve_template_dir, HostOs,
};

fn some(s: &str) -> Option<String> {
    Some(s.to_string())
}

#[test]
fn env_values_are_trimmed_and_blank_is_unset() {
    assert_eq!(read_env(&some("  v ")), some("v"));
    assert_eq!(read_env(&some("   ")), None);
    assert_eq!(read_env(&None), None);
}

#[test]
fn unset_provider_runs_the_development_mock() {
    let c = resolve_llm_config(&None, &some("ignored"), &None, "/p/dev/mock.json");
    assert_eq!(c.provider, "mock");
    assert_eq!(c.model, "mock-dev");
    assert_eq!(c.mock_script_path.as_deref(), Some("/p/dev/mock.json"));
    assert!(c.mock_repeat_on_exhaustion);
    assert!(c.uses_dev_examples);
}

#[test]
fn configured_provider_and_model() {
    let c = resolve_llm_config(&some(" deepseek "), &None, &some("x.json"), "d.json");
    assert_eq!(c.provider, "deepseek");
    assert_eq!(c.model, "deepseek-chat");
    assert!(c.mock_script_path.is_none());
    assert!(!c.uses_dev_examples);
    let c = resolve_llm_config(&some("mock"), &some("mock-local"), &some(" s.json "), "d.json");
    assert_eq!(c.model, "mock-local");
    assert_eq!(c.mock_script_path.as_deref(), Some("s.json"));
    assert!(!c.mock_repeat_on_exhaustion);
    let c = resolve_llm_config(&some("mock"), &None, &None, "d.json");
    assert_eq!(c.model, "mock-dev");
    assert_eq!(c.mock_script_path.as_deref(), Some("d.json"));
    assert_eq!(default_model_for("openai"), "deepseek-chat");
}

#[test]
fn template_dir_resolution() {
    assert_eq!(resolve_template_dir(false, &some("/t"), "/dev"), "/t");
    assert_eq!(resolve_template_dir(true, &some(" /t "), "/dev"), "/t");
    assert_eq!(resolve_template_dir(true, &None, "/dev"), "/dev");
    assert_eq!(resolve_template_dir(false, &some(" "), "/dev"), "../resume");
    assert_eq!(resolve_template_dir(false, &None, "/dev"), "../resume");
    assert_eq!(default_dev_template_dir("/p"), "/p/dev/template");
    assert_eq!(default_dev_mock_script_path("/p"), "/p/dev/mock-llm-script.example.json");
}

#[test]
fn workspace_dir_per_platform() {
    assert_eq!(
        default_workspace_dir(HostOs::MacOs, &None, &some("/Users/a")),
        "/Users/a/Library/Application Support/resumeclaw"
    );
    assert_eq!(
        default_workspace_dir(HostOs::Linux, &some("/x"), &some("/home/a")),
        "/x/resumeclaw"
    );
    assert_eq!(
        default_workspace_dir(HostOs::Linux, &None, &some("/home/a")),
        "/home/a/.local/share/resumeclaw"
    );
    assert_eq!(default_workspace_dir(HostOs::Other, &None, &None), "./.resumeclaw");
    assert_eq!(default_workspace_dir(HostOs::MacOs, &None, &None), "./.resumeclaw");
}

#[test]
fn proxy_mode() {
    assert!(is_external_proxy(&some("EXTERNAL")));
    assert!(!is_external_proxy(&some("direct")));
    assert!(!is_external_proxy(&None));
}
