use resumeclaw::workspace::{
    choose_template,
    discover_templates, file_name_of, is_tex_file_name, join_path, template_candidates,
    text_less, validate_template_name,
};

fn names(list: &[&str]) -> Vec<String> {
    list.iter().map(|s| s.to_string()).collect()
}

#[test]
fn rejects_template_names_with_paths() {
    assert!(validate_template_name("../resume.tex").is_err());
    assert!(validate_template_name("nested/resume.tex").is_err());
    assert!(validate_template_name("/tmp/resume.tex").is_err());
    assert!(validate_template_name("resume.txt").is_err());
}

#[test]
fn accepts_plain_tex_names() {
    assert_eq!(validate_template_name("resume-zh_CN.tex").expect("plain"), "resume-zh_CN.tex");
    assert!(validate_template_name("portfolio.tex").is_ok());
    assert!(validate_template_name(".tex").is_err());
    assert!(validate_template_name("./resume.tex").is_err());
    assert!(validate_template_name("").is_err());
    assert_eq!(
        validate_template_name("a/b.tex").expect_err("nested"),
        "invalid template name: a/b.tex"
    );
}

#[test]
fn preferred_defaults_stay_ahead_of_other_tex_templates() {
    let discovered = vec![
        "aaa.tex".to_string(),
        "resume-zh_CN.tex".to_string(),
        "resume.tex".to_string(),
    ];
    let candidates = template_candidates(&discovered, None).expect("list candidates");
    assert_eq!(
        candidates,
        vec![
            "resume.tex".to_string(),
            "resume-zh_CN.tex".to_string(),
            "aaa.tex".to_string(),
        ]
    );
}

#[test]
fn requested_template_is_prioritized_even_for_custom_tex_files() {
    let discovered = vec!["portfolio.tex".to_string(), "resume.tex".to_string()];
    let candidates =
        template_candidates(&discovered, Some("portfolio.tex")).expect("list candidates");
    assert_eq!(candidates, vec!["portfolio.tex".to_string(), "resume.tex".to_string()]);
}

#[test]
fn requested_template_must_be_plain() {
    let discovered = vec!["resume.tex".to_string()];
    let err = template_candidates(&discovered, Some("../x.tex")).expect_err("not plain");
    assert_eq!(err, "invalid template name: ../x.tex");
    let candidates = template_candidates(&discovered, Some("   ")).expect("blank is ignored");
    assert_eq!(candidates, vec!["resume.tex".to_string()]);
}

#[test]
fn tex_file_names_and_file_names() {
    assert!(is_tex_file_name("resume.tex"));
    assert!(is_tex_file_name("dir/custom.tex"));
    assert!(!is_tex_file_name(".tex"));
    assert!(!is_tex_file_name("notes.txt"));
    assert!(!is_tex_file_name("resume.cls"));
    assert_eq!(file_name_of("/tmp/workspace/resume.pdf").as_deref(), Some("resume.pdf"));
    assert_eq!(file_name_of("a/b/./"), Some("b".to_string()));
    assert_eq!(file_name_of("a/.."), None);
    assert_eq!(file_name_of("/"), None);
}

#[test]
fn joining_paths() {
    assert_eq!(join_path("/tmp/workspace", "resume.tex"), "/tmp/workspace/resume.tex");
    assert_eq!(join_path("/tmp/workspace/", "resume.tex"), "/tmp/workspace/resume.tex");
    assert_eq!(join_path("", "resume.tex"), "resume.tex");
    assert_eq!(join_path("/tmp", "/etc/x"), "/etc/x");
}

#[test]
fn treats_any_tex_file_as_a_template() {
    let files = names(&["resume.cls", "custom.tex", "resume.tex", "notes.txt"]);
    let templates = discover_templates(&files);
    assert_eq!(templates, vec!["custom.tex", "resume.tex"]);
}

#[test]
fn templates_are_listed_in_name_order() {
    let files = names(&["b.tex", "resume-zh_CN.tex", "a.tex", "Z.tex", "résumé.tex", "resume.tex", "x.sty"]);
    assert_eq!(
        discover_templates(&files),
        vec!["Z.tex", "a.tex", "b.tex", "resume-zh_CN.tex", "resume.tex", "résumé.tex"]
    );
    let mut expected: Vec<String> = files.iter().filter(|n| n.ends_with(".tex")).cloned().collect();
    expected.sort();
    assert_eq!(discover_templates(&files), expected);
    assert!(discover_templates(&Vec::new()).is_empty());
    assert!(text_less("abc", "abd"));
    assert!(text_less("ab", "abc"));
    assert!(!text_less("abc", "abc"));
    assert!(!text_less("b", "abc"));
}

#[test]
fn first_existing_template_is_chosen() {
    let present = vec![
        ("portfolio.tex".to_string(), false),
        ("resume.tex".to_string(), true),
        ("aaa.tex".to_string(), true),
    ];
    assert_eq!(choose_template(&present, "/t", Some("portfolio.tex")), Ok("resume.tex".to_string()));
    let none = vec![("resume.tex".to_string(), false)];
    assert_eq!(
        choose_template(&none, "/t", Some("portfolio.tex")),
        Err("no resume template found in /t (requested: Some(\"portfolio.tex\"))".to_string())
    );
    assert_eq!(
        choose_template(&Vec::new(), "/t", None),
        Err("no resume template found in /t (requested: None)".to_string())
    );
}
