use judge::config::{get_judge_config, get_language_config, Config, ConfigError, JudgeConfig, LanguageConfig, LanguageEntry};
use judge::request::{create_submission, queue_name, CreateSubmission, GetTask};

fn config() -> Config {
    let entry = |name: &str, ext: &str| LanguageEntry {
        name: name.to_string(),
        profile: LanguageConfig {
            ext: ext.to_string(),
            compile: format!("cc {{source_file}} -o {{output}} # {}", ext),
            run: "{source}".to_string(),
        },
    };
    Config { language: vec![entry("cpp", "cpp"), entry("python", "py")], judge: JudgeConfig { max_worker: 3 } }
}

#[test]
fn known_language_is_found() {
    let c = config();
    assert!(c.is_valid());
    let p = get_language_config(&c, "python").unwrap();
    assert_eq!(p.ext, "py");
    assert_eq!(p.run, "{source}");
}

#[test]
fn unknown_language_is_refused() {
    let c = config();
    let e = get_language_config(&c, "cobol").err().unwrap();
    assert_eq!(e, ConfigError::UnsupportedLanguage);
    assert_eq!(e.message(), "Unsupported language");
}

#[test]
fn judge_settings() {
    assert_eq!(get_judge_config(&config()).max_worker, 3);
}

#[test]
fn duplicate_language_names_are_invalid() {
    let mut c = config();
    c.language.push(LanguageEntry {
        name: "cpp".to_string(),
        profile: LanguageConfig { ext: "c".to_string(), compile: String::new(), run: String::new() },
    });
    assert!(!c.is_valid());
}

#[test]
fn submission_in_known_language_becomes_payload() {
    let req = CreateSubmission {
        task_id: "a-plus-b".to_string(),
        submission_id: 17,
        code: "int main(){}".to_string(),
        language: "cpp".to_string(),
    };
    let p = create_submission(&config(), req).ok().unwrap();
    assert_eq!((p.task_id.as_str(), p.submission_id, p.code.as_str(), p.language.as_str()), ("a-plus-b", 17, "int main(){}", "cpp"));
    assert_eq!(queue_name(), "queue");
    let g = GetTask { task_id: "a-plus-b".to_string() };
    assert_eq!(g.task_id, p.task_id);
}

#[test]
fn submission_in_unknown_language_is_refused() {
    let req = CreateSubmission {
        task_id: "x".to_string(),
        submission_id: 1,
        code: String::new(),
        language: "brainfuck".to_string(),
    };
    assert_eq!(create_submission(&config(), req).err(), Some(ConfigError::UnsupportedLanguage));
}
