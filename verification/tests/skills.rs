use napaxi_codex::skills::{bundled_skills, is_current_version, BUNDLED_VERSION};
use napaxi_codex::project::{files_dir, session_is_active};
use napaxi_codex::json::Json;

#[test]
fn test_bundled_skill_count() {
    assert_eq!(bundled_skills().len(), 7);
}

#[test]
fn bundled_skills_each_have_a_skill_file() {
    for skill in bundled_skills() {
        assert!(!skill.slug.is_empty());
        assert!(skill.files.iter().any(|f| f == "SKILL.md"));
    }
    assert_eq!(bundled_skills()[0].files[1], "scripts/build_apk.sh");
}

#[test]
fn deployed_version_is_current_when_not_older() {
    assert_eq!(BUNDLED_VERSION, 12);
    assert!(is_current_version(Some(" 12\n")));
    assert!(is_current_version(Some("13")));
    assert!(!is_current_version(Some("11")));
    assert!(!is_current_version(Some("twelve")));
    assert!(!is_current_version(Some("4294967296")));
    assert!(!is_current_version(None));
}

#[test]
fn project_helpers() {
    assert_eq!(files_dir(None), Err("invalid engine handle".to_string()));
    assert_eq!(files_dir(Some("/f".to_string())), Ok("/f".to_string()));
    let runs = vec![Json::Object(vec![("threadId".to_string(), Json::Str("t1".to_string()))])];
    assert!(session_is_active(Some("t1"), Some(&runs)));
    assert!(!session_is_active(Some("t2"), Some(&runs)));
    assert!(!session_is_active(None, Some(&runs)));
    assert!(!session_is_active(Some("t1"), None));
}
