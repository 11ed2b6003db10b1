use ota_pack::project::{mentions_embassy, package_name, version_of_git_hash};

#[test]
fn manifest_with_embassy() {
    assert!(mentions_embassy(b"[dependencies]\nembassy-executor = \"0.5\"\n"));
    assert!(mentions_embassy(b"embassy"));
    assert!(!mentions_embassy(b"embass"));
    assert!(!mentions_embassy(b"[dependencies]\ntokio = \"1\"\n"));
    assert!(!mentions_embassy(b""));
}

#[test]
fn git_hash_cleaned() {
    assert_eq!(version_of_git_hash(b"abc123\n", false), b"abc123".to_vec());
    assert_eq!(version_of_git_hash(b" ab\tc1 23\n", true), b"abc123-dirty".to_vec());
    assert_eq!(version_of_git_hash(b"", true), b"-dirty".to_vec());
}

#[test]
fn package_name_from_manifest() {
    let manifest = "[package]\nname = \"demo\"\nversion = \"0.1.0\"\n";
    assert_eq!(package_name(manifest), Some("demo".to_string()));
    assert_eq!(package_name("[workspace]\nmembers = []\n"), None);
    assert_eq!(package_name("[package]\nname = 3\n"), None);
    assert_eq!(package_name("not toml ["), None);
}
