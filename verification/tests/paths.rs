use draupnir::pathname::{below_root_texts, child, component_count, components, is_absolute, join_texts, starts_with, Component};
use draupnir::text::chars_of;

fn std_components(p: &str) -> Vec<String> {
    std::path::Path::new(p)
        .components()
        .map(|c| match c {
            std::path::Component::RootDir => "/".to_string(),
            std::path::Component::CurDir => ".".to_string(),
            std::path::Component::ParentDir => "..".to_string(),
            std::path::Component::Normal(s) => s.to_str().unwrap().to_string(),
            std::path::Component::Prefix(_) => unreachable!(),
        })
        .collect()
}

fn ours(p: &str) -> Vec<String> {
    components(&chars_of(p))
        .into_iter()
        .map(|c| match c {
            Component::RootDir => "/".to_string(),
            Component::CurDir => ".".to_string(),
            Component::ParentDir => "..".to_string(),
            Component::Normal(v) => v.into_iter().collect(),
        })
        .collect()
}

#[test]
fn components_match_std() {
    for p in [
        "", "/", "//", "a", "/a", "a/", "a//b", "./a", ".", "./", "..", "../a", "a/./b", "a/../b",
        "/./a", ".a", "a/.", "/home/user/", "./.", "..//.", ".//a",
    ] {
        assert_eq!(ours(p), std_components(p), "path {p:?}");
    }
}

#[test]
fn absolute_and_counts() {
    assert!(is_absolute(&chars_of("/x")));
    assert!(!is_absolute(&chars_of("x/")));
    assert_eq!(component_count(&chars_of(".cache")), 1);
    assert_eq!(component_count(&chars_of("/")), 1);
    assert_eq!(component_count(&chars_of("a/b")), 2);
    assert_eq!(component_count(&chars_of("")), 0);
}

#[test]
fn starts_with_whole_components() {
    assert!(starts_with(&chars_of("/mnt/backup/x"), &chars_of("/mnt/backup")));
    assert!(!starts_with(&chars_of("/mnt/backupx"), &chars_of("/mnt/backup")));
    assert!(starts_with(&chars_of("/mnt/backup"), &chars_of("/mnt/backup/")));
}

#[test]
fn prefixes_and_joins() {
    let p = below_root_texts(&"/home/user".to_string());
    assert_eq!(p, vec!["home".to_string(), "user".to_string()]);
    assert_eq!(join_texts(&p), "home/user");
    assert_eq!(below_root_texts(&"/".to_string()), Vec::<String>::new());
    assert_eq!(child(&"/home".to_string(), &"x".to_string()), "/home/x");
    assert_eq!(child(&"/home/".to_string(), &"x".to_string()), "/home/x");
}
