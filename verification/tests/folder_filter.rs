use amp::paths::{search_as_folders, PathComponent};
use std::path::{Component, Path, PathBuf};

fn components(path: &Path) -> Vec<PathComponent> {
    path.components()
        .map(|c| match c {
            Component::RootDir => PathComponent::RootDir,
            Component::CurDir => PathComponent::CurDir,
            Component::ParentDir => PathComponent::ParentDir,
            Component::Normal(name) => PathComponent::Normal(name.to_str().unwrap().to_string()),
            Component::Prefix(_) => panic!("no prefixes here"),
        })
        .collect()
}

fn path_of(components: &[PathComponent]) -> PathBuf {
    let mut path = PathBuf::new();
    for c in components {
        match c {
            PathComponent::RootDir => path.push("/"),
            PathComponent::CurDir => path.push("."),
            PathComponent::ParentDir => path.push(".."),
            PathComponent::Normal(name) => path.push(name),
        }
    }
    path
}

fn folders(vals: &[PathBuf]) -> Option<Vec<PathBuf>> {
    let input: Vec<Vec<PathComponent>> = vals.iter().map(|p| components(p)).collect();
    search_as_folders(&input).map(|r| r.iter().map(|c| path_of(c)).collect())
}

#[test]
fn folder_filter_test1() {
    let vals = vec![
        PathBuf::from("/hello/world/buddy"),
        PathBuf::from("/hello/venus/buddy"),
        PathBuf::from("/hello/buddy"),
    ];
    let r = folders(&vals).unwrap();
    assert_eq!(
        r,
        vec![
            PathBuf::from("/hello/buddy"),
            PathBuf::from("/hello/venus"),
            PathBuf::from("/hello/world"),
        ]
    );
}

#[test]
fn folder_filter_test2() {
    let vals = vec![
        PathBuf::from("/hello/world/buddy"),
        PathBuf::from("/hello/venus/buddy"),
        PathBuf::from("/hello/buddy"),
        PathBuf::from("/group/buddy"),
    ];
    let r = folders(&vals).unwrap();
    assert_eq!(r, vec![PathBuf::from("/group"), PathBuf::from("/hello")]);
}

#[test]
fn folder_filter_needs_a_folder_below_the_common_one() {
    assert_eq!(folders(&[]), None);
    assert_eq!(folders(&[PathBuf::from("/a/b")]), None);
    assert_eq!(folders(&[PathBuf::from("/a/b"), PathBuf::from("/a")]), Some(vec![PathBuf::from("/a/b")]));
    assert_eq!(folders(&[PathBuf::from("a/b"), PathBuf::from("/a")]), None);
}

#[test]
fn every_path_lies_in_one_of_the_folders() {
    let vals = vec![
        PathBuf::from("/a/b/c"),
        PathBuf::from("/a/b"),
        PathBuf::from("/a/d/e/f"),
        PathBuf::from("/a/d"),
    ];
    let found = folders(&vals).unwrap();
    assert_eq!(found, vec![PathBuf::from("/a/b"), PathBuf::from("/a/d")]);
    for v in &vals {
        assert!(found.iter().any(|f| v.starts_with(f)));
    }
    for f in &found {
        assert_eq!(f.parent(), Some(Path::new("/a")));
    }
}
