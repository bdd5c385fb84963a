use std::path::{Path, PathBuf};

use minutes::path::{find_home, is_md_file, join_path, resolve_home, same_path};
use minutes::rich_path::{build_rich_path, nvm_places, places_for, NvmFound};

#[test]
fn joining_agrees_with_std() {
    let parts = ["", "/", "a", "a/", "/a", "/a/b", "/a/b/", ".minutes", "x.md", "../x"];
    for base in parts {
        for rel in parts {
            let expected = Path::new(base).join(rel).display().to_string();
            assert_eq!(join_path(base, rel), expected, "{:?} {:?}", base, rel);
        }
    }
    assert_eq!(join_path("/home/u", ".minutes"), "/home/u/.minutes");
}

#[test]
fn same_places_agree_with_std() {
    let paths = [
        "", ".", "./", "./a", "a", "a/", "a/.", "a//b", "a/b", "a/./b", "/", "//", "/a", "//a",
        "/./a", "/a/", "..", "a/..", "/a/..", "/usr/bin", "/usr/bin/", "/usr//bin", "./.",
    ];
    for a in paths {
        for b in paths {
            assert_eq!(same_path(a, b), PathBuf::from(a) == PathBuf::from(b), "{:?} {:?}", a, b);
        }
    }
}

#[test]
fn extensions_agree_with_std() {
    for name in ["a.md", ".md", "..md", "md", "a.MD", "a.md.bak", "a.b.md", "é.md", "", "amd", "a.mdx"] {
        let expected = Path::new(name).extension().and_then(|e| e.to_str()) == Some("md");
        assert_eq!(is_md_file(name), expected, "{:?}", name);
    }
}

#[test]
fn home_falls_back_to_tmp() {
    assert_eq!(resolve_home(Some("/home/u".to_string())), "/home/u");
    assert_eq!(resolve_home(Some(String::new())), "");
    assert_eq!(resolve_home(None), "/tmp");
}

fn nothing() -> NvmFound {
    NvmFound {
        dir_exists: false,
        default_version: None,
        version_bin_exists: false,
        current_bin_exists: false,
    }
}

const INSTALL: &str = "/home/u/.cargo/bin:/home/u/.local/bin:/home/u/.npm-global/bin:\
/opt/homebrew/bin:/usr/local/bin:/usr/bin:/bin";

#[test]
fn places_of_node_versions() {
    let at_home = places_for("/home/u".to_string(), None);
    assert_eq!(at_home.dir, "/home/u/.nvm");
    assert_eq!(at_home.default_link, "/home/u/.nvm/alias/default");
    assert_eq!(at_home.current_bin, "/home/u/.nvm/current/bin");
    assert_eq!(at_home.version_bin("v20.1.0\n"), "/home/u/.nvm/versions/node/v20.1.0/bin");
    assert_eq!(at_home.version_bin(" \n"), "/home/u/.nvm/versions/node/bin");

    let named = places_for("/home/u".to_string(), Some("/opt/nvm".to_string()));
    assert_eq!(named.dir, "/opt/nvm");
    assert_eq!(named.home, "/home/u");
}

#[test]
fn places_are_those_of_the_home_that_is_found() {
    let home = match dirs::home_dir() {
        Some(home) => home.display().to_string(),
        None => "/tmp".to_string(),
    };
    assert_eq!(resolve_home(find_home()), home);
    let places = nvm_places(None);
    assert_eq!(places.home, home);
    assert_eq!(places.dir, join_path(&home, ".nvm"));
    assert_eq!(nvm_places(Some("/n".to_string())).dir, "/n");
}

#[test]
fn search_path_without_node() {
    let places = places_for("/home/u".to_string(), None);
    assert_eq!(build_rich_path(&places, &nothing(), None), INSTALL);
}

#[test]
fn search_path_with_node() {
    let places = places_for("/home/u".to_string(), None);
    let found = NvmFound {
        dir_exists: true,
        default_version: Some("v20.1.0\n".to_string()),
        version_bin_exists: true,
        current_bin_exists: true,
    };
    let expected = format!(
        "/home/u/.nvm/current/bin:/home/u/.nvm/versions/node/v20.1.0/bin:{}",
        INSTALL
    );
    assert_eq!(build_rich_path(&places, &found, None), expected);

    let only_version = NvmFound { current_bin_exists: false, ..found.clone() };
    let expected = format!("/home/u/.nvm/versions/node/v20.1.0/bin:{}", INSTALL);
    assert_eq!(build_rich_path(&places, &only_version, None), expected);

    let gone = NvmFound { dir_exists: false, ..found };
    assert_eq!(build_rich_path(&places, &gone, None), INSTALL);
}

#[test]
fn search_path_keeps_what_is_new() {
    let places = places_for("/home/u".to_string(), None);
    let path = build_rich_path(&places, &nothing(), Some("/usr/bin/:/sbin:/home/u/bin:/sbin/:/usr//bin"));
    assert_eq!(path, format!("{}:/sbin:/home/u/bin", INSTALL));
}

#[test]
fn search_path_keeps_an_empty_entry_once() {
    let places = places_for("/home/u".to_string(), None);
    assert_eq!(build_rich_path(&places, &nothing(), Some("")), format!("{}:", INSTALL));
    assert_eq!(build_rich_path(&places, &nothing(), Some("::")), format!("{}:", INSTALL));
}

#[test]
fn search_path_is_stable() {
    let places = places_for("/home/u".to_string(), None);
    let found = NvmFound {
        dir_exists: true,
        default_version: Some("v20\n".to_string()),
        version_bin_exists: true,
        current_bin_exists: true,
    };
    let path = build_rich_path(&places, &found, Some("/sbin:/usr/bin/:x"));
    assert_eq!(build_rich_path(&places, &found, Some(&path)), path);
}
