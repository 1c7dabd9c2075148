use anemoia::config::is_lua_script;
use anemoia::paths::{
    join_path, lua_package_path, missing_lib_message, parent_path, profile_path, repo_root, scripts_dir,
    trigger_candidates,
};

#[test]
fn join_like_pathbuf() {
    assert_eq!(join_path("/a/b", "c"), "/a/b/c");
    assert_eq!(join_path("/a/b/", "c"), "/a/b/c");
    assert_eq!(join_path("", "c"), "c");
    assert_eq!(join_path("/a", "/etc/x"), "/etc/x");
}

#[test]
fn parents_like_path_parent() {
    assert_eq!(parent_path("/a/b/c"), Some("/a/b".to_string()));
    assert_eq!(parent_path("/a"), Some("/".to_string()));
    assert_eq!(parent_path("/"), None);
    assert_eq!(parent_path("a"), Some(String::new()));
    assert_eq!(parent_path("a/b/"), Some("a".to_string()));
    assert_eq!(parent_path(""), None);
    assert_eq!(repo_root("/home/u/anemoia/target/release/libanemoia_client.so"), Some("/home/u/anemoia".to_string()));
    assert_eq!(repo_root("/x/lib.so"), None);
}

#[test]
fn scripts_dir_prefers_the_explicit_variable() {
    assert_eq!(scripts_dir(Some("/s"), Some("/r"), "/f"), "/s");
    assert_eq!(scripts_dir(None, Some("/r"), "/f"), "/r/scripts");
    assert_eq!(scripts_dir(None, None, "/f"), "/f");
}

#[test]
fn lua_path_adds_scripts_and_parent() {
    assert_eq!(
        lua_package_path("./?.lua", "/r/scripts"),
        "./?.lua;/r/scripts/?.lua;/r/scripts/?/init.lua;/r/?.lua;/r/?/init.lua"
    );
}

#[test]
fn profile_and_library_paths() {
    assert_eq!(profile_path("/h/.anemoia/profiles", "pvp"), "/h/.anemoia/profiles/pvp.json");
    assert_eq!(
        missing_lib_message("libx.so", "/bin/libx.so"),
        "Library not found: libx.so\n  Expected at: /bin/libx.so"
    );
    assert_eq!(trigger_candidates(Some("/proc/cwd"), ".attach_pid9"), vec!["/proc/cwd/.attach_pid9", "/tmp/.attach_pid9"]);
    assert_eq!(trigger_candidates(None, ".attach_pid9"), vec!["/tmp/.attach_pid9"]);
}

#[test]
fn lua_scripts_by_extension() {
    assert!(is_lua_script("fly.lua"));
    assert!(is_lua_script("a.b.lua"));
    assert!(!is_lua_script(".lua"));
    assert!(!is_lua_script("fly.luac"));
    assert!(!is_lua_script("lua"));
}
