use sandboxfs::host::HostPath;
use sandboxfs::path::normalize_sandbox_path;
use sandboxfs::path::rewrite_sandbox_path_arg;
use sandboxfs::path::SandboxPath;
use sandboxfs::runtime::runtime_dir;
use sandboxfs::runtime::RuntimePaths;

fn at(text: &str) -> SandboxPath {
    SandboxPath::new(text).unwrap()
}

#[test]
fn normalizes_root_relative_and_parent_components() {
    assert_eq!(SandboxPath::new("/").unwrap().as_str(), "/");
    assert_eq!(SandboxPath::new("a/b").unwrap().as_str(), "/a/b");
    assert_eq!(SandboxPath::new("/a/./b/../c").unwrap().as_str(), "/a/c");
    assert_eq!(SandboxPath::new("../../a").unwrap().as_str(), "/a");
}

#[test]
fn rewrites_absolute_cli_path_args_to_cwd_relative() {
    assert_eq!(rewrite_sandbox_path_arg("/"), ".");
    assert_eq!(rewrite_sandbox_path_arg("/a/b"), "./a/b");
    assert_eq!(rewrite_sandbox_path_arg("a/b"), "a/b");
}

#[test]
fn normalizing_twice_is_normalizing_once() {
    let once = normalize_sandbox_path("x//y/../z/").unwrap();
    assert_eq!(once, "/x/z");
    assert_eq!(normalize_sandbox_path(&once).unwrap(), once);
    assert_eq!(normalize_sandbox_path("").unwrap(), "/");
}

#[test]
fn parents_names_and_joins_fit_together() {
    let path = at("/a/b/c");
    assert_eq!(path.depth(), 3);
    assert_eq!(path.name_at(1), "b");
    assert_eq!(path.file_name(), Some("c".to_string()));
    let parent = path.parent().unwrap();
    assert_eq!(parent.as_str(), "/a/b");
    assert_eq!(parent.join("c").unwrap(), path);
    assert_eq!(parent.join("/x").unwrap().as_str(), "/x");
    assert_eq!(parent.join("../../..").unwrap().as_str(), "/");
    assert!(at("/").parent().is_none());
    assert!(at("/").file_name().is_none());
}

#[test]
fn prefixes_are_stripped_by_whole_names() {
    assert!(at("/a/b").starts_with(&at("/a")));
    assert!(!at("/ab").starts_with(&at("/a")));
    assert_eq!(at("/a/b/c").strip_prefix(&at("/a")).unwrap(), "b/c");
    assert_eq!(at("/a").strip_prefix(&at("/a")).unwrap(), "");
    assert_eq!(
        at("/ab").strip_prefix(&at("/a")).unwrap_err().message(),
        "/ab is not under /a"
    );
}

#[test]
fn env_runtime_dir_wins() {
    let temp = HostPath::new("/tmp");
    let dir = runtime_dir(
        Some(HostPath::new("/custom")),
        Some(HostPath::new("/run/user/7")),
        7,
        &temp,
    );
    assert_eq!(dir.as_str(), "/custom");
}

#[test]
fn runtime_dir_falls_back_in_order() {
    let temp = HostPath::new("/tmp");
    assert_eq!(
        runtime_dir(None, Some(HostPath::new("/run/user/7")), 7, &temp).as_str(),
        "/run/user/7/sandboxfs"
    );
    assert_eq!(runtime_dir(None, None, 0, &temp).as_str(), "/run/sandboxfs");
    assert_eq!(runtime_dir(None, None, 7, &temp).as_str(), "/tmp/sandboxfs-7");
}

#[test]
fn default_socket_is_per_sandbox() {
    let runtime = RuntimePaths::for_tests(HostPath::new("/run/x"), None);
    assert_eq!(runtime.socket_path("demo").as_str(), "/run/x/demo.sock");
}

#[test]
fn log_dir_can_be_separate_from_runtime_dir() {
    let runtime = RuntimePaths::for_tests_with_log_dir(
        HostPath::new("/run/x"),
        HostPath::new("/var/log/x"),
        None,
    );
    assert_eq!(runtime.socket_path("demo").as_str(), "/run/x/demo.sock");
    assert_eq!(runtime.sandbox_log_path("demo").as_str(), "/var/log/x/demo.log");
}

#[test]
fn named_socket_and_mount_directory_are_used() {
    let runtime = RuntimePaths::discover(
        HostPath::new("/run/x"),
        None,
        Some(HostPath::new("/run/one.sock")),
    );
    assert_eq!(runtime.socket_path("demo").as_str(), "/run/one.sock");
    assert_eq!(runtime.sandbox_log_path("demo").as_str(), "/run/x/demo.log");
    assert_eq!(runtime.tmp_mount_dir("demo", 12).as_str(), "/run/x/tmp/demo-12");
}

#[test]
fn host_paths_are_the_same_where_their_parts_are() {
    let path = HostPath::new("/mnt/a");
    for same in ["/mnt/a/", "//mnt//a", "/mnt/./a", "/./mnt/a/."] {
        assert!(path == HostPath::new(same), "{same}");
    }
    for other in ["mnt/a", "./mnt/a", "/mnt/b/../a", "/mnt/ab", "/mnt", "/"] {
        assert!(path != HostPath::new(other), "{other}");
    }
    assert!(HostPath::new("./a") != HostPath::new("a"));
    assert!(HostPath::new("a/.") == HostPath::new("a"));
    assert!(HostPath::new("") == HostPath::new(""));
    assert!(HostPath::new("") != HostPath::new("/"));
    assert_eq!(HostPath::new("/mnt/a/").as_str(), "/mnt/a/");
}

#[test]
fn a_rest_from_the_root_replaces_the_base() {
    assert_eq!(HostPath::new("/run").join("x").as_str(), "/run/x");
    assert_eq!(HostPath::new("/run/").join("x").as_str(), "/run/x");
    assert_eq!(HostPath::new("").join("x").as_str(), "x");
    assert_eq!(HostPath::new("/run").join("").as_str(), "/run/");
    assert_eq!(HostPath::new("/run").join("/x").as_str(), "/x");
    let runtime = RuntimePaths::for_tests(HostPath::new("/run"), None);
    assert_eq!(runtime.socket_path("/x").as_str(), "/x.sock");
    assert_eq!(runtime.sandbox_log_path("/x").as_str(), "/x.log");
}
