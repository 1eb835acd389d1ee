use common_audio_playback::packages::{
    find_package_name, get_packages, get_ros_msgs_each_package, group_discovered,
    split_prefix_paths, Package, PackageError,
};

#[test]
fn package_name_from_a_source_layout_path() {
    let name = find_package_name("/ws/src/my_pkg/msg/Position.msg");
    assert_eq!(name.as_deref(), Some("my_pkg"));
}

#[test]
fn package_name_from_an_installed_layout_path() {
    // A `share` directory above the kind directory points one level up.
    let name = find_package_name("/opt/install/my_pkg/share/msg/Position.msg");
    assert_eq!(name.as_deref(), Some("my_pkg"));
}

#[test]
fn package_name_of_a_shallow_path_is_none() {
    assert_eq!(find_package_name("Position.msg"), None);
    assert_eq!(find_package_name("msg/Position.msg"), None);
    assert_eq!(find_package_name(""), None);
}

#[test]
fn package_name_is_the_directory_above_the_kind_directory() {
    let name = find_package_name("a/b/msg/file.msg");
    assert_eq!(name.as_deref(), Some("b"));
}

#[test]
fn empty_root_directory_yields_no_packages() {
    let pkgs = get_ros_msgs_each_package("").unwrap();
    assert_eq!(pkgs.len(), 0);
}

#[test]
fn missing_root_directory_yields_no_packages() {
    let pkgs = get_ros_msgs_each_package("/surely/not/a/real/prefix/here").unwrap();
    assert_eq!(pkgs.len(), 0);
}

#[test]
fn no_roots_yield_no_packages() {
    let roots: Vec<String> = Vec::new();
    let pkgs = get_packages(&roots).unwrap();
    assert_eq!(pkgs.len(), 0);
}

#[test]
fn missing_roots_yield_no_packages() {
    let roots = vec![
        "/surely/not/a/real/prefix/one".to_string(),
        "/surely/not/a/real/prefix/two".to_string(),
    ];
    let pkgs = get_packages(&roots).unwrap();
    assert_eq!(pkgs.len(), 0);
}

#[test]
fn an_invalid_glob_pattern_is_reported() {
    // An unclosed character class makes the search pattern invalid.
    let r = get_ros_msgs_each_package("/tmp/nope[");
    assert_eq!(r.err(), Some(PackageError::BadPattern));
    let roots = vec!["/tmp/nope[".to_string()];
    assert_eq!(get_packages(&roots).err(), Some(PackageError::BadPattern));
}

#[test]
fn a_fresh_package_is_empty_until_a_file_is_added() {
    let mut pkg = Package::new("demo".to_string());
    assert!(pkg.is_empty());
    pkg.messages.push("/ws/demo/msg/A.msg".to_string());
    assert!(!pkg.is_empty());
    assert_eq!(pkg.name, "demo");
}

#[test]
fn prefix_paths_split_on_colons_keeping_empty_parts() {
    assert_eq!(split_prefix_paths("a:b::c"), vec!["a", "b", "", "c"]);
    assert_eq!(split_prefix_paths("single"), vec!["single"]);
    assert_eq!(split_prefix_paths(""), vec![""]);
    assert_eq!(split_prefix_paths("/opt/one:/opt/two"), vec!["/opt/one", "/opt/two"]);
}

fn strings(v: &[&str]) -> Vec<String> {
    v.iter().map(|s| s.to_string()).collect()
}

#[test]
fn discovered_files_group_under_their_packages() {
    let msgs = strings(&[
        "/ws/alpha/msg/A.msg",
        "/ws/alpha/msg/B.msg",
        "/ws/beta/msg/C.msg",
    ]);
    let srvs = strings(&["/ws/alpha/srv/Do.srv"]);
    let actions = strings(&[]);
    let pkgs = group_discovered(&msgs, &srvs, &actions);
    assert_eq!(pkgs.len(), 2);
    let alpha = pkgs.iter().find(|p| p.name == "alpha").unwrap();
    assert_eq!(alpha.messages.len(), 2);
    assert_eq!(alpha.services.len(), 1);
    assert_eq!(alpha.actions.len(), 0);
    let beta = pkgs.iter().find(|p| p.name == "beta").unwrap();
    assert_eq!(beta.messages, vec!["/ws/beta/msg/C.msg"]);
}

#[test]
fn a_repeated_file_for_one_package_counts_once() {
    let msgs = strings(&[
        "/src/alpha/msg/A.msg",
        "/elsewhere/alpha/msg/A.msg",
    ]);
    let pkgs = group_discovered(&msgs, &strings(&[]), &strings(&[]));
    assert_eq!(pkgs.len(), 1);
    assert_eq!(pkgs[0].messages.len(), 1);
    assert_eq!(pkgs[0].messages, vec!["/src/alpha/msg/A.msg"]);
}

#[test]
fn the_stray_collector_entry_is_skipped() {
    let msgs = strings(&["/ws/alpha/msg/libstatistics_collector"]);
    let pkgs = group_discovered(&msgs, &strings(&[]), &strings(&[]));
    assert_eq!(pkgs.len(), 0);
}

#[test]
fn shallow_paths_are_skipped_by_grouping() {
    let msgs = strings(&["A.msg", "msg/B.msg", "/ws/gamma/msg/C.msg"]);
    let pkgs = group_discovered(&msgs, &strings(&[]), &strings(&[]));
    assert_eq!(pkgs.len(), 1);
    assert_eq!(pkgs[0].name, "gamma");
}

#[test]
fn the_same_file_name_under_two_packages_is_kept_for_both() {
    let msgs = strings(&["/ws/alpha/msg/A.msg", "/ws/beta/msg/A.msg"]);
    let pkgs = group_discovered(&msgs, &strings(&[]), &strings(&[]));
    assert_eq!(pkgs.len(), 2);
    assert!(pkgs.iter().all(|p| p.messages.len() == 1));
}
