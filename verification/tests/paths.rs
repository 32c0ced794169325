use llm_globber::paths::{
    has_prefix, never_climbs_out, resolve_destination, split_components, ContainmentViolation,
};

fn parts(names: &[&str]) -> Vec<Vec<u8>> {
    names.iter().map(|n| n.as_bytes().to_vec()).collect()
}

fn resolve(recorded: &str) -> Result<Vec<u8>, ContainmentViolation> {
    resolve_destination(b"out", b"test_files/", recorded.as_bytes())
}

fn at(path: &str) -> Result<Vec<u8>, ContainmentViolation> {
    Ok(path.as_bytes().to_vec())
}

#[test]
fn components_are_what_stands_between_separators() {
    assert_eq!(split_components(b"a/b/c.txt"), parts(&["a", "b", "c.txt"]));
    assert_eq!(split_components(b"/a/b"), parts(&["a", "b"]));
    assert_eq!(split_components(b"a//b/"), parts(&["a", "b"]));
    assert_eq!(split_components(b"a/./b/."), parts(&["a", "b"]));
    assert_eq!(split_components(b"a/../b"), parts(&["a", "..", "b"]));
    assert_eq!(split_components(b""), parts(&[]));
    assert_eq!(split_components(b"/"), parts(&[]));
}

#[test]
fn a_leading_dot_is_kept() {
    assert_eq!(split_components(b"./a"), parts(&[".", "a"]));
    assert_eq!(split_components(b"."), parts(&["."]));
    assert_eq!(split_components(b"././a"), parts(&[".", "a"]));
    assert_eq!(split_components(b"/./a"), parts(&["a"]));
    assert_eq!(split_components(b".a/b"), parts(&[".a", "b"]));
}

#[test]
fn components_agree_with_std_paths() {
    let samples = [
        "a/b/c", "a//b", "./a/b", "a/./b", "a/b/.", "a/../b", "../a", "a/", ".", "..", "a", ".a",
        "a/.b/..c", "",
    ];
    for sample in samples {
        let expected: Vec<Vec<u8>> = std::path::Path::new(sample)
            .components()
            .map(|c| c.as_os_str().to_str().unwrap().as_bytes().to_vec())
            .collect();
        assert_eq!(split_components(sample.as_bytes()), expected, "{:?}", sample);
    }
}

#[test]
fn prefixes_are_compared_by_components() {
    assert!(has_prefix(&parts(&["a", "b", "c"]), &parts(&["a", "b"])));
    assert!(has_prefix(&parts(&["a"]), &parts(&[])));
    assert!(has_prefix(&parts(&["a"]), &parts(&["a"])));
    assert!(!has_prefix(&parts(&["a"]), &parts(&["a", "b"])));
    assert!(!has_prefix(&parts(&["ab", "c"]), &parts(&["a"])));
}

#[test]
fn climbing_is_counted_component_by_component() {
    assert!(never_climbs_out(&parts(&["a", "b"])));
    assert!(never_climbs_out(&parts(&["a", "..", "b"])));
    assert!(never_climbs_out(&parts(&["a", "b", "..", ".."])));
    assert!(never_climbs_out(&parts(&[])));
    assert!(never_climbs_out(&parts(&[".", "a"])));
    assert!(!never_climbs_out(&parts(&[".."])));
    assert!(!never_climbs_out(&parts(&["a", "..", ".."])));
    assert!(!never_climbs_out(&parts(&[".", ".."])));
    assert!(!never_climbs_out(&parts(&["a", "..", "..", "a", "a"])));
}

#[test]
fn the_input_root_is_taken_off() {
    assert_eq!(resolve("test_files/a.c"), at("out/a.c"));
    assert_eq!(resolve("test_files/dir/a.c"), at("out/dir/a.c"));
    assert_eq!(resolve("test_files//a.c"), at("out/a.c"));
}

#[test]
fn other_paths_are_kept_whole() {
    assert_eq!(resolve("a.c"), at("out/a.c"));
    assert_eq!(resolve("src/a.c"), at("out/src/a.c"));
    assert_eq!(resolve("test_filesX/a.c"), at("out/test_filesX/a.c"));
    assert_eq!(resolve("x/test_files/a.c"), at("out/x/test_files/a.c"));
    assert_eq!(resolve("./test_files/a.c"), at("out/./test_files/a.c"));
}

#[test]
fn the_destination_root_is_joined_like_a_path() {
    assert_eq!(resolve_destination(b"out/", b"", b"a.c"), at("out/a.c"));
    assert_eq!(resolve_destination(b"", b"", b"a.c"), at("a.c"));
    assert_eq!(resolve_destination(b"/", b"", b"a.c"), at("/a.c"));
    assert_eq!(resolve_destination(b"/tmp/out", b"", b"d/a.c"), at("/tmp/out/d/a.c"));
    assert_eq!(resolve_destination(b".", b"", b"a.c"), at("./a.c"));
}

#[test]
fn an_absolute_input_root_is_taken_off_absolute_paths() {
    assert_eq!(resolve_destination(b"out", b"/src", b"/src/a.c"), at("out/a.c"));
    assert_eq!(resolve_destination(b"out", b"/src", b"src/a.c"), at("out/src/a.c"));
    assert_eq!(resolve_destination(b"out", b"src", b"/src/a.c"), Err(ContainmentViolation));
}

#[test]
fn absolute_paths_are_refused() {
    assert_eq!(resolve("/etc/passwd"), Err(ContainmentViolation));
    assert_eq!(resolve("/test_files/a.c"), Err(ContainmentViolation));
    assert_eq!(resolve("/"), Err(ContainmentViolation));
}

#[test]
fn paths_that_climb_out_are_refused() {
    assert_eq!(resolve("../a.c"), Err(ContainmentViolation));
    assert_eq!(resolve("test_files/../../a.c"), Err(ContainmentViolation));
    assert_eq!(resolve("a/../../b"), Err(ContainmentViolation));
    assert_eq!(resolve("a/b/../../../c"), Err(ContainmentViolation));
    assert_eq!(resolve(".."), Err(ContainmentViolation));
}

#[test]
fn paths_that_climb_and_stay_inside_are_kept() {
    assert_eq!(resolve("a/../b.c"), at("out/a/../b.c"));
    assert_eq!(resolve("test_files/a/b/../../c"), at("out/a/b/../../c"));
}

#[test]
fn a_path_that_is_the_input_root_leads_to_the_destination_root() {
    assert_eq!(resolve("test_files"), at("out/"));
    assert_eq!(resolve(""), at("out/"));
}
