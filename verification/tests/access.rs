use ptero_links::access::{
    acl_entry, ancestor_closure, grant_verdict, path_components, plan_grants, same_dir,
    AccessError, Target,
};
use ptero_links::commands::{add_to_group_command, grant_command, CommandResult};

fn dir(path: &str) -> Target {
    Target { path: path.to_string(), is_dir: true }
}

fn sorted(mut v: Vec<String>) -> Vec<String> {
    v.sort();
    v
}

#[test]
fn closure_of_two_siblings() {
    let r = ancestor_closure(&vec![dir("/a/b/c"), dir("/a/b/d")]);
    assert_eq!(r.len(), 4);
    assert_eq!(
        sorted(r),
        vec!["/a".to_string(), "/a/b".to_string(), "/a/b/c".to_string(), "/a/b/d".to_string()]
    );
}

#[test]
fn closure_leaves_out_a_target_that_is_no_directory() {
    let r = ancestor_closure(&vec![Target { path: "/a/b/c".to_string(), is_dir: false }]);
    assert_eq!(sorted(r), vec!["/a".to_string(), "/a/b".to_string()]);
}

#[test]
fn closure_counts_a_repeated_target_once() {
    let r = ancestor_closure(&vec![dir("/a/b"), dir("/a/b"), dir("/a")]);
    assert_eq!(sorted(r), vec!["/a".to_string(), "/a/b".to_string()]);
}

#[test]
fn closure_of_a_top_level_directory_is_itself() {
    let r = ancestor_closure(&vec![dir("/a")]);
    assert_eq!(r, vec!["/a".to_string()]);
}

#[test]
fn closure_of_nothing_is_empty() {
    assert!(ancestor_closure(&Vec::new()).is_empty());
}

#[test]
fn closure_ignores_doubled_and_trailing_separators() {
    let r = ancestor_closure(&vec![Target { path: "/a//b/c/".to_string(), is_dir: false }]);
    assert_eq!(sorted(r), vec!["/a".to_string(), "/a//b".to_string()]);
}

#[test]
fn closure_of_one_directory_holds_it_and_its_ancestors() {
    let r = ancestor_closure(&vec![dir("/home/op/pterodactyl")]);
    assert_eq!(
        sorted(r),
        vec!["/home".to_string(), "/home/op".to_string(), "/home/op/pterodactyl".to_string()]
    );
}

#[test]
fn closure_of_the_root_alone_is_the_root() {
    assert_eq!(ancestor_closure(&vec![dir("/")]), vec!["/".to_string()]);
}

#[test]
fn closure_of_a_relative_path_stops_at_its_first_component() {
    let r = ancestor_closure(&vec![dir("x/y/z")]);
    assert_eq!(sorted(r), vec!["x".to_string(), "x/y".to_string(), "x/y/z".to_string()]);
}

#[test]
fn closure_lists_a_directory_once_under_two_spellings() {
    let r = ancestor_closure(&vec![dir("/a/b/"), dir("/a/b/c")]);
    assert_eq!(r, vec!["/a/b/".to_string(), "/a".to_string(), "/a/b/c".to_string()]);
    let r = ancestor_closure(&vec![dir("/a/b/c"), dir("/a/b/")]);
    assert_eq!(r, vec!["/a/b/c".to_string(), "/a".to_string(), "/a/b".to_string()]);
    let r = ancestor_closure(&vec![dir("/a//b"), dir("/a/b"), dir("/a/b/.")]);
    assert_eq!(r, vec!["/a//b".to_string(), "/a".to_string()]);
}

#[test]
fn closure_takes_a_dot_for_the_directory_it_stands_in() {
    let r = ancestor_closure(&vec![dir("/a/./b")]);
    assert_eq!(r, vec!["/a/./b".to_string(), "/a".to_string()]);
    let r = ancestor_closure(&vec![Target { path: "/a/b/.".to_string(), is_dir: false }]);
    assert_eq!(r, vec!["/a".to_string()]);
    let r = ancestor_closure(&vec![Target { path: "/./a".to_string(), is_dir: false }]);
    assert!(r.is_empty());
    let r = ancestor_closure(&vec![Target { path: "./a/b".to_string(), is_dir: false }]);
    assert_eq!(r, vec!["./a".to_string()]);
}

#[test]
fn closure_keeps_two_dots_as_a_component() {
    let r = ancestor_closure(&vec![Target { path: "/a/../b".to_string(), is_dir: false }]);
    assert_eq!(r, vec!["/a".to_string(), "/a/..".to_string()]);
}

#[test]
fn path_components_leave_out_empty_runs_and_dots() {
    let none: Vec<String> = Vec::new();
    assert_eq!(path_components("/a/b/c"), vec!["a".to_string(), "b".to_string(), "c".to_string()]);
    assert_eq!(path_components("//a/./b//"), vec!["a".to_string(), "b".to_string()]);
    assert_eq!(path_components("a/.."), vec!["a".to_string(), "..".to_string()]);
    assert_eq!(path_components(".a/b."), vec![".a".to_string(), "b.".to_string()]);
    assert_eq!(path_components("/"), none);
    assert_eq!(path_components(""), none);
    assert_eq!(path_components("./."), none);
}

#[test]
fn same_dir_compares_by_components() {
    assert!(same_dir("/a/b", "/a/b"));
    assert!(same_dir("/a/b", "/a/b/"));
    assert!(same_dir("/a/b", "/a//b"));
    assert!(same_dir("/a/b", "//a/./b/."));
    assert!(same_dir("/", "//"));
    assert!(same_dir("a/b", "./a/b"));
    assert!(!same_dir("/a/b", "a/b"));
    assert!(!same_dir("/a/b", "/a"));
    assert!(!same_dir("/a/b", "/a/c"));
    assert!(!same_dir("/a/b", "/a/b/.."));
    assert!(!same_dir("/", ""));
}

#[test]
fn same_dir_agrees_with_std_on_absolute_paths() {
    let spellings = [
        "/", "//", "/a", "/a/", "/a//", "/a/.", "/a/./", "/./a", "/a/b", "/a//b", "/a/b/",
        "/a/./b", "/a/b/.", "/a/..", "/a/../b", "/b", "/ab", "/a/b/c", "/.a", "/a.",
    ];
    for a in spellings {
        for b in spellings {
            assert_eq!(same_dir(a, b), std::path::Path::new(a) == std::path::Path::new(b));
        }
    }
}

#[test]
fn plan_grants_gives_one_directory_one_grant() {
    let grants = plan_grants(&vec![dir("/a/b/"), dir("/a/b/c"), dir("/a/./b")], "games");
    let dirs: Vec<String> = grants.iter().map(|g| g.directory.clone()).collect();
    assert_eq!(dirs, vec!["/a/b/".to_string(), "/a".to_string(), "/a/b/c".to_string()]);
    for (i, a) in dirs.iter().enumerate() {
        for b in &dirs[i + 1..] {
            assert!(std::path::Path::new(a) != std::path::Path::new(b));
        }
    }
}

#[test]
fn acl_entry_grants_read_and_traverse() {
    assert_eq!(acl_entry("pterodactyl"), "g:pterodactyl:rx");
}

#[test]
fn plan_grants_gives_each_directory_the_same_entry() {
    let grants = plan_grants(&vec![dir("/a/b/c"), dir("/a/b/d")], "games");
    assert_eq!(grants.len(), 4);
    let mut dirs: Vec<String> = Vec::new();
    for g in &grants {
        assert_eq!(g.entry, "g:games:rx");
        dirs.push(g.directory.clone());
    }
    assert_eq!(
        sorted(dirs),
        vec!["/a".to_string(), "/a/b".to_string(), "/a/b/c".to_string(), "/a/b/d".to_string()]
    );
}

#[test]
fn grant_verdict_tells_refusal_from_breakdown() {
    assert_eq!(grant_verdict(CommandResult::Succeeded), Ok(true));
    assert_eq!(grant_verdict(CommandResult::Failed), Ok(false));
    assert_eq!(grant_verdict(CommandResult::NotStarted), Err(AccessError::FacilityUnusable));
}

#[test]
fn grant_command_modifies_one_directory() {
    let c = grant_command("g:games:rx", "/a/b");
    assert_eq!(c.program, "setfacl");
    assert_eq!(c.args, vec!["-m".to_string(), "g:games:rx".to_string(), "/a/b".to_string()]);
}

#[test]
fn add_to_group_command_appends_to_the_groups() {
    let c = add_to_group_command("games", "alice");
    assert_eq!(c.program, "usermod");
    assert_eq!(
        c.args,
        vec!["-a".to_string(), "-G".to_string(), "games".to_string(), "alice".to_string()]
    );
}
