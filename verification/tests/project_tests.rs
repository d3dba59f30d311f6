use ncblog::project::root_candidates;
use ncblog::site_build::BuildResult;

#[test]
fn candidates_in_order() {
    let c = root_candidates(Some("/env/root"), Some("/home/u/blog/backend"), Some("/opt/app/bin/server"));
    assert_eq!(
        c,
        vec![
            "/env/root", "/home/u/blog/backend", "/home/u/blog", "/home/u", "/home", "/",
            "/opt/app/bin", "/opt/app", "/opt", "/",
        ]
    );
}

#[test]
fn at_most_six_from_each_start() {
    let c = root_candidates(None, Some("/a/b/c/d/e/f/g/h"), Some("/x/y/z/w/v/u/t/s/exe"));
    assert_eq!(
        c,
        vec![
            "/a/b/c/d/e/f/g/h", "/a/b/c/d/e/f/g", "/a/b/c/d/e/f", "/a/b/c/d/e", "/a/b/c/d", "/a/b/c",
            "/x/y/z/w/v/u/t/s", "/x/y/z/w/v/u/t", "/x/y/z/w/v/u", "/x/y/z/w/v", "/x/y/z/w", "/x/y/z",
        ]
    );
}

#[test]
fn no_working_directory_stops_the_search() {
    assert_eq!(root_candidates(Some("/env"), None, Some("/opt/app/server")), vec!["/env"]);
    assert!(root_candidates(None, None, None).is_empty());
}

#[test]
fn no_executable_stops_after_the_working_directory() {
    assert_eq!(root_candidates(None, Some("/srv/blog"), None), vec!["/srv/blog", "/srv", "/"]);
}

#[test]
fn relative_and_root_paths() {
    assert_eq!(root_candidates(None, Some("/"), Some("/")), vec!["/", "/"]);
    assert_eq!(root_candidates(None, Some("blog/backend"), Some("server")), vec!["blog/backend", "blog", "", ""]);
}

#[test]
fn build_result_holds_what_hugo_gave() {
    let r = BuildResult { success: true, stdout: "built".to_string(), stderr: String::new() };
    let c = r.clone();
    assert!(c.success);
    assert_eq!(c.stdout, "built");
    assert_eq!(c.stderr, "");
}
