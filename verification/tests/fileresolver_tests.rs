use raytracer::fileresolver::FileResolver;

#[test]
fn new_has_one_search_path() {
    let r = FileResolver::new("/work");
    assert_eq!(r.paths(), &vec!["/work".to_string()]);
}

#[test]
fn append_adds_at_the_end() {
    let mut r = FileResolver::new("/a");
    r.append("/b");
    r.append("c");
    assert_eq!(r.paths(), &vec!["/a".to_string(), "/b".to_string(), "c".to_string()]);
}

#[test]
fn resolve_finds_the_first_existing() {
    let mut r = FileResolver::new("/definitely/not/a/dir/for/this/test");
    r.append("/");
    assert_eq!(r.resolve("tmp"), "/tmp".to_string());
}

#[test]
fn resolve_falls_back_to_the_value() {
    let r = FileResolver::new("/definitely/not/a/dir/for/this/test");
    assert_eq!(r.resolve("missing_file.txt"), "missing_file.txt".to_string());
}

#[test]
fn resolve_from_picks_the_first_marked_path() {
    let mut r = FileResolver::new("/a");
    r.append("/b");
    r.append("/c");
    assert_eq!(r.resolve_from("x.png", &vec![false, true, true]), "/b/x.png".to_string());
    assert_eq!(r.resolve_from("x.png", &vec![true, false, false]), "/a/x.png".to_string());
    assert_eq!(r.resolve_from("x.png", &vec![false, false, false]), "x.png".to_string());
    assert_eq!(r.resolve_from("x.png", &vec![]), "x.png".to_string());
}

#[test]
fn candidate_joins_value_onto_search_path() {
    let mut r = FileResolver::new("/a");
    r.append("b");
    assert_eq!(r.candidate(0, "x.png"), "/a/x.png".to_string());
    assert_eq!(r.candidate(1, "x.png"), "b/x.png".to_string());
    assert_eq!(r.candidate(1, "/abs.png"), "/abs.png".to_string());
}
