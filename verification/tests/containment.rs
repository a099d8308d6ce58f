use rustdrop::containment::{
    absolute_path, canonically_within, has_parent_component, lexically_within, path_is_within,
    ContainmentWalk, WithinCheck, WithinEvent, WithinRequest,
};

#[test]
fn parent_components_are_found() {
    assert!(has_parent_component("/up/../etc"));
    assert!(has_parent_component(".."));
    assert!(!has_parent_component("/up/..hidden/x"));
    assert!(!has_parent_component("/up/a..b"));
    assert!(!has_parent_component("/up/./a"));
}

#[test]
fn relative_paths_are_taken_under_the_working_directory() {
    assert_eq!(absolute_path("up/a.txt", "/srv"), "/srv/up/a.txt");
    assert_eq!(absolute_path("/up/a.txt", "/srv"), "/up/a.txt");
    assert_eq!(absolute_path("up/a.txt", ""), "up/a.txt");
}

#[test]
fn the_walk_keeps_the_deepest_existing_ancestor() {
    // /srv/up exists, /srv/up/new does not.
    let mut walk = ContainmentWalk::new();
    walk.advance("/", false);
    assert_eq!(walk.existing, "/");
    assert_eq!(walk.candidate("srv"), "/srv");
    walk.advance("srv", true);
    assert_eq!(walk.candidate("up"), "/srv/up");
    walk.advance("up", true);
    walk.advance(".", false);
    walk.advance("new", false);
    walk.advance("file.txt", false);
    assert_eq!(walk.existing, "/srv/up");
    assert_eq!(walk.suffix, "new/file.txt");
    assert!(!walk.needs_lexical_check());
    assert!(canonically_within(&walk.existing, &walk.suffix, "/srv/up"));
    assert!(!canonically_within("/srv", &walk.suffix, "/srv/up"));
}

#[test]
fn a_walk_that_finds_nothing_falls_back_to_the_lexical_check() {
    let mut walk = ContainmentWalk::new();
    walk.advance("relative", false);
    assert_eq!(walk.existing, "");
    assert!(walk.needs_lexical_check());
    assert!(lexically_within("/srv/up/./a/../b", "/srv/up"));
    assert!(!lexically_within("/srv/upload/b", "/srv/up"));
}

#[test]
fn containment_is_by_whole_components() {
    assert!(path_is_within("/srv/up/a", "/srv/up"));
    assert!(path_is_within("/srv/up", "/srv/up/"));
    assert!(!path_is_within("/srv/upx", "/srv/up"));
    assert!(!path_is_within("/srv", "/srv/up"));
}

fn resolved(p: &str) -> WithinEvent {
    WithinEvent::Resolved(Some(p.to_string()))
}

#[test]
fn existing_path_is_resolved_and_compared() {
    let (mut c, req) = WithinCheck::new("/up/a", "/up", true);
    assert_eq!(req, WithinRequest::Resolve("/up".to_string()));
    assert_eq!(c.step(resolved("/real/up")), WithinRequest::Exists("/up/a".to_string()));
    assert_eq!(c.step(WithinEvent::Exists(true)), WithinRequest::Resolve("/up/a".to_string()));
    assert_eq!(c.step(resolved("/real/up/a")), WithinRequest::Answer(true));

    let (mut c, _) = WithinCheck::new("/up/link", "/up", true);
    c.step(resolved("/real/up"));
    c.step(WithinEvent::Exists(true));
    assert_eq!(c.step(resolved("/etc/passwd")), WithinRequest::Answer(false));

    let (mut c, _) = WithinCheck::new("/up/gone", "/up", true);
    c.step(resolved("/real/up"));
    assert_eq!(c.step(WithinEvent::Exists(false)), WithinRequest::Answer(false));
}

#[test]
fn unresolvable_upload_dir_refuses() {
    let (mut c, _) = WithinCheck::new("/up/a", "/up", false);
    assert_eq!(c.step(WithinEvent::Resolved(None)), WithinRequest::Answer(false));
}

#[test]
fn parent_component_is_refused_at_once() {
    let (mut c, _) = WithinCheck::new("/up/../etc/passwd", "/up", false);
    assert_eq!(c.step(resolved("/up")), WithinRequest::Answer(false));
}

#[test]
fn new_path_is_walked_to_its_deepest_existing_ancestor() {
    let (mut c, _) = WithinCheck::new("up/new/file.txt", "up", false);
    assert_eq!(c.step(resolved("/srv/up")), WithinRequest::WorkingDir);
    assert!(!c.undefined_on(&WithinEvent::WorkingDir("/srv".to_string())));
    assert_eq!(c.step(WithinEvent::WorkingDir("/srv".to_string())), WithinRequest::Exists("/srv".to_string()));
    assert_eq!(c.step(WithinEvent::Exists(true)), WithinRequest::Exists("/srv/up".to_string()));
    assert_eq!(c.step(WithinEvent::Exists(true)), WithinRequest::Exists("/srv/up/new".to_string()));
    assert_eq!(c.step(WithinEvent::Exists(false)), WithinRequest::Resolve("/srv/up".to_string()));
    assert_eq!(c.step(resolved("/srv/up")), WithinRequest::Answer(true));
}

#[test]
fn ancestor_outside_the_directory_is_refused() {
    let (mut c, _) = WithinCheck::new("/x/y", "/srv/up", false);
    assert_eq!(c.step(resolved("/srv/up")), WithinRequest::Exists("/x".to_string()));
    assert_eq!(c.step(WithinEvent::Exists(false)), WithinRequest::Resolve("/".to_string()));
    assert_eq!(c.step(resolved("/")), WithinRequest::Answer(false));
}

#[test]
fn nothing_resolved_falls_back_to_the_normalised_path() {
    let (mut c, _) = WithinCheck::new("up/a", "up", false);
    c.step(resolved("/srv/up"));
    assert_eq!(c.step(WithinEvent::WorkingDir(String::new())), WithinRequest::Exists("up".to_string()));
    assert_eq!(c.step(WithinEvent::Exists(false)), WithinRequest::Answer(false));
}

#[test]
fn working_dir_with_parent_component_is_flagged() {
    let (mut c, _) = WithinCheck::new("a", "/up", false);
    c.step(resolved("/up"));
    assert!(c.undefined_on(&WithinEvent::WorkingDir("/srv/../x".to_string())));
}

#[test]
fn names_below_a_missing_one_are_not_looked_up() {
    let (mut c, _) = WithinCheck::new("/zzz/uploads/a", "/uploads", false);
    assert_eq!(c.step(resolved("/uploads")), WithinRequest::Exists("/zzz".to_string()));
    assert_eq!(c.step(WithinEvent::Exists(false)), WithinRequest::Resolve("/".to_string()));
    assert_eq!(c.step(resolved("/")), WithinRequest::Answer(false));
}
