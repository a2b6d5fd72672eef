use servedir::resolve::resolve;
use servedir::ServeError;

fn segs(parts: &[&str]) -> Vec<String> {
    parts.iter().map(|p| p.to_string()).collect()
}

#[test]
fn empty_request_is_the_root() {
    let r = resolve(&segs(&[])).expect("root resolves");
    assert!(r.is_root);
    assert!(r.segments.is_empty());
}

#[test]
fn plain_segments_pass_through() {
    let r = resolve(&segs(&["a", "b"])).expect("resolves");
    assert!(!r.is_root);
    assert_eq!(r.segments, segs(&["a", "b"]));
}

#[test]
fn dot_and_empty_segments_are_dropped() {
    let r = resolve(&segs(&["a", ".", "", "b"])).expect("resolves");
    assert_eq!(r.segments, segs(&["a", "b"]));
}

#[test]
fn parent_segments_pop() {
    let r = resolve(&segs(&["a", "..", "b"])).expect("resolves");
    assert_eq!(r.segments, segs(&["b"]));
}

#[test]
fn popping_back_to_the_root_is_root() {
    let r = resolve(&segs(&["a", ".."])).expect("resolves");
    assert!(r.is_root);
    assert!(r.segments.is_empty());
}

#[test]
fn escape_above_root_is_rejected() {
    assert_eq!(resolve(&segs(&[".."])).unwrap_err(), ServeError::PathEscape);
    assert_eq!(
        resolve(&segs(&["a", "..", ".."])).unwrap_err(),
        ServeError::PathEscape
    );
}

#[test]
fn escape_is_rejected_even_if_the_path_would_come_back() {
    // stepping above the root is refused outright, even when later segments
    // would lead back below it
    assert_eq!(
        resolve(&segs(&["..", "a"])).unwrap_err(),
        ServeError::PathEscape
    );
}

#[test]
fn dotted_names_are_not_traversal() {
    let r = resolve(&segs(&["..a", "a..", "..."])).expect("resolves");
    assert_eq!(r.segments, segs(&["..a", "a..", "..."]));
}
