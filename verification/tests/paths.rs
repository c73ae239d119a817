//! The asset-path safety layer: validation, extension forcing, unique
//! names, and the discovery registry.

use han_ed::asset::{
    commit_path_edit, to_portable, unique_path, validate_path, with_extension, AssetPaths,
    PathError,
};

fn b(s: &str) -> Vec<u8> {
    s.as_bytes().to_vec()
}

#[test]
fn escaping_the_root_is_rejected() {
    let r = validate_path(&b("../../etc/passwd"), &b("han"), &b("/home/artist/assets"));
    assert_eq!(r, Err(PathError::OutsideRoot));
    let r = validate_path(&b("../../etc/passwd"), &b("han"), &b("/assets"));
    assert_eq!(r, Err(PathError::OutsideRoot));
}

#[test]
fn plain_name_gets_the_extension() {
    let r = validate_path(&b("foo"), &b("han"), &b("/assets"));
    assert_eq!(r, Ok(b("foo.han")));
}

#[test]
fn differing_extension_is_forced() {
    let r = validate_path(&b("foo.txt"), &b("han"), &b("/assets"));
    assert_eq!(r, Ok(b("foo.han")));
}

#[test]
fn matching_extension_is_kept() {
    let r = validate_path(&b("sub/foo.han"), &b("han"), &b("/assets"));
    assert_eq!(r, Ok(b("sub/foo.han")));
}

#[test]
fn dot_segments_resolve_inside_the_root() {
    let r = validate_path(&b("sub/../foo"), &b("han"), &b("/assets"));
    assert_eq!(r, Ok(b("foo.han")));
    let r = validate_path(&b("./foo"), &b("han"), &b("/assets"));
    assert_eq!(r, Ok(b("foo.han")));
}

#[test]
fn absolute_path_inside_the_root_is_relativized() {
    let r = validate_path(&b("/assets/sub/foo"), &b("han"), &b("/assets"));
    assert_eq!(r, Ok(b("sub/foo.han")));
    let r = validate_path(&b("/elsewhere/foo"), &b("han"), &b("/assets"));
    assert_eq!(r, Err(PathError::OutsideRoot));
}

#[test]
fn empty_input_is_rejected() {
    let r = validate_path(&b(""), &b("han"), &b("/assets"));
    assert_eq!(r, Err(PathError::EmptyPath));
}

#[test]
fn input_without_a_file_name_is_rejected() {
    assert_eq!(validate_path(&b(".."), &b("han"), &b("/assets")), Err(PathError::NoFileName));
    assert_eq!(validate_path(&b("a/.."), &b("han"), &b("/assets")), Err(PathError::NoFileName));
    assert_eq!(validate_path(&b("."), &b("han"), &b("/assets")), Err(PathError::NoFileName));
    assert_eq!(validate_path(&b("/"), &b("han"), &b("/assets")), Err(PathError::NoFileName));
}

#[test]
fn with_extension_cases() {
    assert_eq!(with_extension(&b("a/b/c"), &b("han")), b("a/b/c.han"));
    assert_eq!(with_extension(&b("a/b/c.txt"), &b("han")), b("a/b/c.han"));
    assert_eq!(with_extension(&b("a/b/c.han"), &b("han")), b("a/b/c.han"));
    assert_eq!(with_extension(&b(".hidden"), &b("han")), b(".hidden.han"));
    assert_eq!(with_extension(&b("x.tar.gz"), &b("han")), b("x.tar.han"));
}

#[test]
fn unique_path_returns_free_candidate_unchanged() {
    let existing = vec![b("other.han")];
    let r = unique_path(&b("name.han"), &b("han"), &existing);
    assert_eq!(r, Ok(b("name.han")));
}

#[test]
fn unique_path_probes_numbered_variants() {
    let existing = vec![b("name.han"), b("name1.han")];
    let r = unique_path(&b("name.han"), &b("han"), &existing);
    assert_eq!(r, Ok(b("name2.han")));
}

#[test]
fn unique_path_keeps_the_directory() {
    let existing = vec![b("sub/name.han")];
    let r = unique_path(&b("sub/name.han"), &b("han"), &existing);
    assert_eq!(r, Ok(b("sub/name1.han")));
}

#[test]
fn unique_path_exhausts_after_sixty_four_probes() {
    let mut existing = vec![b("name.han")];
    for i in 1..=64 {
        existing.push(b(&format!("name{}.han", i)));
    }
    let r = unique_path(&b("name.han"), &b("han"), &existing);
    assert_eq!(r, Err(PathError::Exhausted));
}

#[test]
fn commit_path_edit_accepts_valid_revisions() {
    let mut path = b("old.han");
    let r = commit_path_edit(&mut path, &b("new"), &b("han"), &b("/assets"));
    assert!(r.is_ok());
    assert_eq!(path, b("new.han"));
}

#[test]
fn commit_path_edit_keeps_the_previous_path_on_rejection() {
    let mut path = b("old.han");
    let r = commit_path_edit(&mut path, &b("../escape"), &b("han"), &b("/assets"));
    assert_eq!(r, Err(PathError::OutsideRoot));
    assert_eq!(path, b("old.han"));
}

#[test]
fn registry_strips_the_root_and_skips_outsiders() {
    let discovered = vec![
        b("/assets/a.han"),
        b("/assets/sub/b.han"),
        b("/elsewhere/c.han"),
        b("/assets"),
    ];
    let reg = AssetPaths::new(b("/assets"), b("han"), discovered);
    assert_eq!(reg.len(), 2);
    assert_eq!(reg.entry(0).path, b("a.han"));
    assert_eq!(reg.entry(1).path, b("sub/b.han"));
    assert_eq!(reg.entry(0).handle, None);
    assert!(reg.entry(0).saved);
}

#[test]
fn registry_tracks_loads_and_saves() {
    let reg_paths = vec![b("/assets/a.han")];
    let mut reg = AssetPaths::new(b("/assets"), b("han"), reg_paths);
    reg.set_handle(0, 41);
    assert_eq!(reg.entry(0).handle, Some(41));
    reg.set_saved(0, false);
    assert!(!reg.entry(0).saved);
    reg.set_saved(0, true);
    assert!(reg.entry(0).saved);
}

#[test]
fn portable_form_passes_through_unchanged() {
    assert_eq!(to_portable(&b("images/plus.png")), Some(b("images/plus.png")));
}

#[test]
fn absolute_paths_are_not_portable() {
    assert_eq!(to_portable(&b("/images/plus.png")), None);
}

#[test]
fn dot_segments_are_dropped_in_portable_form() {
    // The portable re-encoding strips "stay here" segments: the result must
    // differ from the input.
    assert_eq!(to_portable(&b("images/./plus.png")), Some(b("images/plus.png")));
}
