use adept::companion::is_license_file;

#[test]
fn is_license_file_matches_bare_license_names() {
    assert!(is_license_file("LICENSE"));
    assert!(is_license_file("LICENSE.txt"));
    assert!(is_license_file("license.md"));
    assert!(is_license_file("COPYING"));
    assert!(is_license_file("LICENSE-APACHE"));
}

#[test]
fn is_license_file_rejects_lookalikes() {
    assert!(!is_license_file("reference.md"));
    assert!(!is_license_file("licenses.md"));
    assert!(!is_license_file("my-license-guide.md"));
}

#[test]
fn license_spellings_and_copyright_notices_are_license_files() {
    assert!(is_license_file("LICENCE"));
    assert!(is_license_file("licence-mit.txt"));
    assert!(is_license_file("COPYRIGHT"));
    assert!(is_license_file("License.MD"));
}

#[test]
fn names_that_only_start_like_a_license_are_not_license_files() {
    assert!(!is_license_file("licensed.md"));
    assert!(!is_license_file("copying-guide.md"));
    assert!(!is_license_file(""));
}
