use extusage::classify::{dotted_key, extension_part, get_extension};

#[test]
fn classify_last_extension_lowercased() {
    assert_eq!(get_extension("report.TAR.GZ"), ".gz");
}

#[test]
fn classify_no_dot() {
    assert_eq!(get_extension("Makefile"), "[no extension]");
}

#[test]
fn classify_dotfile() {
    assert_eq!(get_extension(".gitignore"), "[no extension]");
}

#[test]
fn classify_case_collapses() {
    assert_eq!(get_extension("photo.JPG"), get_extension("other.jpg"));
    assert_eq!(get_extension("photo.JPG"), ".jpg");
}

#[test]
fn classify_dotfile_with_extension() {
    assert_eq!(get_extension(".bashrc.bak"), ".bak");
}

#[test]
fn classify_trailing_dot_is_empty_extension() {
    assert_eq!(get_extension("notes."), ".");
}

#[test]
fn classify_dot_dot_has_none() {
    assert_eq!(get_extension(".."), "[no extension]");
}

#[test]
fn classify_non_ascii() {
    assert_eq!(get_extension("Ünïcode.ÄBC"), ".äbc");
}

#[test]
fn extension_part_cases() {
    assert_eq!(extension_part("a.b.c"), Some("c"));
    assert_eq!(extension_part("abc"), None);
    assert_eq!(extension_part(".abc"), None);
    assert_eq!(extension_part("x.Y"), Some("Y"));
    assert_eq!(extension_part(""), None);
    assert_eq!(extension_part("."), None);
}

#[test]
fn dotted_key_prefixes_dot() {
    assert_eq!(dotted_key("rs"), ".rs");
    assert_eq!(dotted_key(""), ".");
}
