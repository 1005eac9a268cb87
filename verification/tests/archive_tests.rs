use std::io::{Cursor, Write};
use springx::archive::{entry_action, entry_count, find_zip_prefix, open_zip, relative_path, EntryAction};
use zip::write::SimpleFileOptions;
use zip::ZipWriter;

fn make_zip(entries: &[(&str, Option<&str>)]) -> Vec<u8> {
    let mut w = ZipWriter::new(Cursor::new(Vec::new()));
    let opts = SimpleFileOptions::default();
    for (name, data) in entries {
        match data {
            None => w.add_directory(*name, opts).unwrap(),
            Some(d) => {
                w.start_file(*name, opts).unwrap();
                w.write_all(d.as_bytes()).unwrap();
            },
        }
    }
    w.finish().unwrap().into_inner()
}

#[test]
fn archive_with_a_shared_folder() {
    let bytes = make_zip(&[("demo/", None), ("demo/pom.xml", Some("<project/>")), ("demo/src/", None)]);
    let mut a = open_zip(bytes).ok().unwrap();
    assert_eq!(entry_count(&a), 3);
    let prefix = find_zip_prefix(&mut a);
    assert_eq!(prefix.as_deref(), Some("demo/"));
    assert!(matches!(entry_action(&mut a, 0, &prefix), Ok(EntryAction::Skip)));
    match entry_action(&mut a, 1, &prefix) {
        Ok(EntryAction::File(p, d)) => {
            assert_eq!(p, "pom.xml");
            assert_eq!(d, b"<project/>".to_vec());
        },
        _ => panic!("expected a file"),
    }
    match entry_action(&mut a, 2, &prefix) {
        Ok(EntryAction::Dir(p)) => assert_eq!(p, "src/"),
        _ => panic!("expected a folder"),
    }
}

#[test]
fn archive_without_a_shared_folder() {
    let bytes = make_zip(&[("a/x.txt", Some("x")), ("b/y.txt", Some("y"))]);
    let mut a = open_zip(bytes).ok().unwrap();
    let prefix = find_zip_prefix(&mut a);
    assert_eq!(prefix, None);
    match entry_action(&mut a, 1, &prefix) {
        Ok(EntryAction::File(p, d)) => {
            assert_eq!(p, "b/y.txt");
            assert_eq!(d, b"y".to_vec());
        },
        _ => panic!("expected a file"),
    }
    let flat = make_zip(&[("top.txt", Some("t"))]);
    let mut b = open_zip(flat).ok().unwrap();
    assert_eq!(find_zip_prefix(&mut b), None);
}

#[test]
fn bytes_that_are_no_archive() {
    let r = open_zip(b"not a zip".to_vec());
    assert!(r.err().unwrap().starts_with("Failed to open zip: "));
}

#[test]
fn relative_paths_drop_the_shared_folder() {
    let p = Some("demo/".to_string());
    assert_eq!(relative_path("demo/src/Main.java", &p), "src/Main.java");
    assert_eq!(relative_path("other/x", &p), "other/x");
    assert_eq!(relative_path("demo/", &p), "");
    assert_eq!(relative_path("x", &None), "x");
}
