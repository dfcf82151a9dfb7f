use game_sl::archive::{archive_tree, entry_name, read_archive, ExtractedEntry, TreeEntry};

fn node(path: &str, is_dir: bool, data: &[u8]) -> TreeEntry {
    TreeEntry { path: path.to_string(), is_dir, data: data.to_vec() }
}

fn find<'a>(entries: &'a [ExtractedEntry], components: &[&str]) -> &'a ExtractedEntry {
    entries
        .iter()
        .find(|e| {
            e.components.len() == components.len()
                && e.components.iter().zip(components.iter()).all(|(a, b)| a == b)
        })
        .expect("entry present")
}

#[test]
fn entry_names_use_slashes_and_mark_directories() {
    assert_eq!(entry_name("saves\\slot1\\world.dat", false), "saves/slot1/world.dat");
    assert_eq!(entry_name("saves\\empty", true), "saves/empty/");
    assert_eq!(entry_name("saves/already/", true), "saves/already/");
}

#[test]
fn a_tree_survives_the_package_round_trip() {
    let tree = vec![
        node("", true, b""),
        node("saves", true, b""),
        node("saves\\slot1", true, b""),
        node("saves\\slot1\\world.dat", false, b"world bytes"),
        node("saves\\empty-dir", true, b""),
        node("readme.txt", false, b"hello"),
    ];
    let bytes = archive_tree(&tree).expect("package built");
    let back = read_archive(bytes).expect("package read");
    // the root is skipped; every other node is present
    assert_eq!(back.len(), 5);
    let world = find(&back, &["saves", "slot1", "world.dat"]);
    assert!(!world.is_dir);
    assert_eq!(world.data, b"world bytes");
    let empty = find(&back, &["saves", "empty-dir"]);
    assert!(empty.is_dir);
    assert_eq!(empty.data, b"");
    let readme = find(&back, &["readme.txt"]);
    assert_eq!(readme.data, b"hello");
}

#[test]
fn an_empty_tree_round_trips_to_no_entries() {
    let bytes = archive_tree(&vec![]).expect("package built");
    let back = read_archive(bytes).expect("package read");
    assert_eq!(back.len(), 0);
}

#[test]
fn garbage_bytes_are_rejected() {
    assert!(read_archive(vec![1, 2, 3, 4]).is_err());
    assert_eq!(
        read_archive(vec![]).err().map(|e| e.kind),
        Some(game_sl::ErrorKind::IoFailure)
    );
}

#[test]
fn hostile_entry_names_cannot_escape_the_destination() {
    // a package written directly through the zip crate, with names the
    // archiver itself would never produce
    let mut w = zip::ZipWriter::new(std::io::Cursor::new(Vec::new()));
    let options = zip::write::SimpleFileOptions::default();
    w.start_file("../evil.txt", options).unwrap();
    std::io::Write::write_all(&mut w, b"boom").unwrap();
    w.start_file("nested/../../evil2.txt", options).unwrap();
    std::io::Write::write_all(&mut w, b"boom").unwrap();
    w.start_file("/etc/shadow", options).unwrap();
    std::io::Write::write_all(&mut w, b"boom").unwrap();
    w.start_file("./ok/./file.txt", options).unwrap();
    std::io::Write::write_all(&mut w, b"fine").unwrap();
    let bytes = w.finish().unwrap().into_inner();

    let back = read_archive(bytes).expect("package read");
    for entry in &back {
        for c in &entry.components {
            assert!(!c.is_empty());
            assert_ne!(c, "..");
            assert_ne!(c, ".");
            assert!(!c.contains('/'));
            assert!(!c.contains('\\'));
            assert!(!c.contains(':'));
        }
    }
    // the traversal attempts are dropped; the benign name survives cleaned
    assert_eq!(back.len(), 2);
    assert_eq!(find(&back, &["etc", "shadow"]).data, b"boom");
    assert_eq!(find(&back, &["ok", "file.txt"]).data, b"fine");
}
