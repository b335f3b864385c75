use never_notes::notes::{FileEntry, NoteProvider, is_note_file_name};

fn entry(name: &str, content: &str) -> FileEntry {
    FileEntry { name: name.to_string(), content: content.to_string() }
}

#[test]
fn note_names_end_in_txt_or_md() {
    assert!(is_note_file_name("todo.txt"));
    assert!(is_note_file_name("readme.md"));
    assert!(is_note_file_name(".md"));
    assert!(!is_note_file_name("md"));
    assert!(!is_note_file_name("picture.png"));
    assert!(!is_note_file_name("notes.txt.bak"));
    assert!(!is_note_file_name(""));
}

#[test]
fn get_notes_keeps_only_note_files_in_order() {
    let provider = NoteProvider { note_folder: "./notes".to_string() };
    let files = vec![
        entry("a.txt", "alpha"),
        entry("skip.png", "binary"),
        entry("b.md", "beta"),
        entry("c", "gamma"),
        entry("d.txt", "delta"),
    ];
    let notes = provider.get_notes(&files);
    let got: Vec<(String, String)> =
        notes.into_iter().map(|n| (n.name, n.content)).collect();
    assert_eq!(
        got,
        vec![
            ("a.txt".to_string(), "alpha".to_string()),
            ("b.md".to_string(), "beta".to_string()),
            ("d.txt".to_string(), "delta".to_string()),
        ]
    );
}

#[test]
fn get_notes_of_nothing_is_empty() {
    let provider = NoteProvider { note_folder: "somewhere".to_string() };
    let notes = provider.get_notes(&Vec::new());
    assert!(notes.is_empty());
}
