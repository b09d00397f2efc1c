use rudu::data::{EntryType, FileEntry};

#[test]
fn test_file_entry_creation() {
    let entry = FileEntry {
        path: String::from("/test/file.txt"),
        size: 1024,
        owner: Some("user".to_string()),
        inodes: None,
        entry_type: EntryType::File,
    };

    assert_eq!(entry.size, 1024);
    assert_eq!(entry.owner, Some("user".to_string()));
    assert_eq!(entry.entry_type, EntryType::File);
    assert_eq!(entry.entry_type.as_str(), "FILE");
}

#[test]
fn test_entry_type_as_str() {
    assert_eq!(EntryType::File.as_str(), "FILE");
    assert_eq!(EntryType::Dir.as_str(), "DIR");
}
