use bloom_core::files::File;

fn file_with(id: u128, name: &str) -> File {
    let now = chrono::Utc::now().timestamp_millis();
    File {
        id,
        created_at: now,
        updated_at: now,
        name: name.to_string(),
        size: 0,
        file_type: String::new(),
        explicitly_trashed: false,
        trashed_at: None,
        namespace_id: None,
        parent_id: None,
    }
}

#[test]
fn file_storage_key() {
    let id = "c2ae4298-48a2-478b-a9f2-5eef5d9b54cd".parse::<uuid::Uuid>().unwrap();
    let expected_storage_key = "/files/c2ae/c2ae4298-48a2-478b-a9f2-5eef5d9b54cd".to_string();
    let file = file_with(id.as_u128(), "");
    assert_eq!(file.storage_key(), expected_storage_key);
}

#[test]
fn root_file_is_recognised() {
    assert!(file_with(1, "__bloom_root").is_root());
    assert!(!file_with(1, "notes.txt").is_root());
    assert!(!file_with(1, "").is_root());
}
