use wololo::device::{Device, DeviceName};
use wololo::repository::file::{FileRepository, FileRepositoryError};
use wololo::repository::{DeleteError, DeviceRepository, InsertError};

fn device(name: &str, mac: &str) -> Device {
    Device::try_from((name, mac)).unwrap()
}

fn temp_store() -> (tempfile::TempDir, String) {
    let dir = tempfile::TempDir::new().unwrap();
    let path = format!("{}/devices.txt", dir.path().to_str().unwrap());
    (dir, path)
}

#[test]
fn successful_mutations_survive_reopening() {
    let (_dir, path) = temp_store();
    let mut repo = FileRepository::try_new(path.clone(), "").unwrap();
    repo.insert(device("pc1", "00:01:02:03:04:05")).unwrap();
    repo.insert(device("pc2", "aa:bb:cc:dd:ee:ff")).unwrap();
    repo.delete(&DeviceName::try_from("pc1").unwrap()).unwrap();

    let content = fs_err::read_to_string(&path).unwrap();
    let reopened = FileRepository::try_new(path.clone(), &content).unwrap();
    let all = reopened.fetch_all().unwrap();
    assert_eq!(all.len(), 1);
    assert_eq!(all[0].name.as_ref(), "pc2");
    assert_eq!(all[0].mac.to_string(), "aa:bb:cc:dd:ee:ff");
}

#[test]
fn reopening_preserves_order_and_canonical_addresses() {
    let (_dir, path) = temp_store();
    let mut repo = FileRepository::try_new(path.clone(), "").unwrap();
    repo.insert(device("pc1", "00-01-02-03-04-05")).unwrap();
    repo.insert(device("pc2", "AA:BB:CC:DD:EE:FF")).unwrap();

    let content = fs_err::read_to_string(&path).unwrap();
    assert_eq!(content, "pc1 00:01:02:03:04:05\npc2 aa:bb:cc:dd:ee:ff\n");
    let reopened = FileRepository::try_new(path, &content).unwrap();
    let all = reopened.fetch_all().unwrap();
    let names: Vec<&str> = all.iter().map(|d| d.name.as_ref()).collect();
    assert_eq!(names, vec!["pc1", "pc2"]);
}

#[test]
fn conflicting_insert_leaves_the_file_byte_for_byte_unchanged() {
    let (_dir, path) = temp_store();
    let mut repo = FileRepository::try_new(path.clone(), "").unwrap();
    repo.insert(device("pc1", "00:01:02:03:04:05")).unwrap();
    let before = fs_err::read(&path).unwrap();
    assert_eq!(
        repo.insert(device("pc1", "aa:bb:cc:dd:ee:ff")),
        Err(InsertError::Conflict)
    );
    let after = fs_err::read(&path).unwrap();
    assert_eq!(before, after);
}

#[test]
fn failed_replacement_rolls_the_insert_back() {
    let (_dir, path) = temp_store();
    let missing = format!("{}/missing/devices.txt", path);
    let mut repo = FileRepository::try_new(missing, "pc1 00:01:02:03:04:05\n").unwrap();
    let r = repo.insert(device("pc2", "aa:bb:cc:dd:ee:ff"));
    assert_eq!(r, Err(InsertError::Other));
    let all = repo.fetch_all().unwrap();
    assert_eq!(all.len(), 1);
    assert_eq!(all[0].name.as_ref(), "pc1");
}

#[test]
fn failed_replacement_rolls_the_delete_back() {
    let (_dir, path) = temp_store();
    let missing = format!("{}/missing/devices.txt", path);
    let content = "pc1 00:01:02:03:04:05\npc2 aa:bb:cc:dd:ee:ff\n";
    let mut repo = FileRepository::try_new(missing, content).unwrap();
    let r = repo.delete(&DeviceName::try_from("pc1").unwrap());
    assert_eq!(r, Err(DeleteError::Other));
    let all = repo.fetch_all().unwrap();
    assert_eq!(all.len(), 2);
    assert_eq!(all[0].name.as_ref(), "pc1");
    assert_eq!(all[1].name.as_ref(), "pc2");
}

#[test]
fn opening_accepts_an_empty_file() {
    let (_dir, path) = temp_store();
    let repo = FileRepository::try_new(path, "").unwrap();
    assert!(repo.fetch_all().is_none());
}

#[test]
fn opening_rejects_malformed_content() {
    let (_dir, path) = temp_store();
    assert_eq!(
        FileRepository::try_new(path.clone(), "not a record list").err(),
        Some(FileRepositoryError::DeserializeError)
    );
    assert_eq!(
        FileRepository::try_new(path.clone(), "pc1 00:01:02\n").err(),
        Some(FileRepositoryError::DeserializeError)
    );
    assert_eq!(
        FileRepository::try_new(path.clone(), "pc1 00:01:02:03:04:05").err(),
        Some(FileRepositoryError::DeserializeError)
    );
    assert_eq!(
        FileRepository::try_new(path, "pc-1 00:01:02:03:04:05\n").err(),
        Some(FileRepositoryError::DeserializeError)
    );
}

#[test]
fn opening_rejects_duplicate_names() {
    let (_dir, path) = temp_store();
    let content = "pc1 00:01:02:03:04:05\npc1 aa:bb:cc:dd:ee:ff\n";
    assert_eq!(
        FileRepository::try_new(path, content).err(),
        Some(FileRepositoryError::DeserializeError)
    );
}

#[test]
fn shared_handle_reads_the_loaded_records() {
    let (_dir, path) = temp_store();
    let repo = FileRepository::try_new_shared(path, "pc1 00:01:02:03:04:05\n").unwrap();
    let fetched = repo.fetch_by_name(&DeviceName::try_from("pc1").unwrap()).unwrap();
    assert_eq!(fetched.mac.to_string(), "00:01:02:03:04:05");
}
