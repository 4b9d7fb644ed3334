use wololo::device::Device;
use wololo::mac::MacAddress;
use wololo::repository::inmemory::InMemoryDeviceRepository;
use wololo::repository::{DeleteError, DeviceRepository, InsertError};

fn device(name: &str, mac: &str) -> Device {
    Device::try_from((name, mac)).unwrap()
}

#[test]
fn insert_then_fetch_by_name_returns_the_same_device() {
    let mut repo = InMemoryDeviceRepository::new();
    let d = device("pc1", "00:01:02:03:04:05");
    repo.insert(d.clone()).unwrap();
    let fetched = repo.fetch_by_name(&d.name).unwrap();
    assert_eq!(fetched, d);
}

#[test]
fn insert_of_taken_name_fails_with_conflict_and_changes_nothing() {
    let mut repo = InMemoryDeviceRepository::new();
    repo.insert(device("pc1", "00:01:02:03:04:05")).unwrap();
    let r = repo.insert(device("pc1", "aa:bb:cc:dd:ee:ff"));
    assert_eq!(r, Err(InsertError::Conflict));
    let all = repo.fetch_all().unwrap();
    assert_eq!(all.len(), 1);
    assert_eq!(all[0].mac.to_string(), "00:01:02:03:04:05");
}

#[test]
fn delete_of_missing_name_fails_with_not_found_and_changes_nothing() {
    let mut repo = InMemoryDeviceRepository::new();
    repo.insert(device("pc1", "00:01:02:03:04:05")).unwrap();
    let ghostname = wololo::device::DeviceName::try_from("pc2").unwrap();
    assert_eq!(repo.delete(&ghostname), Err(DeleteError::NotFound));
    assert_eq!(repo.fetch_all().unwrap().len(), 1);
}

#[test]
fn scenario_insert_conflict_fetch_delete_empty() {
    let mut repo = InMemoryDeviceRepository::new();
    let first = device("pc1", "00:01:02:03:04:05");
    assert!(repo.insert(first.clone()).is_ok());
    assert_eq!(
        repo.insert(device("pc1", "aa:bb:cc:dd:ee:ff")),
        Err(InsertError::Conflict)
    );
    let fetched = repo.fetch_by_name(&first.name).unwrap();
    assert_eq!(fetched.mac.to_string(), "00:01:02:03:04:05");
    assert!(repo.delete(&first.name).is_ok());
    assert!(repo.fetch_all().is_none());
}

#[test]
fn fetch_by_mac_finds_the_matching_device() {
    let mut repo = InMemoryDeviceRepository::new();
    repo.insert(device("pc1", "00:01:02:03:04:05")).unwrap();
    repo.insert(device("pc2", "aa:bb:cc:dd:ee:ff")).unwrap();
    let mac = MacAddress::try_from("AA-BB-CC-DD-EE-FF").unwrap();
    let fetched = repo.fetch_by_mac(&mac).unwrap();
    assert_eq!(fetched.name.as_ref(), "pc2");
    let missing = MacAddress::try_from("11:11:11:11:11:11").unwrap();
    assert!(repo.fetch_by_mac(&missing).is_none());
}

#[test]
fn fetch_all_keeps_insertion_order() {
    let mut repo = InMemoryDeviceRepository::new();
    repo.insert(device("pc1", "00:01:02:03:04:05")).unwrap();
    repo.insert(device("pc2", "aa:bb:cc:dd:ee:ff")).unwrap();
    repo.insert(device("pc3", "11:11:11:11:11:11")).unwrap();
    let all = repo.fetch_all().unwrap();
    let names: Vec<&str> = all.iter().map(|d| d.name.as_ref()).collect();
    assert_eq!(names, vec!["pc1", "pc2", "pc3"]);
}

#[test]
fn fetch_all_of_empty_repository_is_the_empty_sentinel() {
    let repo = InMemoryDeviceRepository::new();
    assert!(repo.fetch_all().is_none());
}

#[test]
fn error_texts_match_their_meaning() {
    assert_eq!(
        InsertError::Conflict.message(),
        "Device already exists in repository"
    );
    assert_eq!(
        InsertError::Other.message(),
        "Unknown error while adding device to repository"
    );
    assert_eq!(
        DeleteError::NotFound.message(),
        "Device not found in repository"
    );
    assert_eq!(
        DeleteError::Other.message(),
        "Unknown error while deleting device from repository"
    );
}
