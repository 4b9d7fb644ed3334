//! The file-backed backend: the same record sequence, mirrored to a file
//! by rewriting the whole stored text and atomically replacing the
//! target. A mutation is reported successful only after the replacement
//! succeeded; when it fails, the in-memory sequence is rolled back, so
//! memory and disk always agree.

use vstd::prelude::*;
use std::sync::Arc;
use crate::codec::{
    decode_devices, decode_records, encodable, encode_devices, lemma_decode_encodable,
};
use crate::device::{seq_models, Device, DeviceName, DeviceRecord, MacAddress};
use crate::mac::lemma_mac_address_len;
use crate::repository::{
    contains_name, lemma_find_mac_at, lemma_find_mac_none, lemma_find_name_at,
    clone_devices, lemma_find_name_none, lemma_remove_name_at, lemma_unique_push,
    lemma_unique_remove, names_unique, position_by_mac, position_by_name, unique_names,
    DeleteError, DeviceRepository, InsertError,
};

verus! {

/// Why opening a file-backed repository failed.
#[derive(Debug, PartialEq, Eq, Structural, Clone, Copy)]
pub enum FileRepositoryError {
    /// The content is not a well-formed record list with unique names.
    DeserializeError,
    /// The backing file could not be read.
    FileError,
}

/// The handle of one fresh temporary file. The held `NamedTempFile`
/// cannot be declared to the verifier, since its type names the standard
/// file handle, so the whole struct is opaque.
#[verifier::external_body]
struct TempHandle {
    file: tempfile::NamedTempFile,
}

/// Relies on tempfile::NamedTempFile::new_in: the handle names a fresh
/// temporary file, created in the directory that holds the target path
/// so that the later replacement is a same-filesystem rename.
#[verifier::external_body]
fn create_temp_beside(path: &str) -> (r: Result<TempHandle, ()>) {
    let dir = match std::path::Path::new(path).parent() {
        Some(d) if !d.as_os_str().is_empty() => d,
        _ => std::path::Path::new("."),
    };
    match tempfile::NamedTempFile::new_in(dir) {
        Ok(file) => Ok(TempHandle { file }),
        Err(_) => Err(()),
    }
}

/// Relies on std::io::Write::write_all for the temporary file: on
/// success the whole byte string stands in it.
#[verifier::external_body]
fn write_temp(tmp: &mut TempHandle, text: &str) -> (r: Result<(), ()>) {
    match std::io::Write::write_all(&mut tmp.file, text.as_bytes()) {
        Ok(()) => Ok(()),
        Err(_) => Err(()),
    }
}

/// Relies on tempfile::NamedTempFile::persist: on success the temporary
/// file has replaced the file at the target path in one atomic rename,
/// so a reader of that path sees either the old content or the new,
/// never a mixture.
#[verifier::external_body]
fn persist_temp(tmp: TempHandle, path: &str) -> (r: Result<(), ()>) {
    match tmp.file.persist(path) {
        Ok(_) => Ok(()),
        Err(_) => Err(()),
    }
}

/// Writes the text to a fresh temporary file beside the target, then
/// atomically replaces the target with it.
fn write_atomic(path: &str, text: &str) -> (r: Result<(), ()>) {
    let mut tmp = match create_temp_beside(path) {
        Ok(f) => f,
        Err(()) => {
            return Err(());
        },
    };
    match write_temp(&mut tmp, text) {
        Ok(()) => persist_temp(tmp, path),
        Err(()) => Err(()),
    }
}

/// The durable repository: the record sequence, mirrored to the file at
/// the path given at construction. Reads never touch the disk; every
/// successful mutation has already replaced the file.
pub struct FileRepository {
    path: String,
    devices: Vec<Device>,
}

impl FileRepository {
    #[verifier::type_invariant]
    spec fn inv(self) -> bool {
        unique_names(seq_models(self.devices@)) && forall|k: int|
            0 <= k < self.devices@.len() ==> encodable(#[trigger] seq_models(self.devices@)[k])
    }

    /// Builds the repository over the file at `path`, whose current
    /// content is `content`: the full record list is loaded up front,
    /// and content that is not a record list with unique names is
    /// refused whole.
    pub fn try_new(path: String, content: &str) -> (r: Result<FileRepository, FileRepositoryError>)
        ensures
            match r {
                Ok(repo) => decode_records(content@) == Some(repo.records()) && unique_names(
                    repo.records(),
                ),
                Err(FileRepositoryError::DeserializeError) => match decode_records(content@) {
                    Some(rs) => !unique_names(rs),
                    None => true,
                },
                Err(FileRepositoryError::FileError) => false,
            },
    {
        let devices = match decode_devices(content) {
            Some(v) => v,
            None => {
                return Err(FileRepositoryError::DeserializeError);
            },
        };
        if !names_unique(&devices) {
            return Err(FileRepositoryError::DeserializeError);
        }
        proof {
            lemma_decode_encodable(content@, seq_models(devices@));
        }
        Ok(FileRepository { path, devices })
    }

    /// A shared handle on the repository, for read-only use.
    pub fn try_new_shared(path: String, content: &str) -> (r: Result<
        Arc<FileRepository>,
        FileRepositoryError,
    >)
        ensures
            match r {
                Ok(repo) => decode_records(content@) == Some(repo.records()) && unique_names(
                    repo.records(),
                ),
                Err(FileRepositoryError::DeserializeError) => match decode_records(content@) {
                    Some(rs) => !unique_names(rs),
                    None => true,
                },
                Err(FileRepositoryError::FileError) => false,
            },
    {
        match Self::try_new(path, content) {
            Ok(repo) => Ok(Arc::new(repo)),
            Err(e) => Err(e),
        }
    }
}

impl DeviceRepository for FileRepository {
    closed spec fn records(&self) -> Seq<DeviceRecord> {
        seq_models(self.devices@)
    }

    open spec fn persistent(&self) -> bool {
        true
    }

    fn insert(&mut self, device: Device) -> (r: Result<(), InsertError>) {
        proof {
            use_type_invariant(&*self);
        }
        let ghost before = seq_models(self.devices@);
        match position_by_name(&self.devices, &device.name) {
            Some(_) => Err(InsertError::Conflict),
            None => {
                proof {
                    use_type_invariant(&device.name);
                    lemma_mac_address_len(&device.mac);
                    lemma_unique_push(before, device@);
                }
                let ghost dm = device@;
                let mut ds: Vec<Device> = Vec::new();
                core::mem::swap(&mut self.devices, &mut ds);
                proof {
                    assert(seq_models(self.devices@) =~= Seq::<DeviceRecord>::empty());
                }
                ds.push(device);
                proof {
                    assert(seq_models(ds@) =~= before.push(dm));
                }
                let text = encode_devices(&ds);
                match write_atomic(self.path.as_str(), text.as_str()) {
                    Ok(()) => {
                        self.devices = ds;
                        Ok(())
                    },
                    Err(()) => {
                        ds.pop();
                        proof {
                            assert(seq_models(ds@) =~= before);
                        }
                        self.devices = ds;
                        Err(InsertError::Other)
                    },
                }
            },
        }
    }

    fn delete(&mut self, name: &DeviceName) -> (r: Result<(), DeleteError>) {
        proof {
            use_type_invariant(&*self);
        }
        let ghost before = seq_models(self.devices@);
        match position_by_name(&self.devices, name) {
            Some(k) => {
                proof {
                    lemma_remove_name_at(before, name@, k as int);
                    lemma_unique_remove(before, k as int);
                }
                let mut ds: Vec<Device> = Vec::new();
                core::mem::swap(&mut self.devices, &mut ds);
                proof {
                    assert(seq_models(self.devices@) =~= Seq::<DeviceRecord>::empty());
                }
                let removed = ds.remove(k);
                proof {
                    assert(seq_models(ds@) =~= before.remove(k as int));
                }
                let text = encode_devices(&ds);
                match write_atomic(self.path.as_str(), text.as_str()) {
                    Ok(()) => {
                        self.devices = ds;
                        Ok(())
                    },
                    Err(()) => {
                        ds.insert(k, removed);
                        proof {
                            assert(seq_models(ds@) =~= before);
                        }
                        self.devices = ds;
                        Err(DeleteError::Other)
                    },
                }
            },
            None => {
                proof {
                    assert(!contains_name(before, name@));
                }
                Err(DeleteError::NotFound)
            },
        }
    }

    fn fetch_by_name(&self, name: &DeviceName) -> (r: Option<Device>) {
        match position_by_name(&self.devices, name) {
            Some(k) => {
                proof {
                    lemma_find_name_at(self.records(), name@, k as int);
                }
                Some(self.devices[k].clone())
            },
            None => {
                proof {
                    lemma_find_name_none(self.records(), name@);
                }
                None
            },
        }
    }

    fn fetch_by_mac(&self, mac: &MacAddress) -> (r: Option<Device>) {
        match position_by_mac(&self.devices, mac) {
            Some(k) => {
                proof {
                    lemma_find_mac_at(self.records(), mac@, k as int);
                }
                Some(self.devices[k].clone())
            },
            None => {
                proof {
                    lemma_find_mac_none(self.records(), mac@);
                }
                None
            },
        }
    }

    fn fetch_all(&self) -> (r: Option<Vec<Device>>) {
        if self.devices.len() == 0 {
            None
        } else {
            Some(clone_devices(&self.devices))
        }
    }
}

} // verus!
