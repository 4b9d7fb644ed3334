//! The volatile backend: the record sequence alone, with no persistence.

use vstd::prelude::*;
use std::sync::Arc;
use crate::device::{seq_models, Device, DeviceName, DeviceRecord, MacAddress};
use crate::repository::{
    clone_devices, contains_name, lemma_find_mac_at, lemma_find_mac_none, lemma_find_name_at,
    lemma_find_name_none, lemma_remove_name_at, lemma_unique_push, lemma_unique_remove,
    position_by_mac, position_by_name, unique_names, DeleteError, DeviceRepository, InsertError,
};

verus! {

/// The in-memory repository: an owned record sequence. Exclusive access
/// comes from holding the instance (or a `&mut` borrow of it); no
/// operation touches anything outside memory, so none can fail for any
/// reason beyond the logical ones.
pub struct InMemoryDeviceRepository {
    devices: Vec<Device>,
}

impl InMemoryDeviceRepository {
    #[verifier::type_invariant]
    spec fn inv(self) -> bool {
        unique_names(seq_models(self.devices@))
    }

    /// An empty repository.
    pub fn new() -> (r: Self)
        ensures
            r.records() == Seq::<DeviceRecord>::empty(),
    {
        let r = InMemoryDeviceRepository { devices: Vec::new() };
        proof {
            assert(seq_models(r.devices@) =~= Seq::<DeviceRecord>::empty());
        }
        r
    }

    /// A shared handle on an empty repository, for read-only use.
    pub fn new_shared() -> (r: Arc<InMemoryDeviceRepository>)
        ensures
            r.records() == Seq::<DeviceRecord>::empty(),
    {
        Arc::new(Self::new())
    }
}

impl DeviceRepository for InMemoryDeviceRepository {
    closed spec fn records(&self) -> Seq<DeviceRecord> {
        seq_models(self.devices@)
    }

    open spec fn persistent(&self) -> bool {
        false
    }

    fn insert(&mut self, device: Device) -> (r: Result<(), InsertError>) {
        proof {
            use_type_invariant(&*self);
        }
        let ghost before = seq_models(self.devices@);
        match position_by_name(&self.devices, &device.name) {
            Some(_) => Err(InsertError::Conflict),
            None => {
                let mut ds: Vec<Device> = Vec::new();
                core::mem::swap(&mut self.devices, &mut ds);
                ds.push(device);
                proof {
                    assert(seq_models(ds@) =~= before.push(device@));
                    lemma_unique_push(before, device@);
                    assert(seq_models(Seq::<Device>::empty()) =~= Seq::<DeviceRecord>::empty());
                }
                self.devices = ds;
                Ok(())
            },
        }
    }

    fn delete(&mut self, name: &DeviceName) -> (r: Result<(), DeleteError>) {
        proof {
            use_type_invariant(&*self);
        }
        let ghost before = seq_models(self.devices@);
        match position_by_name(&self.devices, name) {
            Some(k) => {
                let mut ds: Vec<Device> = Vec::new();
                core::mem::swap(&mut self.devices, &mut ds);
                ds.remove(k);
                proof {
                    assert(seq_models(ds@) =~= before.remove(k as int));
                    lemma_remove_name_at(before, name@, k as int);
                    lemma_unique_remove(before, k as int);
                    assert(seq_models(Seq::<Device>::empty()) =~= Seq::<DeviceRecord>::empty());
                }
                self.devices = ds;
                Ok(())
            },
            None => {
                proof {
                    assert(!contains_name(before, name@));
                }
                Err(DeleteError::NotFound)
            },
        }
    }

    fn fetch_by_name(&self, name: &DeviceName) -> (r: Option<Device>) {
        match position_by_name(&self.devices, name) {
            Some(k) => {
                proof {
                    lemma_find_name_at(self.records(), name@, k as int);
                }
                Some(self.devices[k].clone())
            },
            None => {
                proof {
                    lemma_find_name_none(self.records(), name@);
                }
                None
            },
        }
    }

    fn fetch_by_mac(&self, mac: &MacAddress) -> (r: Option<Device>) {
        match position_by_mac(&self.devices, mac) {
            Some(k) => {
                proof {
                    lemma_find_mac_at(self.records(), mac@, k as int);
                }
                Some(self.devices[k].clone())
            },
            None => {
                proof {
                    lemma_find_mac_none(self.records(), mac@);
                }
                None
            },
        }
    }

    fn fetch_all(&self) -> (r: Option<Vec<Device>>) {
        if self.devices.len() == 0 {
            None
        } else {
            Some(clone_devices(&self.devices))
        }
    }
}

} // verus!

