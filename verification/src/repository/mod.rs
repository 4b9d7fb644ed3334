//! The repository contract: an ordered record sequence with insert,
//! delete and three fetch operations, shared by both backends.

pub mod file;
pub mod inmemory;

use vstd::prelude::*;
use crate::device::{lemma_seq_models_push, seq_models, Device, DeviceName, DeviceRecord, MacAddress};

verus! {

/// Why an insert was refused.
#[derive(Debug, PartialEq, Eq, Structural, Clone, Copy)]
pub enum InsertError {
    /// A record with the same name already exists; nothing changed.
    Conflict,
    /// Persisting the grown sequence failed; nothing changed.
    Other,
}

/// Why a delete was refused.
#[derive(Debug, PartialEq, Eq, Structural, Clone, Copy)]
pub enum DeleteError {
    /// No record with that name exists.
    NotFound,
    /// Persisting the shrunk sequence failed; nothing changed.
    Other,
}

impl InsertError {
    /// The text shown for this rejection.
    pub fn message(&self) -> (r: &'static str)
        ensures
            match *self {
                InsertError::Conflict => r@ == "Device already exists in repository"@,
                InsertError::Other => r@ == "Unknown error while adding device to repository"@,
            },
    {
        match *self {
            InsertError::Conflict => "Device already exists in repository",
            InsertError::Other => "Unknown error while adding device to repository",
        }
    }
}

impl DeleteError {
    /// The text shown for this rejection.
    pub fn message(&self) -> (r: &'static str)
        ensures
            match *self {
                DeleteError::NotFound => r@ == "Device not found in repository"@,
                DeleteError::Other => r@ == "Unknown error while deleting device from repository"@,
            },
    {
        match *self {
            DeleteError::NotFound => "Device not found in repository",
            DeleteError::Other => "Unknown error while deleting device from repository",
        }
    }
}

/// Whether some record carries this name.
pub open spec fn contains_name(rs: Seq<DeviceRecord>, name: Seq<char>) -> bool {
    exists|k: int| 0 <= k < rs.len() && #[trigger] rs[k].name == name
}

/// The first record carrying this name, in insertion order.
pub open spec fn find_name(rs: Seq<DeviceRecord>, name: Seq<char>) -> Option<DeviceRecord>
    decreases rs.len(),
{
    if rs.len() == 0 {
        None
    } else if rs[0].name == name {
        Some(rs[0])
    } else {
        find_name(rs.drop_first(), name)
    }
}

/// The first record carrying this hardware address, in insertion order.
pub open spec fn find_mac(rs: Seq<DeviceRecord>, mac: Seq<u8>) -> Option<DeviceRecord>
    decreases rs.len(),
{
    if rs.len() == 0 {
        None
    } else if rs[0].mac == mac {
        Some(rs[0])
    } else {
        find_mac(rs.drop_first(), mac)
    }
}

/// The sequence without the first record carrying this name.
pub open spec fn remove_name(rs: Seq<DeviceRecord>, name: Seq<char>) -> Seq<DeviceRecord>
    decreases rs.len(),
{
    if rs.len() == 0 {
        rs
    } else if rs[0].name == name {
        rs.drop_first()
    } else {
        seq![rs[0]] + remove_name(rs.drop_first(), name)
    }
}

/// The repository invariant: no two records share a name.
pub open spec fn unique_names(rs: Seq<DeviceRecord>) -> bool {
    forall|i: int, j: int| 0 <= i < j < rs.len() ==> (#[trigger] rs[i].name) != (#[trigger] rs[j].name)
}

/// `find_name` finds the record at the first position carrying the name.
pub proof fn lemma_find_name_at(rs: Seq<DeviceRecord>, name: Seq<char>, k: int)
    requires
        0 <= k < rs.len(),
        rs[k].name == name,
        forall|j: int| 0 <= j < k ==> (#[trigger] rs[j].name) != name,
    ensures
        find_name(rs, name) == Some(rs[k]),
    decreases rs.len(),
{
    if k > 0 {
        let t = rs.drop_first();
        assert(t[k - 1] == rs[k]);
        assert forall|j: int| 0 <= j < k - 1 implies (#[trigger] t[j].name) != name by {
            assert(t[j] == rs[j + 1]);
        }
        lemma_find_name_at(t, name, k - 1);
    }
}

/// `find_name` finds nothing when no record carries the name.
pub proof fn lemma_find_name_none(rs: Seq<DeviceRecord>, name: Seq<char>)
    requires
        forall|j: int| 0 <= j < rs.len() ==> (#[trigger] rs[j].name) != name,
    ensures
        find_name(rs, name) is None,
    decreases rs.len(),
{
    if rs.len() > 0 {
        let t = rs.drop_first();
        assert forall|j: int| 0 <= j < t.len() implies (#[trigger] t[j].name) != name by {
            assert(t[j] == rs[j + 1]);
        }
        lemma_find_name_none(t, name);
    }
}

/// `find_mac` finds the record at the first position carrying the
/// address.
pub proof fn lemma_find_mac_at(rs: Seq<DeviceRecord>, mac: Seq<u8>, k: int)
    requires
        0 <= k < rs.len(),
        rs[k].mac == mac,
        forall|j: int| 0 <= j < k ==> (#[trigger] rs[j].mac) != mac,
    ensures
        find_mac(rs, mac) == Some(rs[k]),
    decreases rs.len(),
{
    if k > 0 {
        let t = rs.drop_first();
        assert(t[k - 1] == rs[k]);
        assert forall|j: int| 0 <= j < k - 1 implies (#[trigger] t[j].mac) != mac by {
            assert(t[j] == rs[j + 1]);
        }
        lemma_find_mac_at(t, mac, k - 1);
    }
}

/// `find_mac` finds nothing when no record carries the address.
pub proof fn lemma_find_mac_none(rs: Seq<DeviceRecord>, mac: Seq<u8>)
    requires
        forall|j: int| 0 <= j < rs.len() ==> (#[trigger] rs[j].mac) != mac,
    ensures
        find_mac(rs, mac) is None,
    decreases rs.len(),
{
    if rs.len() > 0 {
        let t = rs.drop_first();
        assert forall|j: int| 0 <= j < t.len() implies (#[trigger] t[j].mac) != mac by {
            assert(t[j] == rs[j + 1]);
        }
        lemma_find_mac_none(t, mac);
    }
}

/// Removing the first record carrying a name is removal at its position.
pub proof fn lemma_remove_name_at(rs: Seq<DeviceRecord>, name: Seq<char>, k: int)
    requires
        0 <= k < rs.len(),
        rs[k].name == name,
        forall|j: int| 0 <= j < k ==> (#[trigger] rs[j].name) != name,
    ensures
        remove_name(rs, name) == rs.remove(k),
    decreases rs.len(),
{
    if k == 0 {
        assert(rs.drop_first() =~= rs.remove(0));
    } else {
        let t = rs.drop_first();
        assert(t[k - 1] == rs[k]);
        assert forall|j: int| 0 <= j < k - 1 implies (#[trigger] t[j].name) != name by {
            assert(t[j] == rs[j + 1]);
        }
        lemma_remove_name_at(t, name, k - 1);
        assert(seq![rs[0]] + t.remove(k - 1) =~= rs.remove(k));
    }
}

/// A grown sequence keeps names unique when the new name is fresh.
pub proof fn lemma_unique_push(rs: Seq<DeviceRecord>, d: DeviceRecord)
    requires
        unique_names(rs),
        !contains_name(rs, d.name),
    ensures
        unique_names(rs.push(d)),
{
    let grown = rs.push(d);
    assert forall|i: int, j: int| 0 <= i < j < grown.len() implies (#[trigger] grown[i].name)
        != (#[trigger] grown[j].name) by {
        if j < rs.len() {
            assert(grown[i] == rs[i] && grown[j] == rs[j]);
        } else {
            assert(grown[i] == rs[i] && grown[j] == d);
        }
    }
}

/// A shrunk sequence keeps names unique.
pub proof fn lemma_unique_remove(rs: Seq<DeviceRecord>, k: int)
    requires
        unique_names(rs),
        0 <= k < rs.len(),
    ensures
        unique_names(rs.remove(k)),
{
    let shrunk = rs.remove(k);
    assert forall|i: int, j: int| 0 <= i < j < shrunk.len() implies (#[trigger] shrunk[i].name)
        != (#[trigger] shrunk[j].name) by {
        let i0: int = if i < k { i } else { i + 1 };
        let j0: int = if j < k { j } else { j + 1 };
        assert(shrunk[i] == rs[i0] && shrunk[j] == rs[j0]);
    }
}

/// Inserting a record under a fresh name and then fetching by that name
/// finds exactly that record.
pub proof fn lemma_insert_then_fetch_by_name(rs: Seq<DeviceRecord>, d: DeviceRecord)
    requires
        !contains_name(rs, d.name),
    ensures
        find_name(rs.push(d), d.name) == Some(d),
{
    let grown = rs.push(d);
    assert(grown[rs.len() as int] == d);
    assert forall|j: int| 0 <= j < rs.len() implies (#[trigger] grown[j].name) != d.name by {
        assert(grown[j] == rs[j]);
    }
    lemma_find_name_at(grown, d.name, rs.len() as int);
}

/// The capability set that both backends offer: the guarded record
/// sequence behind insert, delete and the three fetch operations.
pub trait DeviceRepository: Sized {
    /// The records now held, in insertion order.
    spec fn records(&self) -> Seq<DeviceRecord>;

    /// Whether mutations persist outside memory, and so may fail with
    /// the persistence error even on a logically sound request.
    spec fn persistent(&self) -> bool;

    /// Adds a device, unless its name is already taken.
    fn insert(&mut self, device: Device) -> (r: Result<(), InsertError>)
        ensures
            final(self).persistent() == old(self).persistent(),
            match r {
                Ok(()) => !contains_name(old(self).records(), device@.name) && final(self).records()
                    == old(self).records().push(device@),
                Err(InsertError::Conflict) => contains_name(old(self).records(), device@.name)
                    && final(self).records() == old(self).records(),
                Err(InsertError::Other) => old(self).persistent() && !contains_name(
                    old(self).records(),
                    device@.name,
                ) && final(self).records() == old(self).records(),
            },
    ;

    /// Removes the device carrying this name, if one exists.
    fn delete(&mut self, name: &DeviceName) -> (r: Result<(), DeleteError>)
        ensures
            final(self).persistent() == old(self).persistent(),
            match r {
                Ok(()) => contains_name(old(self).records(), name@) && final(self).records()
                    == remove_name(old(self).records(), name@),
                Err(DeleteError::NotFound) => !contains_name(old(self).records(), name@)
                    && final(self).records() == old(self).records(),
                Err(DeleteError::Other) => old(self).persistent() && contains_name(
                    old(self).records(),
                    name@,
                ) && final(self).records() == old(self).records(),
            },
    ;

    /// A copy of the first record carrying this name, if one exists.
    fn fetch_by_name(&self, name: &DeviceName) -> (r: Option<Device>)
        ensures
            match r {
                Some(d) => find_name(self.records(), name@) == Some(d@),
                None => find_name(self.records(), name@) is None,
            },
    ;

    /// A copy of the first record carrying this hardware address, if one
    /// exists.
    fn fetch_by_mac(&self, mac: &MacAddress) -> (r: Option<Device>)
        ensures
            match r {
                Some(d) => find_mac(self.records(), mac@) == Some(d@),
                None => find_mac(self.records(), mac@) is None,
            },
    ;

    /// A copy of every record in insertion order, or nothing when the
    /// repository is empty; emptiness is not an error.
    fn fetch_all(&self) -> (r: Option<Vec<Device>>)
        ensures
            match r {
                Some(v) => self.records().len() > 0 && seq_models(v@) == self.records(),
                None => self.records().len() == 0,
            },
    ;
}

/// The position of the first device carrying this name.
pub(crate) fn position_by_name(devices: &Vec<Device>, name: &DeviceName) -> (r: Option<usize>)
    ensures
        match r {
            Some(k) => k < devices.len() && seq_models(devices@)[k as int].name == name@ && forall|
                j: int,
            | 0 <= j < k ==> (#[trigger] seq_models(devices@)[j].name) != name@,
            None => forall|j: int| 0 <= j < devices.len() ==> (#[trigger] seq_models(
                devices@,
            )[j].name) != name@,
        },
{
    let ghost ms = seq_models(devices@);
    let mut k: usize = 0;
    while k < devices.len()
        invariant
            ms == seq_models(devices@),
            k <= devices.len(),
            forall|j: int| 0 <= j < k ==> (#[trigger] ms[j].name) != name@,
        decreases devices.len() - k,
    {
        if devices[k].name == *name {
            return Some(k);
        }
        k += 1;
    }
    None
}

/// The position of the first device carrying this hardware address.
pub(crate) fn position_by_mac(devices: &Vec<Device>, mac: &MacAddress) -> (r: Option<usize>)
    ensures
        match r {
            Some(k) => k < devices.len() && seq_models(devices@)[k as int].mac == mac@ && forall|
                j: int,
            | 0 <= j < k ==> (#[trigger] seq_models(devices@)[j].mac) != mac@,
            None => forall|j: int| 0 <= j < devices.len() ==> (#[trigger] seq_models(
                devices@,
            )[j].mac) != mac@,
        },
{
    let ghost ms = seq_models(devices@);
    let mut k: usize = 0;
    while k < devices.len()
        invariant
            ms == seq_models(devices@),
            k <= devices.len(),
            forall|j: int| 0 <= j < k ==> (#[trigger] ms[j].mac) != mac@,
        decreases devices.len() - k,
    {
        if devices[k].mac == *mac {
            return Some(k);
        }
        k += 1;
    }
    None
}

/// Whether no two devices share a name.
pub(crate) fn names_unique(devices: &Vec<Device>) -> (r: bool)
    ensures
        r == unique_names(seq_models(devices@)),
{
    let ghost ms = seq_models(devices@);
    let mut i: usize = 0;
    while i < devices.len()
        invariant
            ms == seq_models(devices@),
            i <= devices.len(),
            forall|a: int, b: int| 0 <= a < b < devices.len() && a < i ==> (#[trigger] ms[a].name)
                != (#[trigger] ms[b].name),
        decreases devices.len() - i,
    {
        let mut j: usize = i + 1;
        while j < devices.len()
            invariant
                ms == seq_models(devices@),
                i < devices.len(),
                i < j,
                j <= devices.len(),
                forall|b: int| i < b < j ==> (#[trigger] ms[b].name) != ms[i as int].name,
            decreases devices.len() - j,
        {
            if devices[i].name == devices[j].name {
                proof {
                    assert(ms[i as int] == devices@[i as int]@);
                    assert(ms[j as int] == devices@[j as int]@);
                    assert(ms[i as int].name == ms[j as int].name);
                }
                return false;
            }
            j += 1;
        }
        i += 1;
    }
    true
}

/// A copy of every device, in order.
pub(crate) fn clone_devices(devices: &Vec<Device>) -> (r: Vec<Device>)
    ensures
        seq_models(r@) == seq_models(devices@),
{
    let ghost ms = seq_models(devices@);
    let mut copy: Vec<Device> = Vec::new();
    proof {
        assert(seq_models(copy@) =~= ms.take(0));
    }
    let mut k: usize = 0;
    while k < devices.len()
        invariant
            ms == seq_models(devices@),
            k <= devices.len(),
            seq_models(copy@) == ms.take(k as int),
        decreases devices.len() - k,
    {
        let ghost prev = copy@;
        let d = devices[k].clone();
        let ghost dd = d;
        copy.push(d);
        proof {
            lemma_seq_models_push(prev, dd);
            assert(ms[k as int] == devices@[k as int]@);
            assert(dd@ == ms[k as int]);
            assert(ms.take(k as int + 1) =~= ms.take(k as int).push(ms[k as int]));
        }
        k += 1;
    }
    proof {
        assert(ms.take(devices.len() as int) =~= ms);
    }
    copy
}

} // verus!
