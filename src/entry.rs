use vstd::prelude::*;

verus! {

/// The mathematical value of an entry: the key, the value (`None` for a
/// deletion marker) and the version it is tagged with.
pub struct EntryView {
    pub key: Seq<u8>,
    pub value: Option<Seq<u8>>,
    pub version: u64,
}

/// What a mutation does to a key.
pub enum EntryData {
    Insert { key: Vec<u8>, value: Vec<u8> },
    Remove(Vec<u8>),
}

/// A logical mutation tagged with a version (a timestamp).
/// Version 0 stands for "not yet assigned".
pub struct Entry {
    pub data: EntryData,
    pub version: u64,
}

impl View for Entry {
    type V = EntryView;

    open spec fn view(&self) -> EntryView {
        match self.data {
            EntryData::Insert { key, value } => EntryView {
                key: key@,
                value: Some(value@),
                version: self.version,
            },
            EntryData::Remove(key) => EntryView { key: key@, value: None, version: self.version },
        }
    }
}

pub open spec fn views(s: Seq<Entry>) -> Seq<EntryView> {
    s.map_values(|e: Entry| e@)
}

/// The same entry under another version.
pub open spec fn restamp(e: EntryView, version: u64) -> EntryView {
    EntryView { version, ..e }
}

impl Entry {
    pub fn key(&self) -> (r: &Vec<u8>)
        ensures
            r@ == self@.key,
    {
        match &self.data {
            EntryData::Insert { key, .. } => key,
            EntryData::Remove(key) => key,
        }
    }

    pub fn is_remove(&self) -> (r: bool)
        ensures
            r == (self@.value is None),
    {
        match &self.data {
            EntryData::Insert { .. } => false,
            EntryData::Remove(_) => true,
        }
    }
}

/// Byte-wise equality of two keys.
pub fn bytes_eq(a: &Vec<u8>, b: &Vec<u8>) -> (r: bool)
    ensures
        r == (a@ == b@),
{
    if a.len() != b.len() {
        return false;
    }
    let mut i: usize = 0;
    while i < a.len()
        invariant
            a@.len() == b@.len(),
            0 <= i <= a@.len(),
            forall|j: int| 0 <= j < i ==> a@[j] == b@[j],
        decreases a@.len() - i,
    {
        if a[i] != b[i] {
            return false;
        }
        i = i + 1;
    }
    assert(a@ =~= b@);
    true
}

pub open spec fn fnv_offset() -> u64 {
    0xcbf29ce484222325u64
}

pub open spec fn fnv_prime() -> u64 {
    0x100000001b3u64
}

/// The 64-bit FNV-1a hash of a byte string.
pub open spec fn fingerprint_of(s: Seq<u8>) -> u64
    decreases s.len(),
{
    if s.len() == 0 {
        fnv_offset()
    } else {
        let h = fingerprint_of(s.drop_last()) ^ (s.last() as u64);
        ((h as int * fnv_prime() as int) % 0x1_0000_0000_0000_0000) as u64
    }
}

/// Fingerprint of a key, used for conflict detection and read tracking.
pub fn fingerprint(key: &Vec<u8>) -> (r: u64)
    ensures
        r == fingerprint_of(key@),
{
    let mut h: u64 = 0xcbf29ce484222325u64;
    let mut i: usize = 0;
    while i < key.len()
        invariant
            0 <= i <= key@.len(),
            h == fingerprint_of(key@.subrange(0, i as int)),
        decreases key@.len() - i,
    {
        proof {
            let p = key@.subrange(0, i as int + 1);
            assert(p.drop_last() =~= key@.subrange(0, i as int));
        }
        h = (h ^ (key[i] as u64)).wrapping_mul(0x100000001b3u64);
        i = i + 1;
    }
    assert(key@.subrange(0, key@.len() as int) =~= key@);
    h
}

} // verus!
