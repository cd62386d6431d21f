//! The storage backends: in memory, or in a sled database on disk.
use vstd::prelude::*;
use vstd::std_specs::iter::IteratorSpec;
use vstd::string::StringExecFns;
use vstd::utf8::{decode_utf8, valid_utf8};

use crate::codec::{decode_value, encode_value, value_of_bytes};
use crate::error::KvError;
use crate::memory::{lists_table, lookup, MemTable, StoreView};
use crate::pb::{Kvpair, Value, ValueView};

verus! {

#[verifier::external_type_specification]
#[verifier::external_body]
pub struct ExSledDb(sled::Db);

#[verifier::external_type_specification]
#[verifier::external_body]
pub struct ExSledTree(sled::Tree);

#[verifier::external_type_specification]
#[verifier::external_body]
pub struct ExSledError(sled::Error);

/// Relies on `sled::Config::temporary` and `Config::open`: a database that is removed when dropped.
#[verifier::external_body]
fn sled_open_temporary() -> (r: Result<sled::Db, sled::Error>) {
    sled::Config::new().temporary(true).open()
}

/// Relies on `sled::open`: opens or creates the database at `path`.
#[verifier::external_body]
fn sled_open(path: &str) -> (r: Result<sled::Db, sled::Error>) {
    sled::open(path)
}

/// Relies on `sled::Db::open_tree`: opens or creates the keyspace `name`.
#[verifier::external_body]
fn sled_open_tree(db: &sled::Db, name: &str) -> (r: Result<sled::Tree, sled::Error>) {
    db.open_tree(name)
}

/// Relies on `sled::Tree::get`: the bytes stored under `key`, read from disk.
#[verifier::external_body]
fn sled_get(tree: &sled::Tree, key: &str) -> (r: Result<Option<Vec<u8>>, sled::Error>) {
    tree.get(key).map(|o| o.map(|v| v.to_vec()))
}

/// Relies on `sled::Tree::insert`: stores `value` under `key` and returns the bytes that were there.
#[verifier::external_body]
fn sled_insert(tree: &sled::Tree, key: &str, value: Vec<u8>) -> (r: Result<Option<Vec<u8>>, sled::Error>) {
    tree.insert(key, value).map(|o| o.map(|v| v.to_vec()))
}

/// Relies on `sled::Tree::remove`: removes `key` and returns the bytes that were there.
#[verifier::external_body]
fn sled_remove(tree: &sled::Tree, key: &str) -> (r: Result<Option<Vec<u8>>, sled::Error>) {
    tree.remove(key).map(|o| o.map(|v| v.to_vec()))
}

/// Relies on `sled::Tree::contains_key`: whether `key` is stored.
#[verifier::external_body]
fn sled_contains_key(tree: &sled::Tree, key: &str) -> (r: Result<bool, sled::Error>) {
    tree.contains_key(key)
}

/// Relies on `sled::Tree::iter`: every stored (key, value), each read from disk.
#[verifier::external_body]
fn sled_entries(tree: &sled::Tree) -> (r: Vec<Result<(Vec<u8>, Vec<u8>), sled::Error>>) {
    tree.iter().map(|e| e.map(|(k, v)| (k.to_vec(), v.to_vec()))).collect()
}

/// Relies on the `Display` text of `sled::Error`.
#[verifier::external_body]
fn sled_error_text(e: &sled::Error) -> (r: String) {
    e.to_string()
}

/// Relies on std's `String::from_utf8_lossy`: valid UTF-8 is decoded exactly.
#[verifier::external_body]
fn string_from_utf8_lossy(b: &Vec<u8>) -> (r: String)
    ensures
        valid_utf8(b@) ==> r@ == decode_utf8(b@),
{
    String::from_utf8_lossy(b.as_slice()).into_owned()
}

/// The embedded-log backend: each table is a keyspace of a sled database, and each
/// value is kept in its stored form.
pub struct SledTable {
    db: sled::Db,
}

fn storage_error(op: &str, table: &str, key: &str, e: &sled::Error) -> (r: KvError)
    ensures
        r matches KvError::StorageError(o, t, k, _) && o@ == op@ && t@ == table@ && k@ == key@,
{
    KvError::StorageError(String::from_str(op), String::from_str(table), String::from_str(key), sled_error_text(e))
}

/// What stored bytes read back as, as `get`, `set` and `del` report it.
pub open spec fn stored_result(r: Result<Option<Value>, KvError>, b: Option<Vec<u8>>) -> bool {
    match b {
        None => r matches Ok(None),
        Some(b) => match value_of_bytes(b@) {
            Some(v) => r matches Ok(Some(x)) && x@ == v,
            None => r matches Err(e) && e is ConvertError,
        },
    }
}

/// Reads back what the embedded log returned for a key.
pub fn read_stored(b: Option<Vec<u8>>) -> (r: Result<Option<Value>, KvError>)
    ensures
        stored_result(r, b),
{
    match b {
        None => Ok(None),
        Some(v) => match decode_value(&v) {
            Ok(x) => Ok(Some(x)),
            Err(e) => Err(e),
        },
    }
}

impl SledTable {
    pub fn new(db: sled::Db) -> (r: Self) {
        SledTable { db }
    }

    /// Opens the database at `path`; a failure to open is reported, not raised.
    pub fn open_path(path: &str) -> (r: Result<Self, KvError>)
        ensures
            r matches Err(e) ==> e is SledError,
    {
        match sled_open(path) {
            Ok(db) => Ok(SledTable { db }),
            Err(e) => Err(KvError::SledError(sled_error_text(&e))),
        }
    }

    /// A database that is removed when dropped.
    pub fn temporary() -> (r: Result<Self, KvError>)
        ensures
            r matches Err(e) ==> e is SledError,
    {
        match sled_open_temporary() {
            Ok(db) => Ok(SledTable { db }),
            Err(e) => Err(KvError::SledError(sled_error_text(&e))),
        }
    }

    pub fn get(&self, table: &str, key: &str) -> (r: Result<Option<Value>, KvError>)
        ensures
            r matches Err(e) ==> e is StorageError || e is ConvertError,
    {
        match sled_open_tree(&self.db, table) {
            Err(e) => Err(storage_error("get", table, key, &e)),
            Ok(tree) => match sled_get(&tree, key) {
                Err(e) => Err(storage_error("get", table, key, &e)),
                Ok(b) => read_stored(b),
            },
        }
    }

    /// Stores the stored form of `value`; returns what was there before.
    pub fn set(&self, table: &str, key: String, value: Value) -> (r: Result<Option<Value>, KvError>)
        ensures
            r matches Err(e) ==> e is StorageError || e is ConvertError,
    {
        match sled_open_tree(&self.db, table) {
            Err(e) => Err(storage_error("set", table, key.as_str(), &e)),
            Ok(tree) => {
                let bytes = encode_value(&value);
                match sled_insert(&tree, key.as_str(), bytes) {
                    Err(e) => Err(storage_error("set", table, key.as_str(), &e)),
                    Ok(b) => read_stored(b),
                }
            },
        }
    }

    pub fn del(&self, table: &str, key: &str) -> (r: Result<Option<Value>, KvError>)
        ensures
            r matches Err(e) ==> e is StorageError || e is ConvertError,
    {
        match sled_open_tree(&self.db, table) {
            Err(e) => Err(storage_error("del", table, key, &e)),
            Ok(tree) => match sled_remove(&tree, key) {
                Err(e) => Err(storage_error("del", table, key, &e)),
                Ok(b) => read_stored(b),
            },
        }
    }

    pub fn contains(&self, table: &str, key: &str) -> (r: Result<bool, KvError>)
        ensures
            r matches Err(e) ==> e is StorageError,
    {
        match sled_open_tree(&self.db, table) {
            Err(e) => Err(storage_error("contains", table, key, &e)),
            Ok(tree) => match sled_contains_key(&tree, key) {
                Err(e) => Err(storage_error("contains", table, key, &e)),
                Ok(b) => Ok(b),
            },
        }
    }

    /// Every pair of `table`, in the order sled lists them; see `pairs_of_entries`.
    pub fn get_all(&self, table: &str) -> (r: Result<Vec<Kvpair>, KvError>)
        ensures
            r matches Err(e) ==> e is StorageError || e is ConvertError,
    {
        match sled_open_tree(&self.db, table) {
            Err(e) => Err(storage_error("get_all", table, "", &e)),
            Ok(tree) => {
                let entries = sled_entries(&tree);
                pairs_of_entries(table, &entries)
            },
        }
    }
}

/// An entry as sled listed it: read, with bytes that hold a value.
pub open spec fn entry_good(e: Result<(Vec<u8>, Vec<u8>), sled::Error>) -> bool {
    match e {
        Ok(kv) => value_of_bytes(kv.1@) is Some,
        Err(_) => false,
    }
}

/// `p` is what the good entry `e` reads back as: its key decoded from UTF-8 (where the
/// key is valid UTF-8) and its value read from its stored form.
pub open spec fn pair_of_entry(e: Result<(Vec<u8>, Vec<u8>), sled::Error>, p: Kvpair) -> bool {
    match e {
        Ok(kv) => {
            &&& value_of_bytes(kv.1@) == Some(p.value@)
            &&& valid_utf8(kv.0@) ==> p.key@ == decode_utf8(kv.0@)
        },
        Err(_) => false,
    }
}

/// Reads the entries of a table as sled listed them. With every entry good, the pairs
/// come one per entry, in order; otherwise the first bad entry decides the error: a
/// sled failure is a `StorageError`, bytes that hold no value a `ConvertError`.
pub fn pairs_of_entries(table: &str, entries: &Vec<Result<(Vec<u8>, Vec<u8>), sled::Error>>) -> (r:
    Result<Vec<Kvpair>, KvError>)
    ensures
        (forall|i: int| 0 <= i < entries@.len() ==> #[trigger] entry_good(entries@[i])) <==> r is Ok,
        r matches Ok(ps) ==> ps@.len() == entries@.len() && forall|i: int|
            0 <= i < entries@.len() ==> #[trigger] pair_of_entry(entries@[i], ps@[i]),
        r matches Err(e) ==> exists|j: int|
            0 <= j < entries@.len() && !#[trigger] entry_good(entries@[j]) && (forall|i: int|
                0 <= i < j ==> entry_good(entries@[i])) && (entries@[j] is Err ==> e is StorageError)
                && (entries@[j] is Ok ==> e is ConvertError),
{
    let mut out: Vec<Kvpair> = Vec::new();
    let mut i: usize = 0;
    while i < entries.len()
        invariant
            i <= entries@.len(),
            out@.len() == i,
            forall|k: int| 0 <= k < i ==> #[trigger] entry_good(entries@[k]),
            forall|k: int| 0 <= k < i ==> #[trigger] pair_of_entry(entries@[k], out@[k]),
        decreases entries@.len() - i,
    {
        match &entries[i] {
            Ok((k, v)) => match decode_value(v) {
                Ok(x) => {
                    let ghost before = out@;
                    out.push(Kvpair { key: string_from_utf8_lossy(k), value: x });
                    assert(forall|m: int| 0 <= m < i ==> out@[m] == before[m]);
                },
                Err(e) => {
                    assert(!entry_good(entries@[i as int]));
                    return Err(e);
                },
            },
            Err(e) => {
                assert(!entry_good(entries@[i as int]));
                return Err(storage_error("get_all", table, "", e));
            },
        }
        i = i + 1;
    }
    Ok(out)
}

/// A storage backend, chosen when the store is made.
pub enum Storage {
    Memory(MemTable),
    Sled(SledTable),
}

/// The view of an optional value.
pub open spec fn opt_view(v: Option<Value>) -> Option<ValueView> {
    match v {
        Some(x) => Some(x@),
        None => None,
    }
}

impl Storage {
    pub open spec fn wf(&self) -> bool {
        match self {
            Storage::Memory(m) => m.wf(),
            Storage::Sled(_) => true,
        }
    }

    /// The contents, where they are held in memory; a disk-backed store's contents
    /// are not modelled.
    pub open spec fn model(&self) -> Option<StoreView> {
        match self {
            Storage::Memory(m) => Some(m@),
            Storage::Sled(_) => None,
        }
    }

    pub open spec fn same_backend(&self, other: &Storage) -> bool {
        match (self, other) {
            (Storage::Memory(_), Storage::Memory(_)) => true,
            (Storage::Sled(a), Storage::Sled(b)) => a == b,
            _ => false,
        }
    }

    pub fn memory() -> (r: Self)
        ensures
            r.wf(),
            r.model() == Some(Map::<(Seq<char>, Seq<char>), ValueView>::empty()),
    {
        Storage::Memory(MemTable::new())
    }

    pub fn get(&self, table: &str, key: &str) -> (r: Result<Option<Value>, KvError>)
        requires
            self.wf(),
        ensures
            self.model() matches Some(m) ==> r matches Ok(v) && opt_view(v) == lookup(m, table@, key@),
            r matches Err(e) ==> e is StorageError || e is ConvertError,
    {
        match self {
            Storage::Memory(m) => Ok(m.get(table, key)),
            Storage::Sled(s) => s.get(table, key),
        }
    }

    pub fn set(&mut self, table: &str, key: String, value: Value) -> (r: Result<Option<Value>, KvError>)
        requires
            old(self).wf(),
        ensures
            final(self).wf(),
            final(self).same_backend(old(self)),
            old(self).model() matches Some(m) ==> r matches Ok(v) && opt_view(v) == lookup(m, table@, key@)
                && final(self).model() == Some(m.insert((table@, key@), value@)),
            r matches Err(e) ==> e is StorageError || e is ConvertError,
    {
        match self {
            Storage::Memory(m) => Ok(m.set(table, key, value)),
            Storage::Sled(s) => s.set(table, key, value),
        }
    }

    pub fn del(&mut self, table: &str, key: &str) -> (r: Result<Option<Value>, KvError>)
        requires
            old(self).wf(),
        ensures
            final(self).wf(),
            final(self).same_backend(old(self)),
            old(self).model() matches Some(m) ==> r matches Ok(v) && opt_view(v) == lookup(m, table@, key@)
                && final(self).model() == Some(m.remove((table@, key@))),
            r matches Err(e) ==> e is StorageError || e is ConvertError,
    {
        match self {
            Storage::Memory(m) => Ok(m.del(table, key)),
            Storage::Sled(s) => s.del(table, key),
        }
    }

    pub fn contains(&self, table: &str, key: &str) -> (r: Result<bool, KvError>)
        requires
            self.wf(),
        ensures
            self.model() matches Some(m) ==> r == Ok::<bool, KvError>(m.contains_key((table@, key@))),
            r matches Err(e) ==> e is StorageError,
    {
        match self {
            Storage::Memory(m) => Ok(m.contains(table, key)),
            Storage::Sled(s) => s.contains(table, key),
        }
    }

    pub fn get_all(&self, table: &str) -> (r: Result<Vec<Kvpair>, KvError>)
        requires
            self.wf(),
        ensures
            self.model() matches Some(m) ==> r matches Ok(p) && lists_table(m, table@, crate::pb::pairs_view(p@)),
            r matches Err(e) ==> e is StorageError || e is ConvertError,
    {
        match self {
            Storage::Memory(m) => Ok(m.get_all(table)),
            Storage::Sled(s) => s.get_all(table),
        }
    }

    /// The pairs of `table` as a single pass, in the order `get_all` gives them.
    pub fn get_iter(&self, table: &str) -> (r: Result<std::vec::IntoIter<Kvpair>, KvError>)
        requires
            self.wf(),
        ensures
            self.model() matches Some(m) ==> r matches Ok(it) && lists_table(
                m,
                table@,
                crate::pb::pairs_view(it.remaining()),
            ),
            r matches Err(e) ==> e is StorageError || e is ConvertError,
    {
        match self.get_all(table) {
            Ok(pairs) => Ok(pairs.into_iter()),
            Err(e) => Err(e),
        }
    }
}

} // verus!
