//! A cache of verdicts that many callers may share. Verdicts are kept in a
//! concurrent map behind a reader-writer lock whose invariant says that every
//! stored verdict is the right one, so a hit can be returned without running
//! the rules again.
use vstd::prelude::*;
use vstd::rwlock::RwLock;
use vstd::rwlock::RwLockPredicate;
use dashmap::DashMap;
use std::collections::hash_map::RandomState;
use crate::validation::{
    classify_tag, lemma_empty_detail_is_harmless, opt_text, tag_key, tag_verdict,
    ValidationStatus,
};

verus! {

/// `dashmap::DashMap`, opaque to the verifier.
#[verifier::external_type_specification]
#[verifier::external_body]
#[verifier::reject_recursive_types(K)]
#[verifier::reject_recursive_types(V)]
#[verifier::reject_recursive_types(S)]
pub struct ExDashMap<K, V, S>(dashmap::DashMap<K, V, S>);

/// The map that backs the cache: from (name, detail or empty) to the weight of
/// the verdict.
pub type StatusTable = DashMap<(String, String), u8, RandomState>;

/// The entries that a table holds, by the texts of their keys.
///
/// A `DashMap` can be changed through a shared reference. This module never
/// does so: it inserts through an exclusive reference only, and a shared
/// reference only reads, so that what a table holds is a function of the table
/// as the verifier sees it.
pub uninterp spec fn table_entries(table: StatusTable) -> Map<(Seq<char>, Seq<char>), u8>;

/// A table without entries.
pub open spec fn no_entries() -> Map<(Seq<char>, Seq<char>), u8> {
    Map::empty()
}

/// What a look-up under `key` finds in `entries`.
pub open spec fn entry_at(entries: Map<(Seq<char>, Seq<char>), u8>, key: (Seq<char>, Seq<char>)) -> Option<u8> {
    if entries.contains_key(key) {
        Some(entries[key])
    } else {
        None
    }
}

/// Calls `DashMap::new`, which makes an empty map.
#[verifier::external_body]
fn table_new() -> (table: StatusTable)
    ensures
        table_entries(table) == no_entries(),
{
    DashMap::new()
}

/// Calls `DashMap::get` and copies the value out of the guard it returns: the
/// value stored under a key equal to `key`, if there is one.
#[verifier::external_body]
fn table_get(table: &StatusTable, key: &(String, String)) -> (found: Option<u8>)
    ensures
        found == entry_at(table_entries(*table), (key.0@, key.1@)),
{
    table.get(key).map(|entry| *entry.value())
}

/// Calls `DashMap::insert`, which stores `value` under `key`, replacing what
/// was stored under an equal key, and leaves every other entry alone.
#[verifier::external_body]
fn table_insert(table: &mut StatusTable, key: (String, String), value: u8)
    ensures
        table_entries(*final(table)) == table_entries(*old(table)).insert((key.0@, key.1@), value),
{
    table.insert(key, value);
}

/// Every entry holds the weight of the verdict on its own key.
pub open spec fn entries_are_sound(entries: Map<(Seq<char>, Seq<char>), u8>) -> bool {
    forall|name: Seq<char>, detail: Seq<char>| #[trigger]
        entries.contains_key((name, detail)) ==> entries[(name, detail)] == tag_verdict(
            name,
            Some(detail),
        ).spec_weight()
}

/// No keys at all.
pub open spec fn no_keys() -> Set<(Seq<char>, Seq<char>)> {
    Set::empty()
}

/// The key under which a tag's verdict is stored.
pub fn cache_key(tag_name: &str, tag_detail: Option<&str>) -> (key: (String, String))
    ensures
        (key.0@, key.1@) == tag_key(tag_name@, opt_text(tag_detail)),
{
    let detail = match tag_detail {
        Some(d) => d.to_owned(),
        None => String::new(),
    };
    (tag_name.to_owned(), detail)
}

/// The verdict that a stored weight stands for, or `None` on a miss.
pub fn cached_status(found: Option<u8>) -> (status: Option<ValidationStatus>)
    ensures
        status == match found {
            Some(w) => Some(ValidationStatus::spec_from_weight(w)),
            None => None,
        },
{
    match found {
        Some(w) => Some(ValidationStatus::from_weight(w)),
        None => None,
    }
}

/// Verdicts reached so far, in the hands of one owner. Every stored verdict
/// is the one that the rules give for its key, so the keys say all that the
/// table holds. A table only grows.
pub struct VerdictTable {
    table: StatusTable,
}

impl VerdictTable {
    /// Every stored verdict is the one that the rules give for its key.
    pub closed spec fn wf(&self) -> bool {
        entries_are_sound(table_entries(self.table))
    }

    /// The keys of the tags whose verdict is stored.
    pub closed spec fn keys(&self) -> Set<(Seq<char>, Seq<char>)> {
        table_entries(self.table).dom()
    }

    /// An empty table.
    pub fn new() -> (table: Self)
        ensures
            table.wf(),
            table.keys() == no_keys(),
    {
        let table = VerdictTable { table: table_new() };
        proof {
            assert(table.keys() =~= no_keys());
        }
        table
    }

    /// The stored verdict on a tag, if there is one.
    pub fn lookup(&self, tag_name: &str, tag_detail: Option<&str>) -> (found: Option<
        ValidationStatus,
    >)
        requires
            self.wf(),
        ensures
            found == (if self.keys().contains(tag_key(tag_name@, opt_text(tag_detail))) {
                Some(tag_verdict(tag_name@, opt_text(tag_detail)))
            } else {
                None
            }),
    {
        proof {
            lemma_empty_detail_is_harmless(tag_name@);
        }
        let key = cache_key(tag_name, tag_detail);
        let found = table_get(&self.table, &key);
        proof {
            if found is Some {
                assert(table_entries(self.table).contains_key((key.0@, key.1@)));
            }
        }
        cached_status(found)
    }

    /// Stores the verdict on a tag. Every key that the table held stays.
    pub fn store(&mut self, tag_name: &str, tag_detail: Option<&str>, status: ValidationStatus)
        requires
            old(self).wf(),
            status == tag_verdict(tag_name@, opt_text(tag_detail)),
        ensures
            final(self).wf(),
            final(self).keys() == old(self).keys().insert(
                tag_key(tag_name@, opt_text(tag_detail)),
            ),
    {
        proof {
            lemma_empty_detail_is_harmless(tag_name@);
        }
        let ghost before = table_entries(self.table);
        let key = cache_key(tag_name, tag_detail);
        let ghost k = (key.0@, key.1@);
        let w = status.weight();
        table_insert(&mut self.table, key, w);
        proof {
            let after = table_entries(self.table);
            assert(after == before.insert(k, w));
            assert forall|name: Seq<char>, detail: Seq<char>| #[trigger]
                after.contains_key((name, detail)) implies after[(name, detail)] == tag_verdict(
                name,
                Some(detail),
            ).spec_weight() by {
                if (name, detail) != k {
                    assert(before.contains_key((name, detail)));
                }
            }
            assert(after.dom() =~= before.dom().insert(k));
        }
    }

    /// Classifies a tag by the format rules, answering from the table where
    /// the verdict is stored and storing it otherwise. Afterwards the table
    /// holds the tag's key beside all the keys that it held before.
    pub fn validate(&mut self, tag_name: &str, tag_detail: Option<&str>) -> (status: ValidationStatus)
        requires
            old(self).wf(),
        ensures
            final(self).wf(),
            status == tag_verdict(tag_name@, opt_text(tag_detail)),
            final(self).keys() == old(self).keys().insert(
                tag_key(tag_name@, opt_text(tag_detail)),
            ),
    {
        match self.lookup(tag_name, tag_detail) {
            Some(status) => {
                proof {
                    assert(self.keys().insert(tag_key(tag_name@, opt_text(tag_detail)))
                        =~= self.keys());
                }
                status
            },
            None => {
                let status = classify_tag(tag_name, tag_detail);
                self.store(tag_name, tag_detail, status);
                status
            },
        }
    }
}

/// What the lock keeps true of the table: it is well formed.
pub struct SoundTable;

impl RwLockPredicate<VerdictTable> for SoundTable {
    open spec fn inv(self, table: VerdictTable) -> bool {
        table.wf()
    }
}

/// Verdicts reached so far, shared by all callers: a table behind a
/// reader-writer lock. Many callers may look verdicts up at a time; one at a
/// time stores a new one.
pub struct ValidationCache {
    lock: RwLock<VerdictTable, SoundTable>,
}

impl ValidationCache {
    /// An empty cache.
    pub fn new() -> (cache: Self) {
        ValidationCache { lock: RwLock::new(VerdictTable::new(), Ghost(SoundTable)) }
    }

    /// The cached verdict on a tag, if one is stored. A stored verdict is
    /// always the one that the rules give.
    pub fn lookup(&self, tag_name: &str, tag_detail: Option<&str>) -> (found: Option<
        ValidationStatus,
    >)
        ensures
            found matches Some(status) ==> status == tag_verdict(tag_name@, opt_text(tag_detail)),
    {
        let handle = self.lock.acquire_read();
        let found = handle.borrow().lookup(tag_name, tag_detail);
        handle.release_read();
        found
    }

    /// Stores the verdict on a tag.
    fn store(&self, tag_name: &str, tag_detail: Option<&str>, status: ValidationStatus)
        requires
            status == tag_verdict(tag_name@, opt_text(tag_detail)),
    {
        let (mut table, handle) = self.lock.acquire_write();
        table.store(tag_name, tag_detail, status);
        handle.release_write(table);
    }
}

/// Classifies a tag by the format rules, answering from `cache` where the
/// verdict is already there and storing it otherwise.
pub fn validate_tag_format(cache: &ValidationCache, tag_name: &str, tag_detail: Option<&str>) -> (status:
    ValidationStatus)
    ensures
        status == tag_verdict(tag_name@, opt_text(tag_detail)),
{
    match cache.lookup(tag_name, tag_detail) {
        Some(status) => status,
        None => {
            let status = classify_tag(tag_name, tag_detail);
            cache.store(tag_name, tag_detail, status);
            status
        },
    }
}

} // verus!
