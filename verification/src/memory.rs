//! Durable conversation memory: the document kept on disk and how an entry
//! is added to it (newest last, at most 500 entries).

use vstd::prelude::*;
use crate::text::{decimal, decimal_chars, extend_chars, extend_str, string_of};

verus! {

broadcast use vstd::seq_lib::group_seq_properties;

/// Most entries a memory document keeps.
pub const MAX_MEMORY_ENTRIES: usize = 500;

#[derive(Debug, Clone)]
pub struct MemoryEntry {
    pub id: String,
    pub role: String,
    pub text: String,
    pub ts_ms: u64,
    pub tags: Vec<String>,
}

#[derive(Debug, Clone)]
pub struct MemoryDoc {
    pub version: u32,
    pub entries: Vec<MemoryEntry>,
}

/// An entry as plain text: id, role, text, time and tags.
pub type EntryView = (Seq<char>, Seq<char>, Seq<char>, u64, Seq<Seq<char>>);

pub open spec fn entry_view(e: MemoryEntry) -> EntryView {
    (e.id@, e.role@, e.text@, e.ts_ms, e.tags@.map_values(|t: String| t@))
}

pub open spec fn entries_view(doc: MemoryDoc) -> Seq<EntryView> {
    doc.entries@.map_values(|e: MemoryEntry| entry_view(e))
}

impl Default for MemoryEntry {
    fn default() -> (e: Self)
        ensures
            entry_view(e) == (Seq::<char>::empty(), Seq::<char>::empty(), Seq::<char>::empty(), 0u64, Seq::<Seq<char>>::empty()),
    {
        let e = MemoryEntry { id: String::new(), role: String::new(), text: String::new(), ts_ms: 0, tags: Vec::new() };
        assert(e.tags@.map_values(|t: String| t@) =~= Seq::<Seq<char>>::empty());
        e
    }
}

impl Default for MemoryDoc {
    fn default() -> (d: Self)
        ensures
            d.version == 0,
            d.entries@.len() == 0,
    {
        MemoryDoc { version: 0, entries: Vec::new() }
    }
}

/// The document used when none is stored yet, and after clearing.
pub fn empty_memory() -> (d: MemoryDoc)
    ensures
        d.version == 1,
        d.entries@.len() == 0,
{
    MemoryDoc { version: 1, entries: Vec::new() }
}

/// The latest `MAX_MEMORY_ENTRIES` entries.
pub open spec fn capped_entries(s: Seq<EntryView>) -> Seq<EntryView> {
    if s.len() > MAX_MEMORY_ENTRIES {
        s.skip(s.len() - MAX_MEMORY_ENTRIES)
    } else {
        s
    }
}

/// Adds an entry stamped `ts_ms` (id `m{ts_ms}`) and keeps the latest 500.
pub fn append_memory(doc: MemoryDoc, role: &str, text: &str, tags: Vec<String>, ts_ms: u64) -> (r: MemoryDoc)
    ensures
        r.version == doc.version,
        entries_view(r) == capped_entries(
            entries_view(doc).push(("m"@ + decimal(ts_ms as nat), role@, text@, ts_ms, tags@.map_values(|t: String| t@))),
        ),
{
    let mut doc = doc;
    let mut id: Vec<char> = Vec::new();
    extend_str(&mut id, "m");
    let digits = decimal_chars(ts_ms);
    extend_chars(&mut id, &digits);
    let entry = MemoryEntry { id: string_of(&id), role: role.to_owned(), text: text.to_owned(), ts_ms, tags };
    let ghost before = entries_view(doc);
    doc.entries.push(entry);
    assert(entries_view(doc) =~= before.push(entry_view(entry)));
    let ghost full = entries_view(doc);
    if doc.entries.len() > MAX_MEMORY_ENTRIES {
        let n = doc.entries.len() - MAX_MEMORY_ENTRIES;
        let kept = doc.entries.split_off(n);
        doc.entries = kept;
        assert(entries_view(doc) =~= full.skip(n as int));
    }
    doc
}

} // verus!
