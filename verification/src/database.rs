//! The path store: a mapping from an original file path to the path of its
//! tracked copy.
//!
//! The store is persisted by the surrounding layer as a structured file; this
//! module holds its in-memory form and the two operations on it, recording a
//! mapping (first write wins, a later insertion under the same key is a
//! no-op) and looking a key up.

use vstd::prelude::*;

use crate::errors::ToolError;

verus! {

/// In-memory form of the persisted store: pairs of original path and copied
/// path, with pairwise-distinct keys.
pub struct DataTable {
    pub table: Vec<(String, String)>,
}

/// The map that an association list denotes; a later entry would override an
/// earlier one under the same key, but a well-formed table has no such pair.
pub open spec fn assoc_map(entries: Seq<(String, String)>) -> Map<Seq<char>, Seq<char>>
    decreases entries.len(),
{
    if entries.len() == 0 {
        Map::empty()
    } else {
        assoc_map(entries.drop_last()).insert(entries.last().0@, entries.last().1@)
    }
}

impl View for DataTable {
    type V = Map<Seq<char>, Seq<char>>;

    open spec fn view(&self) -> Map<Seq<char>, Seq<char>> {
        assoc_map(self.table@)
    }
}

impl DataTable {
    /// Keys are unique within the store.
    pub open spec fn wf(&self) -> bool {
        forall|i: int, j: int|
            0 <= i < j < self.table@.len() ==> self.table@[i].0@ != self.table@[j].0@
    }

    /// An empty store, as initialized before the first mapping is recorded.
    pub fn new() -> (r: Self)
        ensures
            r@ == Map::<Seq<char>, Seq<char>>::empty(),
            r.wf(),
    {
        Self { table: Vec::new() }
    }
}

/// What recording a mapping does to the store: the entry is inserted only if
/// the key is not already present (first write wins).
pub open spec fn record_spec(
    m: Map<Seq<char>, Seq<char>>,
    original: Seq<char>,
    copied: Seq<char>,
) -> Map<Seq<char>, Seq<char>> {
    if m.contains_key(original) {
        m
    } else {
        m.insert(original, copied)
    }
}

/// What a lookup returns: the mapped copied path, or nothing when the key is
/// absent.
pub open spec fn lookup_spec(m: Map<Seq<char>, Seq<char>>, original: Seq<char>) -> Option<
    Seq<char>,
> {
    if m.contains_key(original) {
        Some(m[original])
    } else {
        None
    }
}

/// Law: recording a mapping under a key the store does not hold and then
/// looking that key up returns the recorded copied path, for any two
/// distinct non-empty paths.
pub proof fn lemma_record_then_lookup(
    m: Map<Seq<char>, Seq<char>>,
    a: Seq<char>,
    b: Seq<char>,
)
    requires
        a.len() != 0,
        b.len() != 0,
        a != b,
        !m.contains_key(a),
    ensures
        lookup_spec(record_spec(m, a, b), a) == Some(b),
{
}

/// Law: recording the same original path twice with different copied paths
/// leaves the first mapping unchanged (first write wins).
pub proof fn lemma_first_write_wins(
    m: Map<Seq<char>, Seq<char>>,
    a: Seq<char>,
    b: Seq<char>,
    c: Seq<char>,
)
    requires
        a.len() != 0,
        b != c,
        !m.contains_key(a),
    ensures
        record_spec(record_spec(m, a, b), a, c) == record_spec(m, a, b),
        lookup_spec(record_spec(record_spec(m, a, b), a, c), a) == Some(b),
{
}

/// Law: a lookup of a key never recorded yields nothing, which
/// `get_copied_file_path_by_key` reports as `NotFoundError`.
pub proof fn lemma_lookup_absent(m: Map<Seq<char>, Seq<char>>, a: Seq<char>)
    requires
        !m.contains_key(a),
    ensures
        lookup_spec(m, a) is None,
{
}

/// A key stands in the map of an association list exactly when some entry
/// carries it.
proof fn lemma_assoc_map_contains(entries: Seq<(String, String)>, key: Seq<char>)
    ensures
        assoc_map(entries).contains_key(key) <==> exists|i: int|
            0 <= i < entries.len() && entries[i].0@ == key,
    decreases entries.len(),
{
    if entries.len() > 0 {
        lemma_assoc_map_contains(entries.drop_last(), key);
        if assoc_map(entries).contains_key(key) && entries.last().0@ != key {
            let i = choose|i: int| 0 <= i < entries.len() - 1 && entries.drop_last()[i].0@ == key;
            assert(entries[i].0@ == key);
        }
        if exists|i: int| 0 <= i < entries.len() && entries[i].0@ == key {
            let i = choose|i: int| 0 <= i < entries.len() && entries[i].0@ == key;
            if i < entries.len() - 1 {
                assert(entries.drop_last()[i].0@ == key);
            }
        }
    }
}

/// Under unique keys, the map of an association list sends each entry's key
/// to that entry's value.
proof fn lemma_assoc_map_value(entries: Seq<(String, String)>, i: int)
    requires
        0 <= i < entries.len(),
        forall|j: int, k: int| 0 <= j < k < entries.len() ==> entries[j].0@ != entries[k].0@,
    ensures
        assoc_map(entries).contains_key(entries[i].0@),
        assoc_map(entries)[entries[i].0@] == entries[i].1@,
    decreases entries.len(),
{
    if i == entries.len() - 1 {
    } else {
        lemma_assoc_map_value(entries.drop_last(), i);
        assert(entries.drop_last()[i] == entries[i]);
        assert(entries.last().0@ != entries[i].0@);
    }
}

/// Index of the entry that carries `key`, if any.
fn find_key(table: &DataTable, key: &String) -> (r: Option<usize>)
    ensures
        match r {
            Some(i) => i < table.table@.len() && table.table@[i as int].0@ == key@,
            None => forall|i: int| 0 <= i < table.table@.len() ==> table.table@[i].0@ != key@,
        },
{
    let n = table.table.len();
    let mut i: usize = 0;
    while i < n
        invariant
            i <= n,
            n == table.table@.len(),
            forall|j: int| 0 <= j < i ==> table.table@[j].0@ != key@,
        decreases n - i,
    {
        if table.table[i].0 == *key {
            return Some(i);
        }
        i = i + 1;
    }
    None
}

/// Record the mapping `original_path -> copied_path` in the store; when the
/// key is already present the store is left unchanged.
pub fn add_files_to_database(table: &mut DataTable, original_path: &str, copied_path: &str)
    requires
        old(table).wf(),
        original_path@.len() != 0,
    ensures
        final(table).wf(),
        final(table)@ == record_spec(old(table)@, original_path@, copied_path@),
{
    let key = original_path.to_owned();
    match find_key(table, &key) {
        Some(i) => {
            proof {
                lemma_assoc_map_contains(table.table@, key@);
            }
        },
        None => {
            proof {
                lemma_assoc_map_contains(table.table@, key@);
            }
            let ghost entries0 = table.table@;
            table.table.push((key, copied_path.to_owned()));
            proof {
                assert(table.table@.drop_last() =~= entries0);
            }
        },
    }
}

/// Return the copied path recorded for `original_path`; fails with
/// `NotFoundError` when no mapping with that key was ever recorded.
pub fn get_copied_file_path_by_key(table: &DataTable, original_path: &str) -> (r: Result<
    String,
    ToolError,
>)
    requires
        table.wf(),
    ensures
        match r {
            Ok(copied) => lookup_spec(table@, original_path@) == Some(copied@),
            Err(e) => lookup_spec(table@, original_path@) is None && e
                == ToolError::NotFoundError,
        },
{
    let key = original_path.to_owned();
    match find_key(table, &key) {
        Some(i) => {
            proof {
                lemma_assoc_map_value(table.table@, i as int);
            }
            Ok(table.table[i].1.clone())
        },
        None => {
            proof {
                lemma_assoc_map_contains(table.table@, key@);
            }
            Err(ToolError::NotFoundError)
        },
    }
}

} // verus!
