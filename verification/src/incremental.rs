//! The incremental file: the hashes of the files known to be formatted with
//! the current plugins, and what a run writes back.
use vstd::prelude::*;
use std::collections::HashSet;
use vstd::std_specs::hash::spec_hash_keys_iter;
use vstd::std_specs::iter::IteratorSpec;

verus! {

broadcast use vstd::std_specs::hash::group_hash_axioms;

/// The data of the incremental file: the hash of the plugins it was made
/// with and the hashes of the files known to be formatted.
#[derive(Debug)]
pub struct IncrementalFileData {
    pub plugins_hash: u64,
    pub file_hashes: HashSet<u64>,
}

impl IncrementalFileData {
    /// The data of a run with the given plugins, before any file is seen.
    pub fn new(plugins_hash: u64) -> (r: IncrementalFileData)
        ensures
            r.plugins_hash == plugins_hash,
            r.hash_set() == Set::<u64>::empty(),
    {
        IncrementalFileData { plugins_hash, file_hashes: HashSet::new() }
    }

    /// The set of hashes.
    pub open spec fn hash_set(&self) -> Set<u64> {
        self.file_hashes@
    }

    /// Whether the data holds the hash.
    pub fn contains(&self, hash: u64) -> (r: bool)
        ensures
            r == self.hash_set().contains(hash),
    {
        self.file_hashes.contains(&hash)
    }

    /// Adds a hash unless the data holds it already.
    pub fn insert(&mut self, hash: u64)
        ensures
            final(self).plugins_hash == old(self).plugins_hash,
            final(self).hash_set() == old(self).hash_set().insert(hash),
    {
        self.file_hashes.insert(hash);
    }
}

/// Adds the hashes of `from` to `into`.
fn add_all(from: &HashSet<u64>, into: &mut HashSet<u64>)
    ensures
        final(into)@ == old(into)@.union(from@),
{
    let ghost start = into@;
    let ghost keys = spec_hash_keys_iter(from).remaining();
    let ghost mut seen: int = 0;
    for x in it: from.iter()
        invariant
            it.seq() == keys,
            seen == it.index(),
            into@ == start.union(Set::new(|v: u64| exists|j: int| 0 <= j < it.index() && *it.seq()[j] == v)),
    {
        into.insert(*x);
        proof {
            seen = seen + 1;
        }
    }
    assert(seen == keys.len());
    assert forall|v: u64| #[trigger] from@.contains(v) implies (exists|j: int| 0 <= j < keys.len() && *keys[j] == v) by {
        assert(keys.unref().to_set().contains(v));
        let j = choose|j: int| 0 <= j < keys.unref().len() && keys.unref()[j] == v;
        assert(*keys[j] == v);
    }
    assert forall|j: int| 0 <= j < keys.len() implies from@.contains(#[trigger] *keys[j]) by {
        assert(keys.unref()[j] == *keys[j]);
        assert(keys.unref().to_set().contains(*keys[j]));
    }
    assert(into@ =~= start.union(from@));
}

/// Whether every hash of `a` is in `b`.
fn is_subset(a: &HashSet<u64>, b: &HashSet<u64>) -> (r: bool)
    ensures
        r == a@.subset_of(b@),
{
    let ghost keys = spec_hash_keys_iter(a).remaining();
    let ghost mut seen: int = 0;
    let mut all = true;
    for x in it: a.iter()
        invariant
            it.seq() == keys,
            seen == it.index(),
            all <==> forall|j: int| 0 <= j < it.index() ==> b@.contains(#[trigger] *it.seq()[j]),
    {
        if !b.contains(x) {
            all = false;
        }
        proof {
            seen = seen + 1;
        }
    }
    assert(seen == keys.len());
    assert forall|j: int| 0 <= j < keys.len() implies a@.contains(#[trigger] *keys[j]) by {
        assert(keys.unref()[j] == *keys[j]);
        assert(keys.unref().to_set().contains(*keys[j]));
    }
    if all {
        assert forall|v: u64| #[trigger] a@.contains(v) implies b@.contains(v) by {
            assert(keys.unref().to_set().contains(v));
            let j = choose|j: int| 0 <= j < keys.unref().len() && keys.unref()[j] == v;
            assert(*keys[j] == v);
        }
    }
    all
}

/// What a run knows of the incremental file: the data read from it when it
/// was made with the same plugins, the data to write, and whether the run
/// covers only some of the files.
#[derive(Debug)]
pub struct IncrementalState {
    pub read_data: Option<IncrementalFileData>,
    pub write_data: IncrementalFileData,
    pub is_partial_run: bool,
}

/// Whether the incremental file is used: unless the command line, or else
/// the configuration, turns it off.
pub fn use_incremental(cli_arg: Option<bool>, config: Option<bool>) -> (r: bool)
    ensures
        r == match cli_arg {
            Some(b) => b,
            None => match config {
                Some(b) => b,
                None => true,
            },
        },
{
    match cli_arg {
        Some(b) => b,
        None => match config {
            Some(b) => b,
            None => true,
        },
    }
}

/// The hashes of the data to write when the file is written: for a partial
/// run over data read with the same plugins, what was seen together with what
/// was read; otherwise what was seen. `None` when the read data already holds
/// everything seen, and the file is left as it is.
pub open spec fn spec_write_plan(
    read: Option<Set<u64>>,
    written: Set<u64>,
    is_partial_run: bool,
) -> Option<Set<u64>> {
    match read {
        Some(r) => if written.subset_of(r) {
            None
        } else if is_partial_run {
            Some(written.union(r))
        } else {
            Some(written)
        },
        None => Some(written),
    }
}

impl IncrementalState {
    /// The state of a run with the given plugins: the data read is kept only
    /// when it was made with the same plugins.
    pub fn new(read_data: Option<IncrementalFileData>, plugins_hash: u64, is_partial_run: bool) -> (r: IncrementalState)
        ensures
            match read_data {
                Some(d) if d.plugins_hash == plugins_hash => r.read_data == Some(d),
                _ => r.read_data is None,
            },
            r.write_data.plugins_hash == plugins_hash,
            r.write_data.hash_set() == Set::<u64>::empty(),
            r.is_partial_run == is_partial_run,
    {
        let read = match read_data {
            Some(d) => if d.plugins_hash == plugins_hash {
                Some(d)
            } else {
                None
            },
            None => None,
        };
        IncrementalState { read_data: read, write_data: IncrementalFileData::new(plugins_hash), is_partial_run }
    }

    /// Whether a file with this hash is known to be formatted; if so it is
    /// remembered for the next run.
    pub fn is_file_known_formatted(&mut self, hash: u64) -> (r: bool)
        ensures
            r == (old(self).read_data matches Some(d) && d.hash_set().contains(hash)),
            final(self).read_data == old(self).read_data,
            final(self).is_partial_run == old(self).is_partial_run,
            final(self).write_data.plugins_hash == old(self).write_data.plugins_hash,
            final(self).write_data.hash_set() == if r {
                old(self).write_data.hash_set().insert(hash)
            } else {
                old(self).write_data.hash_set()
            },
    {
        let known = match &self.read_data {
            Some(d) => d.contains(hash),
            None => false,
        };
        if known {
            self.write_data.insert(hash);
        }
        known
    }

    /// Remembers the hash of a file as it is after formatting.
    pub fn update_file(&mut self, hash: u64)
        ensures
            final(self).read_data == old(self).read_data,
            final(self).is_partial_run == old(self).is_partial_run,
            final(self).write_data.plugins_hash == old(self).write_data.plugins_hash,
            final(self).write_data.hash_set() == old(self).write_data.hash_set().insert(hash),
    {
        self.write_data.insert(hash);
    }

    /// The data to write back (see [`spec_write_plan`]).
    pub fn write_plan(&self) -> (r: Option<IncrementalFileData>)
        ensures
            match spec_write_plan(
                match self.read_data {
                    Some(d) => Some(d.hash_set()),
                    None => None,
                },
                self.write_data.hash_set(),
                self.is_partial_run,
            ) {
                Some(s) => r matches Some(d) && d.hash_set() == s && d.plugins_hash == self.write_data.plugins_hash,
                None => r is None,
            },
    {
        let written = &self.write_data.file_hashes;
        let mut hashes: HashSet<u64> = HashSet::new();
        match &self.read_data {
            Some(read) => {
                if is_subset(written, &read.file_hashes) {
                    return None;
                }
                add_all(written, &mut hashes);
                if self.is_partial_run {
                    add_all(&read.file_hashes, &mut hashes);
                }
            },
            None => {
                add_all(written, &mut hashes);
            },
        }
        assert(hashes@ =~= match spec_write_plan(
            match self.read_data {
                Some(d) => Some(d.hash_set()),
                None => None,
            },
            self.write_data.hash_set(),
            self.is_partial_run,
        ) {
            Some(s) => s,
            None => hashes@,
        });
        Some(IncrementalFileData { plugins_hash: self.write_data.plugins_hash, file_hashes: hashes })
    }
}

} // verus!
