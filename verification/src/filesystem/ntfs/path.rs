//! NTFS path reconstruction. Each record's best `$FILE_NAME` names one link
//! and its parent directory; a full path comes from walking the parent chain
//! up to the root (record 5). Walks that break (missing parent, cycle, more
//! than 256 steps) are rooted under `/$Orphan`. Resolutions are memoized.

use crate::filesystem::ntfs::attribute::FileName;
use crate::strings::push_char;
use std::collections::{HashMap, HashSet};
use vstd::prelude::*;

verus! {

broadcast use vstd::std_specs::hash::group_hash_axioms;

/// MFT record number of the volume root directory.
pub const ROOT_RECORD: u64 = 5;

/// Longest parent chain walked.
pub const MAX_DEPTH: usize = 256;

/// Record number to `(parent, leaf name)`, as the contracts see it.
pub type Links = Map<u64, (u64, String)>;

/// Leaf names met walking up from `cursor` (leaf first) for at most `steps`
/// links, and whether the walk failed to reach the root.
pub open spec fn chain(e: Links, cursor: u64, steps: nat, seen: Set<u64>) -> (Seq<Seq<char>>, bool)
    decreases steps,
{
    if cursor == ROOT_RECORD {
        (Seq::empty(), false)
    } else if steps == 0 {
        (Seq::empty(), true)
    } else if seen.contains(cursor) || !e.contains_key(cursor) {
        (Seq::empty(), true)
    } else {
        let rest = chain(e, e[cursor].0, (steps - 1) as nat, seen.insert(cursor));
        (seq![e[cursor].1@] + rest.0, rest.1)
    }
}

/// `/`-joined names, the last of `parts` first.
pub open spec fn join_reversed(parts: Seq<Seq<char>>) -> Seq<char>
    decreases parts.len(),
{
    if parts.len() == 0 {
        Seq::empty()
    } else {
        join_reversed(parts.drop_first()) + seq!['/'] + parts[0]
    }
}

/// The path of `record` given the links `e`.
pub open spec fn resolved_path(e: Links, record: u64) -> Seq<char> {
    if record == ROOT_RECORD {
        seq!['/']
    } else {
        let c = chain(e, record, MAX_DEPTH as nat, Set::empty());
        let p = (if c.1 {
            "/$Orphan"@
        } else {
            Seq::empty()
        }) + join_reversed(c.0);
        if p.len() == 0 {
            seq!['/']
        } else {
            p
        }
    }
}

/// `/`-joined names start with `/` when there is at least one.
proof fn lemma_join_starts_with_slash(parts: Seq<Seq<char>>)
    requires
        parts.len() > 0,
    ensures
        join_reversed(parts).len() > 0,
        join_reversed(parts)[0] == '/',
    decreases parts.len(),
{
    let j = join_reversed(parts.drop_first());
    if parts.drop_first().len() > 0 {
        lemma_join_starts_with_slash(parts.drop_first());
        assert((j + seq!['/'] + parts[0])[0] == j[0]);
    } else {
        assert(j =~= Seq::<char>::empty());
        assert((j + seq!['/'] + parts[0])[0] == '/');
    }
}

/// A registered record (not the root) whose parent chain breaks (a missing
/// parent, a cycle, or more than 256 links) resolves under `/$Orphan/`,
/// followed by the names met on the way up, leaf last.
pub proof fn law_broken_chain_is_orphan(e: Links, record: u64)
    requires
        record != ROOT_RECORD,
        e.contains_key(record),
        chain(e, record, MAX_DEPTH as nat, Set::empty()).1,
    ensures
        resolved_path(e, record) == "/$Orphan"@ + join_reversed(chain(e, record, MAX_DEPTH as nat, Set::empty()).0),
        resolved_path(e, record).len() >= 9,
        resolved_path(e, record).subrange(0, 9) == "/$Orphan/"@,
{
    let c = chain(e, record, MAX_DEPTH as nat, Set::empty());
    assert(c.0.len() > 0);
    lemma_join_starts_with_slash(c.0);
    reveal_strlit("/$Orphan");
    reveal_strlit("/$Orphan/");
    let p = "/$Orphan"@ + join_reversed(c.0);
    assert(p.len() > 0);
    assert(p.subrange(0, 9) =~= "/$Orphan/"@);
}

#[derive(Debug)]
pub struct PathResolver {
    /// `record -> (parent_record, leaf_name)`.
    entries: HashMap<u64, (u64, String)>,
    /// Memoized full paths.
    cache: HashMap<u64, String>,
}

impl PathResolver {
    /// The root is never registered, and its memoized path is `/`.
    #[verifier::type_invariant]
    spec fn inv(self) -> bool {
        &&& !self.entries@.contains_key(ROOT_RECORD)
        &&& self.cache@.contains_key(ROOT_RECORD) ==> self.cache@[ROOT_RECORD]@ == seq!['/']
    }

    /// The registered links.
    pub closed spec fn links(&self) -> Links {
        self.entries@
    }

    /// The memoized paths.
    pub closed spec fn cached(&self) -> Map<u64, String> {
        self.cache@
    }

    /// An empty resolver.
    pub fn new() -> (r: Self)
        ensures
            r.links() == Map::<u64, (u64, String)>::empty(),
            r.links().dom().finite(),
            r.cached() == Map::<u64, String>::empty(),
    {
        PathResolver { entries: HashMap::new(), cache: HashMap::new() }
    }

    /// Register one record's best `$FILE_NAME`; the root is never registered.
    pub fn register(&mut self, record: u64, fname: &FileName)
        ensures
            record == ROOT_RECORD ==> final(self).links() == old(self).links(),
            record != ROOT_RECORD ==> final(self).links().dom() == old(self).links().dom().insert(record)
                && final(self).links()[record].0 == fname.parent_record
                && final(self).links()[record].1@ == fname.name@
                && forall|k: u64| k != record && old(self).links().contains_key(k) ==> #[trigger] final(self).links()[k] == old(self).links()[k],
            final(self).cached() == old(self).cached(),
            final(self).links().dom().finite(),
            final(self).links().len() == old(self).links().len() + if record != ROOT_RECORD
                && !old(self).links().contains_key(record) {
                1int
            } else {
                0int
            },
    {
        proof {
            use_type_invariant(&*self);
            assert(self.entries@.dom().finite());
        }
        if record == ROOT_RECORD {
            return;
        }
        let name: String = fname.name.clone();
        let mut entries: HashMap<u64, (u64, String)> = HashMap::new();
        std::mem::swap(&mut entries, &mut self.entries);
        let ghost before: Map<u64, (u64, String)> = entries@;
        entries.insert(record, (fname.parent_record, name));
        proof {
            if before.contains_key(record) {
                assert(entries@.dom() =~= before.dom());
            } else {
                assert(entries@.dom() =~= before.dom().insert(record));
            }
        }
        self.entries = entries;
    }

    /// Resolve `record` to a `/`-rooted path; the first resolution of a record
    /// is remembered and returned by every later call.
    pub fn resolve(&mut self, record: u64) -> (r: String)
        ensures
            old(self).cached().contains_key(record) ==> r@ == old(self).cached()[record]@,
            !old(self).cached().contains_key(record) ==> r@ == resolved_path(old(self).links(), record),
            final(self).links() == old(self).links(),
            final(self).cached().contains_key(record) && final(self).cached()[record]@ == r@,
            final(self).cached().dom() == old(self).cached().dom().insert(record),
            forall|k: u64| k != record && old(self).cached().contains_key(k) ==> #[trigger] final(self).cached()[k] == old(self).cached()[k] && final(self).cached().contains_key(k),
            record == ROOT_RECORD ==> r@ == seq!['/'],
    {
        proof {
            use_type_invariant(&*self);
        }
        match self.cache.get(&record) {
            Some(hit) => {
                return hit.clone();
            },
            None => {},
        }
        let path: String = self.resolve_uncached(record);
        let stored: String = path.clone();
        let mut cache: HashMap<u64, String> = HashMap::new();
        std::mem::swap(&mut cache, &mut self.cache);
        cache.insert(record, stored);
        self.cache = cache;
        path
    }

    /// The path of `record` from the registered links alone.
    #[verifier::loop_isolation(false)]
    pub fn resolve_uncached(&self, record: u64) -> (r: String)
        ensures
            r@ == resolved_path(self.links(), record),
    {
        proof {
            use_type_invariant(self);
        }
        if record == ROOT_RECORD {
            proof {
                reveal_strlit("/");
            }
            return String::from_str("/");
        }
        let ghost e: Links = self.links();
        let mut parts: Vec<String> = Vec::new();
        let mut seen: HashSet<u64> = HashSet::new();
        let mut cursor: u64 = record;
        let mut orphan: bool = false;
        let mut depth: usize = 0;
        let ghost full = chain(e, record, MAX_DEPTH as nat, Set::empty());
        while depth < MAX_DEPTH
            invariant
                e == self.links(),
                depth <= MAX_DEPTH,
                !orphan,
                ({
                    let rest = chain(e, cursor, (MAX_DEPTH - depth) as nat, seen@);
                    &&& full.0 == parts@.map_values(|s: String| s@) + rest.0
                    &&& full.1 == rest.1
                }),
            decreases MAX_DEPTH - depth,
        {
            if cursor == ROOT_RECORD {
                break;
            }
            if seen.contains(&cursor) {
                orphan = true;
                break;
            }
            seen.insert(cursor);
            let (parent, name): (u64, String) = match self.entries.get(&cursor) {
                Some(pn) => (pn.0, pn.1.clone()),
                None => {
                    orphan = true;
                    break;
                },
            };
            let ghost before: Seq<String> = parts@;
            parts.push(name);
            assert(parts@.map_values(|s: String| s@) =~= before.map_values(|s: String| s@).push(
                e[cursor].1@,
            ));
            cursor = parent;
            depth += 1;
        }
        if !orphan && cursor != ROOT_RECORD {
            orphan = true;
        }
        let mut path: String = if orphan {
            String::from_str("/$Orphan")
        } else {
            String::new()
        };
        let ghost prefix: Seq<char> = path@;
        let mut k: usize = parts.len();
        while k > 0
            invariant
                k <= parts@.len(),
                path@ == prefix + join_reversed(parts@.map_values(|s: String| s@).subrange(k as int, parts@.len() as int)),
            decreases k,
        {
            k -= 1;
            let ghost tail: Seq<Seq<char>> = parts@.map_values(|s: String| s@).subrange(k as int, parts@.len() as int);
            assert(tail.drop_first() =~= parts@.map_values(|s: String| s@).subrange(k + 1, parts@.len() as int));
            push_char(&mut path, '/');
            path.append(parts[k].as_str());
            assert(path@ =~= prefix + join_reversed(tail));
        }
        assert(parts@.map_values(|s: String| s@).subrange(0, parts@.len() as int) =~= parts@.map_values(|s: String| s@));
        if path.as_str().is_empty() {
            proof {
                reveal_strlit("/");
            }
            return String::from_str("/");
        }
        path
    }

    /// Number of registered records.
    pub fn known_records(&self) -> (r: usize)
        ensures
            r == self.links().len(),
            self.links().dom().finite(),
    {
        self.entries.len()
    }
}

} // verus!
