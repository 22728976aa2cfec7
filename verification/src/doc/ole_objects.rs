//! Embedded OLE object recognition (Excel workbooks, Equation
//! Editor/MathType, OLE Package, embedded Word/PowerPoint, ...) inside a
//! DOC's `ObjectPool` storage, from the compound file's directory.

use vstd::prelude::*;
use crate::text::{ascii_lower_seq, eq_ignore_ascii_case};

verus! {

/// "No sibling/child" in a compound-file directory entry.
pub const NO_ENTRY: u32 = 0xFFFF_FFFF;

/// How many directory entries one walk visits at most: the tree comes from
/// an untrusted file, so a corrupted sibling chain must not spin without
/// bound.
pub const MAX_ENTRIES_WALKED: usize = 50_000;

/// The kind of a compound-file directory entry.
#[derive(Debug, Clone, Copy, PartialEq, Eq, Structural)]
pub enum EntryType {
    Empty,
    Storage,
    Stream,
    RootStorage,
}

/// One compound-file directory entry, as the directory stores it.
#[derive(Debug, Clone)]
pub struct DirEntry {
    /// The entry's name.
    pub name: String,
    /// Storage, stream or root.
    pub entry_type: EntryType,
    /// Red-black tree colour.
    pub color: u8,
    /// Left sibling in the red-black tree, or `NO_ENTRY`.
    pub left_sibling: u32,
    /// Right sibling in the red-black tree, or `NO_ENTRY`.
    pub right_sibling: u32,
    /// Root of this storage's children, or `NO_ENTRY`.
    pub child: u32,
    /// First sector of a stream.
    pub start_sector: u32,
    /// Size of a stream in bytes.
    pub stream_size: u64,
}

/// One embedded OLE object found under `ObjectPool`.
#[derive(Debug, Clone, PartialEq, Eq)]
pub struct EmbeddedOleObject {
    /// Human-readable identity, e.g. `"Embedded Microsoft Excel Workbook"`.
    pub description: String,
}

/// Whether `name` names directory entry `node` of `entries` (ignoring
/// ASCII case).
pub open spec fn name_is(entries: Seq<DirEntry>, node: int, name: Seq<char>) -> bool {
    ascii_lower_seq(entries[node].name@) == ascii_lower_seq(name)
}

/// Whether a popped node is walked: within the visit bound, not
/// `NO_ENTRY`, and an index of `entries`.
pub open spec fn walks(entries: Seq<DirEntry>, node: u32, visited: int) -> bool {
    visited <= MAX_ENTRIES_WALKED && node != NO_ENTRY && (node as int) < entries.len()
}

/// The entry indices a depth-first walk with explicit stack `stack`
/// reaches: pop a node, count it as visited, and when it is walked yield
/// it and push its left then right sibling.
pub open spec fn spec_walk(entries: Seq<DirEntry>, stack: Seq<u32>, visited: int) -> Seq<usize>
    decreases (if visited <= MAX_ENTRIES_WALKED { MAX_ENTRIES_WALKED + 1 - visited } else { 0 }), stack.len(),
{
    if stack.len() == 0 || visited < 0 {
        Seq::empty()
    } else {
        let node = stack.last();
        let rest = stack.drop_last();
        let v = visited + 1;
        if walks(entries, node, v) {
            let e = entries[node as int];
            seq![node as usize] + spec_walk(entries, rest.push(e.left_sibling).push(e.right_sibling), v)
        } else {
            spec_walk(entries, rest, v)
        }
    }
}

/// The first entry the same walk reaches whose name is `name`.
pub open spec fn spec_find(entries: Seq<DirEntry>, stack: Seq<u32>, visited: int, name: Seq<char>) -> Option<usize>
    decreases (if visited <= MAX_ENTRIES_WALKED { MAX_ENTRIES_WALKED + 1 - visited } else { 0 }), stack.len(),
{
    if stack.len() == 0 || visited < 0 {
        None
    } else {
        let node = stack.last();
        let rest = stack.drop_last();
        let v = visited + 1;
        if walks(entries, node, v) {
            let e = entries[node as int];
            if name_is(entries, node as int, name) {
                Some(node as usize)
            } else {
                spec_find(entries, rest.push(e.left_sibling).push(e.right_sibling), v, name)
            }
        } else {
            spec_find(entries, rest, v, name)
        }
    }
}

/// Find a direct child of the tree rooted at `root` named `name`, ignoring
/// ASCII case; the walk is bounded by `MAX_ENTRIES_WALKED` visits.
pub fn find_direct_child(entries: &[DirEntry], root: u32, name: &str) -> (r: Option<usize>)
    ensures
        r == spec_find(entries@, seq![root], 0, name@),
{
    let mut stack: Vec<u32> = Vec::new();
    stack.push(root);
    let mut visited: usize = 0;
    let ghost target = spec_find(entries@, seq![root], 0, name@);
    proof {
        assert(stack@ =~= seq![root]);
    }
    while stack.len() > 0 && visited < MAX_ENTRIES_WALKED
        invariant
            target == spec_find(entries@, seq![root], 0, name@),
            spec_find(entries@, stack@, visited as int, name@) == target,
            visited <= MAX_ENTRIES_WALKED,
        decreases MAX_ENTRIES_WALKED - visited, stack@.len(),
    {
        let ghost before = stack@;
        let ghost old_v = visited as int;
        let node = stack.pop().unwrap();
        proof {
            assert(before.drop_last() =~= stack@);
            assert(before.last() == node);
        }
        visited = visited + 1;
        if node == NO_ENTRY || node as usize >= entries.len() {
            assert(spec_find(entries@, before, old_v, name@) == spec_find(entries@, stack@, visited as int, name@));
            continue;
        }
        let entry = &entries[node as usize];
        proof {
            assert(spec_find(entries@, before, old_v, name@) == if name_is(entries@, node as int, name@) {
                Some(node as usize)
            } else {
                spec_find(entries@, stack@.push(entry.left_sibling).push(entry.right_sibling), visited as int, name@)
            });
        }
        let nm = entry.name.as_str();
        proof {
            assert(nm@ == entries@[node as int].name@);
        }
        if eq_ignore_ascii_case(nm, name) {
            return Some(node as usize);
        }
        stack.push(entry.left_sibling);
        stack.push(entry.right_sibling);
    }
    proof {
        if stack@.len() > 0 {
            lemma_find_saturated(entries@, stack@, visited as int, name@);
        }
    }
    None
}

proof fn lemma_find_saturated(entries: Seq<DirEntry>, stack: Seq<u32>, visited: int, name: Seq<char>)
    requires
        visited >= MAX_ENTRIES_WALKED,
    ensures
        spec_find(entries, stack, visited, name) is None,
    decreases stack.len(),
{
    if stack.len() > 0 {
        lemma_find_saturated(entries, stack.drop_last(), visited + 1, name);
    }
}

proof fn lemma_walk_saturated(entries: Seq<DirEntry>, stack: Seq<u32>, visited: int)
    requires
        visited >= MAX_ENTRIES_WALKED,
    ensures
        spec_walk(entries, stack, visited) =~= Seq::<usize>::empty(),
    decreases stack.len(),
{
    if stack.len() > 0 {
        lemma_walk_saturated(entries, stack.drop_last(), visited + 1);
    }
}

/// All directory entry indices in the tree rooted at `root`, in walk
/// order, the walk bounded by `MAX_ENTRIES_WALKED` visits.
pub fn collect_children(entries: &[DirEntry], root: u32) -> (r: Vec<usize>)
    ensures
        r@ == spec_walk(entries@, seq![root], 0),
{
    let mut out: Vec<usize> = Vec::new();
    let mut stack: Vec<u32> = Vec::new();
    stack.push(root);
    let mut visited: usize = 0;
    let ghost target = spec_walk(entries@, seq![root], 0);
    proof {
        assert(stack@ =~= seq![root]);
        assert(out@ + spec_walk(entries@, stack@, 0) =~= target);
    }
    while stack.len() > 0 && visited < MAX_ENTRIES_WALKED
        invariant
            out@ + spec_walk(entries@, stack@, visited as int) == target,
            visited <= MAX_ENTRIES_WALKED,
        decreases MAX_ENTRIES_WALKED - visited, stack@.len(),
    {
        let ghost before = stack@;
        let node = stack.pop().unwrap();
        proof {
            assert(before.drop_last() =~= stack@);
            assert(before.last() == node);
        }
        visited = visited + 1;
        if node == NO_ENTRY || node as usize >= entries.len() {
            continue;
        }
        let entry = &entries[node as usize];
        proof {
            let tail = spec_walk(entries@, stack@.push(entry.left_sibling).push(entry.right_sibling), visited as int);
            assert(spec_walk(entries@, before, visited - 1) == seq![node as usize] + tail);
            assert(out@.push(node as usize) + tail =~= out@ + (seq![node as usize] + tail));
        }
        out.push(node as usize);
        stack.push(entry.left_sibling);
        stack.push(entry.right_sibling);
    }
    proof {
        if stack@.len() > 0 {
            lemma_walk_saturated(entries@, stack@, visited as int);
        }
        assert(out@ =~= target);
    }
    out
}

/// Whether one of `names` is `n`, ignoring ASCII case.
pub open spec fn has_name(names: Seq<Seq<char>>, n: Seq<char>) -> bool {
    exists|k: int| 0 <= k < names.len() && ascii_lower_seq(#[trigger] names[k]) == ascii_lower_seq(n)
}

/// The identity of an embedded object from the stream names directly in
/// its storage, most specific first.
pub open spec fn spec_classify(names: Seq<Seq<char>>) -> Option<Seq<char>> {
    if has_name(names, "Workbook"@) || has_name(names, "Book"@) {
        Some("Embedded Microsoft Excel Workbook"@)
    } else if has_name(names, "Equation Native"@) {
        Some("Embedded Equation Editor/MathType Object"@)
    } else if has_name(names, "WordDocument"@) {
        Some("Embedded Microsoft Word Document"@)
    } else if has_name(names, "PowerPoint Document"@) {
        Some("Embedded Microsoft PowerPoint Presentation"@)
    } else if has_name(names, "Package"@) {
        Some("Embedded OLE Package"@)
    } else if has_name(names, "\u{1}CompObj"@) || has_name(names, "\u{1}Ole"@) {
        Some("Embedded OLE Object"@)
    } else {
        None
    }
}

/// The characters of each name.
pub open spec fn name_views(names: Seq<&str>) -> Seq<Seq<char>> {
    names.map_values(|s: &str| s@)
}

fn has(names: &[&str], n: &str) -> (r: bool)
    ensures
        r == has_name(name_views(names@), n@),
{
    let mut i: usize = 0;
    while i < names.len()
        invariant
            i <= names@.len(),
            forall|k: int| 0 <= k < i ==> ascii_lower_seq(#[trigger] name_views(names@)[k]) != ascii_lower_seq(n@),
        decreases names@.len() - i,
    {
        if eq_ignore_ascii_case(names[i], n) {
            assert(ascii_lower_seq(name_views(names@)[i as int]) == ascii_lower_seq(n@));
            return true;
        }
        i = i + 1;
    }
    false
}

/// Classify one embedded object's storage by the well-known stream names
/// it directly contains, most specific first.
pub fn classify(names: &[&str]) -> (r: Option<String>)
    ensures
        r matches Some(s) ==> spec_classify(name_views(names@)) == Some(s@),
        r is None ==> spec_classify(name_views(names@)) is None,
{
    if has(names, "Workbook") || has(names, "Book") {
        Some("Embedded Microsoft Excel Workbook".to_owned())
    } else if has(names, "Equation Native") {
        Some("Embedded Equation Editor/MathType Object".to_owned())
    } else if has(names, "WordDocument") {
        Some("Embedded Microsoft Word Document".to_owned())
    } else if has(names, "PowerPoint Document") {
        Some("Embedded Microsoft PowerPoint Presentation".to_owned())
    } else if has(names, "Package") {
        Some("Embedded OLE Package".to_owned())
    } else if has(names, "\u{1}CompObj") || has(names, "\u{1}Ole") {
        Some("Embedded OLE Object".to_owned())
    } else {
        None
    }
}

proof fn lemma_walk_in_range(entries: Seq<DirEntry>, stack: Seq<u32>, visited: int)
    ensures
        forall|k: int| 0 <= k < spec_walk(entries, stack, visited).len() ==> (#[trigger] spec_walk(entries, stack, visited)[k]) < entries.len(),
    decreases (if visited <= MAX_ENTRIES_WALKED { MAX_ENTRIES_WALKED + 1 - visited } else { 0 }), stack.len(),
{
    if stack.len() == 0 || visited < 0 {
    } else {
        let node = stack.last();
        let rest = stack.drop_last();
        let v = visited + 1;
        if walks(entries, node, v) {
            let e = entries[node as int];
            lemma_walk_in_range(entries, rest.push(e.left_sibling).push(e.right_sibling), v);
            let tail = spec_walk(entries, rest.push(e.left_sibling).push(e.right_sibling), v);
            assert forall|k: int| 0 <= k < spec_walk(entries, stack, visited).len() implies (#[trigger] spec_walk(entries, stack, visited)[k]) < entries.len() by {
                if k > 0 {
                    assert(spec_walk(entries, stack, visited)[k] == tail[k - 1]);
                }
            }
        } else {
            lemma_walk_in_range(entries, rest, v);
            assert(spec_walk(entries, stack, visited) == spec_walk(entries, rest, v));
        }
    }
}

/// The names of the entries `idx`.
pub open spec fn names_of(entries: Seq<DirEntry>, idx: Seq<usize>) -> Seq<Seq<char>> {
    idx.map_values(|i: usize| entries[i as int].name@)
}

/// The identity of entry `obj` under `ObjectPool`: when it is a storage,
/// the classification of the names of the entries directly in it.
pub open spec fn spec_object_description(entries: Seq<DirEntry>, obj: usize) -> Option<Seq<char>> {
    if entries[obj as int].entry_type != EntryType::Storage {
        None
    } else {
        spec_classify(names_of(entries, spec_walk(entries, seq![entries[obj as int].child], 0)))
    }
}

/// The identities of the objects `objs` that have one, in order.
pub open spec fn spec_descriptions(entries: Seq<DirEntry>, objs: Seq<usize>) -> Seq<Seq<char>>
    decreases objs.len(),
{
    if objs.len() == 0 {
        Seq::empty()
    } else {
        let prev = spec_descriptions(entries, objs.drop_last());
        match spec_object_description(entries, objs.last()) {
            Some(d) => prev.push(d),
            None => prev,
        }
    }
}

/// The embedded objects of a compound file's directory: the root's
/// `ObjectPool` storage (found ignoring ASCII case), then each storage
/// directly in it that a well-known stream name identifies.
pub open spec fn spec_extract_ole(entries: Seq<DirEntry>) -> Seq<Seq<char>> {
    if entries.len() == 0 || entries[0].entry_type != EntryType::RootStorage {
        Seq::empty()
    } else {
        match spec_find(entries, seq![entries[0].child], 0, "ObjectPool"@) {
            None => Seq::empty(),
            Some(p) => {
                let t = entries[p as int].entry_type;
                if t != EntryType::Storage && t != EntryType::RootStorage {
                    Seq::empty()
                } else {
                    spec_descriptions(entries, spec_walk(entries, seq![entries[p as int].child], 0))
                }
            },
        }
    }
}

proof fn lemma_find_in_range(entries: Seq<DirEntry>, stack: Seq<u32>, visited: int, name: Seq<char>)
    ensures
        spec_find(entries, stack, visited, name) matches Some(p) ==> p < entries.len(),
    decreases (if visited <= MAX_ENTRIES_WALKED { MAX_ENTRIES_WALKED + 1 - visited } else { 0 }), stack.len(),
{
    if stack.len() == 0 || visited < 0 {
    } else {
        let node = stack.last();
        let rest = stack.drop_last();
        let v = visited + 1;
        if walks(entries, node, v) {
            let e = entries[node as int];
            lemma_find_in_range(entries, rest.push(e.left_sibling).push(e.right_sibling), v, name);
        } else {
            lemma_find_in_range(entries, rest, v, name);
        }
    }
}

/// Find every embedded object under the root's `ObjectPool` storage and
/// identify each by the stream names inside its own storage; empty when
/// there is no `ObjectPool` or it is not a storage.
pub fn extract_ole_objects(entries: &[DirEntry]) -> (r: Vec<EmbeddedOleObject>)
    ensures
        r@.map_values(|o: EmbeddedOleObject| o.description@) == spec_extract_ole(entries@),
{
    let mut out: Vec<EmbeddedOleObject> = Vec::new();
    if entries.len() == 0 || entries[0].entry_type != EntryType::RootStorage {
        return out;
    }
    let pool_idx = match find_direct_child(entries, entries[0].child, "ObjectPool") {
        Some(p) => p,
        None => {
            return out;
        },
    };
    proof {
        lemma_find_in_range(entries@, seq![entries@[0].child], 0, "ObjectPool"@);
    }
    let pool = &entries[pool_idx];
    if pool.entry_type != EntryType::Storage && pool.entry_type != EntryType::RootStorage {
        return out;
    }
    let objs = collect_children(entries, pool.child);
    proof {
        lemma_walk_in_range(entries@, seq![pool.child], 0);
    }
    let mut i: usize = 0;
    while i < objs.len()
        invariant
            i <= objs@.len(),
            forall|k: int| 0 <= k < objs@.len() ==> (#[trigger] objs@[k]) < entries@.len(),
            out@.map_values(|o: EmbeddedOleObject| o.description@) == spec_descriptions(entries@, objs@.take(i as int)),
        decreases objs@.len() - i,
    {
        let obj_idx = objs[i];
        proof {
            assert(objs@.take(i + 1 as int).drop_last() =~= objs@.take(i as int));
            assert(objs@.take(i + 1 as int).last() == obj_idx);
        }
        let obj = &entries[obj_idx];
        if obj.entry_type != EntryType::Storage {
            i = i + 1;
            continue;
        }
        let children = collect_children(entries, obj.child);
        proof {
            lemma_walk_in_range(entries@, seq![obj.child], 0);
        }
        let mut names: Vec<&str> = Vec::new();
        let mut j: usize = 0;
        while j < children.len()
            invariant
                j <= children@.len(),
                forall|k: int| 0 <= k < children@.len() ==> (#[trigger] children@[k]) < entries@.len(),
                name_views(names@) =~= names_of(entries@, children@.take(j as int)),
            decreases children@.len() - j,
        {
            let c = children[j];
            let nm = entries[c].name.as_str();
            let ghost before = names@;
            names.push(nm);
            proof {
                assert(nm@ == entries@[c as int].name@);
                assert(children@.take(j + 1 as int) =~= children@.take(j as int).push(c));
                assert(names@ =~= before.push(nm));
                assert(name_views(names@) =~= name_views(before).push(nm@));
                assert(names_of(entries@, children@.take(j + 1 as int)) =~= names_of(entries@, children@.take(j as int)).push(entries@[c as int].name@));
            }
            j = j + 1;
        }
        proof {
            assert(children@.take(children@.len() as int) =~= children@);
        }
        match classify(names.as_slice()) {
            Some(description) => {
                let ghost before = out@.map_values(|o: EmbeddedOleObject| o.description@);
                out.push(EmbeddedOleObject { description });
                proof {
                    assert(out@.map_values(|o: EmbeddedOleObject| o.description@) =~= before.push(description@));
                }
            },
            None => {},
        }
        i = i + 1;
    }
    proof {
        assert(objs@.take(objs@.len() as int) =~= objs@);
    }
    out
}

} // verus!
