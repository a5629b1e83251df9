use std::collections::HashMap;

use usn_journal_rs::path_resolver::{join_path, PathResolver, Resolution};

fn w(s: &str) -> Vec<u16> {
    s.encode_utf16().collect()
}

/// Answers the resolver's lookups from a table, counting them.
struct Volume {
    paths: HashMap<u64, Vec<u16>>,
    lookups: Vec<u64>,
}

impl Volume {
    fn new(paths: &[(u64, &str)]) -> Self {
        Volume { paths: paths.iter().map(|(id, p)| (*id, w(p))).collect(), lookups: Vec::new() }
    }
}

fn resolve(r: &mut PathResolver, v: &mut Volume, fid: u64, parent: u64, name: &str, is_dir: bool) -> Option<String> {
    let name = w(name);
    let path = match r.resolve_path(fid, parent, &name) {
        Resolution::Resolved(p) => Some(p),
        Resolution::NeedsLookup(id) => {
            assert_eq!(id, parent);
            v.lookups.push(id);
            let found = v.paths.get(&id).cloned();
            r.complete_lookup(fid, parent, &name, is_dir, found)
        }
    };
    path.map(|p| String::from_utf16(&p).unwrap())
}

#[test]
fn resolving_twice_needs_no_second_lookup() {
    let mut r = PathResolver::new();
    let mut v = Volume::new(&[(200, "C:\\Users\\me")]);
    let first = resolve(&mut r, &mut v, 300, 200, "notes.txt", false);
    assert_eq!(first.as_deref(), Some("C:\\Users\\me\\notes.txt"));
    assert_eq!(v.lookups, vec![200]);
    let second = resolve(&mut r, &mut v, 300, 200, "notes.txt", false);
    assert_eq!(second, first);
    assert_eq!(v.lookups, vec![200]);

    // The same for a directory, whose own id is cached.
    let first = resolve(&mut r, &mut v, 400, 200, "docs", true);
    let second = resolve(&mut r, &mut v, 400, 200, "docs", true);
    assert_eq!(first.as_deref(), Some("C:\\Users\\me\\docs"));
    assert_eq!(second, first);
    assert_eq!(v.lookups, vec![200]);
}

#[test]
fn least_recently_used_directory_is_evicted() {
    // Room for two paths; a chain of directories d1 (under the root 5),
    // d2 under d1, d3 under d2.
    let mut r = PathResolver::with_capacity(2);
    let mut v = Volume::new(&[(5, "C:\\")]);
    assert_eq!(resolve(&mut r, &mut v, 11, 5, "d1", true).as_deref(), Some("C:\\d1"));
    assert_eq!(resolve(&mut r, &mut v, 12, 11, "d2", true).as_deref(), Some("C:\\d1\\d2"));
    assert_eq!(resolve(&mut r, &mut v, 13, 12, "d3", true).as_deref(), Some("C:\\d1\\d2\\d3"));
    assert_eq!(v.lookups, vec![5]);
    // d1, the least recently used, is gone: resolving it again costs exactly
    // one lookup, and then it is cached again.
    assert_eq!(resolve(&mut r, &mut v, 11, 5, "d1", true).as_deref(), Some("C:\\d1"));
    assert_eq!(v.lookups, vec![5, 5]);
    assert_eq!(resolve(&mut r, &mut v, 11, 5, "d1", true).as_deref(), Some("C:\\d1"));
    assert_eq!(v.lookups, vec![5, 5]);
}

#[test]
fn snapshot_of_three_records_resolves_in_order() {
    // Directory A under the volume root (id 5), directory B under A, file C
    // under B, in buffer order.
    let mut r = PathResolver::new();
    let mut v = Volume::new(&[(5, "")]);
    let a = resolve(&mut r, &mut v, 100, 5, "A", true);
    let b = resolve(&mut r, &mut v, 200, 100, "B", true);
    let c = resolve(&mut r, &mut v, 300, 200, "C", false);
    assert_eq!(a.as_deref(), Some("A"));
    assert_eq!(b.as_deref(), Some("A\\B"));
    assert_eq!(c.as_deref(), Some("A\\B\\C"));
    // Only the root needed a lookup: A is cached as a directory, so B comes
    // from it, and C from B.
    assert_eq!(v.lookups, vec![5]);
}

#[test]
fn failed_lookup_gives_no_path_and_caches_nothing() {
    let mut r = PathResolver::new();
    let mut v = Volume::new(&[]);
    assert_eq!(resolve(&mut r, &mut v, 300, 200, "x", true), None);
    assert_eq!(resolve(&mut r, &mut v, 300, 200, "x", true), None);
    assert_eq!(v.lookups, vec![200, 200]);
}

#[test]
fn plain_files_are_not_cached_under_their_own_id() {
    let mut r = PathResolver::new();
    let mut v = Volume::new(&[(200, "C:\\dir"), (999, "C:\\other")]);
    assert_eq!(resolve(&mut r, &mut v, 300, 200, "f.txt", false).as_deref(), Some("C:\\dir\\f.txt"));
    // Seen again under another, unknown parent: the file's own id was not
    // kept, so the new parent is looked up.
    assert_eq!(resolve(&mut r, &mut v, 300, 999, "f.txt", false).as_deref(), Some("C:\\other\\f.txt"));
    assert_eq!(v.lookups, vec![200, 999]);
    // A directory is kept: its id answers even under an unknown parent.
    assert_eq!(resolve(&mut r, &mut v, 400, 200, "sub", true).as_deref(), Some("C:\\dir\\sub"));
    assert_eq!(resolve(&mut r, &mut v, 400, 12345, "sub", true).as_deref(), Some("C:\\dir\\sub"));
    assert_eq!(v.lookups, vec![200, 999]);
}

#[test]
fn join_path_adds_one_separator() {
    assert_eq!(join_path(&w("C:\\"), &w("A")), w("C:\\A"));
    assert_eq!(join_path(&w(""), &w("A")), w("A"));
    assert_eq!(join_path(&w("X"), &w("Y")), w("X\\Y"));
    assert_eq!(join_path(&w("X"), &w("")), w("X\\"));
}

#[test]
fn resolving_into_a_full_cache_drops_only_the_coldest() {
    // Room for three paths: the root 5, then directories 11 and 12 under it.
    let mut r = PathResolver::with_capacity(3);
    let mut v = Volume::new(&[(5, "C:\\"), (7, "C:\\seven")]);
    assert_eq!(resolve(&mut r, &mut v, 11, 5, "a", true).as_deref(), Some("C:\\a"));
    assert_eq!(resolve(&mut r, &mut v, 12, 5, "b", true).as_deref(), Some("C:\\b"));
    assert_eq!(v.lookups, vec![5]);
    // Full, coldest first: 11. A new directory under the cached 12 pushes 11 out.
    assert_eq!(resolve(&mut r, &mut v, 13, 12, "c", true).as_deref(), Some("C:\\b\\c"));
    assert_eq!(v.lookups, vec![5]);
    // 12, 13 and the root are still cached; 11 needs its parent again, still cached.
    assert_eq!(resolve(&mut r, &mut v, 13, 999, "c", true).as_deref(), Some("C:\\b\\c"));
    assert_eq!(resolve(&mut r, &mut v, 12, 999, "b", true).as_deref(), Some("C:\\b"));
    assert_eq!(resolve(&mut r, &mut v, 11, 7, "a", true).as_deref(), Some("C:\\seven\\a"));
    assert_eq!(v.lookups, vec![5, 7]);
}
