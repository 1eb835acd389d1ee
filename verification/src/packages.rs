//! Discovery of ROS message packages: glob the filesystem for `.msg`,
//! `.srv` and `.action` files under a set of root directories, read each
//! file's package name out of its path — both the source layout
//! `…/<package>/<kind>/<file>` and the installed layout with a `share`
//! directory above the kind directory — and group the files by package,
//! sorted by package name with duplicates dropped.
//!
//! Only the `glob` call touches the disk; everything that interprets the
//! returned paths is verified.

use vstd::prelude::*;
use vstd::string::StrSliceExecFns;
use vstd::string::StringExecFns;
use vstd::utf8::encode_utf8;
use crate::format::str_eq;

verus! {

/// Why package discovery failed.
#[derive(Clone, Copy, PartialEq, Eq, Structural, Debug)]
pub enum PackageError {
    /// A search pattern was not a valid glob pattern.
    BadPattern,
    /// A directory entry could not be read while matching.
    Unreadable,
}

/// A message package: its name and the discovered definition files of each
/// kind, as paths.
pub struct Package {
    /// The package name, read from the file paths.
    pub name: String,
    /// Paths of the package's message definition files.
    pub messages: Vec<String>,
    /// Paths of the package's service definition files.
    pub services: Vec<String>,
    /// Paths of the package's action definition files.
    pub actions: Vec<String>,
}

impl Package {
    /// Whether the package holds no definition files at all.
    pub open spec fn spec_is_empty(self) -> bool {
        self.messages@.len() == 0 && self.services@.len() == 0 && self.actions@.len() == 0
    }

    /// A fresh, empty package with the given name.
    pub fn new(name: String) -> (r: Package)
        ensures
            r.name@ == name@,
            r.spec_is_empty(),
    {
        Package { name, messages: Vec::new(), services: Vec::new(), actions: Vec::new() }
    }

    /// Whether the package holds no definition files at all.
    pub fn is_empty(&self) -> (r: bool)
        ensures
            r == self.spec_is_empty(),
    {
        self.messages.len() == 0 && self.services.len() == 0 && self.actions.len() == 0
    }
}

/// The UTF-8 bytes of a package name, the order keys are compared in.
pub open spec fn spec_name_bytes(s: Seq<char>) -> Seq<u8> {
    encode_utf8(s)
}

/// The index of the last occurrence of `c` in `s`, or -1 if it has none.
pub open spec fn spec_last_index(s: Seq<char>, c: char) -> int
    decreases s.len(),
{
    if s.len() == 0 {
        -1
    } else if s.last() == c {
        s.len() - 1
    } else {
        spec_last_index(s.drop_last(), c)
    }
}

/// The last-occurrence index always lies inside the string.
pub proof fn lemma_last_index_bounds(s: Seq<char>, c: char)
    ensures
        -1 <= spec_last_index(s, c) < s.len(),
    decreases s.len(),
{
    if s.len() == 0 {
    } else if s.last() == c {
    } else {
        lemma_last_index_bounds(s.drop_last(), c);
    }
}

/// The index of the last `/` in a path, or -1 if it has none.
pub open spec fn spec_last_slash(s: Seq<char>) -> int {
    spec_last_index(s, '/')
}

/// The final path component: everything after the last `/`, or the whole
/// path if it has none.
pub open spec fn spec_file_part(s: Seq<char>) -> Seq<char> {
    s.skip(spec_last_slash(s) + 1)
}

/// The directory of a path: everything before the last `/`, or empty if it
/// has none.
pub open spec fn spec_dir_part(s: Seq<char>) -> Seq<char> {
    let j = spec_last_slash(s);
    if j < 0 {
        s.take(0)
    } else {
        s.take(j)
    }
}

/// The package name encoded in a discovered file's path. The file sits in
/// a kind directory (`msg`, `srv` or `action`); the directory above that
/// names the package, except that a `share` directory there points one
/// level further up (the installed layout). An empty candidate name means
/// the path is too shallow to name a package.
pub open spec fn spec_package_name(p: Seq<char>) -> Option<Seq<char>> {
    let kind_dir = spec_dir_part(p);
    let package_dir = spec_dir_part(kind_dir);
    let candidate = spec_file_part(package_dir);
    let name = if candidate == "share"@ {
        spec_file_part(spec_dir_part(package_dir))
    } else {
        candidate
    };
    if name.len() == 0 {
        None
    } else {
        Some(name)
    }
}

/// Finds the index of the last occurrence of `c` in a string, if any.
fn last_index_of(s: &str, c: char) -> (r: Option<usize>)
    ensures
        match r {
            Some(j) => spec_last_index(s@, c) == j,
            None => spec_last_index(s@, c) == -1,
        },
{
    let n = s.unicode_len();
    let mut i: usize = n;
    proof {
        assert(s@.take(n as int) =~= s@);
    }
    while i > 0
        invariant
            i <= n,
            n == s@.len(),
            spec_last_index(s@, c) == spec_last_index(s@.take(i as int), c),
        decreases i,
    {
        let here = s.get_char(i - 1);
        proof {
            assert(s@.take(i as int).last() == s@[i - 1]);
            assert(s@.take(i as int).drop_last() =~= s@.take(i - 1));
        }
        if here == c {
            proof {
                lemma_last_index_bounds(s@, c);
            }
            return Some(i - 1);
        }
        i = i - 1;
    }
    proof {
        assert(s@.take(0) =~= Seq::<char>::empty());
    }
    None
}

/// The final path component of a string, as an owned string.
fn file_part(s: &str) -> (r: String)
    ensures
        r@ == spec_file_part(s@),
{
    let n = s.unicode_len();
    proof {
        lemma_last_index_bounds(s@, '/');
    }
    match last_index_of(s, '/') {
        Some(j) => {
            let sub = s.substring_char(j + 1, n);
            String::from_str(sub)
        },
        None => {
            proof {
                assert(s@.skip(0) =~= s@);
            }
            String::from_str(s)
        },
    }
}

/// The directory part of a string, as an owned string.
fn dir_part(s: &str) -> (r: String)
    ensures
        r@ == spec_dir_part(s@),
{
    let n = s.unicode_len();
    proof {
        lemma_last_index_bounds(s@, '/');
    }
    match last_index_of(s, '/') {
        Some(j) => {
            let sub = s.substring_char(0, j);
            String::from_str(sub)
        },
        None => String::new(),
    }
}

/// Reads the package name out of a discovered file's path, handling both
/// the source layout and the installed layout with a `share` directory.
pub fn find_package_name(path: &str) -> (r: Option<String>)
    ensures
        match r {
            Some(name) => spec_package_name(path@) == Some(name@),
            None => spec_package_name(path@) is None,
        },
{
    let kind_dir = dir_part(path);
    let package_dir = dir_part(kind_dir.as_str());
    let candidate = file_part(package_dir.as_str());
    let name: String = if str_eq(candidate.as_str(), "share") {
        let install_dir = dir_part(package_dir.as_str());
        file_part(install_dir.as_str())
    } else {
        candidate
    };
    if name.as_str().unicode_len() == 0 {
        None
    } else {
        Some(name)
    }
}

/// The parts of `s` between `:` separators, in order; empty parts are
/// kept, and a string with no separator is a single part.
pub open spec fn spec_split_colon(s: Seq<char>) -> Seq<Seq<char>>
    decreases s.len(),
    via spec_split_colon_decreases
{
    let j = spec_last_index(s, ':');
    if j < 0 {
        seq![s]
    } else {
        spec_split_colon(s.take(j)).push(s.skip(j + 1))
    }
}

#[via_fn]
proof fn spec_split_colon_decreases(s: Seq<char>) {
    lemma_last_index_bounds(s, ':');
}

/// Splits a search-path list on `:`, as the environment hands it over.
pub fn split_prefix_paths(s: &str) -> (out: Vec<String>)
    ensures
        out@.map_values(|p: String| p@) == spec_split_colon(s@),
    decreases s@.len(),
{
    let n = s.unicode_len();
    proof {
        lemma_last_index_bounds(s@, ':');
    }
    match last_index_of(s, ':') {
        Some(j) => {
            let head = s.substring_char(0, j);
            let tail = s.substring_char(j + 1, n);
            let mut out = split_prefix_paths(head);
            out.push(String::from_str(tail));
            proof {
                assert(out@.map_values(|p: String| p@) =~= spec_split_colon(s@));
            }
            out
        },
        None => {
            let mut out: Vec<String> = Vec::new();
            out.push(String::from_str(s));
            proof {
                assert(out@.map_values(|p: String| p@) =~= spec_split_colon(s@));
            }
            out
        },
    }
}

/// Byte-wise lexicographic order on package-name keys: the order `sort` by
/// a string key uses.
pub open spec fn lex_le(a: Seq<u8>, b: Seq<u8>) -> bool
    decreases a.len(),
{
    if a.len() == 0 {
        true
    } else if b.len() == 0 {
        false
    } else if a[0] < b[0] {
        true
    } else if a[0] > b[0] {
        false
    } else {
        lex_le(a.skip(1), b.skip(1))
    }
}

/// Lexicographic order is reflexive.
pub proof fn lemma_lex_le_refl(a: Seq<u8>)
    ensures
        lex_le(a, a),
    decreases a.len(),
{
    if a.len() > 0 {
        lemma_lex_le_refl(a.skip(1));
    }
}

/// Lexicographic order is total: two keys compare in one direction or the
/// other.
pub proof fn lemma_lex_le_total(a: Seq<u8>, b: Seq<u8>)
    ensures
        lex_le(a, b) || lex_le(b, a),
    decreases a.len(),
{
    if a.len() == 0 || b.len() == 0 {
    } else if a[0] == b[0] {
        lemma_lex_le_total(a.skip(1), b.skip(1));
    }
}

/// Compares two byte keys lexicographically.
fn bytes_le(a: &Vec<u8>, b: &Vec<u8>) -> (r: bool)
    ensures
        r == lex_le(a@, b@),
{
    let na = a.len();
    let nb = b.len();
    let mut i: usize = 0;
    proof {
        assert(a@.skip(0) =~= a@);
        assert(b@.skip(0) =~= b@);
    }
    while i < na && i < nb
        invariant
            i <= na,
            i <= nb,
            na == a@.len(),
            nb == b@.len(),
            lex_le(a@, b@) == lex_le(a@.skip(i as int), b@.skip(i as int)),
        decreases na - i,
    {
        let ca = a[i];
        let cb = b[i];
        proof {
            assert(a@.skip(i as int)[0] == a@[i as int]);
            assert(b@.skip(i as int)[0] == b@[i as int]);
            assert(a@.skip(i as int).skip(1) =~= a@.skip(i + 1));
            assert(b@.skip(i as int).skip(1) =~= b@.skip(i + 1));
        }
        if ca < cb {
            return true;
        }
        if ca > cb {
            return false;
        }
        i = i + 1;
    }
    proof {
        if i >= na {
            assert(a@.skip(i as int).len() == 0);
        } else {
            assert(b@.skip(i as int).len() == 0);
            assert(a@.skip(i as int).len() > 0);
        }
    }
    i >= na
}

/// Whether two byte keys are equal.
fn bytes_eq(a: &Vec<u8>, b: &Vec<u8>) -> (r: bool)
    ensures
        r == (a@ == b@),
{
    let na = a.len();
    let nb = b.len();
    if na != nb {
        return false;
    }
    let mut i: usize = 0;
    while i < na
        invariant
            i <= na,
            na == a@.len(),
            na == b@.len(),
            forall|j: int| 0 <= j < i ==> a@[j] == b@[j],
        decreases na - i,
    {
        if a[i] != b[i] {
            return false;
        }
        i = i + 1;
    }
    proof {
        assert(a@ =~= b@);
    }
    true
}

/// The UTF-8 bytes of a package's name key.
fn name_key(name: &String) -> (r: Vec<u8>)
    ensures
        r@ == spec_name_bytes(name@),
{
    name.as_str().as_bytes_vec()
}

/// A run of packages sorted by name key, with no two neighbours sharing a
/// key and none of them empty.
pub open spec fn spec_well_grouped(s: Seq<Package>) -> bool {
    &&& (forall|i: int| 0 <= i && i + 1 < s.len() ==> lex_le(
        spec_name_bytes(#[trigger] s[i].name@),
        spec_name_bytes(s[i + 1].name@),
    ))
    &&& (forall|i: int| 0 <= i && i + 1 < s.len() ==> spec_name_bytes(#[trigger] s[i].name@)
        != spec_name_bytes(s[i + 1].name@))
    &&& (forall|i: int| 0 <= i < s.len() ==> !(#[trigger] s[i]).spec_is_empty())
}

/// Inserting into a run leaves the elements before the insertion point
/// untouched.
proof fn lemma_insert_prefix(pre: Seq<Package>, pkg: Package, pos: int, a: int)
    requires
        0 <= pos <= pre.len(),
        0 <= a < pos,
    ensures
        pre.insert(pos, pkg)[a] == pre[a],
{
    assert(pre.insert(pos, pkg) == pre.subrange(0, pos).push(pkg) + pre.subrange(
        pos,
        pre.len() as int,
    ));
    assert((pre.subrange(0, pos).push(pkg) + pre.subrange(pos, pre.len() as int))[a]
        == pre.subrange(0, pos).push(pkg)[a]);
    assert(pre.subrange(0, pos).push(pkg)[a] == pre.subrange(0, pos)[a]);
    assert(pre.subrange(0, pos)[a] == pre[a]);
}

/// Inserting a package at its ordered position keeps a run well grouped:
/// everything before it is strictly below its key and, if it displaces an
/// element, that element is strictly above.
proof fn lemma_insert_well_grouped(pre: Seq<Package>, pkg: Package, i: int)
    requires
        spec_well_grouped(pre),
        !pkg.spec_is_empty(),
        0 <= i <= pre.len(),
        forall|j: int| 0 <= j < i ==> lex_le(
            spec_name_bytes(#[trigger] pre[j].name@),
            spec_name_bytes(pkg.name@),
        ) && spec_name_bytes(pre[j].name@) != spec_name_bytes(pkg.name@),
        i < pre.len() ==> lex_le(
            spec_name_bytes(pkg.name@),
            spec_name_bytes(pre[i].name@),
        ) && spec_name_bytes(pkg.name@) != spec_name_bytes(pre[i].name@),
        spec_packages_ok(pre),
        spec_entries_ok(pkg.messages@, pkg.name@),
        spec_entries_ok(pkg.services@, pkg.name@),
        spec_entries_ok(pkg.actions@, pkg.name@),
    ensures
        spec_well_grouped(pre.insert(i, pkg)),
        spec_packages_ok(pre.insert(i, pkg)),
{
    let post = pre.insert(i, pkg);
    pre.insert_ensures(i, pkg);
    assert forall|a: int| 0 <= a && a + 1 < post.len() implies lex_le(
        spec_name_bytes(#[trigger] post[a].name@),
        spec_name_bytes(post[a + 1].name@),
    ) && spec_name_bytes(post[a].name@) != spec_name_bytes(post[a + 1].name@) by {
        if a + 1 < i {
            lemma_insert_prefix(pre, pkg, i, a);
            lemma_insert_prefix(pre, pkg, i, a + 1);
        } else if a + 1 == i {
            lemma_insert_prefix(pre, pkg, i, a);
            assert(post[a + 1] == pkg);
        } else if a == i {
            assert(post[a] == pkg && post[a + 1] == pre[a]);
        } else {
            assert(post[a] == pre[a - 1] && post[a + 1] == pre[a]);
        }
    }
    assert forall|a: int| 0 <= a < post.len() implies !(#[trigger] post[a]).spec_is_empty() by {
        if a < i {
            lemma_insert_prefix(pre, pkg, i, a);
        } else if a == i {
            assert(post[a] == pkg);
        } else {
            assert(post[a] == pre[a - 1]);
        }
    }
    assert forall|a: int| 0 <= a < post.len() implies spec_entries_ok(
        (#[trigger] post[a]).messages@,
        post[a].name@,
    ) && spec_entries_ok(post[a].services@, post[a].name@)
        && spec_entries_ok(post[a].actions@, post[a].name@) by {
        if a < i {
            lemma_insert_prefix(pre, pkg, i, a);
            assert(post[a] == pre[a]);
        } else if a == i {
            assert(post[a] == pkg);
        } else {
            assert(post[a] == pre[a - 1]);
        }
    }
}

/// Inserts a package into a name-sorted run, keeping it sorted; a package
/// whose name is already present is dropped (the earlier one is kept).
fn insert_sorted(out: &mut Vec<Package>, pkg: Package)
    requires
        spec_well_grouped(old(out)@),
        spec_packages_ok(old(out)@),
        !pkg.spec_is_empty(),
        spec_entries_ok(pkg.messages@, pkg.name@),
        spec_entries_ok(pkg.services@, pkg.name@),
        spec_entries_ok(pkg.actions@, pkg.name@),
    ensures
        spec_well_grouped(final(out)@),
        spec_packages_ok(final(out)@),
{
    let key = name_key(&pkg.name);
    let n = out.len();
    let mut i: usize = 0;
    while i < n
        invariant
            i <= n,
            n == out@.len(),
            out@ == old(out)@,
            spec_well_grouped(out@),
            spec_packages_ok(out@),
            !pkg.spec_is_empty(),
            spec_entries_ok(pkg.messages@, pkg.name@),
            spec_entries_ok(pkg.services@, pkg.name@),
            spec_entries_ok(pkg.actions@, pkg.name@),
            key@ == spec_name_bytes(pkg.name@),
            forall|j: int| 0 <= j < i ==> (lex_le(
                spec_name_bytes(#[trigger] out@[j].name@),
                key@,
            ) && spec_name_bytes(out@[j].name@) != key@),
        decreases n - i,
    {
        let cur = name_key(&out[i].name);
        if bytes_eq(&cur, &key) {
            return;
        }
        if bytes_le(&key, &cur) {
            let ghost pre = out@;
            proof {
                lemma_lex_le_total(key@, spec_name_bytes(out@[i as int].name@));
            }
            out.insert(i, pkg);
            proof {
                lemma_insert_well_grouped(pre, out@[i as int], i as int);
                assert(out@ == pre.insert(i as int, out@[i as int])) by {
                    pre.insert_ensures(i as int, out@[i as int]);
                    assert(out@ =~= pre.insert(i as int, out@[i as int]));
                };
            }
            return;
        }
        proof {
            lemma_lex_le_total(key@, spec_name_bytes(out@[i as int].name@));
        }
        i = i + 1;
    }
    let ghost pre = out@;
    out.push(pkg);
    proof {
        let last = out@.len() - 1;
        assert(out@ =~= pre.insert(pre.len() as int, out@[last]));
        lemma_insert_well_grouped(pre, out@[last], pre.len() as int);
    }
}

/// Packages pairwise distinct by name key.
pub open spec fn spec_unique_names(s: Seq<Package>) -> bool {
    forall|i: int, j: int| 0 <= i < j < s.len() ==> spec_name_bytes(#[trigger] s[i].name@)
        != spec_name_bytes(#[trigger] s[j].name@)
}

/// Every package holds at least one definition file.
pub open spec fn spec_all_nonempty(s: Seq<Package>) -> bool {
    forall|i: int| 0 <= i < s.len() ==> !(#[trigger] s[i]).spec_is_empty()
}

/// Whether some package in the run carries this name key.
pub open spec fn spec_has_name_bytes(s: Seq<Package>, key: Seq<u8>) -> bool {
    exists|j: int| 0 <= j < s.len() && spec_name_bytes((#[trigger] s[j]).name@) == key
}

/// Whether a discovered path contributes a package: it is deep enough to
/// name one and is not the stray `libstatistics_collector` entry.
pub open spec fn spec_path_contributes(p: Seq<char>) -> bool {
    &&& spec_package_name(p) is Some
    &&& spec_file_part(p) != "libstatistics_collector"@
}

/// A definition-file list is properly filed under `name`: every entry is a
/// contributing path whose package name carries this name key, and no two
/// entries survived with both the same package name and the same file name
/// (the per-(package, file) dedup; the first found wins).
pub open spec fn spec_entries_ok(entries: Seq<String>, name: Seq<char>) -> bool {
    &&& (forall|a: int| 0 <= a < entries.len() ==> spec_path_contributes((#[trigger] entries[a])@)
        && spec_name_bytes(spec_package_name(entries[a]@).unwrap()) == spec_name_bytes(name))
    &&& (forall|a: int, b: int| 0 <= a < b < entries.len() ==> !(
        spec_package_name((#[trigger] entries[a])@).unwrap()
            == spec_package_name((#[trigger] entries[b])@).unwrap()
        && spec_file_part(entries[a]@) == spec_file_part(entries[b]@)))
}

/// Whether the string value `v` stands in the list.
pub open spec fn spec_string_in(src: Seq<String>, v: Seq<char>) -> bool {
    exists|j: int| 0 <= j < src.len() && (#[trigger] src[j])@ == v
}

/// Every entry of `entries` is drawn, by value, from the source list.
pub open spec fn spec_entries_from(entries: Seq<String>, src: Seq<String>) -> bool {
    forall|a: int| 0 <= a < entries.len() ==> spec_string_in(src, (#[trigger] entries[a])@)
}

/// Every package's three file lists are properly filed under its name.
pub open spec fn spec_packages_ok(s: Seq<Package>) -> bool {
    forall|i: int| 0 <= i < s.len() ==> spec_entries_ok((#[trigger] s[i]).messages@, s[i].name@)
        && spec_entries_ok(s[i].services@, s[i].name@)
        && spec_entries_ok(s[i].actions@, s[i].name@)
}

/// Appending a package with a fresh name keeps names unique.
proof fn lemma_push_new_name(pre: Seq<Package>, pkg: Package)
    requires
        spec_unique_names(pre),
        spec_all_nonempty(pre),
        !pkg.spec_is_empty(),
        forall|i: int| 0 <= i < pre.len() ==> spec_name_bytes(#[trigger] pre[i].name@)
            != spec_name_bytes(pkg.name@),
    ensures
        spec_unique_names(pre.push(pkg)),
        spec_all_nonempty(pre.push(pkg)),
        spec_has_name_bytes(pre.push(pkg), spec_name_bytes(pkg.name@)),
        forall|j: int| 0 <= j < pre.len() ==> spec_has_name_bytes(
            pre.push(pkg),
            spec_name_bytes((#[trigger] pre[j]).name@),
        ),
{
    let post = pre.push(pkg);
    assert(spec_name_bytes(post[pre.len() as int].name@) == spec_name_bytes(pkg.name@));
    assert forall|j: int| 0 <= j < pre.len() implies spec_has_name_bytes(
        post,
        spec_name_bytes((#[trigger] pre[j]).name@),
    ) by {
        assert(post[j] == pre[j]);
        assert(spec_name_bytes(post[j].name@) == spec_name_bytes(pre[j].name@));
    }
    assert forall|i: int, j: int| 0 <= i < j < post.len() implies spec_name_bytes(
        #[trigger] post[i].name@,
    ) != spec_name_bytes(#[trigger] post[j].name@) by {
        if j < pre.len() {
            assert(post[i] == pre[i] && post[j] == pre[j]);
        } else {
            assert(post[i] == pre[i] && post[j] == pkg);
        }
    }
    assert forall|i: int| 0 <= i < post.len() implies !(#[trigger] post[i]).spec_is_empty() by {
        if i < pre.len() {
            assert(post[i] == pre[i]);
        } else {
            assert(post[i] == pkg);
        }
    }
}

/// Removing a package and appending one that reuses its name keeps names
/// unique.
proof fn lemma_merge_name(pre: Seq<Package>, k: int, pkg: Package)
    requires
        spec_unique_names(pre),
        spec_all_nonempty(pre),
        0 <= k < pre.len(),
        spec_name_bytes(pkg.name@) == spec_name_bytes(pre[k].name@),
        !pkg.spec_is_empty(),
    ensures
        spec_unique_names(pre.remove(k).push(pkg)),
        spec_all_nonempty(pre.remove(k).push(pkg)),
        spec_has_name_bytes(pre.remove(k).push(pkg), spec_name_bytes(pkg.name@)),
        forall|j: int| 0 <= j < pre.len() ==> spec_has_name_bytes(
            pre.remove(k).push(pkg),
            spec_name_bytes((#[trigger] pre[j]).name@),
        ),
{
    pre.remove_ensures(k);
    let mid = pre.remove(k);
    let post = mid.push(pkg);
    assert(post[mid.len() as int] == pkg);
    assert(spec_name_bytes(post[mid.len() as int].name@) == spec_name_bytes(pkg.name@));
    assert forall|j: int| 0 <= j < pre.len() implies spec_has_name_bytes(
        post,
        spec_name_bytes((#[trigger] pre[j]).name@),
    ) by {
        if j < k {
            assert(post[j] == mid[j] && mid[j] == pre[j]);
            assert(spec_name_bytes(post[j].name@) == spec_name_bytes(pre[j].name@));
        } else if j == k {
            assert(spec_name_bytes(post[mid.len() as int].name@) == spec_name_bytes(pre[k].name@));
        } else {
            assert(post[j - 1] == mid[j - 1] && mid[j - 1] == pre[j]);
            assert(spec_name_bytes(post[j - 1].name@) == spec_name_bytes(pre[j].name@));
        }
    }
    assert forall|i: int, j: int| 0 <= i < j < post.len() implies spec_name_bytes(
        #[trigger] post[i].name@,
    ) != spec_name_bytes(#[trigger] post[j].name@) by {
        if j < mid.len() {
            assert(post[i] == mid[i] && post[j] == mid[j]);
            if i < k {
                assert(mid[i] == pre[i]);
            } else {
                assert(mid[i] == pre[i + 1]);
            }
            if j < k {
                assert(mid[j] == pre[j]);
            } else {
                assert(mid[j] == pre[j + 1]);
            }
        } else {
            assert(post[i] == mid[i] && post[j] == pkg);
            if i < k {
                assert(mid[i] == pre[i]);
            } else {
                assert(mid[i] == pre[i + 1]);
            }
        }
    }
    assert forall|i: int| 0 <= i < post.len() implies !(#[trigger] post[i]).spec_is_empty() by {
        if i < mid.len() {
            assert(post[i] == mid[i]);
            if i < k {
                assert(mid[i] == pre[i]);
            } else {
                assert(mid[i] == pre[i + 1]);
            }
        } else {
            assert(post[i] == pkg);
        }
    }
}

/// Whether the pair `(a, b)` already stands in the two aligned lists.
fn pair_seen(va: &Vec<String>, vb: &Vec<String>, a: &String, b: &String) -> (r: bool)
    requires
        va@.len() == vb@.len(),
    ensures
        r == spec_pair_in(va@, vb@, a@, b@),
{
    let n = va.len();
    let mut i: usize = 0;
    while i < n
        invariant
            i <= n,
            n == va@.len(),
            n == vb@.len(),
            forall|j: int| 0 <= j < i ==> !((#[trigger] va@[j])@ == a@ && vb@[j]@ == b@),
        decreases n - i,
    {
        if va[i].eq(a) && vb[i].eq(b) {
            proof {
                assert(0 <= i < va@.len() && va@[i as int]@ == a@ && vb@[i as int]@ == b@);
            }
            return true;
        }
        i = i + 1;
    }
    proof {
        assert(!spec_pair_in(va@, vb@, a@, b@)) by {
            if spec_pair_in(va@, vb@, a@, b@) {
                let j = choose|j: int| 0 <= j < va@.len() && (#[trigger] va@[j])@ == a@
                    && vb@[j]@ == b@;
                assert(false);
            }
        }
    }
    false
}

/// Relies on glob::glob: matches the pattern against the filesystem and
/// yields the paths of the matching entries; an invalid pattern or an
/// unreadable entry is an error.
#[verifier::external_body]
fn glob_paths(pattern: &str) -> (r: Result<Vec<String>, PackageError>) {
    match glob::glob(pattern) {
        Err(_) => Err(PackageError::BadPattern),
        Ok(entries) => {
            let mut v: Vec<String> = Vec::new();
            for entry in entries {
                match entry {
                    Ok(p) => v.push(p.to_string_lossy().to_string()),
                    Err(_) => return Err(PackageError::Unreadable),
                }
            }
            Ok(v)
        },
    }
}

/// The three kinds of definition file a package can hold.
#[derive(Clone, Copy, PartialEq, Eq, Structural, Debug)]
enum DefinitionKind {
    Message,
    Service,
    Action,
}

/// The definition files a package holds for one kind.
spec fn spec_kind_entries(p: Package, kind: DefinitionKind) -> Seq<String> {
    match kind {
        DefinitionKind::Message => p.messages@,
        DefinitionKind::Service => p.services@,
        DefinitionKind::Action => p.actions@,
    }
}

/// Whether a (package name, file name) pair stands in the seen lists.
spec fn spec_pair_in(sp: Seq<String>, sf: Seq<String>, nm: Seq<char>, fp: Seq<char>) -> bool {
    exists|j: int| 0 <= j < sp.len() && (#[trigger] sp[j])@ == nm && sf[j]@ == fp
}

/// Every (package name, file name) pair filed for this kind stands in the
/// seen lists.
spec fn spec_pairs_seen(
    s: Seq<Package>,
    kind: DefinitionKind,
    sp: Seq<String>,
    sf: Seq<String>,
) -> bool {
    forall|i: int, a: int|
        #![trigger spec_kind_entries(s[i], kind)[a]]
        0 <= i < s.len() && 0 <= a < spec_kind_entries(s[i], kind).len()
        ==> spec_pair_in(
            sp,
            sf,
            spec_package_name(spec_kind_entries(s[i], kind)[a]@).unwrap(),
            spec_file_part(spec_kind_entries(s[i], kind)[a]@),
        )
}

/// Every file of this kind in `new` already stood in `old_s`, or is the
/// newly filed value `pv`.
/// Whether the string value `v` is filed somewhere in the run for this
/// kind.
spec fn spec_entry_in(s: Seq<Package>, kind: DefinitionKind, v: Seq<char>) -> bool {
    exists|i: int, a: int|
        #![trigger spec_kind_entries(s[i], kind)[a]]
        0 <= i < s.len() && 0 <= a < spec_kind_entries(s[i], kind).len()
        && spec_kind_entries(s[i], kind)[a]@ == v
}

/// Every file of this kind in `new` already stood in `old_s`, or is the
/// newly filed value `pv`.
spec fn spec_entries_grew_by(
    new: Seq<Package>,
    old_s: Seq<Package>,
    kind: DefinitionKind,
    pv: Seq<char>,
) -> bool {
    forall|i: int, a: int|
        #![trigger spec_kind_entries(new[i], kind)[a]]
        0 <= i < new.len() && 0 <= a < spec_kind_entries(new[i], kind).len()
        ==> (spec_kind_entries(new[i], kind)[a]@ == pv
            || spec_entry_in(old_s, kind, spec_kind_entries(new[i], kind)[a]@))
}

/// Every file of this kind in `new` already stood in `old_s`.
spec fn spec_entries_kept(new: Seq<Package>, old_s: Seq<Package>, kind: DefinitionKind) -> bool {
    forall|i: int, a: int|
        #![trigger spec_kind_entries(new[i], kind)[a]]
        0 <= i < new.len() && 0 <= a < spec_kind_entries(new[i], kind).len()
        ==> spec_entry_in(old_s, kind, spec_kind_entries(new[i], kind)[a]@)
}

/// A run keeps all its own files of every kind.
proof fn lemma_entries_kept_self(s: Seq<Package>, kind: DefinitionKind)
    ensures
        spec_entries_kept(s, s, kind),
{
    assert forall|i: int, a: int|
        #![trigger spec_kind_entries(s[i], kind)[a]]
        0 <= i < s.len() && 0 <= a < spec_kind_entries(s[i], kind).len() implies spec_entry_in(
        s,
        kind,
        spec_kind_entries(s[i], kind)[a]@,
    ) by {
        assert(0 <= i < s.len() && 0 <= a < spec_kind_entries(s[i], kind).len()
            && spec_kind_entries(s[i], kind)[a]@ == spec_kind_entries(s[i], kind)[a]@);
    }
}

/// Unchanged contents keep every grew/kept relation.
proof fn lemma_entries_unchanged(s: Seq<Package>, kind: DefinitionKind, pv: Seq<char>)
    ensures
        spec_entries_grew_by(s, s, kind, pv),
        spec_entries_kept(s, s, kind),
{
    lemma_entries_kept_self(s, kind);
}

/// Extending the seen lists keeps every filed pair found.
proof fn lemma_pairs_seen_extend(
    s: Seq<Package>,
    kind: DefinitionKind,
    sp: Seq<String>,
    sf: Seq<String>,
    np: String,
    nf: String,
)
    requires
        spec_pairs_seen(s, kind, sp, sf),
        sp.len() == sf.len(),
    ensures
        spec_pairs_seen(s, kind, sp.push(np), sf.push(nf)),
{
    assert forall|i: int, a: int|
        #![trigger spec_kind_entries(s[i], kind)[a]]
        0 <= i < s.len() && 0 <= a < spec_kind_entries(s[i], kind).len() implies spec_pair_in(
        sp.push(np),
        sf.push(nf),
        spec_package_name(spec_kind_entries(s[i], kind)[a]@).unwrap(),
        spec_file_part(spec_kind_entries(s[i], kind)[a]@),
    ) by {
        assert(spec_pair_in(
            sp,
            sf,
            spec_package_name(spec_kind_entries(s[i], kind)[a]@).unwrap(),
            spec_file_part(spec_kind_entries(s[i], kind)[a]@),
        ));
        let j0 = choose|j: int| 0 <= j < sp.len()
            && (#[trigger] sp[j])@ == spec_package_name(
                spec_kind_entries(s[i], kind)[a]@,
            ).unwrap()
            && sf[j]@ == spec_file_part(spec_kind_entries(s[i], kind)[a]@);
        assert(sp.push(np)[j0] == sp[j0] && sf.push(nf)[j0] == sf[j0]);
    }
}


/// A pair found in the seen lists is still found after they grow.
proof fn lemma_pair_in_extend(
    sp: Seq<String>,
    sf: Seq<String>,
    np: String,
    nf: String,
    nm: Seq<char>,
    fp: Seq<char>,
)
    requires
        spec_pair_in(sp, sf, nm, fp),
        sp.len() == sf.len(),
    ensures
        spec_pair_in(sp.push(np), sf.push(nf), nm, fp),
{
    let j0 = choose|j: int| 0 <= j < sp.len() && (#[trigger] sp[j])@ == nm && sf[j]@ == fp;
    assert(sp.push(np)[j0] == sp[j0] && sf.push(nf)[j0] == sf[j0]);
}


/// A properly filed list stays properly filed when a new entry for the
/// same package arrives whose (package name, file name) pair was never
/// seen, while every already-filed pair was.
proof fn lemma_entries_ok_push(
    entries: Seq<String>,
    nm: Seq<char>,
    entry: String,
    sp: Seq<String>,
    sf: Seq<String>,
)
    requires
        spec_entries_ok(entries, nm),
        spec_path_contributes(entry@),
        spec_name_bytes(spec_package_name(entry@).unwrap()) == spec_name_bytes(nm),
        forall|a: int| 0 <= a < entries.len() ==> spec_pair_in(
            sp,
            sf,
            spec_package_name((#[trigger] entries[a])@).unwrap(),
            spec_file_part(entries[a]@),
        ),
        !spec_pair_in(sp, sf, spec_package_name(entry@).unwrap(), spec_file_part(entry@)),
    ensures
        spec_entries_ok(entries.push(entry), nm),
{
    let post = entries.push(entry);
    assert forall|a: int| 0 <= a < post.len() implies spec_path_contributes(
        (#[trigger] post[a])@,
    ) && spec_name_bytes(spec_package_name(post[a]@).unwrap()) == spec_name_bytes(nm) by {
        if a < entries.len() {
            assert(post[a] == entries[a]);
        } else {
            assert(post[a] == entry);
        }
    }
    assert forall|a: int, b: int| 0 <= a < b < post.len() implies !(
        spec_package_name((#[trigger] post[a])@).unwrap()
            == spec_package_name((#[trigger] post[b])@).unwrap()
        && spec_file_part(post[a]@) == spec_file_part(post[b]@)) by {
        if b < entries.len() {
            assert(post[a] == entries[a] && post[b] == entries[b]);
        } else {
            assert(post[a] == entries[a] && post[b] == entry);
            if spec_package_name(post[a]@).unwrap() == spec_package_name(post[b]@).unwrap()
                && spec_file_part(post[a]@) == spec_file_part(post[b]@) {
                assert(spec_pair_in(
                    sp,
                    sf,
                    spec_package_name(entries[a]@).unwrap(),
                    spec_file_part(entries[a]@),
                ));
                assert(false);
            }
        }
    }
}

/// Filing one new entry under an existing package — moved to the back of
/// the run — preserves the filing invariants, records the new pair, grows
/// the kind's files by exactly that entry, and keeps the other kinds.
proof fn lemma_merge_files(
    pre: Seq<Package>,
    k: int,
    oldpkg: Package,
    pkg: Package,
    kind: DefinitionKind,
    entry: String,
    sp: Seq<String>,
    sf: Seq<String>,
    np: String,
    nf: String,
)
    requires
        spec_packages_ok(pre),
        spec_pairs_seen(pre, kind, sp, sf),
        sp.len() == sf.len(),
        0 <= k < pre.len(),
        oldpkg == pre[k],
        pkg.name == oldpkg.name,
        spec_kind_entries(pkg, kind) == spec_kind_entries(oldpkg, kind).push(entry),
        forall|k2: DefinitionKind| #![trigger spec_kind_entries(pkg, k2)] k2 != kind
            ==> spec_kind_entries(pkg, k2) == spec_kind_entries(oldpkg, k2),
        spec_path_contributes(entry@),
        spec_name_bytes(spec_package_name(entry@).unwrap()) == spec_name_bytes(pkg.name@),
        !spec_pair_in(sp, sf, spec_package_name(entry@).unwrap(), spec_file_part(entry@)),
        np@ == spec_package_name(entry@).unwrap(),
        nf@ == spec_file_part(entry@),
    ensures
        spec_packages_ok(pre.remove(k).push(pkg)),
        spec_pairs_seen(pre.remove(k).push(pkg), kind, sp.push(np), sf.push(nf)),
        spec_entries_grew_by(pre.remove(k).push(pkg), pre, kind, entry@),
        forall|k2: DefinitionKind|
            #![trigger spec_entries_kept(pre.remove(k).push(pkg), pre, k2)]
            k2 != kind ==> spec_entries_kept(pre.remove(k).push(pkg), pre, k2),
{
    pre.remove_ensures(k);
    let mid = pre.remove(k);
    let post = mid.push(pkg);
    assert forall|x: int| 0 <= x < mid.len() implies 0 <= pkg_src(pre, k, x) < pre.len()
        && post[x] == pre[pkg_src(pre, k, x)] by {
        if x < k {
            assert(post[x] == mid[x] && mid[x] == pre[x]);
        } else {
            assert(post[x] == mid[x] && mid[x] == pre[x + 1]);
        }
    }
    assert(post[mid.len() as int] == pkg);

    // The filing invariant.
    assert forall|x: int| 0 <= x < post.len() implies spec_entries_ok(
        (#[trigger] post[x]).messages@,
        post[x].name@,
    ) && spec_entries_ok(post[x].services@, post[x].name@)
        && spec_entries_ok(post[x].actions@, post[x].name@) by {
        if x < mid.len() {
            assert(post[x] == pre[pkg_src(pre, k, x)]);
        } else {
            assert(post[x] == pkg);
            assert forall|a: int| 0 <= a < spec_kind_entries(oldpkg, kind).len()
                implies spec_pair_in(
                sp,
                sf,
                spec_package_name((#[trigger] spec_kind_entries(oldpkg, kind)[a])@).unwrap(),
                spec_file_part(spec_kind_entries(oldpkg, kind)[a]@),
            ) by {
                assert(spec_kind_entries(pre[k], kind)[a] == spec_kind_entries(oldpkg, kind)[a]);
            }
            match kind {
                DefinitionKind::Message => {
                    lemma_entries_ok_push(oldpkg.messages@, pkg.name@, entry, sp, sf);
                    assert(spec_kind_entries(pkg, DefinitionKind::Service)
                        == spec_kind_entries(oldpkg, DefinitionKind::Service));
                    assert(spec_kind_entries(pkg, DefinitionKind::Action)
                        == spec_kind_entries(oldpkg, DefinitionKind::Action));
                },
                DefinitionKind::Service => {
                    lemma_entries_ok_push(oldpkg.services@, pkg.name@, entry, sp, sf);
                    assert(spec_kind_entries(pkg, DefinitionKind::Message)
                        == spec_kind_entries(oldpkg, DefinitionKind::Message));
                    assert(spec_kind_entries(pkg, DefinitionKind::Action)
                        == spec_kind_entries(oldpkg, DefinitionKind::Action));
                },
                DefinitionKind::Action => {
                    lemma_entries_ok_push(oldpkg.actions@, pkg.name@, entry, sp, sf);
                    assert(spec_kind_entries(pkg, DefinitionKind::Message)
                        == spec_kind_entries(oldpkg, DefinitionKind::Message));
                    assert(spec_kind_entries(pkg, DefinitionKind::Service)
                        == spec_kind_entries(oldpkg, DefinitionKind::Service));
                },
            }
        }
    }

    // Every filed pair of the result stands in the grown seen lists.
    assert forall|x: int, a: int|
        #![trigger spec_kind_entries(post[x], kind)[a]]
        0 <= x < post.len() && 0 <= a < spec_kind_entries(post[x], kind).len()
        implies spec_pair_in(
        sp.push(np),
        sf.push(nf),
        spec_package_name(spec_kind_entries(post[x], kind)[a]@).unwrap(),
        spec_file_part(spec_kind_entries(post[x], kind)[a]@),
    ) by {
        if x < mid.len() {
            assert(post[x] == pre[pkg_src(pre, k, x)]);
            lemma_pair_in_extend(
                sp,
                sf,
                np,
                nf,
                spec_package_name(spec_kind_entries(post[x], kind)[a]@).unwrap(),
                spec_file_part(spec_kind_entries(post[x], kind)[a]@),
            );
        } else {
            assert(post[x] == pkg);
            if a < spec_kind_entries(oldpkg, kind).len() {
                assert(spec_kind_entries(pkg, kind)[a] == spec_kind_entries(oldpkg, kind)[a]);
                assert(spec_kind_entries(pre[k], kind)[a] == spec_kind_entries(oldpkg, kind)[a]);
                lemma_pair_in_extend(
                    sp,
                    sf,
                    np,
                    nf,
                    spec_package_name(spec_kind_entries(oldpkg, kind)[a]@).unwrap(),
                    spec_file_part(spec_kind_entries(oldpkg, kind)[a]@),
                );
            } else {
                assert(spec_kind_entries(pkg, kind)[a] == entry);
                let j = sp.len() as int;
                assert(sp.push(np)[j] == np && sf.push(nf)[j] == nf);
            }
        }
    }

    // The kind's files grew by exactly the new entry.
    assert forall|x: int, a: int|
        #![trigger spec_kind_entries(post[x], kind)[a]]
        0 <= x < post.len() && 0 <= a < spec_kind_entries(post[x], kind).len()
        implies (spec_kind_entries(post[x], kind)[a]@ == entry@
            || spec_entry_in(pre, kind, spec_kind_entries(post[x], kind)[a]@)) by {
        if x < mid.len() {
            let x0 = pkg_src(pre, k, x);
            assert(post[x] == pre[x0]);
            assert(0 <= x0 < pre.len() && 0 <= a < spec_kind_entries(pre[x0], kind).len()
                && spec_kind_entries(pre[x0], kind)[a]@ == spec_kind_entries(post[x], kind)[a]@);
        } else {
            assert(post[x] == pkg);
            if a < spec_kind_entries(oldpkg, kind).len() {
                assert(spec_kind_entries(pkg, kind)[a] == spec_kind_entries(oldpkg, kind)[a]);
                assert(0 <= k < pre.len() && 0 <= a < spec_kind_entries(pre[k], kind).len()
                    && spec_kind_entries(pre[k], kind)[a]@
                        == spec_kind_entries(post[x], kind)[a]@);
            } else {
                assert(spec_kind_entries(pkg, kind)[a] == entry);
            }
        }
    }

    // The other kinds kept every file where it was.
    assert forall|k2: DefinitionKind|
        #![trigger spec_entries_kept(post, pre, k2)]
        k2 != kind implies spec_entries_kept(post, pre, k2) by {
        assert forall|x: int, a: int|
            #![trigger spec_kind_entries(post[x], k2)[a]]
            0 <= x < post.len() && 0 <= a < spec_kind_entries(post[x], k2).len()
            implies spec_entry_in(pre, k2, spec_kind_entries(post[x], k2)[a]@) by {
            if x < mid.len() {
                let x0 = pkg_src(pre, k, x);
                assert(post[x] == pre[x0]);
                assert(0 <= x0 < pre.len() && 0 <= a < spec_kind_entries(pre[x0], k2).len()
                    && spec_kind_entries(pre[x0], k2)[a]@
                        == spec_kind_entries(post[x], k2)[a]@);
            } else {
                assert(post[x] == pkg);
                assert(spec_kind_entries(pkg, k2) == spec_kind_entries(oldpkg, k2));
                assert(0 <= k < pre.len() && 0 <= a < spec_kind_entries(pre[k], k2).len()
                    && spec_kind_entries(pre[k], k2)[a]@
                        == spec_kind_entries(post[x], k2)[a]@);
            }
        }
    }
}


/// Filing one new entry under a fresh package appended to the run
/// preserves the filing invariants, records the new pair, grows the
/// kind's files by exactly that entry, and keeps the other kinds.
proof fn lemma_new_package_files(
    pre: Seq<Package>,
    pkg: Package,
    kind: DefinitionKind,
    entry: String,
    sp: Seq<String>,
    sf: Seq<String>,
    np: String,
    nf: String,
)
    requires
        spec_packages_ok(pre),
        spec_pairs_seen(pre, kind, sp, sf),
        sp.len() == sf.len(),
        spec_kind_entries(pkg, kind) == Seq::<String>::empty().push(entry),
        forall|k2: DefinitionKind| #![trigger spec_kind_entries(pkg, k2)] k2 != kind
            ==> spec_kind_entries(pkg, k2) == Seq::<String>::empty(),
        spec_path_contributes(entry@),
        spec_name_bytes(spec_package_name(entry@).unwrap()) == spec_name_bytes(pkg.name@),
        np@ == spec_package_name(entry@).unwrap(),
        nf@ == spec_file_part(entry@),
    ensures
        spec_packages_ok(pre.push(pkg)),
        spec_pairs_seen(pre.push(pkg), kind, sp.push(np), sf.push(nf)),
        spec_entries_grew_by(pre.push(pkg), pre, kind, entry@),
        forall|k2: DefinitionKind|
            #![trigger spec_entries_kept(pre.push(pkg), pre, k2)]
            k2 != kind ==> spec_entries_kept(pre.push(pkg), pre, k2),
{
    let post = pre.push(pkg);
    assert(post[pre.len() as int] == pkg);
    assert(spec_kind_entries(pkg, kind).len() == 1);
    assert(spec_kind_entries(pkg, kind)[0] == entry);

    // The filing invariant: the fresh package holds the one entry for its
    // kind and nothing else.
    assert forall|x: int| 0 <= x < post.len() implies spec_entries_ok(
        (#[trigger] post[x]).messages@,
        post[x].name@,
    ) && spec_entries_ok(post[x].services@, post[x].name@)
        && spec_entries_ok(post[x].actions@, post[x].name@) by {
        if x < pre.len() {
            assert(post[x] == pre[x]);
        } else {
            assert(post[x] == pkg);
            match kind {
                DefinitionKind::Message => {
                    assert(pkg.messages@ == Seq::<String>::empty().push(entry));
                    assert(spec_kind_entries(pkg, DefinitionKind::Service)
                        == Seq::<String>::empty());
                    assert(spec_kind_entries(pkg, DefinitionKind::Action)
                        == Seq::<String>::empty());
                },
                DefinitionKind::Service => {
                    assert(pkg.services@ == Seq::<String>::empty().push(entry));
                    assert(spec_kind_entries(pkg, DefinitionKind::Message)
                        == Seq::<String>::empty());
                    assert(spec_kind_entries(pkg, DefinitionKind::Action)
                        == Seq::<String>::empty());
                },
                DefinitionKind::Action => {
                    assert(pkg.actions@ == Seq::<String>::empty().push(entry));
                    assert(spec_kind_entries(pkg, DefinitionKind::Message)
                        == Seq::<String>::empty());
                    assert(spec_kind_entries(pkg, DefinitionKind::Service)
                        == Seq::<String>::empty());
                },
            }
            assert(Seq::<String>::empty().push(entry)[0] == entry);
        }
    }

    // Every filed pair of the result stands in the grown seen lists.
    assert forall|x: int, a: int|
        #![trigger spec_kind_entries(post[x], kind)[a]]
        0 <= x < post.len() && 0 <= a < spec_kind_entries(post[x], kind).len()
        implies spec_pair_in(
        sp.push(np),
        sf.push(nf),
        spec_package_name(spec_kind_entries(post[x], kind)[a]@).unwrap(),
        spec_file_part(spec_kind_entries(post[x], kind)[a]@),
    ) by {
        if x < pre.len() {
            assert(post[x] == pre[x]);
            lemma_pair_in_extend(
                sp,
                sf,
                np,
                nf,
                spec_package_name(spec_kind_entries(post[x], kind)[a]@).unwrap(),
                spec_file_part(spec_kind_entries(post[x], kind)[a]@),
            );
        } else {
            assert(post[x] == pkg);
            assert(spec_kind_entries(pkg, kind)[a] == entry);
            let j = sp.len() as int;
            assert(sp.push(np)[j] == np && sf.push(nf)[j] == nf);
        }
    }

    // The kind's files grew by exactly the new entry.
    assert forall|x: int, a: int|
        #![trigger spec_kind_entries(post[x], kind)[a]]
        0 <= x < post.len() && 0 <= a < spec_kind_entries(post[x], kind).len()
        implies (spec_kind_entries(post[x], kind)[a]@ == entry@
            || spec_entry_in(pre, kind, spec_kind_entries(post[x], kind)[a]@)) by {
        if x < pre.len() {
            assert(post[x] == pre[x]);
            assert(0 <= x < pre.len() && 0 <= a < spec_kind_entries(pre[x], kind).len()
                && spec_kind_entries(pre[x], kind)[a]@ == spec_kind_entries(post[x], kind)[a]@);
        } else {
            assert(post[x] == pkg);
            assert(spec_kind_entries(pkg, kind)[a] == entry);
        }
    }

    // The other kinds kept every file where it was.
    assert forall|k2: DefinitionKind|
        #![trigger spec_entries_kept(post, pre, k2)]
        k2 != kind implies spec_entries_kept(post, pre, k2) by {
        assert forall|x: int, a: int|
            #![trigger spec_kind_entries(post[x], k2)[a]]
            0 <= x < post.len() && 0 <= a < spec_kind_entries(post[x], k2).len()
            implies spec_entry_in(pre, k2, spec_kind_entries(post[x], k2)[a]@) by {
            if x < pre.len() {
                assert(post[x] == pre[x]);
                assert(0 <= x < pre.len() && 0 <= a < spec_kind_entries(pre[x], k2).len()
                    && spec_kind_entries(pre[x], k2)[a]@ == spec_kind_entries(post[x], k2)[a]@);
            } else {
                assert(post[x] == pkg);
                assert(spec_kind_entries(pkg, k2) == Seq::<String>::empty());
            }
        }
    }
}

/// The source index in the original run of position `x` after index `k`
/// was removed.
spec fn pkg_src(pre: Seq<Package>, k: int, x: int) -> int {
    if x < k {
        x
    } else {
        x + 1
    }
}

/// Files a discovered path under its package in `out`, creating the
/// package on first sight; a file name already seen for that package in
/// this pass is skipped, as is the stray `libstatistics_collector` entry
/// and any path too shallow to name a package.
fn add_path(
    out: &mut Vec<Package>,
    seen_pkg: &mut Vec<String>,
    seen_file: &mut Vec<String>,
    path: &String,
    kind: DefinitionKind,
)
    requires
        spec_unique_names(old(out)@),
        spec_all_nonempty(old(out)@),
        old(seen_pkg)@.len() == old(seen_file)@.len(),
        spec_packages_ok(old(out)@),
        spec_pairs_seen(old(out)@, kind, old(seen_pkg)@, old(seen_file)@),
        forall|j: int| 0 <= j < old(seen_pkg)@.len() ==> spec_has_name_bytes(
            old(out)@,
            spec_name_bytes((#[trigger] old(seen_pkg)@[j])@),
        ),
    ensures
        spec_unique_names(final(out)@),
        spec_all_nonempty(final(out)@),
        final(seen_pkg)@.len() == final(seen_file)@.len(),
        spec_packages_ok(final(out)@),
        spec_pairs_seen(final(out)@, kind, final(seen_pkg)@, final(seen_file)@),
        spec_entries_grew_by(final(out)@, old(out)@, kind, path@),
        (kind != DefinitionKind::Message ==> spec_entries_kept(
            final(out)@,
            old(out)@,
            DefinitionKind::Message,
        )),
        (kind != DefinitionKind::Service ==> spec_entries_kept(
            final(out)@,
            old(out)@,
            DefinitionKind::Service,
        )),
        (kind != DefinitionKind::Action ==> spec_entries_kept(
            final(out)@,
            old(out)@,
            DefinitionKind::Action,
        )),
        forall|j: int| 0 <= j < final(seen_pkg)@.len() ==> spec_has_name_bytes(
            final(out)@,
            spec_name_bytes((#[trigger] final(seen_pkg)@[j])@),
        ),
        forall|j: int| 0 <= j < old(out)@.len() ==> spec_has_name_bytes(
            final(out)@,
            spec_name_bytes((#[trigger] old(out)@[j]).name@),
        ),
        spec_path_contributes(path@) ==> spec_has_name_bytes(
            final(out)@,
            spec_name_bytes(spec_package_name(path@).unwrap()),
        ),
{
    proof {
        assert forall|j: int| 0 <= j < old(out)@.len() implies spec_has_name_bytes(
            old(out)@,
            spec_name_bytes((#[trigger] old(out)@[j]).name@),
        ) by {
        }
    }
    let file_name = file_part(path.as_str());
    if str_eq(file_name.as_str(), "libstatistics_collector") {
        proof {
            lemma_entries_unchanged(out@, kind, path@);
            lemma_entries_kept_self(out@, DefinitionKind::Message);
            lemma_entries_kept_self(out@, DefinitionKind::Service);
            lemma_entries_kept_self(out@, DefinitionKind::Action);
        }
        return;
    }
    let name = match find_package_name(path.as_str()) {
        Some(n) => n,
        None => {
            proof {
                lemma_entries_unchanged(out@, kind, path@);
                lemma_entries_kept_self(out@, DefinitionKind::Message);
                lemma_entries_kept_self(out@, DefinitionKind::Service);
                lemma_entries_kept_self(out@, DefinitionKind::Action);
            }
            return;
        },
    };
    if pair_seen(seen_pkg, seen_file, &name, &file_name) {
        proof {
            lemma_entries_unchanged(out@, kind, path@);
            lemma_entries_kept_self(out@, DefinitionKind::Message);
            lemma_entries_kept_self(out@, DefinitionKind::Service);
            lemma_entries_kept_self(out@, DefinitionKind::Action);
        }
        return;
    }
    let ghost np_g: String = name;
    let ghost nf_g: String = file_name;
    seen_pkg.push(name.clone());
    seen_file.push(file_name.clone());
    let ghost seen_pkg_now = seen_pkg@;
    let ghost seen_file_now = seen_file@;

    let key = name_key(&name);
    let n = out.len();
    let mut i: usize = 0;
    while i < n
        invariant
            i <= n,
            n == out@.len(),
            out@ == old(out)@,
            spec_unique_names(out@),
            spec_all_nonempty(out@),
            seen_pkg@ == seen_pkg_now,
            seen_file@ == seen_file_now,
            seen_pkg_now == old(seen_pkg)@.push(np_g),
            seen_file_now == old(seen_file)@.push(nf_g),
            np_g == name,
            nf_g == file_name,
            seen_pkg@.len() == seen_file@.len(),
            spec_packages_ok(old(out)@),
            spec_pairs_seen(old(out)@, kind, old(seen_pkg)@, old(seen_file)@),
            old(seen_pkg)@.len() == old(seen_file)@.len(),
            !spec_pair_in(old(seen_pkg)@, old(seen_file)@, name@, file_name@),
            file_name@ == spec_file_part(path@),
            (file_name@ != "libstatistics_collector"@),
            forall|j: int| 0 <= j < old(seen_pkg)@.len() ==> spec_has_name_bytes(
                old(out)@,
                spec_name_bytes((#[trigger] old(seen_pkg)@[j])@),
            ),
            key@ == spec_name_bytes(name@),
            spec_package_name(path@) == Some(name@),
            forall|j: int| 0 <= j < i ==> spec_name_bytes(#[trigger] out@[j].name@) != key@,
        decreases n - i,
    {
        let cur = name_key(&out[i].name);
        if bytes_eq(&cur, &key) {
            let ghost pre = out@;
            let ghost oldpkg = pre[i as int];
            let mut pkg = out.remove(i);
            match kind {
                DefinitionKind::Message => pkg.messages.push(path.clone()),
                DefinitionKind::Service => pkg.services.push(path.clone()),
                DefinitionKind::Action => pkg.actions.push(path.clone()),
            }
            proof {
                lemma_merge_name(pre, i as int, pkg);
                match kind {
                    DefinitionKind::Message => {
                        assert(spec_kind_entries(pkg, DefinitionKind::Message)
                            == spec_kind_entries(oldpkg, DefinitionKind::Message).push(*path));
                        assert(spec_kind_entries(pkg, DefinitionKind::Service)
                            == spec_kind_entries(oldpkg, DefinitionKind::Service));
                        assert(spec_kind_entries(pkg, DefinitionKind::Action)
                            == spec_kind_entries(oldpkg, DefinitionKind::Action));
                    },
                    DefinitionKind::Service => {
                        assert(spec_kind_entries(pkg, DefinitionKind::Service)
                            == spec_kind_entries(oldpkg, DefinitionKind::Service).push(*path));
                        assert(spec_kind_entries(pkg, DefinitionKind::Message)
                            == spec_kind_entries(oldpkg, DefinitionKind::Message));
                        assert(spec_kind_entries(pkg, DefinitionKind::Action)
                            == spec_kind_entries(oldpkg, DefinitionKind::Action));
                    },
                    DefinitionKind::Action => {
                        assert(spec_kind_entries(pkg, DefinitionKind::Action)
                            == spec_kind_entries(oldpkg, DefinitionKind::Action).push(*path));
                        assert(spec_kind_entries(pkg, DefinitionKind::Message)
                            == spec_kind_entries(oldpkg, DefinitionKind::Message));
                        assert(spec_kind_entries(pkg, DefinitionKind::Service)
                            == spec_kind_entries(oldpkg, DefinitionKind::Service));
                    },
                }
                assert forall|k2: DefinitionKind|
                    #![trigger spec_kind_entries(pkg, k2)]
                    k2 != kind implies spec_kind_entries(pkg, k2)
                    == spec_kind_entries(oldpkg, k2) by {
                    if k2 == DefinitionKind::Message {
                    } else if k2 == DefinitionKind::Service {
                    } else {
                        assert(k2 == DefinitionKind::Action);
                    }
                }
                assert(spec_path_contributes(path@));
                assert(spec_name_bytes(spec_package_name(path@).unwrap())
                    == spec_name_bytes(pkg.name@));
                lemma_merge_files(
                    pre,
                    i as int,
                    oldpkg,
                    pkg,
                    kind,
                    *path,
                    old(seen_pkg)@,
                    old(seen_file)@,
                    np_g,
                    nf_g,
                );
            }
            out.push(pkg);
            proof {
                assert(out@ == pre.remove(i as int).push(out@[out@.len() - 1]));
                assert(seen_pkg@ == old(seen_pkg)@.push(np_g));
                assert(seen_file@ == old(seen_file)@.push(nf_g));
                assert(kind != DefinitionKind::Message ==> spec_entries_kept(
                    out@,
                    old(out)@,
                    DefinitionKind::Message,
                ));
                assert(kind != DefinitionKind::Service ==> spec_entries_kept(
                    out@,
                    old(out)@,
                    DefinitionKind::Service,
                ));
                assert(kind != DefinitionKind::Action ==> spec_entries_kept(
                    out@,
                    old(out)@,
                    DefinitionKind::Action,
                ));
                assert forall|j: int| 0 <= j < seen_pkg@.len() implies spec_has_name_bytes(
                    out@,
                    spec_name_bytes((#[trigger] seen_pkg@[j])@),
                ) by {
                    if j < old(seen_pkg)@.len() {
                        assert(seen_pkg@[j] == old(seen_pkg)@[j]);
                        assert(spec_has_name_bytes(
                            old(out)@,
                            spec_name_bytes(old(seen_pkg)@[j]@),
                        ));
                        let w = choose|w: int| 0 <= w < old(out)@.len()
                            && spec_name_bytes((#[trigger] old(out)@[w]).name@)
                                == spec_name_bytes(old(seen_pkg)@[j]@);
                        assert(spec_has_name_bytes(out@, spec_name_bytes(old(out)@[w].name@)));
                    } else {
                        assert(seen_pkg@[j] == name);
                        assert(spec_has_name_bytes(out@, key@));
                    }
                }
            }
            return;
        }
        i = i + 1;
    }
    let ghost pre = out@;
    let mut pkg = Package::new(name);
    proof {
        assert(pkg.messages@ =~= Seq::<String>::empty());
        assert(pkg.services@ =~= Seq::<String>::empty());
        assert(pkg.actions@ =~= Seq::<String>::empty());
    }
    let ghost fresh = pkg;
    match kind {
        DefinitionKind::Message => pkg.messages.push(path.clone()),
        DefinitionKind::Service => pkg.services.push(path.clone()),
        DefinitionKind::Action => pkg.actions.push(path.clone()),
    }
    proof {
        lemma_push_new_name(pre, pkg);
        match kind {
            DefinitionKind::Message => {
                assert(spec_kind_entries(pkg, DefinitionKind::Message)
                    == Seq::<String>::empty().push(*path));
                assert(spec_kind_entries(pkg, DefinitionKind::Service)
                    == Seq::<String>::empty());
                assert(spec_kind_entries(pkg, DefinitionKind::Action) == Seq::<String>::empty());
            },
            DefinitionKind::Service => {
                assert(spec_kind_entries(pkg, DefinitionKind::Service)
                    == Seq::<String>::empty().push(*path));
                assert(spec_kind_entries(pkg, DefinitionKind::Message)
                    == Seq::<String>::empty());
                assert(spec_kind_entries(pkg, DefinitionKind::Action) == Seq::<String>::empty());
            },
            DefinitionKind::Action => {
                assert(spec_kind_entries(pkg, DefinitionKind::Action)
                    == Seq::<String>::empty().push(*path));
                assert(spec_kind_entries(pkg, DefinitionKind::Message)
                    == Seq::<String>::empty());
                assert(spec_kind_entries(pkg, DefinitionKind::Service)
                    == Seq::<String>::empty());
            },
        }
        assert forall|k2: DefinitionKind|
            #![trigger spec_kind_entries(pkg, k2)]
            k2 != kind implies spec_kind_entries(pkg, k2) == Seq::<String>::empty() by {
            if k2 == DefinitionKind::Message {
            } else if k2 == DefinitionKind::Service {
            } else {
                assert(k2 == DefinitionKind::Action);
            }
        }
        assert(spec_path_contributes(path@));
        assert(pkg.name@ == np_g@);
        assert(spec_name_bytes(spec_package_name(path@).unwrap())
            == spec_name_bytes(pkg.name@));
        lemma_new_package_files(
            pre,
            pkg,
            kind,
            *path,
            old(seen_pkg)@,
            old(seen_file)@,
            np_g,
            nf_g,
        );
    }
    out.push(pkg);
    proof {
        assert(seen_pkg@ == old(seen_pkg)@.push(np_g));
        assert(seen_file@ == old(seen_file)@.push(nf_g));
        assert(kind != DefinitionKind::Message ==> spec_entries_kept(
            out@,
            old(out)@,
            DefinitionKind::Message,
        ));
        assert(kind != DefinitionKind::Service ==> spec_entries_kept(
            out@,
            old(out)@,
            DefinitionKind::Service,
        ));
        assert(kind != DefinitionKind::Action ==> spec_entries_kept(
            out@,
            old(out)@,
            DefinitionKind::Action,
        ));
        assert(spec_name_bytes(pkg.name@) == key@);
        assert forall|j: int| 0 <= j < seen_pkg@.len() implies spec_has_name_bytes(
            out@,
            spec_name_bytes((#[trigger] seen_pkg@[j])@),
        ) by {
            if j < old(seen_pkg)@.len() {
                assert(seen_pkg@[j] == old(seen_pkg)@[j]);
                assert(spec_has_name_bytes(old(out)@, spec_name_bytes(old(seen_pkg)@[j]@)));
                let w = choose|w: int| 0 <= w < old(out)@.len()
                    && spec_name_bytes((#[trigger] old(out)@[w]).name@)
                        == spec_name_bytes(old(seen_pkg)@[j]@);
                assert(spec_has_name_bytes(out@, spec_name_bytes(old(out)@[w].name@)));
            } else {
                assert(seen_pkg@[j] == name);
                assert(spec_has_name_bytes(out@, key@));
            }
        }
    }
}

/// Discovers the message packages under one root directory: every `.msg`,
/// `.srv` and `.action` file below it, grouped by the package its path
/// names. An empty root yields no packages at all, without touching the
/// disk. Whatever the filesystem held, the returned packages have pairwise
/// distinct names and each holds at least one file.
pub fn get_ros_msgs_each_package(root_dir: &str) -> (r: Result<Vec<Package>, PackageError>)
    ensures
        match r {
            Ok(pkgs) => spec_unique_names(pkgs@) && spec_all_nonempty(pkgs@)
                && spec_packages_ok(pkgs@),
            Err(_) => true,
        },
        root_dir@.len() == 0 ==> (r matches Ok(pkgs) && pkgs@.len() == 0),
{
    if root_dir.unicode_len() == 0 {
        return Ok(Vec::new());
    }
    let root = String::from_str(root_dir);

    let msg_paths = match glob_paths(root.clone().concat("/**/msg/*.msg").as_str()) {
        Ok(v) => v,
        Err(e) => {
            return Err(e);
        },
    };
    let srv_paths = match glob_paths(root.clone().concat("/**/srv/*.srv").as_str()) {
        Ok(v) => v,
        Err(e) => {
            return Err(e);
        },
    };
    let action_paths = match glob_paths(root.clone().concat("/**/action/*.action").as_str()) {
        Ok(v) => v,
        Err(e) => {
            return Err(e);
        },
    };

    Ok(group_discovered(&msg_paths, &srv_paths, &action_paths))
}

/// Every file of this kind in the run is drawn from `src`.
spec fn spec_kind_from(s: Seq<Package>, kind: DefinitionKind, src: Seq<String>) -> bool {
    forall|i: int, a: int|
        #![trigger spec_kind_entries(s[i], kind)[a]]
        0 <= i < s.len() && 0 <= a < spec_kind_entries(s[i], kind).len()
        ==> spec_string_in(src, spec_kind_entries(s[i], kind)[a]@)
}

/// No package of the run holds a file of this kind.
spec fn spec_kind_empty(s: Seq<Package>, kind: DefinitionKind) -> bool {
    forall|i: int| 0 <= i < s.len() ==> spec_kind_entries(#[trigger] s[i], kind).len() == 0
}

/// Keeping files across two steps keeps them across both.
proof fn lemma_kept_trans(c: Seq<Package>, b: Seq<Package>, a: Seq<Package>, kind: DefinitionKind)
    requires
        spec_entries_kept(c, b, kind),
        spec_entries_kept(b, a, kind),
    ensures
        spec_entries_kept(c, a, kind),
{
    assert forall|i: int, x: int|
        #![trigger spec_kind_entries(c[i], kind)[x]]
        0 <= i < c.len() && 0 <= x < spec_kind_entries(c[i], kind).len()
        implies spec_entry_in(a, kind, spec_kind_entries(c[i], kind)[x]@) by {
        let v = spec_kind_entries(c[i], kind)[x]@;
        assert(spec_entry_in(b, kind, v));
        let (i0, a0) = choose|i0: int, a0: int|
            #![trigger spec_kind_entries(b[i0], kind)[a0]]
            0 <= i0 < b.len() && 0 <= a0 < spec_kind_entries(b[i0], kind).len()
            && spec_kind_entries(b[i0], kind)[a0]@ == v;
        assert(spec_entry_in(a, kind, spec_kind_entries(b[i0], kind)[a0]@));
    }
}

/// Files kept from a run that drew them from `src` are still drawn from
/// `src`.
proof fn lemma_kept_from(
    new: Seq<Package>,
    old_s: Seq<Package>,
    kind: DefinitionKind,
    src: Seq<String>,
)
    requires
        spec_entries_kept(new, old_s, kind),
        spec_kind_from(old_s, kind, src),
    ensures
        spec_kind_from(new, kind, src),
{
    assert forall|i: int, a: int|
        #![trigger spec_kind_entries(new[i], kind)[a]]
        0 <= i < new.len() && 0 <= a < spec_kind_entries(new[i], kind).len()
        implies spec_string_in(src, spec_kind_entries(new[i], kind)[a]@) by {
        let v = spec_kind_entries(new[i], kind)[a]@;
        assert(spec_entry_in(old_s, kind, v));
        let (i0, a0) = choose|i0: int, a0: int|
            #![trigger spec_kind_entries(old_s[i0], kind)[a0]]
            0 <= i0 < old_s.len() && 0 <= a0 < spec_kind_entries(old_s[i0], kind).len()
            && spec_kind_entries(old_s[i0], kind)[a0]@ == v;
        assert(spec_string_in(src, spec_kind_entries(old_s[i0], kind)[a0]@));
    }
}

/// Files kept from a run that had none of this kind leave none.
proof fn lemma_kept_empty(new: Seq<Package>, old_s: Seq<Package>, kind: DefinitionKind)
    requires
        spec_entries_kept(new, old_s, kind),
        spec_kind_empty(old_s, kind),
    ensures
        spec_kind_empty(new, kind),
{
    assert forall|i: int| 0 <= i < new.len() implies spec_kind_entries(
        #[trigger] new[i],
        kind,
    ).len() == 0 by {
        if spec_kind_entries(new[i], kind).len() > 0 {
            assert(spec_entry_in(old_s, kind, spec_kind_entries(new[i], kind)[0]@));
            let (i0, a0) = choose|i0: int, a0: int|
                #![trigger spec_kind_entries(old_s[i0], kind)[a0]]
                0 <= i0 < old_s.len() && 0 <= a0 < spec_kind_entries(old_s[i0], kind).len()
                && spec_kind_entries(old_s[i0], kind)[a0]@
                    == spec_kind_entries(new[i], kind)[0]@;
            assert(false);
        }
    }
}

/// Files every path of one kind under its package.
fn add_paths(out: &mut Vec<Package>, paths: &Vec<String>, kind: DefinitionKind)
    requires
        spec_unique_names(old(out)@),
        spec_all_nonempty(old(out)@),
        spec_packages_ok(old(out)@),
        spec_kind_empty(old(out)@, kind),
    ensures
        spec_unique_names(final(out)@),
        spec_all_nonempty(final(out)@),
        spec_packages_ok(final(out)@),
        spec_kind_from(final(out)@, kind, paths@),
        (kind != DefinitionKind::Message ==> spec_entries_kept(
            final(out)@,
            old(out)@,
            DefinitionKind::Message,
        )),
        (kind != DefinitionKind::Service ==> spec_entries_kept(
            final(out)@,
            old(out)@,
            DefinitionKind::Service,
        )),
        (kind != DefinitionKind::Action ==> spec_entries_kept(
            final(out)@,
            old(out)@,
            DefinitionKind::Action,
        )),
        forall|j: int| 0 <= j < old(out)@.len() ==> spec_has_name_bytes(
            final(out)@,
            spec_name_bytes((#[trigger] old(out)@[j]).name@),
        ),
        forall|j: int| 0 <= j < paths@.len() && spec_path_contributes((#[trigger] paths@[j])@)
            ==> spec_has_name_bytes(
            final(out)@,
            spec_name_bytes(spec_package_name(paths@[j]@).unwrap()),
        ),
{
    let mut seen_pkg: Vec<String> = Vec::new();
    let mut seen_file: Vec<String> = Vec::new();
    let n = paths.len();
    let mut i: usize = 0;
    proof {
        assert(spec_pairs_seen(out@, kind, seen_pkg@, seen_file@)) by {
            assert forall|x: int, a: int|
                #![trigger spec_kind_entries(out@[x], kind)[a]]
                0 <= x < out@.len() && 0 <= a < spec_kind_entries(out@[x], kind).len()
                implies spec_pair_in(
                seen_pkg@,
                seen_file@,
                spec_package_name(spec_kind_entries(out@[x], kind)[a]@).unwrap(),
                spec_file_part(spec_kind_entries(out@[x], kind)[a]@),
            ) by {
                assert(spec_kind_entries(out@[x], kind).len() == 0);
            }
        }
        assert forall|k2: DefinitionKind|
            #![trigger spec_entries_kept(out@, old(out)@, k2)]
            k2 != kind implies spec_entries_kept(out@, old(out)@, k2) by {
            lemma_entries_kept_self(out@, k2);
        }
        assert(spec_kind_from(out@, kind, paths@)) by {
            assert forall|x: int, a: int|
                #![trigger spec_kind_entries(out@[x], kind)[a]]
                0 <= x < out@.len() && 0 <= a < spec_kind_entries(out@[x], kind).len()
                implies spec_string_in(paths@, spec_kind_entries(out@[x], kind)[a]@) by {
                assert(spec_kind_entries(out@[x], kind).len() == 0);
            }
        }
    }
    while i < n
        invariant
            i <= n,
            n == paths@.len(),
            spec_unique_names(out@),
            spec_all_nonempty(out@),
            spec_packages_ok(out@),
            seen_pkg@.len() == seen_file@.len(),
            spec_pairs_seen(out@, kind, seen_pkg@, seen_file@),
            spec_kind_from(out@, kind, paths@),
            (forall|k2: DefinitionKind|
                #![trigger spec_entries_kept(out@, old(out)@, k2)]
                k2 != kind ==> spec_entries_kept(out@, old(out)@, k2)),
            forall|j: int| 0 <= j < seen_pkg@.len() ==> spec_has_name_bytes(
                out@,
                spec_name_bytes((#[trigger] seen_pkg@[j])@),
            ),
            forall|j: int| 0 <= j < old(out)@.len() ==> spec_has_name_bytes(
                out@,
                spec_name_bytes((#[trigger] old(out)@[j]).name@),
            ),
            forall|j: int| 0 <= j < i && spec_path_contributes((#[trigger] paths@[j])@)
                ==> spec_has_name_bytes(
                out@,
                spec_name_bytes(spec_package_name(paths@[j]@).unwrap()),
            ),
        decreases n - i,
    {
        let ghost out_before = out@;
        add_path(out, &mut seen_pkg, &mut seen_file, &paths[i], kind);
        proof {
            assert forall|j: int| 0 <= j < old(out)@.len() implies spec_has_name_bytes(
                out@,
                spec_name_bytes((#[trigger] old(out)@[j]).name@),
            ) by {
                let w = choose|w: int| 0 <= w < out_before.len()
                    && spec_name_bytes((#[trigger] out_before[w]).name@)
                        == spec_name_bytes(old(out)@[j].name@);
            }
            assert forall|j: int| 0 <= j < i + 1 && spec_path_contributes(
                (#[trigger] paths@[j])@,
            ) implies spec_has_name_bytes(
                out@,
                spec_name_bytes(spec_package_name(paths@[j]@).unwrap()),
            ) by {
                if j < i {
                    let w = choose|w: int| 0 <= w < out_before.len()
                        && spec_name_bytes((#[trigger] out_before[w]).name@)
                            == spec_name_bytes(spec_package_name(paths@[j]@).unwrap());
                }
            }
            assert(spec_kind_from(out@, kind, paths@)) by {
                assert forall|x: int, a: int|
                    #![trigger spec_kind_entries(out@[x], kind)[a]]
                    0 <= x < out@.len() && 0 <= a < spec_kind_entries(out@[x], kind).len()
                    implies spec_string_in(paths@, spec_kind_entries(out@[x], kind)[a]@) by {
                    let v = spec_kind_entries(out@[x], kind)[a]@;
                    if v == paths@[i as int]@ {
                        assert(0 <= i < paths@.len() && paths@[i as int]@ == v);
                    } else {
                        assert(spec_entry_in(out_before, kind, v));
                        let (i0, a0) = choose|i0: int, a0: int|
                            #![trigger spec_kind_entries(out_before[i0], kind)[a0]]
                            0 <= i0 < out_before.len()
                            && 0 <= a0 < spec_kind_entries(out_before[i0], kind).len()
                            && spec_kind_entries(out_before[i0], kind)[a0]@ == v;
                        assert(spec_string_in(
                            paths@,
                            spec_kind_entries(out_before[i0], kind)[a0]@,
                        ));
                    }
                }
            }
            assert forall|k2: DefinitionKind|
                #![trigger spec_entries_kept(out@, old(out)@, k2)]
                k2 != kind implies spec_entries_kept(out@, old(out)@, k2) by {
                if k2 == DefinitionKind::Message {
                    lemma_kept_trans(out@, out_before, old(out)@, k2);
                } else if k2 == DefinitionKind::Service {
                    lemma_kept_trans(out@, out_before, old(out)@, k2);
                } else {
                    assert(k2 == DefinitionKind::Action);
                    lemma_kept_trans(out@, out_before, old(out)@, k2);
                }
            }
        }
        i = i + 1;
    }
}

/// Groups discovered definition files by the package their paths name:
/// one `Package` per distinct name, holding its message, service and
/// action files, each drawn from the corresponding input list and filed
/// under the package its path names; a (package, file name) pair repeated
/// within one kind keeps only its first occurrence. Every contributing
/// path's package name appears in the result, the names are pairwise
/// distinct, and no package is empty.
pub fn group_discovered(
    msg_paths: &Vec<String>,
    srv_paths: &Vec<String>,
    action_paths: &Vec<String>,
) -> (r: Vec<Package>)
    ensures
        spec_unique_names(r@),
        spec_all_nonempty(r@),
        spec_packages_ok(r@),
        forall|i: int| 0 <= i < r@.len() ==> spec_entries_from(
            (#[trigger] r@[i]).messages@,
            msg_paths@,
        ) && spec_entries_from(r@[i].services@, srv_paths@)
            && spec_entries_from(r@[i].actions@, action_paths@),
        forall|j: int| 0 <= j < msg_paths@.len() && spec_path_contributes(
            (#[trigger] msg_paths@[j])@,
        ) ==> spec_has_name_bytes(r@, spec_name_bytes(spec_package_name(msg_paths@[j]@).unwrap())),
        forall|j: int| 0 <= j < srv_paths@.len() && spec_path_contributes(
            (#[trigger] srv_paths@[j])@,
        ) ==> spec_has_name_bytes(r@, spec_name_bytes(spec_package_name(srv_paths@[j]@).unwrap())),
        forall|j: int| 0 <= j < action_paths@.len() && spec_path_contributes(
            (#[trigger] action_paths@[j])@,
        ) ==> spec_has_name_bytes(
            r@,
            spec_name_bytes(spec_package_name(action_paths@[j]@).unwrap()),
        ),
{
    let mut out: Vec<Package> = Vec::new();
    proof {
        assert(spec_kind_empty(out@, DefinitionKind::Message));
        assert(spec_kind_empty(out@, DefinitionKind::Service));
        assert(spec_kind_empty(out@, DefinitionKind::Action));
    }
    add_paths(&mut out, msg_paths, DefinitionKind::Message);
    let ghost after_msg = out@;
    proof {
        lemma_kept_empty(out@, Seq::<Package>::empty(), DefinitionKind::Service);
        lemma_kept_empty(out@, Seq::<Package>::empty(), DefinitionKind::Action);
    }
    add_paths(&mut out, srv_paths, DefinitionKind::Service);
    let ghost after_srv = out@;
    proof {
        lemma_kept_empty(out@, after_msg, DefinitionKind::Action);
        lemma_kept_from(out@, after_msg, DefinitionKind::Message, msg_paths@);
    }
    add_paths(&mut out, action_paths, DefinitionKind::Action);
    proof {
        lemma_kept_from(out@, after_srv, DefinitionKind::Message, msg_paths@);
        lemma_kept_from(out@, after_srv, DefinitionKind::Service, srv_paths@);

        assert forall|i: int| 0 <= i < out@.len() implies spec_entries_from(
            (#[trigger] out@[i]).messages@,
            msg_paths@,
        ) && spec_entries_from(out@[i].services@, srv_paths@)
            && spec_entries_from(out@[i].actions@, action_paths@) by {
            assert forall|a: int| 0 <= a < out@[i].messages@.len() implies spec_string_in(
                msg_paths@,
                (#[trigger] out@[i].messages@[a])@,
            ) by {
                assert(spec_kind_entries(out@[i], DefinitionKind::Message)[a]
                    == out@[i].messages@[a]);
            }
            assert forall|a: int| 0 <= a < out@[i].services@.len() implies spec_string_in(
                srv_paths@,
                (#[trigger] out@[i].services@[a])@,
            ) by {
                assert(spec_kind_entries(out@[i], DefinitionKind::Service)[a]
                    == out@[i].services@[a]);
            }
            assert forall|a: int| 0 <= a < out@[i].actions@.len() implies spec_string_in(
                action_paths@,
                (#[trigger] out@[i].actions@[a])@,
            ) by {
                assert(spec_kind_entries(out@[i], DefinitionKind::Action)[a]
                    == out@[i].actions@[a]);
            }
        }

        assert forall|j: int| 0 <= j < msg_paths@.len() && spec_path_contributes(
            (#[trigger] msg_paths@[j])@,
        ) implies spec_has_name_bytes(
            out@,
            spec_name_bytes(spec_package_name(msg_paths@[j]@).unwrap()),
        ) by {
            let key = spec_name_bytes(spec_package_name(msg_paths@[j]@).unwrap());
            let w1 = choose|w: int| 0 <= w < after_msg.len()
                && spec_name_bytes((#[trigger] after_msg[w]).name@) == key;
            let w2 = choose|w: int| 0 <= w < after_srv.len()
                && spec_name_bytes((#[trigger] after_srv[w]).name@)
                    == spec_name_bytes(after_msg[w1].name@);
        }
        assert forall|j: int| 0 <= j < srv_paths@.len() && spec_path_contributes(
            (#[trigger] srv_paths@[j])@,
        ) implies spec_has_name_bytes(
            out@,
            spec_name_bytes(spec_package_name(srv_paths@[j]@).unwrap()),
        ) by {
            let key = spec_name_bytes(spec_package_name(srv_paths@[j]@).unwrap());
            let w1 = choose|w: int| 0 <= w < after_srv.len()
                && spec_name_bytes((#[trigger] after_srv[w]).name@) == key;
        }
    }
    out
}

/// Discovers the message packages under a set of root directories and
/// merges the results: packages are sorted by name, a name found under
/// several roots keeps only its first discovery, and empty packages are
/// dropped. No roots yield no packages. The first failing root aborts the
/// discovery with its error.
pub fn get_packages(paths: &Vec<String>) -> (r: Result<Vec<Package>, PackageError>)
    ensures
        match r {
            Ok(pkgs) => spec_well_grouped(pkgs@) && spec_packages_ok(pkgs@),
            Err(_) => true,
        },
        paths@.len() == 0 ==> (r matches Ok(pkgs) && pkgs@.len() == 0),
{
    let mut out: Vec<Package> = Vec::new();
    let n = paths.len();
    let mut i: usize = 0;
    while i < n
        invariant
            i <= n,
            n == paths@.len(),
            spec_well_grouped(out@),
            spec_packages_ok(out@),
            n == 0 ==> out@.len() == 0,
        decreases n - i,
    {
        let mut pkgs = match get_ros_msgs_each_package(paths[i].as_str()) {
            Ok(v) => v,
            Err(e) => {
                return Err(e);
            },
        };
        while pkgs.len() > 0
            invariant
                spec_well_grouped(out@),
                spec_packages_ok(out@),
                spec_all_nonempty(pkgs@),
                spec_packages_ok(pkgs@),
            decreases pkgs@.len(),
        {
            let ghost pk = pkgs@;
            let p = pkgs.remove(0);
            proof {
                pk.remove_ensures(0);
                assert(p == pk[0]);
                assert forall|x: int| 0 <= x < pkgs@.len() implies !(
                    #[trigger] pkgs@[x]).spec_is_empty() && spec_entries_ok(
                    pkgs@[x].messages@,
                    pkgs@[x].name@,
                ) && spec_entries_ok(pkgs@[x].services@, pkgs@[x].name@)
                    && spec_entries_ok(pkgs@[x].actions@, pkgs@[x].name@) by {
                    assert(pkgs@[x] == pk[x + 1]);
                }
            }
            if !p.is_empty() {
                insert_sorted(&mut out, p);
            }
        }
        i = i + 1;
    }
    Ok(out)
}

} // verus!
