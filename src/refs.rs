use vstd::prelude::*;
use crate::store::{Key, ListedObject};
use itertools::Itertools;

verus! {

/// The key path of the bundle that stores `sha` for the ref `name` under `root`:
/// `root/name/sha.bundle`.
pub open spec fn object_path(root: Seq<char>, name: Seq<char>, sha: Seq<char>) -> Seq<char> {
    root + seq!['/'] + name + seq!['/'] + sha + seq!['.', 'b', 'u', 'n', 'd', 'l', 'e']
}

/// A named ref and the commit it points at.
#[derive(Debug)]
pub struct GitRef {
    pub name: String,
    pub sha: String,
}

impl GitRef {
    pub fn new(name: String, sha: String) -> (r: GitRef)
        ensures
            r.name@ == name@,
            r.sha@ == sha@,
    {
        GitRef { name, sha }
    }

    /// The key path under which this ref's bundle is stored below `root`.
    pub fn bundle_path(&self, root: String) -> (r: String)
        ensures
            r@ == object_path(root@, self.name@, self.sha@),
    {
        let mut s = String::new();
        s.append(root.as_str());
        s.append("/");
        s.append(self.name.as_str());
        s.append("/");
        s.append(self.sha.as_str());
        s.append(".bundle");
        proof {
            reveal_strlit("/");
            reveal_strlit(".bundle");
            assert(s@ =~= object_path(root@, self.name@, self.sha@));
        }
        s
    }
}


/// Where the bundle of `r` is stored in the bucket of `root`.
pub fn object_key(root: &Key, r: &GitRef) -> (k: Key)
    ensures
        k.bucket@ == root.bucket@,
        k.key@ == object_path(root.key@, r.name@, r.sha@),
{
    Key { bucket: root.bucket.clone(), key: r.bundle_path(root.key.clone()) }
}

/// A stored version's address is a function of (root, name, sha) alone: the
/// same commit pushed twice under one name lands on the same object, and two
/// different commits of one name never share an address.
pub proof fn lemma_addressing(root: Seq<char>, name: Seq<char>, sha1: Seq<char>, sha2: Seq<char>)
    ensures
        object_path(root, name, sha1) == object_path(root, name, sha2) <==> sha1 == sha2,
{
    if object_path(root, name, sha1) == object_path(root, name, sha2) {
        let p1 = object_path(root, name, sha1);
        let p2 = object_path(root, name, sha2);
        let off = root.len() + name.len() + 2;
        assert(p1.len() == off + sha1.len() + 7);
        assert(p2.len() == off + sha2.len() + 7);
        assert(sha1.len() == sha2.len());
        assert forall|k: int| 0 <= k < sha1.len() implies sha1[k] == sha2[k] by {
            assert(p1[off + k] == sha1[k]);
            assert(p2[off + k] == sha2[k]);
        }
        assert(sha1 =~= sha2);
    }
}

/// Lexicographic order on character sequences by code point, which is the order
/// of `String`'s `Ord` (byte-wise order of UTF-8 agrees with code point order).
/// The store's last-modified times are compared in this order.
pub open spec fn stamp_le(a: Seq<char>, b: Seq<char>) -> bool
    decreases a.len(),
{
    if a.len() == 0 {
        true
    } else if b.len() == 0 {
        false
    } else if a[0] != b[0] {
        (a[0] as u32) < (b[0] as u32)
    } else {
        stamp_le(a.drop_first(), b.drop_first())
    }
}

/// Every timestamp is ordered before or equal to itself.
pub proof fn lemma_stamp_le_refl(a: Seq<char>)
    ensures
        stamp_le(a, a),
    decreases a.len(),
{
    if a.len() > 0 {
        lemma_stamp_le_refl(a.drop_first());
    }
}

/// Spec-level value of one stored version of a ref.
pub struct StoredVersion {
    pub bucket: Seq<char>,
    pub key: Seq<char>,
    pub updated: Seq<char>,
    pub name: Seq<char>,
    pub sha: Seq<char>,
}

/// One stored snapshot of a ref: where it lives, when the store last modified
/// it, and the ref it encodes.
#[derive(Debug)]
pub struct RemoteRef {
    pub object: Key,
    pub updated: String,
    pub reference: GitRef,
}

impl View for RemoteRef {
    type V = StoredVersion;

    open spec fn view(&self) -> StoredVersion {
        StoredVersion {
            bucket: self.object.bucket@,
            key: self.object.key@,
            updated: self.updated@,
            name: self.reference.name@,
            sha: self.reference.sha@,
        }
    }
}

pub open spec fn versions_of(v: Seq<RemoteRef>) -> Seq<StoredVersion> {
    v.map_values(|r: RemoteRef| r@)
}

/// Versions ordered by timestamp, and versions with equal timestamps by their
/// object key: the order of the pair (updated, key) under `Ord`.
pub open spec fn version_le(a: StoredVersion, b: StoredVersion) -> bool {
    if a.updated == b.updated {
        stamp_le(a.key, b.key)
    } else {
        stamp_le(a.updated, b.updated)
    }
}

/// `h` lists the most recently updated version first.
pub open spec fn newest_first(h: Seq<StoredVersion>) -> bool {
    forall|i: int, j: int| 0 <= i < j < h.len() ==> version_le(#[trigger] h[j], #[trigger] h[i])
}

/// `h` is a history of the versions `vs`: the same versions, newest first.
pub open spec fn is_history_of(h: Seq<StoredVersion>, vs: Seq<StoredVersion>) -> bool {
    &&& h.to_multiset() == vs.to_multiset()
    &&& newest_first(h)
}

/// All stored versions of one ref name, most recently updated first.
#[derive(Debug)]
pub struct RemoteRefs {
    pub by_update_time: Vec<RemoteRef>,
}

impl RemoteRefs {
    pub open spec fn history(&self) -> Seq<StoredVersion> {
        versions_of(self.by_update_time@)
    }

    /// The current value of the ref: the most recently updated version.
    pub fn latest_ref(&self) -> (r: &RemoteRef)
        requires
            self.by_update_time.len() > 0,
        ensures
            *r == self.by_update_time@[0],
            r@ == self.history()[0],
    {
        &self.by_update_time[0]
    }
}

/// Relies on itertools::Itertools::sorted_by_key: the same items, reordered so
/// that the pairs (updated, object key) ascend under the `Ord` of a pair of
/// `String`s (lexicographic, first by the first member).
#[verifier::external_body]
fn sort_by_updated(refs: Vec<RemoteRef>) -> (r: Vec<RemoteRef>)
    ensures
        versions_of(r@).to_multiset() == versions_of(refs@).to_multiset(),
        forall|i: int, j: int|
            0 <= i < j < r.len() ==> version_le(#[trigger] r@[i]@, #[trigger] r@[j]@),
{
    refs.into_iter().sorted_by_key(|r| (r.updated.clone(), r.object.key.clone())).collect()
}

/// Orders the versions of one ref newest first; versions with equal timestamps
/// come in descending order of their object key, whatever order they are given in.
pub fn sorted_remote_refs(refs: Vec<RemoteRef>) -> (r: RemoteRefs)
    ensures
        is_history_of(r.history(), versions_of(refs@)),
        r.by_update_time.len() == refs.len(),
{
    let mut ascending = sort_by_updated(refs);
    let ghost asc = ascending@;
    let mut out: Vec<RemoteRef> = Vec::new();
    while ascending.len() > 0
        invariant
            ascending.len() + out.len() == asc.len(),
            ascending@ == asc.subrange(0, ascending.len() as int),
            forall|k: int| 0 <= k < out.len() ==> #[trigger] out@[k] == asc[asc.len() - 1 - k],
        decreases ascending.len(),
    {
        let x = ascending.pop().unwrap();
        out.push(x);
    }
    proof {
        versions_of(refs@).to_multiset_ensures();
        versions_of(asc).to_multiset_ensures();
        let v = versions_of(asc);
        assert(versions_of(out@) =~= v.reverse());
        v.lemma_reverse_to_multiset();
    }
    RemoteRefs { by_update_time: out }
}

/// Whatever order the store lists them in, the current value of a ref is a
/// version with the greatest timestamp among all its stored versions.
pub proof fn lemma_latest_is_newest(h: Seq<StoredVersion>, vs: Seq<StoredVersion>)
    requires
        is_history_of(h, vs),
        vs.len() > 0,
    ensures
        h.len() > 0,
        vs.contains(h[0]),
        forall|i: int| 0 <= i < vs.len() ==> stamp_le(#[trigger] vs[i].updated, h[0].updated),
{
    h.to_multiset_ensures();
    vs.to_multiset_ensures();
    assert(h.len() > 0);
    assert(h.contains(h[0]));
    assert(vs.to_multiset().count(h[0]) > 0);
    assert forall|i: int| 0 <= i < vs.len() implies stamp_le(#[trigger] vs[i].updated, h[0].updated) by {
        assert(vs.contains(vs[i]));
        assert(h.to_multiset().count(vs[i]) > 0);
        let j = choose|j: int| 0 <= j < h.len() && h[j] == vs[i];
        if j == 0 {
            lemma_stamp_le_refl(h[0].updated);
        } else {
            assert(version_le(h[j], h[0]));
            if h[j].updated == h[0].updated {
                lemma_stamp_le_refl(h[0].updated);
            }
        }
    }
}

/// Index of the last occurrence of `c` in `s`, or -1 when there is none.
pub open spec fn last_index(s: Seq<char>, c: char) -> int
    decreases s.len(),
{
    if s.len() == 0 {
        -1
    } else if s.last() == c {
        s.len() - 1
    } else {
        last_index(s.drop_last(), c)
    }
}

/// A stored key has the shape `root/<name>/<sha>.<ext>`, located by its last
/// `/` and its last `.`, where `root` has `root_len` characters.
pub open spec fn key_is_well_formed(root_len: int, k: Seq<char>) -> bool {
    let ls = last_index(k, '/');
    let ld = last_index(k, '.');
    &&& ls >= 0
    &&& ld >= 0
    &&& root_len + 1 <= ls
    &&& ls + 1 <= ld
}

pub open spec fn key_name(root_len: int, k: Seq<char>) -> Seq<char> {
    k.subrange(root_len + 1, last_index(k, '/'))
}

pub open spec fn key_sha(k: Seq<char>) -> Seq<char> {
    k.subrange(last_index(k, '/') + 1, last_index(k, '.'))
}

proof fn lemma_last_index_bounds(s: Seq<char>, c: char)
    ensures
        -1 <= last_index(s, c) < s.len(),
    decreases s.len(),
{
    if s.len() > 0 {
        lemma_last_index_bounds(s.drop_last(), c);
    }
}

fn rfind_char(s: &str, c: char) -> (r: Option<usize>)
    ensures
        match r {
            Some(i) => i as int == last_index(s@, c),
            None => last_index(s@, c) == -1,
        },
{
    let n = s.unicode_len();
    let mut i: usize = n;
    assert(s@ =~= s@.subrange(0, n as int));
    while i > 0
        invariant
            i <= n,
            n == s@.len(),
            last_index(s@, c) == last_index(s@.subrange(0, i as int), c),
        decreases i,
    {
        assert(s@.subrange(0, i as int).drop_last() =~= s@.subrange(0, i - 1));
        if s.get_char(i - 1) == c {
            return Some(i - 1);
        }
        i -= 1;
    }
    None
}

/// Reads the ref that a stored key encodes, or `None` when the key does not
/// have the shape `root/<name>/<sha>.<ext>`.
pub fn parse_object_key(root: &Key, key: &str) -> (r: Option<GitRef>)
    ensures
        r is Some <==> key_is_well_formed(root.key@.len() as int, key@),
        r matches Some(g) ==> g.name@ == key_name(root.key@.len() as int, key@) && g.sha@ == key_sha(key@),
{
    let root_len = root.key.as_str().unicode_len();
    let slash = rfind_char(key, '/');
    let dot = rfind_char(key, '.');
    proof {
        lemma_last_index_bounds(key@, '.');
    }
    match (slash, dot) {
        (Some(ls), Some(ld)) => {
            if root_len < ls && ls < ld {
                let name = key.substring_char(root_len + 1, ls).to_owned();
                let sha = key.substring_char(ls + 1, ld).to_owned();
                Some(GitRef { name, sha })
            } else {
                None
            }
        },
        _ => None,
    }
}

} // verus!
