use vstd::prelude::*;
use itertools::Itertools;
use crate::store::{Key, ListedObject, same_text};
use crate::refs::{
    GitRef, RemoteRef, RemoteRefs, StoredVersion, is_history_of, key_is_well_formed, key_name,
    key_sha, parse_object_key, sorted_remote_refs, versions_of,
};

verus! {

/// A listed object that cannot be read as a stored ref version.
pub open spec fn object_is_bad(root_len: int, o: ListedObject) -> bool {
    match o.key {
        Some(k) => !key_is_well_formed(root_len, k@) || o.last_modified is None,
        None => false,
    }
}

/// The stored version that a listed object with key `k` and time `t` stands for.
pub open spec fn version_at(root: Key, k: Seq<char>, t: Seq<char>) -> StoredVersion {
    StoredVersion {
        bucket: root.bucket@,
        key: k,
        updated: t,
        name: key_name(root.key@.len() as int, k),
        sha: key_sha(k),
    }
}

/// The stored versions a listing holds, in listing order; objects without a key
/// are passed over.
pub open spec fn listed_versions(root: Key, objs: Seq<ListedObject>) -> Seq<StoredVersion>
    decreases objs.len(),
{
    if objs.len() == 0 {
        Seq::empty()
    } else {
        let rest = listed_versions(root, objs.drop_last());
        let o = objs.last();
        match o.key {
            Some(k) => {
                let t = match o.last_modified {
                    Some(t) => t@,
                    None => Seq::empty(),
                };
                rest.push(version_at(root, k@, t))
            },
            None => rest,
        }
    }
}

pub open spec fn versions_named(vs: Seq<StoredVersion>, name: Seq<char>) -> Seq<StoredVersion> {
    vs.filter(|v: StoredVersion| v.name == name)
}

/// Why a listing could not be read as a catalog.
#[derive(Debug)]
pub enum CatalogError {
    /// A stored key is not of the shape `root/<name>/<sha>.<ext>`.
    MalformedKey(String),
    /// The store reported no last-modified time for this key.
    MissingTimestamp(String),
}

/// The refs a bucket holds, by name: for each name, all of its stored versions,
/// newest first.
#[derive(Debug)]
pub struct Catalog {
    pub entries: Vec<(String, RemoteRefs)>,
}

impl Catalog {
    /// Names appear once each, and every history is non-empty and holds
    /// versions of its own name only.
    pub open spec fn wf(&self) -> bool {
        &&& forall|i: int, j: int|
            0 <= i < j < self.entries.len() ==> #[trigger] self.entries@[i].0@ != #[trigger] self.entries@[j].0@
        &&& forall|i: int| 0 <= i < self.entries.len() ==> #[trigger] self.entries@[i].1.by_update_time.len() > 0
    }

    /// `self` is the catalog of the stored versions `vs`.
    pub open spec fn catalogs(&self, vs: Seq<StoredVersion>) -> bool {
        &&& self.wf()
        &&& forall|i: int| 0 <= i < self.entries.len() ==>
            is_history_of(#[trigger] self.entries@[i].1.history(), versions_named(vs, self.entries@[i].0@))
        &&& forall|k: int| 0 <= k < vs.len() ==> self.has_name(#[trigger] vs[k].name)
    }

    pub open spec fn has_name(&self, name: Seq<char>) -> bool {
        exists|i: int| 0 <= i < self.entries.len() && self.entries@[i].0@ == name
    }

    /// The stored versions of `name`, newest first, if any are stored.
    pub fn get(&self, name: &str) -> (r: Option<&RemoteRefs>)
        ensures
            r is Some <==> self.has_name(name@),
            r matches Some(h) ==> exists|i: int|
                0 <= i < self.entries.len() && self.entries@[i].0@ == name@ && *h == self.entries@[i].1,
    {
        let mut i: usize = 0;
        while i < self.entries.len()
            invariant
                i <= self.entries.len(),
                forall|j: int| 0 <= j < i ==> self.entries@[j].0@ != name@,
            decreases self.entries.len() - i,
        {
            if same_text(self.entries[i].0.as_str(), name) {
                return Some(&self.entries[i].1);
            }
            i += 1;
        }
        None
    }
}

/// Relies on itertools::Itertools::into_group_map: the versions grouped by ref
/// name, each group in the order the versions came, each name once, no group
/// empty. The groups come in the hash map's order, which nothing here relies on.
#[verifier::external_body]
fn group_by_name(refs: Vec<RemoteRef>) -> (r: Vec<(String, Vec<RemoteRef>)>)
    ensures
        forall|i: int, j: int| 0 <= i < j < r.len() ==> #[trigger] r@[i].0@ != #[trigger] r@[j].0@,
        forall|i: int| 0 <= i < r.len() ==> #[trigger] r@[i].1.len() > 0,
        forall|i: int| 0 <= i < r.len() ==>
            versions_of(#[trigger] r@[i].1@) == versions_named(versions_of(refs@), r@[i].0@),
        forall|k: int| 0 <= k < refs.len() ==>
            exists|i: int| 0 <= i < r.len() && #[trigger] r@[i].0@ == #[trigger] refs@[k].reference.name@,
{
    refs.into_iter().map(|v| (v.reference.name.clone(), v)).into_group_map().into_iter().collect()
}

/// `e` is the error that the listed object `o` gives.
pub open spec fn error_for(e: CatalogError, root_len: int, o: ListedObject) -> bool {
    match e {
        CatalogError::MalformedKey(k) => o.key matches Some(x) && x@ == k@
            && !key_is_well_formed(root_len, k@),
        CatalogError::MissingTimestamp(k) => o.key matches Some(x) && x@ == k@
            && key_is_well_formed(root_len, k@) && o.last_modified is None,
    }
}

/// Builds the catalog of the refs stored under `root` from a listing of the
/// bucket under that prefix. Fails on the first object that cannot be read as
/// a stored version; an empty listing gives an empty catalog.
pub fn list_remote_refs(root: &Key, objects: Vec<ListedObject>) -> (r: Result<Catalog, CatalogError>)
    ensures
        r is Ok <==> forall|i: int| 0 <= i < objects.len() ==> !object_is_bad(root.key@.len() as int, #[trigger] objects@[i]),
        r matches Ok(c) ==> c.catalogs(listed_versions(*root, objects@)),
        r matches Err(e) ==> exists|i: int| 0 <= i < objects.len()
            && error_for(e, root.key@.len() as int, #[trigger] objects@[i])
            && forall|j: int| 0 <= j < i ==> !object_is_bad(root.key@.len() as int, #[trigger] objects@[j]),
{
    let ghost root_len = root.key@.len() as int;
    let mut found: Vec<RemoteRef> = Vec::new();
    let mut i: usize = 0;
    while i < objects.len()
        invariant
            i <= objects.len(),
            root_len == root.key@.len(),
            versions_of(found@) == listed_versions(*root, objects@.subrange(0, i as int)),
            forall|j: int| 0 <= j < i ==> !object_is_bad(root_len, #[trigger] objects@[j]),
        decreases objects.len() - i,
    {
        let o = &objects[i];
        assert(objects@.subrange(0, i + 1).drop_last() =~= objects@.subrange(0, i as int));
        assert(objects@.subrange(0, i + 1).last() == objects@[i as int]);
        match &o.key {
            Some(k) => {
                let parsed = parse_object_key(root, k.as_str());
                match parsed {
                    None => {
                        return Err(CatalogError::MalformedKey(k.clone()));
                    },
                    Some(reference) => match &o.last_modified {
                        None => {
                            return Err(CatalogError::MissingTimestamp(k.clone()));
                        },
                        Some(t) => {
                            let v = RemoteRef {
                                object: Key { bucket: root.bucket.clone(), key: k.clone() },
                                updated: t.clone(),
                                reference,
                            };
                            let ghost before = found@;
                            found.push(v);
                            assert(versions_of(found@) =~= versions_of(before).push(v@));
                        },
                    },
                }
            },
            None => {},
        }
        i += 1;
    }
    assert(objects@.subrange(0, objects.len() as int) =~= objects@);
    let ghost all = versions_of(found@);
    let mut groups = group_by_name(found);
    let ghost g0 = groups@;
    let ghost n = g0.len();
    let mut entries: Vec<(String, RemoteRefs)> = Vec::new();
    while groups.len() > 0
        invariant
            n == g0.len(),
            groups.len() + entries.len() == n,
            groups@ == g0.subrange(0, groups.len() as int),
            forall|k: int| 0 <= k < entries.len() ==> {
                &&& #[trigger] entries@[k].0@ == g0[n - 1 - k].0@
                &&& is_history_of(entries@[k].1.history(), versions_of(g0[n - 1 - k].1@))
                &&& entries@[k].1.by_update_time.len() == g0[n - 1 - k].1.len()
            },
        decreases groups.len(),
    {
        let (name, group) = groups.pop().unwrap();
        let history = sorted_remote_refs(group);
        entries.push((name, history));
    }
    let c = Catalog { entries };
    assert forall|i: int, j: int| 0 <= i < j < c.entries.len() implies
        #[trigger] c.entries@[i].0@ != #[trigger] c.entries@[j].0@ by {
        assert(g0[n - 1 - j].0@ != g0[n - 1 - i].0@);
    }
    assert forall|i: int| 0 <= i < c.entries.len() implies
        is_history_of(#[trigger] c.entries@[i].1.history(), versions_named(all, c.entries@[i].0@)) by {
        assert(c.entries@[i].0@ == g0[n - 1 - i].0@);
        assert(versions_of(g0[n - 1 - i].1@) == versions_named(all, g0[n - 1 - i].0@));
    }
    assert forall|i: int| 0 <= i < c.entries.len() implies #[trigger] c.entries@[i].1.by_update_time.len() > 0 by {
        assert(c.entries@[i].0@ == g0[n - 1 - i].0@);
        assert(g0[n - 1 - i].1.len() > 0);
    }
    assert forall|k: int| 0 <= k < all.len() implies c.has_name(#[trigger] all[k].name) by {
        let i = choose|i: int| 0 <= i < n && #[trigger] g0[i].0@ == found@[k].reference.name@;
        assert(c.entries@[n - 1 - i].0@ == all[k].name);
    }
    Ok(c)
}

} // verus!
