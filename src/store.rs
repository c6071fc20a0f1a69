use vstd::prelude::*;

verus! {

/// The address of one object in the store: a bucket and a key path inside it.
#[derive(Debug)]
pub struct Key {
    pub bucket: String,
    pub key: String,
}

/// Spec-level value of a `Key`: (bucket, key path).
impl View for Key {
    type V = (Seq<char>, Seq<char>);

    open spec fn view(&self) -> (Seq<char>, Seq<char>) {
        (self.bucket@, self.key@)
    }
}

impl Key {
    pub fn new(bucket: String, key: String) -> (r: Key)
        ensures
            r.bucket@ == bucket@,
            r.key@ == key@,
    {
        Key { bucket, key }
    }
}

/// One entry of a bucket listing, as the store reports it: the key, when
/// present, and the last-modified time, when present.
#[derive(Debug)]
pub struct ListedObject {
    pub key: Option<String>,
    pub last_modified: Option<String>,
}

/// Whether two strings hold the same characters.
pub fn same_text(a: &str, b: &str) -> (r: bool)
    ensures
        r == (a@ == b@),
{
    let n = a.unicode_len();
    if n != b.unicode_len() {
        return false;
    }
    let mut i: usize = 0;
    while i < n
        invariant
            i <= n,
            n == a@.len(),
            n == b@.len(),
            forall|j: int| 0 <= j < i ==> a@[j] == b@[j],
        decreases n - i,
    {
        if a.get_char(i) != b.get_char(i) {
            return false;
        }
        i += 1;
    }
    assert(a@ =~= b@);
    true
}

} // verus!
