use vstd::prelude::*;
use crate::store::{Key, same_text};
use crate::refs::{RemoteRefs, StoredVersion};

verus! {

/// Index of the first occurrence of `c` in `s`, or -1 when there is none.
pub open spec fn first_index(s: Seq<char>, c: char) -> int
    decreases s.len(),
{
    if s.len() == 0 {
        -1
    } else if s[0] == c {
        0
    } else {
        let k = first_index(s.drop_first(), c);
        if k < 0 { -1 } else { k + 1 }
    }
}

proof fn lemma_first_index(s: Seq<char>, c: char)
    ensures
        -1 <= first_index(s, c) < s.len(),
        first_index(s, c) >= 0 ==> s[first_index(s, c)] == c,
        forall|j: int| 0 <= j < s.len() && (first_index(s, c) < 0 || j < first_index(s, c)) ==> s[j] != c,
    decreases s.len(),
{
    if s.len() > 0 {
        lemma_first_index(s.drop_first(), c);
        assert forall|j: int| 0 <= j < s.len() && (first_index(s, c) < 0 || j < first_index(s, c)) implies s[j] != c by {
            if j > 0 {
                assert(s[j] == s.drop_first()[j - 1]);
            }
        }
    }
}

pub(crate) fn find_first(s: &str, c: char) -> (r: Option<usize>)
    ensures
        match r {
            Some(i) => i as int == first_index(s@, c),
            None => first_index(s@, c) == -1,
        },
{
    proof {
        lemma_first_index(s@, c);
    }
    let n = s.unicode_len();
    let mut i: usize = 0;
    while i < n
        invariant
            i <= n,
            n == s@.len(),
            forall|j: int| 0 <= j < i ==> s@[j] != c,
        decreases n - i,
    {
        if s.get_char(i) == c {
            proof {
                lemma_first_index(s@, c);
            }
            return Some(i);
        }
        i += 1;
    }
    proof {
        lemma_first_index(s@, c);
    }
    None
}

/// A push request `[+]src:dst` whose source and destination name the same ref.
#[derive(Debug)]
pub struct PushRequest {
    pub force: bool,
    pub name: String,
}

/// Why a push request was refused before any work was done.
#[derive(Debug, PartialEq, Eq, Structural)]
pub enum PushRequestError {
    /// The request has no `:` separating source and destination.
    MissingDestination,
    /// Source and destination differ: refs are not renamed in flight.
    RenameUnsupported,
}

pub open spec fn is_forced(s: Seq<char>) -> bool {
    s.len() > 0 && s[0] == '+'
}

/// The request without its leading `+`, if any.
pub open spec fn refspec_body(s: Seq<char>) -> Seq<char> {
    if is_forced(s) { s.drop_first() } else { s }
}

pub open spec fn push_src(s: Seq<char>) -> Seq<char> {
    let b = refspec_body(s);
    b.subrange(0, first_index(b, ':'))
}

/// What follows the first `:`, up to a second `:` if there is one.
pub open spec fn push_dst(s: Seq<char>) -> Seq<char> {
    let b = refspec_body(s);
    let rest = b.subrange(first_index(b, ':') + 1, b.len() as int);
    let k = first_index(rest, ':');
    if k < 0 { rest } else { rest.subrange(0, k) }
}

/// Reads a push request `[+]src:dst`. A leading `+` asks for a forced push.
pub fn parse_push_request(s: &str) -> (r: Result<PushRequest, PushRequestError>)
    ensures
        first_index(refspec_body(s@), ':') < 0 <==> r == Err::<PushRequest, PushRequestError>(PushRequestError::MissingDestination),
        first_index(refspec_body(s@), ':') >= 0 && push_src(s@) != push_dst(s@)
            <==> r == Err::<PushRequest, PushRequestError>(PushRequestError::RenameUnsupported),
        r matches Ok(p) ==> p.force == is_forced(s@) && p.name@ == push_src(s@)
            && p.name@ == push_dst(s@),
{
    let n = s.unicode_len();
    let force = n > 0 && s.get_char(0) == '+';
    let body = if force { s.substring_char(1, n) } else { s };
    proof {
        assert(body@ == refspec_body(s@)) by {
            if !force {
                assert(s@ =~= s@);
            }
        }
        lemma_first_index(body@, ':');
    }
    let m = body.unicode_len();
    match find_first(body, ':') {
        None => Err(PushRequestError::MissingDestination),
        Some(c) => {
            let src = body.substring_char(0, c);
            let rest = body.substring_char(c + 1, m);
            proof {
                lemma_first_index(rest@, ':');
            }
            let dst = match find_first(rest, ':') {
                Some(k) => rest.substring_char(0, k),
                None => rest,
            };
            if same_text(src, dst) {
                Ok(PushRequest { force, name: src.to_owned() })
            } else {
                Err(PushRequestError::RenameUnsupported)
            }
        },
    }
}

/// A push without force goes ahead when nothing is stored under the name yet,
/// or when the current stored commit is an ancestor of (or equal to) the local one.
pub open spec fn push_allowed(force: bool, has_current: bool, current_is_ancestor: bool) -> bool {
    force || !has_current || current_is_ancestor
}

/// The commit that must be an ancestor of the local commit for the push to go
/// ahead: the current stored version's, unless the push is forced or nothing
/// is stored yet.
pub fn required_ancestor(force: bool, history: Option<&RemoteRefs>) -> (r: Option<String>)
    requires
        history matches Some(h) ==> h.by_update_time.len() > 0,
    ensures
        r is Some <==> (!force && history is Some),
        r matches Some(sha) ==> sha@ == history.unwrap().history()[0].sha,
{
    if force {
        return None;
    }
    match history {
        None => None,
        Some(h) => Some(h.latest_ref().reference.sha.clone()),
    }
}

/// Whether a push goes ahead, given the answer to the ancestry question of
/// `required_ancestor` (ignored where no question was asked).
pub fn can_push(force: bool, history: Option<&RemoteRefs>, current_is_ancestor: bool) -> (r: bool)
    ensures
        r == push_allowed(force, history is Some, current_is_ancestor),
{
    force || history.is_none() || current_is_ancestor
}

/// Pushing along a chain of commits a, b, c (each a descendant of the one
/// before) goes ahead from a to c without force, is refused from c back to a
/// without force, and goes ahead from c back to a with force. `anc(x, y)` is
/// the ancestry relation: x is an ancestor of, or equal to, y.
pub proof fn lemma_fast_forward_gate(
    anc: spec_fn(Seq<char>, Seq<char>) -> bool,
    a: Seq<char>,
    b: Seq<char>,
    c: Seq<char>,
)
    requires
        forall|x: Seq<char>, y: Seq<char>, z: Seq<char>| #[trigger] anc(x, y) && #[trigger] anc(y, z) ==> anc(x, z),
        forall|x: Seq<char>, y: Seq<char>| #[trigger] anc(x, y) && #[trigger] anc(y, x) ==> x == y,
        anc(a, b),
        anc(b, c),
        a != c,
    ensures
        push_allowed(false, true, anc(a, c)),
        !push_allowed(false, true, anc(c, a)),
        push_allowed(true, true, anc(c, a)),
{
    assert(anc(a, c));
}

/// Where a stored version lives: (bucket, key).
pub open spec fn address(v: StoredVersion) -> (Seq<char>, Seq<char>) {
    (v.bucket, v.key)
}

/// The addresses of the stored versions marked in `flags`, in history order,
/// leaving out the address `kept`.
pub open spec fn stale_keys(
    h: Seq<StoredVersion>,
    flags: Seq<bool>,
    kept: (Seq<char>, Seq<char>),
) -> Seq<(Seq<char>, Seq<char>)>
    decreases h.len(),
{
    if h.len() == 0 {
        Seq::empty()
    } else {
        let rest = stale_keys(h.drop_last(), flags.drop_last(), kept);
        if flags.last() && address(h.last()) != kept {
            rest.push(address(h.last()))
        } else {
            rest
        }
    }
}

/// The objects to delete after `pushed` was uploaded: those of the versions
/// whose commit is an ancestor of (or equal to) the pushed one
/// (`is_ancestor[i]` answers that for the i-th version of `history`), except
/// the object just uploaded, which a re-push of a stored commit overwrites.
pub fn stale_objects(history: &RemoteRefs, is_ancestor: &Vec<bool>, pushed: &Key) -> (r: Vec<Key>)
    requires
        is_ancestor.len() == history.by_update_time.len(),
    ensures
        r@.map_values(|k: Key| k@) == stale_keys(history.history(), is_ancestor@, pushed@),
{
    let ghost h = history.history();
    let mut out: Vec<Key> = Vec::new();
    let mut i: usize = 0;
    while i < is_ancestor.len()
        invariant
            i <= is_ancestor.len(),
            is_ancestor.len() == history.by_update_time.len(),
            h == history.history(),
            out@.map_values(|k: Key| k@) == stale_keys(
                h.subrange(0, i as int),
                is_ancestor@.subrange(0, i as int),
                pushed@,
            ),
        decreases is_ancestor.len() - i,
    {
        assert(h.subrange(0, i + 1).drop_last() =~= h.subrange(0, i as int));
        assert(is_ancestor@.subrange(0, i + 1).drop_last() =~= is_ancestor@.subrange(0, i as int));
        let v = &history.by_update_time[i];
        let is_pushed = same_text(v.object.bucket.as_str(), pushed.bucket.as_str())
            && same_text(v.object.key.as_str(), pushed.key.as_str());
        if is_ancestor[i] && !is_pushed {
            let k = Key { bucket: v.object.bucket.clone(), key: v.object.key.clone() };
            let ghost before = out@;
            out.push(k);
            assert(out@.map_values(|k: Key| k@) =~= before.map_values(|k: Key| k@).push(k@));
        }
        i += 1;
    }
    assert(h.subrange(0, i as int) =~= h);
    assert(is_ancestor@.subrange(0, i as int) =~= is_ancestor@);
    out
}

proof fn lemma_stale_keys_members(
    h: Seq<StoredVersion>,
    flags: Seq<bool>,
    kept: (Seq<char>, Seq<char>),
    x: (Seq<char>, Seq<char>),
)
    requires
        flags.len() == h.len(),
    ensures
        stale_keys(h, flags, kept).contains(x) <==> x != kept && exists|j: int|
            0 <= j < h.len() && flags[j] && #[trigger] address(h[j]) == x,
    decreases h.len(),
{
    if h.len() > 0 {
        let hd = h.drop_last();
        let fd = flags.drop_last();
        lemma_stale_keys_members(hd, fd, kept, x);
        let n = h.len() - 1;
        let rest = stale_keys(hd, fd, kept);
        let takes_last = flags.last() && address(h.last()) != kept;
        if stale_keys(h, flags, kept).contains(x) {
            if takes_last && x == address(h.last()) {
                assert(address(h[n]) == x);
            } else {
                if takes_last {
                    let k = choose|k: int| 0 <= k < rest.push(address(h.last())).len()
                        && rest.push(address(h.last()))[k] == x;
                    assert(k < rest.len());
                    assert(rest.contains(x));
                }
                let j = choose|j: int| 0 <= j < hd.len() && fd[j] && #[trigger] address(hd[j]) == x;
                assert(address(h[j]) == x);
            }
        }
        if x != kept && exists|j: int| 0 <= j < h.len() && flags[j] && #[trigger] address(h[j]) == x {
            let j = choose|j: int| 0 <= j < h.len() && flags[j] && #[trigger] address(h[j]) == x;
            if j == n {
                assert(stale_keys(h, flags, kept) == rest.push(x));
                assert(rest.push(x)[rest.len() as int] == x);
            } else {
                assert(address(hd[j]) == x);
                assert(rest.contains(x));
                let k = choose|k: int| 0 <= k < rest.len() && rest[k] == x;
                if takes_last {
                    assert(rest.push(address(h.last()))[k] == x);
                }
            }
        }
    }
}

/// After a push, the object of a stored version is deleted exactly when its
/// commit is an ancestor of (or equal to) the pushed commit and it is not the
/// object just uploaded: a version the push fast-forwards over goes, a
/// divergent version that a forced push left behind stays, and re-pushing the
/// stored commit keeps its object. `anc(x, y)` is the ancestry relation; a
/// listing holds each address once.
pub proof fn lemma_gc_removes_exactly_ancestors(
    anc: spec_fn(Seq<char>, Seq<char>) -> bool,
    pushed: Seq<char>,
    pushed_at: (Seq<char>, Seq<char>),
    h: Seq<StoredVersion>,
    is_ancestor: Seq<bool>,
    i: int,
)
    requires
        is_ancestor.len() == h.len(),
        forall|j: int| 0 <= j < h.len() ==> is_ancestor[j] == anc(#[trigger] h[j].sha, pushed),
        forall|j: int, k: int| 0 <= j < k < h.len() ==>
            #[trigger] address(h[j]) != #[trigger] address(h[k]),
        0 <= i < h.len(),
    ensures
        stale_keys(h, is_ancestor, pushed_at).contains(address(h[i]))
            <==> anc(h[i].sha, pushed) && address(h[i]) != pushed_at,
        !stale_keys(h, is_ancestor, pushed_at).contains(pushed_at),
{
    let x = address(h[i]);
    lemma_stale_keys_members(h, is_ancestor, pushed_at, x);
    lemma_stale_keys_members(h, is_ancestor, pushed_at, pushed_at);
    if stale_keys(h, is_ancestor, pushed_at).contains(x) {
        let j = choose|j: int| 0 <= j < h.len() && is_ancestor[j] && #[trigger] address(h[j]) == x;
        if j < i {
            assert(address(h[j]) != address(h[i]));
        } else if j > i {
            assert(address(h[i]) != address(h[j]));
        }
        assert(j == i);
    }
    if anc(h[i].sha, pushed) && x != pushed_at {
        assert(is_ancestor[i]);
        assert(address(h[i]) == x);
    }
}

} // verus!
