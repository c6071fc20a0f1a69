use vstd::prelude::*;
use crate::store::same_text;
use crate::words::{split_words, words};
use crate::refs::{GitRef, RemoteRefs, StoredVersion};
use crate::catalog::Catalog;

verus! {

/// One command of the remote-helper protocol, read from one input line.
#[derive(Debug)]
pub enum Command {
    /// `capabilities`
    Capabilities,
    /// `list` or `list for-push`
    List,
    /// `fetch <sha> <name>`
    Fetch { sha: String, name: String },
    /// `push <[+]src:dst>`
    Push { refspec: String },
    /// An empty line, or the end of input: the session is over.
    End,
    /// Anything else.
    Unknown,
}

pub open spec fn is_push_line(w: Seq<Seq<char>>) -> bool {
    w.len() == 2 && w[0] == "push"@
}

pub open spec fn is_fetch_line(w: Seq<Seq<char>>) -> bool {
    w.len() >= 3 && w[0] == "fetch"@
}

pub open spec fn is_capabilities_line(w: Seq<Seq<char>>) -> bool {
    w.len() == 1 && w[0] == "capabilities"@
}

pub open spec fn is_list_line(w: Seq<Seq<char>>) -> bool {
    &&& w.len() == 1 || (w.len() == 2 && w[1] == "for-push"@)
    &&& w[0] == "list"@
}

/// Reads one protocol line. Words past the third are not looked at.
pub fn parse_command(line: &str) -> (r: Command)
    ensures
        ({
            let w = words(line@);
            match r {
                Command::Push { refspec } => is_push_line(w) && refspec@ == w[1],
                Command::Fetch { sha, name } => is_fetch_line(w) && sha@ == w[1] && name@ == w[2],
                Command::Capabilities => is_capabilities_line(w),
                Command::List => is_list_line(w),
                Command::End => w.len() == 0,
                Command::Unknown => w.len() > 0 && !is_push_line(w) && !is_fetch_line(w)
                    && !is_capabilities_line(w) && !is_list_line(w),
            }
        }),
{
    let mut w = split_words(line);
    let ghost ws = words(line@);
    assert(w.len() == ws.len());
    let n = w.len();
    if n == 0 {
        return Command::End;
    }
    assert(w@[0]@ == ws[0]);
    let is_push = same_text(w[0].as_str(), "push");
    let is_fetch = same_text(w[0].as_str(), "fetch");
    let is_caps = same_text(w[0].as_str(), "capabilities");
    let is_list = same_text(w[0].as_str(), "list");
    if is_push && n == 2 {
        let refspec = w.pop().unwrap();
        assert(refspec@ == ws[1]);
        Command::Push { refspec }
    } else if is_fetch && n >= 3 {
        w.truncate(3);
        let name = w.pop().unwrap();
        let sha = w.pop().unwrap();
        assert(name@ == ws[2]);
        assert(sha@ == ws[1]);
        Command::Fetch { sha, name }
    } else if is_caps && n == 1 {
        Command::Capabilities
    } else if is_list && n == 1 {
        Command::List
    } else if is_list && n == 2 && same_text(w[1].as_str(), "for-push") {
        assert(w@[1]@ == ws[1]);
        Command::List
    } else {
        proof {
            if n == 2 {
                assert(w@[1]@ == ws[1]);
            }
        }
        Command::Unknown
    }
}

pub open spec fn lines_of(v: Seq<String>) -> Seq<Seq<char>> {
    v.map_values(|s: String| s@)
}

/// The reply to `capabilities`.
pub fn capabilities_response() -> (r: Vec<String>)
    ensures
        lines_of(r@) == seq!["*push"@, "*fetch"@, ""@],
{
    let r = vec!["*push".to_owned(), "*fetch".to_owned(), "".to_owned()];
    assert(lines_of(r@) =~= seq!["*push"@, "*fetch"@, ""@]);
    r
}

/// The reply to a command that is not understood.
pub fn unknown_response() -> (r: Vec<String>)
    ensures
        lines_of(r@) == seq!["unknown command"@, ""@],
{
    let r = vec!["unknown command".to_owned(), "".to_owned()];
    assert(lines_of(r@) =~= seq!["unknown command"@, ""@]);
    r
}

pub open spec fn rejection_line(dst: Seq<char>) -> Seq<char> {
    "error "@ + dst + " remote changed: force push to add new ref, the old ref will be kept until its merged)"@
}

/// The reply to a push of `dst`: `ok dst` when it went ahead, an `error` line
/// when it was refused as not fast-forward; a blank line ends it either way.
pub fn push_response(dst: &str, pushed: bool) -> (r: Vec<String>)
    ensures
        pushed ==> lines_of(r@) == seq!["ok "@ + dst@, ""@],
        !pushed ==> lines_of(r@) == seq![rejection_line(dst@), ""@],
{
    let mut line = String::new();
    if pushed {
        line.append("ok ");
        line.append(dst);
    } else {
        line.append("error ");
        line.append(dst);
        line.append(" remote changed: force push to add new ref, the old ref will be kept until its merged)");
    }
    let r = vec![line, "".to_owned()];
    assert(lines_of(r@) =~= seq![r@[0]@, ""@]);
    r
}

/// The ref a `fetch <sha> <name>` asks for, or `None` for the symbolic `HEAD`,
/// which always points at a ref that is fetched on its own.
pub fn fetch_target(sha: &str, name: &str) -> (r: Option<GitRef>)
    ensures
        r is None <==> name@ == "HEAD"@,
        r matches Some(g) ==> g.name@ == name@ && g.sha@ == sha@,
{
    if same_text(name, "HEAD") {
        None
    } else {
        Some(GitRef { name: name.to_owned(), sha: sha.to_owned() })
    }
}

/// The reply that ends a `fetch`, whether a ref was fetched or the symbolic
/// `HEAD` was passed over: a blank line.
pub fn fetch_response() -> (r: Vec<String>)
    ensures
        lines_of(r@) == seq![""@],
{
    let r = vec!["".to_owned()];
    assert(lines_of(r@) =~= seq![""@]);
    r
}

/// `sha name`: the current value of a ref.
pub open spec fn ref_line(v: StoredVersion) -> Seq<char> {
    v.sha + seq![' '] + v.name
}

/// The first seven characters of a sha (all of it when shorter).
pub open spec fn short_sha(sha: Seq<char>) -> Seq<char> {
    if sha.len() <= 7 { sha } else { sha.subrange(0, 7) }
}

/// `sha name__short`: an older stored version, listed under a name of its own.
pub open spec fn stale_line(v: StoredVersion) -> Seq<char> {
    v.sha + seq![' '] + v.name + seq!['_', '_'] + short_sha(v.sha)
}

pub open spec fn history_line(h: Seq<StoredVersion>, j: int) -> Seq<char> {
    if j == 0 { ref_line(h[j]) } else { stale_line(h[j]) }
}

/// The lines that advertise one ref's history: the current version first.
pub open spec fn history_lines(h: Seq<StoredVersion>) -> Seq<Seq<char>> {
    Seq::new(h.len(), |j: int| history_line(h, j))
}

pub open spec fn catalog_lines(es: Seq<(String, RemoteRefs)>) -> Seq<Seq<char>>
    decreases es.len(),
{
    if es.len() == 0 {
        Seq::empty()
    } else {
        catalog_lines(es.drop_last()) + history_lines(es.last().1.history())
    }
}

/// The line that makes `HEAD` follow the master branch.
pub open spec fn head_line() -> Seq<char> {
    "@refs/heads/master HEAD"@
}

/// The reply to `list`: each ref's history, `HEAD` advertised as the master
/// branch when one is stored, and a blank line.
pub fn list_response(catalog: &Catalog) -> (r: Vec<String>)
    ensures
        lines_of(r@) == catalog_lines(catalog.entries@)
            + (if catalog.has_name("refs/heads/master"@) { seq![head_line()] } else { Seq::empty() })
            + seq![""@],
{
    let mut out: Vec<String> = Vec::new();
    let mut i: usize = 0;
    while i < catalog.entries.len()
        invariant
            i <= catalog.entries.len(),
            lines_of(out@) == catalog_lines(catalog.entries@.subrange(0, i as int)),
        decreases catalog.entries.len() - i,
    {
        let refs = &catalog.entries[i].1;
        let ghost h = refs.history();
        let ghost base = lines_of(out@);
        let mut j: usize = 0;
        while j < refs.by_update_time.len()
            invariant
                j <= refs.by_update_time.len(),
                h == refs.history(),
                lines_of(out@) == base + Seq::new(j as nat, |k: int| history_line(h, k)),
            decreases refs.by_update_time.len() - j,
        {
            let v = &refs.by_update_time[j];
            let mut line = String::new();
            line.append(v.reference.sha.as_str());
            line.append(" ");
            line.append(v.reference.name.as_str());
            if j > 0 {
                let sha = v.reference.sha.as_str();
                let len = sha.unicode_len();
                let cut = if len <= 7 { len } else { 7 };
                line.append("__");
                line.append(sha.substring_char(0, cut));
                proof {
                    reveal_strlit("__");
                    if len <= 7 {
                        assert(sha@.subrange(0, cut as int) =~= sha@);
                    }
                }
            }
            proof {
                reveal_strlit(" ");
            }
            let ghost before = out@;
            out.push(line);
            assert(line@ == history_line(h, j as int));
            assert(lines_of(out@) =~= lines_of(before).push(line@));
            assert(lines_of(out@) =~= base + Seq::new((j + 1) as nat, |k: int| history_line(h, k)));
            j += 1;
        }
        assert(catalog.entries@.subrange(0, i + 1).drop_last() =~= catalog.entries@.subrange(0, i as int));
        assert(Seq::new(j as nat, |k: int| history_line(h, k)) =~= history_lines(h));
        i += 1;
    }
    assert(catalog.entries@.subrange(0, i as int) =~= catalog.entries@);
    if catalog.get("refs/heads/master").is_some() {
        out.push("@refs/heads/master HEAD".to_owned());
    }
    let ghost with_head = lines_of(out@);
    out.push("".to_owned());
    assert(lines_of(out@) =~= with_head.push(""@));
    out
}

} // verus!
