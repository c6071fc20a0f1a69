use vstd::prelude::*;
use crate::words::{lemma_word_spans_shape, split_words, words};

verus! {

/// A configuration setting that is needed has no value.
#[derive(Debug, PartialEq, Eq, Structural)]
pub enum ConfigError {
    Unset,
}

/// Unicode's White_Space property, by which `str::trim` trims.
pub open spec fn is_white_space(c: char) -> bool {
    let u = c as u32;
    ||| 0x9 <= u <= 0xD
    ||| u == 0x20
    ||| u == 0x85
    ||| u == 0xA0
    ||| u == 0x1680
    ||| 0x2000 <= u <= 0x200A
    ||| u == 0x2028
    ||| u == 0x2029
    ||| u == 0x202F
    ||| u == 0x205F
    ||| u == 0x3000
}

pub open spec fn trim_front(s: Seq<char>) -> Seq<char>
    decreases s.len(),
{
    if s.len() > 0 && is_white_space(s[0]) { trim_front(s.drop_first()) } else { s }
}

pub open spec fn trim_back(s: Seq<char>) -> Seq<char>
    decreases s.len(),
{
    if s.len() > 0 && is_white_space(s.last()) { trim_back(s.drop_last()) } else { s }
}

/// `s` without its leading and trailing white space.
pub open spec fn trimmed(s: Seq<char>) -> Seq<char> {
    trim_back(trim_front(s))
}

proof fn lemma_trim_back_ends(s: Seq<char>)
    ensures
        trim_back(s).len() > 0 ==> !is_white_space(trim_back(s).last()),
    decreases s.len(),
{
    if s.len() > 0 && is_white_space(s.last()) {
        lemma_trim_back_ends(s.drop_last());
    }
}

fn white_space_char(c: char) -> (r: bool)
    ensures
        r == is_white_space(c),
{
    let u = c as u32;
    (0x9 <= u && u <= 0xD) || u == 0x20 || u == 0x85 || u == 0xA0 || u == 0x1680
        || (0x2000 <= u && u <= 0x200A) || u == 0x2028 || u == 0x2029 || u == 0x202F
        || u == 0x205F || u == 0x3000
}

/// `s` without its leading and trailing white space, as `str::trim` gives it.
pub fn trim_text(s: &str) -> (r: String)
    ensures
        r@ == trimmed(s@),
{
    let n = s.unicode_len();
    let mut i: usize = 0;
    assert(s@.subrange(0, n as int) =~= s@);
    while i < n && white_space_char(s.get_char(i))
        invariant
            i <= n,
            n == s@.len(),
            trim_front(s@) == trim_front(s@.subrange(i as int, n as int)),
        decreases n - i,
    {
        assert(s@.subrange(i as int, n as int).drop_first() =~= s@.subrange(i + 1, n as int));
        i += 1;
    }
    let ghost front = s@.subrange(i as int, n as int);
    assert(trim_front(s@) == front);
    let mut j: usize = n;
    assert(front.subrange(0, (j - i) as int) =~= front);
    while j > i && white_space_char(s.get_char(j - 1))
        invariant
            i <= j <= n,
            n == s@.len(),
            front == s@.subrange(i as int, n as int),
            trim_back(front) == trim_back(s@.subrange(i as int, j as int)),
        decreases j,
    {
        assert(s@.subrange(i as int, j as int).drop_last() =~= s@.subrange(i as int, j - 1));
        j -= 1;
    }
    s.substring_char(i, j).to_owned()
}

/// Reads a required setting from the output the repository's configuration
/// gave for it (empty when the setting is absent): the output trimmed, where
/// an empty result counts as unset.
pub fn config(value: String) -> (r: Result<String, ConfigError>)
    ensures
        r is Err <==> trimmed(value@).len() == 0,
        r matches Ok(v) ==> v@ == trimmed(value@),
{
    let t = trim_text(value.as_str());
    if t.as_str().unicode_len() == 0 {
        Err(ConfigError::Unset)
    } else {
        Ok(t)
    }
}

/// The name of the setting that lists a remote's encryption recipients.
pub fn recipients_setting(alias: &str) -> (r: String)
    ensures
        r@ == "remote."@ + alias@ + ".gpgRecipients"@,
{
    let mut s = String::new();
    s.append("remote.");
    s.append(alias);
    s.append(".gpgRecipients");
    s
}

/// The identities a bundle is encrypted to, from the output given for the
/// remote's recipients setting: its whitespace-separated words once trimmed,
/// or `None` when the setting is unset, in which case the user's email is
/// asked for (`recipient_from_email`).
pub fn recipients_from_setting(setting: String) -> (r: Option<Vec<String>>)
    ensures
        r is None <==> trimmed(setting@).len() == 0,
        r matches Some(v) ==> v.len() > 0 && v@.map_values(|s: String| s@) == words(trimmed(setting@)),
{
    match config(setting) {
        Ok(v) => {
            proof {
                lemma_trim_back_ends(trim_front(setting@));
                lemma_word_spans_shape(v@);
            }
            let r = split_words(v.as_str());
            assert(r@.map_values(|s: String| s@).len() == r.len());
            Some(r)
        },
        Err(_) => None,
    }
}

/// The single identity a bundle is encrypted to when the recipients setting is
/// unset: the user's email, from the output given for it; unset is an error.
pub fn recipient_from_email(email: String) -> (r: Result<Vec<String>, ConfigError>)
    ensures
        r is Err <==> trimmed(email@).len() == 0,
        r matches Ok(v) ==> v.len() == 1 && v@[0]@ == trimmed(email@),
{
    match config(email) {
        Ok(e) => Ok(vec![e]),
        Err(err) => Err(err),
    }
}

} // verus!
