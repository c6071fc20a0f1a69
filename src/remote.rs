use vstd::prelude::*;
use crate::store::{Key, same_text};
use crate::push::first_index;

verus! {

/// Why a remote URL could not be read.
#[derive(Debug, PartialEq, Eq, Structural)]
pub enum UrlError {
    /// The URL does not start with `s3://`.
    NotS3,
    /// The URL names no prefix below the bucket.
    NoPrefix,
}

pub open spec fn has_s3_scheme(u: Seq<char>) -> bool {
    u.len() >= 5 && u.subrange(0, 5) == seq!['s', '3', ':', '/', '/']
}

/// The URL after its scheme.
pub open spec fn url_rest(u: Seq<char>) -> Seq<char> {
    u.subrange(5, u.len() as int)
}

/// Where the prefix ends: before a trailing `/`, if there is one.
pub open spec fn prefix_end(rest: Seq<char>) -> int {
    if rest.len() > 0 && rest.last() == '/' { rest.len() - 1 } else { rest.len() as int }
}

/// A URL `s3://bucket/prefix` (with or without a trailing `/`) has a bucket
/// and a prefix.
pub open spec fn url_is_valid(u: Seq<char>) -> bool {
    let rest = url_rest(u);
    let slash = first_index(rest, '/');
    &&& has_s3_scheme(u)
    &&& slash >= 0
    &&& slash + 1 <= prefix_end(rest)
}

/// Reads the root under which a remote keeps its refs from a URL of the form
/// `s3://bucket/prefix`.
pub fn parse_remote_url(url: &str) -> (r: Result<Key, UrlError>)
    ensures
        r == Err::<Key, UrlError>(UrlError::NotS3) <==> !has_s3_scheme(url@),
        r == Err::<Key, UrlError>(UrlError::NoPrefix) <==> has_s3_scheme(url@) && !url_is_valid(url@),
        r matches Ok(k) ==> {
            let rest = url_rest(url@);
            let slash = first_index(rest, '/');
            &&& k.bucket@ == rest.subrange(0, slash)
            &&& k.key@ == rest.subrange(slash + 1, prefix_end(rest))
        },
{
    let n = url.unicode_len();
    proof {
        reveal_strlit("s3://");
        assert("s3://"@ =~= seq!['s', '3', ':', '/', '/']);
    }
    if n < 5 || !same_text(url.substring_char(0, 5), "s3://") {
        return Err(UrlError::NotS3);
    }
    let rest = url.substring_char(5, n);
    let m = n - 5;
    let slash = match crate::push::find_first(rest, '/') {
        Some(i) => i,
        None => {
            return Err(UrlError::NoPrefix);
        },
    };
    let end = if m > 0 && rest.get_char(m - 1) == '/' { m - 1 } else { m };
    if slash >= end {
        return Err(UrlError::NoPrefix);
    }
    let bucket = rest.substring_char(0, slash).to_owned();
    let key = rest.substring_char(slash + 1, end).to_owned();
    Ok(Key { bucket, key })
}

} // verus!
