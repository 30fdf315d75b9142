//! What the local redirect server reads from the browser during the authorisation
//! of the program with Google: the length of a request body from its header, and the
//! access token from the form-encoded body.

use vstd::prelude::*;

use crate::util::text::{
    chars_of, parse_usize, parse_usize_range, range_is, split_on, split_ranges, word_ranges, words,
};

verus! {

/// The credentials of the session.
pub struct UserCredentials {
    /// Grants access to the user account.
    pub access_token: String,
}

/// Whether `s` starts with `prefix`.
pub open spec fn starts_with(s: Seq<char>, prefix: Seq<char>) -> bool {
    prefix.len() <= s.len() && s.take(prefix.len() as int) == prefix
}

/// The index of the first of `pieces[i..]` that starts with `prefix`.
pub open spec fn first_starting_with(pieces: Seq<Seq<char>>, prefix: Seq<char>, i: int) -> Option<int>
    decreases pieces.len() - i,
{
    if i < 0 || i >= pieces.len() {
        None
    } else if starts_with(pieces[i], prefix) {
        Some(i)
    } else {
        first_starting_with(pieces, prefix, i + 1)
    }
}

/// The access token of a form-encoded body: in the first parameter that starts with
/// `access_token`, the text between its first and second `=`; empty where there is
/// no such parameter or it has no `=`.
pub open spec fn access_token_in(body: Seq<char>) -> Seq<char> {
    let params = split_on(body, '&');
    match first_starting_with(params, "access_token"@, 0) {
        None => Seq::empty(),
        Some(k) => {
            let parts = split_on(params[k], '=');
            if parts.len() > 1 {
                parts[1]
            } else {
                Seq::empty()
            }
        },
    }
}

/// Extracts the access token from the form-encoded body that the browser posts.
pub fn access_token_of(body: &str) -> (token: String)
    ensures
        token@ == access_token_in(body@),
{
    let chars = chars_of(body);
    let n = chars.len();
    proof {
        assert(chars@.subrange(0, n as int) =~= chars@);
        reveal_strlit("access_token");
    }
    let ghost params = split_on(body@, '&');
    let pieces = split_ranges(&chars, 0, n, '&');
    let prefix_len = "access_token".unicode_len();
    let mut k: usize = 0;
    while k < pieces.len()
        invariant
            chars@ == body@,
            n == chars@.len(),
            prefix_len == "access_token"@.len(),
            params == split_on(body@, '&'),
            pieces@.len() == params.len(),
            forall|j: int| 0 <= j < pieces@.len() ==> {
                &&& 0 <= (#[trigger] pieces@[j]).0 <= pieces@[j].1 <= n
                &&& chars@.subrange(pieces@[j].0 as int, pieces@[j].1 as int) == params[j]
            },
            0 <= k <= pieces@.len(),
            first_starting_with(params, "access_token"@, 0) == first_starting_with(params, "access_token"@, k as int),
        decreases pieces@.len() - k,
    {
        let (a, b) = pieces[k];
        assert(0 <= pieces@[k as int].0 <= pieces@[k as int].1 <= n);
        let starts = b - a >= prefix_len && range_is(&chars, a, a + prefix_len, "access_token");
        assert(starts == starts_with(params[k as int], "access_token"@)) by {
            if b - a >= prefix_len {
                assert(chars@.subrange(a as int, (a + prefix_len) as int)
                    =~= params[k as int].take(prefix_len as int));
            }
        }
        if starts {
            let parts = split_ranges(&chars, a, b, '=');
            if parts.len() > 1 {
                let (c, d) = parts[1];
                assert(a <= parts@[1].0 <= parts@[1].1 <= b);
                return body.substring_char(c, d).to_owned();
            } else {
                return String::new();
            }
        }
        k += 1;
    }
    String::new()
}

/// What a header line says of the length of the body.
pub enum HeaderLength {
    /// The line is not a `Content-Length:` header.
    Other,
    /// The length of the body.
    Length(usize),
    /// A `Content-Length:` header whose second word is missing or not a length.
    Malformed,
}

/// What a header line says of the length of the body: for a line that starts with
/// `Content-Length:`, its second word read as an unsigned integer.
pub open spec fn header_length(line: Seq<char>) -> HeaderLength {
    if !starts_with(line, "Content-Length:"@) {
        HeaderLength::Other
    } else if words(line).len() < 2 {
        HeaderLength::Malformed
    } else {
        match parse_usize(words(line)[1]) {
            Some(length) => HeaderLength::Length(length),
            None => HeaderLength::Malformed,
        }
    }
}

/// Reads the length of the body from a header line.
pub fn content_length_of(line: &str) -> (length: HeaderLength)
    ensures
        length == header_length(line@),
{
    let chars = chars_of(line);
    let n = chars.len();
    proof {
        reveal_strlit("Content-Length:");
    }
    let prefix_len = "Content-Length:".unicode_len();
    if n < prefix_len || !range_is(&chars, 0, prefix_len, "Content-Length:") {
        proof {
            if n >= prefix_len {
                assert(chars@.subrange(0, prefix_len as int) =~= chars@.take(prefix_len as int));
            }
        }
        return HeaderLength::Other;
    }
    assert(chars@.subrange(0, prefix_len as int) =~= chars@.take(prefix_len as int));
    let bounds = word_ranges(&chars);
    assert(chars@.take(n as int) =~= chars@);
    if bounds.len() < 2 {
        return HeaderLength::Malformed;
    }
    let (a, b) = bounds[1];
    assert(bounds@[1].0 <= bounds@[1].1 <= n);
    match parse_usize_range(&chars, a, b) {
        Some(length) => HeaderLength::Length(length),
        None => HeaderLength::Malformed,
    }
}

} // verus!
