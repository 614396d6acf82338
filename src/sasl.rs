//! SASL PLAIN: the credentials in a `Connection.Start-Ok` response.

use vstd::prelude::*;
use vstd::slice::slice_subrange;
use vstd::utf8::{decode_utf8, valid_utf8};
use crate::error::{syntax_error, ConException, TransError};
use crate::wire::string_from_utf8;

verus! {

pub struct PlainUser {
    pub authorization_identity: String,
    pub authentication_identity: String,
    pub password: String,
}

/// The index of the first NUL octet of `s`, or its length where it has none.
pub open spec fn first_nul(s: Seq<u8>) -> int
    decreases s.len(),
{
    if s.len() == 0 {
        0
    } else if s[0] == 0 {
        0
    } else {
        1 + first_nul(s.skip(1))
    }
}

/// `s` cut at its first NUL: the part before it and the part after it; `None`
/// where `s` holds no NUL.
pub open spec fn split_nul(s: Seq<u8>) -> Option<(Seq<u8>, Seq<u8>)> {
    if first_nul(s) < s.len() {
        Some((s.take(first_nul(s)), s.skip(first_nul(s) + 1)))
    } else {
        None
    }
}

/// The three fields of a PLAIN response `\0 authzid \0 authcid \0 passwd`
/// (the password ends at a further NUL, if any).
pub open spec fn plain_fields(s: Seq<u8>) -> Option<(Seq<u8>, Seq<u8>, Seq<u8>)> {
    match split_nul(s) {
        Some((lead, r0)) => if lead.len() != 0 {
            None
        } else {
            match split_nul(r0) {
                Some((authzid, r1)) => match split_nul(r1) {
                    Some((authcid, r2)) => Some((authzid, authcid, r2.take(first_nul(r2)))),
                    None => None,
                },
                None => None,
            }
        },
        None => None,
    }
}

proof fn lemma_first_nul(s: Seq<u8>)
    ensures
        0 <= first_nul(s) <= s.len(),
        forall|i: int| 0 <= i < first_nul(s) ==> s[i] != 0,
        first_nul(s) < s.len() ==> s[first_nul(s)] == 0,
    decreases s.len(),
{
    if s.len() > 0 && s[0] != 0 {
        lemma_first_nul(s.skip(1));
        assert forall|i: int| 0 <= i < first_nul(s) implies s[i] != 0 by {
            if i > 0 {
                assert(s[i] == s.skip(1)[i - 1]);
            }
        }
    }
}

proof fn lemma_first_nul_unique(s: Seq<u8>, k: int)
    requires
        0 <= k <= s.len(),
        forall|i: int| 0 <= i < k ==> s[i] != 0,
        k < s.len() ==> s[k] == 0,
    ensures
        first_nul(s) == k,
    decreases s.len(),
{
    if s.len() > 0 && s[0] != 0 {
        let t = s.skip(1);
        assert forall|i: int| 0 <= i < k - 1 implies t[i] != 0 by {
            assert(t[i] == s[i + 1]);
        }
        if k - 1 < t.len() {
            assert(t[k - 1] == s[k]);
        }
        lemma_first_nul_unique(t, k - 1);
    }
}

/// The index of the first NUL octet of `s`, or its length.
fn find_nul(s: &[u8]) -> (r: usize)
    ensures
        r == first_nul(s@),
        r <= s@.len(),
{
    proof {
        lemma_first_nul(s@);
    }
    let mut i: usize = 0;
    while i < s.len() && s[i] != 0
        invariant
            i <= s@.len(),
            forall|j: int| 0 <= j < i ==> s@[j] != 0,
        decreases s@.len() - i,
    {
        i = i + 1;
    }
    proof {
        lemma_first_nul_unique(s@, i as int);
    }
    i
}

/// Cuts `s` at its first NUL.
fn cut_nul(s: &[u8]) -> (r: Option<(&[u8], &[u8])>)
    ensures
        match r {
            Some((a, b)) => split_nul(s@) == Some((a@, b@)),
            None => split_nul(s@) is None,
        },
{
    let i = find_nul(s);
    proof {
        lemma_first_nul(s@);
    }
    if i < s.len() {
        Some((slice_subrange(s, 0, i), slice_subrange(s, i + 1, s.len())))
    } else {
        None
    }
}

fn text(b: &[u8]) -> (r: Result<String, TransError>)
    ensures
        r is Ok <==> valid_utf8(b@),
        r matches Ok(s) ==> s@ == decode_utf8(b@),
        r matches Err(e) ==> e == syntax_error(),
{
    match string_from_utf8(b) {
        Some(s) => Ok(s),
        None => Err(ConException::SyntaxError.into_trans()),
    }
}

/// Reads the response of the PLAIN mechanism, `\0 authzid \0 authcid \0 passwd`,
/// whose three fields must be UTF-8. The authorization identity may be empty.
pub fn parse_sasl_plain_response(response: &[u8]) -> (r: Result<PlainUser, TransError>)
    ensures
        r is Ok <==> (plain_fields(response@) matches Some((z, c, p)) && valid_utf8(z)
            && valid_utf8(c) && valid_utf8(p)),
        r matches Ok(u) ==> plain_fields(response@) matches Some((z, c, p))
            && u.authorization_identity@ == decode_utf8(z)
            && u.authentication_identity@ == decode_utf8(c) && u.password@ == decode_utf8(p),
        r matches Err(e) ==> e == syntax_error(),
{
    let (lead, r0) = match cut_nul(response) {
        Some(x) => x,
        None => return Err(ConException::SyntaxError.into_trans()),
    };
    if lead.len() != 0 {
        return Err(ConException::SyntaxError.into_trans());
    }
    let (authzid, r1) = match cut_nul(r0) {
        Some(x) => x,
        None => return Err(ConException::SyntaxError.into_trans()),
    };
    let (authcid, r2) = match cut_nul(r1) {
        Some(x) => x,
        None => return Err(ConException::SyntaxError.into_trans()),
    };
    let end = find_nul(r2);
    let passwd = slice_subrange(r2, 0, end);
    let authorization_identity = text(authzid)?;
    let authentication_identity = text(authcid)?;
    let password = text(passwd)?;
    Ok(PlainUser { authorization_identity, authentication_identity, password })
}

} // verus!
