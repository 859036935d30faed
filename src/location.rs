use vstd::prelude::*;
use crate::error::ClientError;

verus! {

/// Characters that may not occur inside a session identifier.
pub open spec fn is_delimiter(c: char) -> bool {
    c == '/' || c == '?' || c == '#'
}

/// A session identifier is one non-empty token free of delimiters.
pub open spec fn is_session_id(id: Seq<char>) -> bool {
    &&& id.len() > 0
    &&& forall|i: int| 0 <= i < id.len() ==> !is_delimiter(#[trigger] id[i])
}

/// `loc` is the search-collection address `collection`, a slash, and `id`.
pub open spec fn locates_session(loc: Seq<char>, collection: Seq<char>, id: Seq<char>) -> bool {
    &&& is_session_id(id)
    &&& loc == collection + seq!['/'] + id
}

/// Reads the session identifier out of the handle that search creation
/// returns: the handle must be the search-collection address it was posted
/// to, followed by a single segment. Any other shape is a protocol violation.
pub fn parse_search_id(location: &str, collection: &str) -> (r: Result<String, ClientError>)
    ensures
        match r {
            Ok(id) => locates_session(location@, collection@, id@),
            Err(e) => e == ClientError::ProtocolError && forall|id: Seq<char>|
                !locates_session(location@, collection@, id),
        },
{
    let ghost loc = location@;
    let ghost col = collection@;
    let n = location.unicode_len();
    let c = collection.unicode_len();
    if n <= c || n - c <= 1 {
        proof {
            assert forall|id: Seq<char>| !locates_session(loc, col, id) by {
                if locates_session(loc, col, id) {
                    assert((col + seq!['/'] + id).len() == col.len() + 1 + id.len());
                }
            }
        }
        return Err(ClientError::ProtocolError);
    }
    let mut ok = location.get_char(c) == '/';
    let mut i: usize = 0;
    while i < c
        invariant
            i <= c,
            c == col.len(),
            n == loc.len(),
            c + 1 < n,
            loc == location@,
            col == collection@,
            ok ==> loc[c as int] == '/',
            ok ==> forall|k: int| 0 <= k < i ==> loc[k] == col[k],
            !ok ==> (loc[c as int] != '/' || exists|k: int| 0 <= k < i && loc[k] != col[k]),
        decreases c - i,
    {
        if location.get_char(i) != collection.get_char(i) {
            ok = false;
        }
        i = i + 1;
    }
    let mut k: usize = c + 1;
    while k < n
        invariant
            c + 1 <= k <= n,
            n == loc.len(),
            c == col.len(),
            loc == location@,
            col == collection@,
            ok ==> loc[c as int] == '/',
            ok ==> forall|q: int| 0 <= q < c ==> loc[q] == col[q],
            ok ==> forall|q: int| c + 1 <= q < k ==> !is_delimiter(#[trigger] loc[q]),
            !ok ==> (loc[c as int] != '/' || (exists|q: int| 0 <= q < c && loc[q] != col[q]) || (
            exists|q: int| c + 1 <= q < k && is_delimiter(#[trigger] loc[q]))),
        decreases n - k,
    {
        let ch = location.get_char(k);
        if ch == '/' || ch == '?' || ch == '#' {
            ok = false;
        }
        k = k + 1;
    }
    let ghost idv = loc.subrange(c + 1, n as int);
    proof {
        assert forall|id: Seq<char>| #[trigger] locates_session(loc, col, id) implies ok && id
            == idv by {
            let whole = col + seq!['/'] + id;
            assert(id.len() == n - c - 1);
            assert(whole[c as int] == '/');
            assert forall|q: int| 0 <= q < c implies loc[q] == col[q] by {
                assert(whole[q] == col[q]);
            }
            assert forall|q: int| c + 1 <= q < n implies !is_delimiter(#[trigger] loc[q]) by {
                assert(whole[q] == id[q - c - 1]);
            }
            assert(id =~= idv);
        }
    }
    if ok {
        let id = location.substring_char(c + 1, n);
        proof {
            assert forall|q: int| 0 <= q < idv.len() implies !is_delimiter(#[trigger] idv[q]) by {
                assert(idv[q] == loc[q + c + 1]);
            }
            assert(loc =~= col + seq!['/'] + idv);
        }
        Ok(id.to_string())
    } else {
        Err(ClientError::ProtocolError)
    }
}

} // verus!
