use vstd::prelude::*;
use crate::error::ClientError;
use crate::location::{is_delimiter, locates_session, parse_search_id};

verus! {

/// A search that the service has created: its identifier and the handle it
/// was read from. Never changed once made.
pub struct SearchSession {
    id: String,
    location: String,
}

impl SearchSession {
    pub closed spec fn id_view(&self) -> Seq<char> {
        self.id@
    }

    pub closed spec fn location_view(&self) -> Seq<char> {
        self.location@
    }

    /// The identifier is one token that ends the handle.
    pub open spec fn wf(&self) -> bool {
        exists|collection: Seq<char>| locates_session(self.location_view(), collection, self.id_view())
    }

    /// Makes a session from the handle that search creation returned, for a
    /// query posted to the search collection at `collection`.
    pub fn from_location(location: &str, collection: &str) -> (r: Result<SearchSession, ClientError>)
        ensures
            match r {
                Ok(s) => locates_session(location@, collection@, s.id_view()) && s.location_view()
                    == location@,
                Err(e) => e == ClientError::ProtocolError && forall|id: Seq<char>|
                    !locates_session(location@, collection@, id),
            },
    {
        match parse_search_id(location, collection) {
            Ok(id) => Ok(SearchSession { id, location: location.to_string() }),
            Err(e) => Err(e),
        }
    }

    /// The identifier that all later requests of this session use.
    pub fn search_id(&self) -> (r: String)
        ensures
            r@ == self.id_view(),
    {
        self.id.clone()
    }

    /// The handle the service returned for this session.
    pub fn location(&self) -> (r: &str)
        ensures
            r@ == self.location_view(),
    {
        self.location.as_str()
    }
}

pub open spec fn is_success(status: u16) -> bool {
    200 <= status < 300
}

/// Interprets the answer to a search-creation request posted to the search
/// collection at `collection`: its status and the location handle it
/// carried, if any.
pub fn search_created(status: u16, collection: &str, location: Option<&str>) -> (r: Result<
    SearchSession,
    ClientError,
>)
    ensures
        is_success(status) ==> match location {
            None => r == Err::<SearchSession, ClientError>(ClientError::ProtocolError),
            Some(l) => match r {
                Ok(s) => locates_session(l@, collection@, s.id_view()) && s.location_view() == l@,
                Err(e) => e == ClientError::ProtocolError && forall|id: Seq<char>|
                    !locates_session(l@, collection@, id),
            },
        },
        is_success(status) && location is Some && (exists|id: Seq<char>|
            locates_session(location.unwrap()@, collection@, id)) ==> r is Ok,
        400 <= status < 500 ==> r == Err::<SearchSession, ClientError>(
            ClientError::QueryRejected { status },
        ),
        500 <= status < 600 ==> r == Err::<SearchSession, ClientError>(
            ClientError::ServiceUnavailable { status },
        ),
        (status < 200 || (300 <= status < 400) || status >= 600) ==> r == Err::<
            SearchSession,
            ClientError,
        >(ClientError::HttpError { status }),
{
    if 200 <= status && status < 300 {
        match location {
            Some(l) => SearchSession::from_location(l, collection),
            None => Err(ClientError::ProtocolError),
        }
    } else if 400 <= status && status < 500 {
        Err(ClientError::QueryRejected { status })
    } else if 500 <= status && status < 600 {
        Err(ClientError::ServiceUnavailable { status })
    } else {
        Err(ClientError::HttpError { status })
    }
}

/// Interprets the status of a plain request outside any session (the
/// service's self-description, a container's metadata, fields or indexes).
pub fn response_status(status: u16) -> (r: Result<(), ClientError>)
    ensures
        is_success(status) ==> r == Ok::<(), ClientError>(()),
        !is_success(status) ==> r == Err::<(), ClientError>(ClientError::HttpError { status }),
{
    if 200 <= status && status < 300 {
        Ok(())
    } else {
        Err(ClientError::HttpError { status })
    }
}

/// Interprets the status of a request made within a session (reading its
/// description or one of its pages): the service reports an unknown or
/// expired session as not found (404) or gone (410).
pub fn session_status(status: u16) -> (r: Result<(), ClientError>)
    ensures
        is_success(status) ==> r == Ok::<(), ClientError>(()),
        (status == 404 || status == 410) ==> r == Err::<(), ClientError>(
            ClientError::SessionNotFound,
        ),
        !is_success(status) && status != 404 && status != 410 ==> r == Err::<(), ClientError>(
            ClientError::HttpError { status },
        ),
{
    if 200 <= status && status < 300 {
        Ok(())
    } else if status == 404 || status == 410 {
        Err(ClientError::SessionNotFound)
    } else {
        Err(ClientError::HttpError { status })
    }
}

/// The identifier of every session is one non-empty token: it holds no
/// slash, query mark or fragment mark.
pub proof fn lemma_session_id_is_single_token(s: &SearchSession)
    requires
        s.wf(),
    ensures
        s.id_view().len() > 0,
        forall|i: int| 0 <= i < s.id_view().len() ==> !is_delimiter(#[trigger] s.id_view()[i]),
{
}

} // verus!
