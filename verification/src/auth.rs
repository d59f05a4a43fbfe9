use vstd::prelude::*;

use crate::error::ServerError;

verus! {

/// The outcome of authenticating a request.
#[derive(Clone, Debug)]
pub enum AuthenticationResult {
    /// Authentication passed: the user's name, and their authorization
    /// level when they have one.
    Authenticated(String, Option<AuthorizationLevel>),
    /// Authentication failed: the credentials were rejected.
    Unauthenticated,
}

/// The level of access a request carries.
#[derive(Clone, Copy, Debug, PartialEq, Eq, Structural)]
pub enum AuthorizationLevel {
    /// Administrators can run anything.
    Admin,
    /// Read and write access, without administrative tasks like shutdown.
    Write,
    /// Read-only access.
    Read,
}

/// A service that authenticates a request from its headers, given as
/// name/value pairs.
pub trait AuthenticationService {
    /// Try to authenticate a request using the request headers.
    fn authenticate(&mut self, headers: &Vec<(String, String)>) -> Result<
        AuthenticationResult,
        ServerError,
    >;
}

/// The first value among the headers carried under the given name.
pub open spec fn spec_header_lookup(hs: Seq<(Seq<char>, Seq<char>)>, name: Seq<char>) -> Option<
    Seq<char>,
>
    decreases hs.len(),
{
    if hs.len() == 0 {
        None
    } else if hs.first().0 == name {
        Some(hs.first().1)
    } else {
        spec_header_lookup(hs.drop_first(), name)
    }
}

/// The models of a header list.
pub open spec fn header_models(hs: Seq<(String, String)>) -> Seq<(Seq<char>, Seq<char>)> {
    Seq::new(hs.len(), |i: int| (hs[i].0@, hs[i].1@))
}

/// The level the mock authenticator grants a known username.
pub open spec fn spec_mock_level(username: Seq<char>) -> Option<AuthorizationLevel> {
    if username == "admin"@ {
        Some(AuthorizationLevel::Admin)
    } else if username == "write"@ {
        Some(AuthorizationLevel::Write)
    } else if username == "read"@ {
        Some(AuthorizationLevel::Read)
    } else {
        None
    }
}

/// Whether an authentication result is what the mock authenticator decides
/// for a `Username` header value.
pub open spec fn matches_mock_decision(r: AuthenticationResult, username: Seq<char>) -> bool {
    if username == "unauthenticated"@ {
        r is Unauthenticated
    } else {
        r matches AuthenticationResult::Authenticated(name, l) && name@ == username && l
            == spec_mock_level(username)
    }
}

/// A simple authenticator that authenticates from the `Username` header
/// alone.
///
/// The names it knows: `unauthenticated` is rejected; `admin`, `write` and
/// `read` carry the matching level; any other name is authenticated with no
/// level; a missing header is an internal error.
pub struct MockAuthenticator;

impl MockAuthenticator {
    /// Find the first value under a header name.
    fn header_value<'a>(headers: &'a Vec<(String, String)>, name: &str) -> (r: Option<&'a String>)
        ensures
            match r {
                Some(v) => spec_header_lookup(header_models(headers@), name@) == Some(v@),
                None => spec_header_lookup(header_models(headers@), name@) is None,
            },
    {
        let ghost hs = header_models(headers@);
        proof {
            assert(hs.subrange(0, hs.len() as int) =~= hs);
        }
        let name_string = name.to_owned();
        let mut i: usize = 0;
        while i < headers.len()
            invariant
                i <= headers@.len(),
                name_string@ == name@,
                hs == header_models(headers@),
                spec_header_lookup(hs, name@) == spec_header_lookup(
                    hs.subrange(i as int, hs.len() as int),
                    name@,
                ),
            decreases headers@.len() - i,
        {
            let ghost tail = hs.subrange(i as int, hs.len() as int);
            proof {
                assert(tail.first() == (headers@[i as int].0@, headers@[i as int].1@));
                assert(tail.drop_first() =~= hs.subrange(i + 1, hs.len() as int));
            }
            if headers[i].0 == name_string {
                return Some(&headers[i].1);
            }
            i = i + 1;
        }
        proof {
            assert(hs.subrange(i as int, hs.len() as int).len() == 0);
        }
        None
    }
}

impl AuthenticationService for MockAuthenticator {
    /// Authenticate from the `Username` header as the mock rules say.
    fn authenticate(&mut self, headers: &Vec<(String, String)>) -> (r: Result<
        AuthenticationResult,
        ServerError,
    >)
        ensures
            match spec_header_lookup(header_models(headers@), "Username"@) {
                None => r matches Err(e) && e is InternalError,
                Some(username) => r matches Ok(a) && matches_mock_decision(a, username),
            },
    {
        let username = match Self::header_value(headers, "Username") {
            Some(username) => username,
            None => {
                return Err(
                    ServerError::InternalError(String::from_str("Authentication service error")),
                );
            },
        };
        if crate::tokens::word_is(username, "unauthenticated") {
            Ok(AuthenticationResult::Unauthenticated)
        } else if crate::tokens::word_is(username, "admin") {
            Ok(
                AuthenticationResult::Authenticated(
                    username.clone(),
                    Some(AuthorizationLevel::Admin),
                ),
            )
        } else if crate::tokens::word_is(username, "write") {
            Ok(
                AuthenticationResult::Authenticated(
                    username.clone(),
                    Some(AuthorizationLevel::Write),
                ),
            )
        } else if crate::tokens::word_is(username, "read") {
            Ok(
                AuthenticationResult::Authenticated(
                    username.clone(),
                    Some(AuthorizationLevel::Read),
                ),
            )
        } else {
            Ok(AuthenticationResult::Authenticated(username.clone(), None))
        }
    }
}

} // verus!
