use vstd::prelude::*;

verus! {

/// The basic error kinds that the server can report.
///
/// Each variant carries a human-readable message; contracts elsewhere pin
/// down the variant exactly and leave the message text loose, since callers
/// only ever branch on the variant.
#[derive(Debug, Clone)]
pub enum ServerError {
    /// An error around key access: a missing key or an already filled key.
    KeyError(String),
    /// A networking problem.
    NetworkError(String),
    /// A write to a stream failed.
    WriteError(String),
    /// The query text could not be split into tokens.
    TokenizationError(String),
    /// The token stream could not be parsed into statements.
    ParseError(String),
    /// Indexing into a vector or map failed.
    IndexError(String),
    /// The type of a value is not what the operation expects.
    TypeError(String),
    /// Catch-all for pipeline failures such as timeouts.
    InternalError(String),
    /// The user is authenticated but lacks the required level.
    AuthorizationError(String),
    /// The credentials were rejected.
    AuthenticationError(String),
    /// The HTTP envelope around a query was malformed.
    RequestError(String),
}

/// The HTTP status line text that belongs to each error kind.
pub open spec fn spec_error_code(error: &ServerError) -> Seq<char> {
    match error {
        ServerError::KeyError(_) => "422 Unprocessable Entity"@,
        ServerError::NetworkError(_) => "500 Internal Server Error"@,
        ServerError::WriteError(_) => "500 Internal Server Error"@,
        ServerError::TokenizationError(_) => "422 Unprocessable Entity"@,
        ServerError::ParseError(_) => "422 Unprocessable Entity"@,
        ServerError::IndexError(_) => "422 Unprocessable Entity"@,
        ServerError::TypeError(_) => "422 Unprocessable Entity"@,
        ServerError::InternalError(_) => "500 Internal Server Error"@,
        ServerError::AuthorizationError(_) => "401 Unauthorized"@,
        ServerError::AuthenticationError(_) => "403 Forbidden"@,
        ServerError::RequestError(_) => "400 Bad Request"@,
    }
}

/// Map an error to the status text of the HTTP response that reports it.
pub fn get_error_code(error: &ServerError) -> (r: String)
    ensures
        r@ == spec_error_code(error),
{
    let err_string = match error {
        ServerError::KeyError(_) => "422 Unprocessable Entity",
        ServerError::NetworkError(_) => "500 Internal Server Error",
        ServerError::WriteError(_) => "500 Internal Server Error",
        ServerError::TokenizationError(_) => "422 Unprocessable Entity",
        ServerError::ParseError(_) => "422 Unprocessable Entity",
        ServerError::IndexError(_) => "422 Unprocessable Entity",
        ServerError::TypeError(_) => "422 Unprocessable Entity",
        ServerError::InternalError(_) => "500 Internal Server Error",
        ServerError::AuthorizationError(_) => "401 Unauthorized",
        ServerError::AuthenticationError(_) => "403 Forbidden",
        ServerError::RequestError(_) => "400 Bad Request",
    };
    String::from_str(err_string)
}

/// The name of an error kind, as it opens the error body text.
pub open spec fn spec_error_name(error: &ServerError) -> Seq<char> {
    match error {
        ServerError::KeyError(_) => "KeyError"@,
        ServerError::NetworkError(_) => "NetworkError"@,
        ServerError::WriteError(_) => "WriteError"@,
        ServerError::TokenizationError(_) => "TokenizationError"@,
        ServerError::ParseError(_) => "ParseError"@,
        ServerError::IndexError(_) => "IndexError"@,
        ServerError::TypeError(_) => "TypeError"@,
        ServerError::InternalError(_) => "InternalError"@,
        ServerError::AuthorizationError(_) => "AuthorizationError"@,
        ServerError::AuthenticationError(_) => "AuthenticationError"@,
        ServerError::RequestError(_) => "RequestError"@,
    }
}

/// The message that an error carries.
pub open spec fn spec_error_message(error: &ServerError) -> Seq<char> {
    match error {
        ServerError::KeyError(m) => m@,
        ServerError::NetworkError(m) => m@,
        ServerError::WriteError(m) => m@,
        ServerError::TokenizationError(m) => m@,
        ServerError::ParseError(m) => m@,
        ServerError::IndexError(m) => m@,
        ServerError::TypeError(m) => m@,
        ServerError::InternalError(m) => m@,
        ServerError::AuthorizationError(m) => m@,
        ServerError::AuthenticationError(m) => m@,
        ServerError::RequestError(m) => m@,
    }
}

impl ServerError {
    /// Render the error as the body text `"<Kind>: <message>"`.
    pub fn to_display_string(&self) -> (r: String)
        ensures
            r@ == spec_error_name(self) + ": "@ + spec_error_message(self),
    {
        let (name, msg): (&str, &String) = match self {
            ServerError::KeyError(m) => ("KeyError", m),
            ServerError::NetworkError(m) => ("NetworkError", m),
            ServerError::WriteError(m) => ("WriteError", m),
            ServerError::TokenizationError(m) => ("TokenizationError", m),
            ServerError::ParseError(m) => ("ParseError", m),
            ServerError::IndexError(m) => ("IndexError", m),
            ServerError::TypeError(m) => ("TypeError", m),
            ServerError::InternalError(m) => ("InternalError", m),
            ServerError::AuthorizationError(m) => ("AuthorizationError", m),
            ServerError::AuthenticationError(m) => ("AuthenticationError", m),
            ServerError::RequestError(m) => ("RequestError", m),
        };
        let mut out = String::from_str(name);
        out.append(": ");
        out.append(msg.as_str());
        out
    }
}

} // verus!
