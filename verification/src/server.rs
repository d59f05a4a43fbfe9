use vstd::prelude::*;

use crate::auth::{
    header_models,
    spec_header_lookup,
    spec_mock_level,
    AuthenticationResult,
    AuthenticationService,
    AuthorizationLevel,
    MockAuthenticator,
};
use crate::error::ServerError;
use crate::interpreter::{
    error_kind,
    outcome_model,
    spec_interpret,
    statements_values_wf,
    Interpreter,
    InterpreterRequest,
    InterpreterResponse,
    OutcomeModel,
    ResponseModel,
};
use crate::parser::{spec_parse_from, statement_models, Parser};
use crate::statements::StatementModel;
use crate::storage::HashMapStorage;
use crate::tokenizer::{lower_of, spec_tokenize_from, Tokenizer};
use vstd::string::StringSliceAdditionalSpecFns;

verus! {

/// What analyzing a query text yields: the statement models when the text
/// scans and parses, and nothing otherwise.
pub open spec fn spec_analyze(text: Seq<char>) -> Option<Seq<StatementModel>> {
    match spec_tokenize_from(lower_of(text), 0) {
        None => None,
        Some(toks) => spec_parse_from(toks, 0),
    }
}

/// Scan and parse a query into an interpreter request at the given
/// authorization level.
pub fn process_analyze_request(request: &str, authorization: AuthorizationLevel) -> (r: Result<
    InterpreterRequest,
    ServerError,
>)
    ensures
        match r {
            Ok(req) => {
                &&& spec_analyze(request@) == Some(statement_models(req.statements@))
                &&& req.authorization == authorization
                &&& statements_values_wf(statement_models(req.statements@))
            },
            Err(e) => spec_analyze(request@) is None && (e is TokenizationError || e is ParseError),
        },
{
    let tokenizer = Tokenizer::new(request);
    let mut parser = match Parser::from(tokenizer) {
        Ok(parser) => parser,
        Err(err) => {
            return Err(err);
        },
    };
    match parser.parse() {
        Ok(statements) => {
            proof {
                crate::parser::lemma_parse_wf(parser.models(), 0);
            }
            Ok(InterpreterRequest { statements, authorization })
        },
        Err(err) => Err(err),
    }
}

/// What the listener decides for the headers of a request: the level it
/// runs at, or the error it answers outright.
pub open spec fn spec_authorize_outcome(
    hs: Seq<(Seq<char>, Seq<char>)>,
    r: Result<AuthorizationLevel, ServerError>,
) -> bool {
    match spec_header_lookup(hs, "Username"@) {
        None => r matches Err(e) && e is InternalError,
        Some(username) => {
            if username == "unauthenticated"@ {
                r matches Err(e) && e is AuthenticationError
            } else {
                match spec_mock_level(username) {
                    None => r matches Err(e) && e is AuthorizationError,
                    Some(level) => r == Ok::<AuthorizationLevel, ServerError>(level),
                }
            }
        },
    }
}


/// Authenticate a request's headers and find the level it runs at, or the
/// error to answer outright: rejected credentials, a known user without a
/// level, or a missing header.
///
/// Every stage that admits requests decides this way; the listeners of a
/// worker pipeline call it just as the single-threaded server does.
pub fn authorize_request(
    authenticator: &mut MockAuthenticator,
    headers: &Vec<(String, String)>,
) -> (r: Result<AuthorizationLevel, ServerError>)
    ensures
        spec_authorize_outcome(header_models(headers@), r),
{
    let authentication = authenticator.authenticate(headers);
    let (username, authorization) = match authentication {
        Ok(AuthenticationResult::Authenticated(username, level)) => (username, level),
        Ok(AuthenticationResult::Unauthenticated) => {
            return Err(
                ServerError::AuthenticationError(String::from_str("Authentication failed.")),
            );
        },
        Err(error) => {
            return Err(error);
        },
    };
    match authorization {
        None => {
            let mut msg = String::from_str("User ");
            msg.append(username.as_str());
            msg.append(" not authorized to access this resource.");
            Err(ServerError::AuthorizationError(msg))
        },
        Some(auth) => Ok(auth),
    }
}

/// A server that serves one request at a time, with no worker fabric: the
/// decision core that authenticates, analyzes and interprets.
pub struct SingleThreadedServer {
    /// The interpreter over the one storage instance.
    pub interpreter: Interpreter,
    /// The authentication service.
    pub authenticator: MockAuthenticator,
}

impl SingleThreadedServer {
    /// Create a new server over an empty store and the mock authenticator.
    pub fn new() -> (r: SingleThreadedServer)
        ensures
            r.interpreter.storage.wf(),
            r.interpreter.storage.as_map() =~= Map::<Seq<char>, crate::types::ElementModel>::empty(),
    {
        let storage = HashMapStorage::new();
        let authenticator = MockAuthenticator;
        let interpreter = Interpreter { storage };
        SingleThreadedServer { interpreter, authenticator }
    }

    /// Authenticate a request's headers and find its authorization level.
    fn authorize(&mut self, headers: &Vec<(String, String)>) -> (r: Result<
        AuthorizationLevel,
        ServerError,
    >)
        ensures
            spec_authorize_outcome(header_models(headers@), r),
            final(self).interpreter == old(self).interpreter,
    {
        authorize_request(&mut self.authenticator, headers)
    }

    /// Handle a single request to the server at instant `now`: authenticate
    /// the headers, analyze the query, interpret the statements, and report
    /// whether the server is to shut down.
    ///
    /// Whatever happens, the store changes only by an interpreted run, and
    /// the shutdown flag comes back `true` exactly for a `ShuttingDown`
    /// response.
    pub fn handle_request(
        &mut self,
        request: Result<String, ServerError>,
        headers: &Vec<(String, String)>,
        now: u64,
    ) -> (r: (Result<InterpreterResponse, ServerError>, bool))
        requires
            old(self).interpreter.storage.wf(),
        ensures
            final(self).interpreter.storage.wf(),
            r.1 == (outcome_model(r.0) == OutcomeModel::Resp(ResponseModel::ShuttingDown)),
            ({
                let pre = old(self).interpreter.storage.as_map();
                let post = final(self).interpreter.storage.as_map();
                match spec_header_lookup(header_models(headers@), "Username"@) {
                    None => post == pre && (r.0 matches Err(e) && e is InternalError),
                    Some(username) => {
                        if username == "unauthenticated"@ {
                            post == pre && (r.0 matches Err(e) && e is AuthenticationError)
                        } else {
                            match spec_mock_level(username) {
                                None => post == pre && (r.0 matches Err(e)
                                    && e is AuthorizationError),
                                Some(level) => match request {
                                    Err(given) => post == pre && (r.0 matches Err(e)
                                        && error_kind(e) == error_kind(given)),
                                    Ok(text) => match spec_analyze(text@) {
                                        None => post == pre && (r.0 matches Err(e) && (
                                        e is TokenizationError || e is ParseError)),
                                        Some(stmts) => spec_interpret(
                                            pre,
                                            stmts,
                                            level,
                                            now,
                                            post,
                                            outcome_model(r.0),
                                        ),
                                    },
                                },
                            }
                        }
                    },
                }
            }),
    {
        let authorization = match self.authorize(headers) {
            Ok(authorization) => authorization,
            Err(error) => {
                return (Err(error), false);
            },
        };
        let request_string = match request {
            Ok(request_string) => request_string,
            Err(error) => {
                return (Err(error), false);
            },
        };
        let int_request = match process_analyze_request(request_string.as_str(), authorization) {
            Ok(int_request) => int_request,
            Err(error) => {
                return (Err(error), false);
            },
        };
        let result = self.interpreter.interpret(int_request, now);
        let shut_down = match &result {
            Ok(InterpreterResponse::ShuttingDown) => true,
            _ => false,
        };
        (result, shut_down)
    }
}



/// The exact text of an HTTP response around a status code and a JSON
/// payload, with the payload's byte length as its content length.
pub open spec fn spec_http_response(code: Seq<char>, payload: Seq<char>, length: nat) -> Seq<char> {
    "HTTP/1.1 "@ + code + "\nConnection: Closed\nContent-Type: application/json\nContent-Length: "@
        + crate::util::spec_u64_dec(length) + "\n\n"@ + payload + "\n"@
}

/// Create a properly formatted HTTP response around a status code and a
/// JSON payload.
pub fn make_response(code: &str, json_payload: &str) -> (r: String)
    ensures
        r@ == spec_http_response(
            code@,
            json_payload@,
            (json_payload.spec_bytes().len() as usize) as nat,
        ),
{
    let length = json_payload.len();
    let mut out = String::from_str("HTTP/1.1 ");
    out.append(code);
    out.append("\nConnection: Closed\nContent-Type: application/json\nContent-Length: ");
    out.append(crate::util::fmt_u64(length as u64).as_str());
    out.append("\n\n");
    out.append(json_payload);
    out.append("\n");
    proof {
        assert(out@ =~= spec_http_response(
            code@,
            json_payload@,
            (json_payload.spec_bytes().len() as usize) as nat,
        ));
    }
    out
}

} // verus!
