use kvserver::error::{get_error_code, ServerError};
use kvserver::interpreter::{InterpreterResponse, ValueType};
use kvserver::server::SingleThreadedServer;
use kvserver::types::StorageValue;
use kvserver::util::fmt_u64;

const NOW: u64 = 1_700_000_000_000;

fn headers_for(user: &str) -> Vec<(String, String)> {
    vec![("Username".to_string(), user.to_string())]
}

fn run(
    server: &mut SingleThreadedServer,
    user: &str,
    query: &str,
    now: u64,
) -> (Result<InterpreterResponse, ServerError>, bool) {
    server.handle_request(Ok(query.to_string()), &headers_for(user), now)
}

#[test]
fn test_basic_scalar_round_trip() {
    let mut server = SingleThreadedServer::new();
    let (response, shut_down) = run(&mut server, "admin", "set x 1; get x", NOW);
    assert!(matches!(response.unwrap(), InterpreterResponse::Value(StorageValue::Int(1))));
    assert!(!shut_down);
}

#[test]
fn test_typed_vector_round_trip() {
    let mut server = SingleThreadedServer::new();
    let (response, _) = run(&mut server, "admin", "set xs int [1,2,3]; vpush xs 4; vlen xs", NOW);
    assert!(matches!(response.unwrap(), InterpreterResponse::Size(4)));
    let (response, _) = run(&mut server, "admin", "vget xs 3", NOW);
    assert!(matches!(response.unwrap(), InterpreterResponse::Value(StorageValue::Int(4))));
    let (response, _) = run(&mut server, "admin", "vpop xs", NOW);
    assert!(matches!(response.unwrap(), InterpreterResponse::Value(StorageValue::Int(4))));
}

#[test]
fn test_map_with_wrong_key_type() {
    let mut server = SingleThreadedServer::new();
    let (response, _) = run(&mut server, "admin", "set m int int {1:2}; mget m \"k\"", NOW);
    let error = response.unwrap_err();
    assert!(matches!(error, ServerError::TypeError(_)));
    assert!(error.to_display_string().starts_with("TypeError:"));
}

#[test]
fn test_map_statements_round_trip() {
    let mut server = SingleThreadedServer::new();
    let (response, _) = run(
        &mut server,
        "admin",
        "set m str int {\"a\":1, \"b\":2}; mset m \"c\" 3; mlen m",
        NOW,
    );
    assert!(matches!(response.unwrap(), InterpreterResponse::Size(3)));
    let (response, _) = run(&mut server, "admin", "mget m \"c\"", NOW);
    assert!(matches!(response.unwrap(), InterpreterResponse::Value(StorageValue::Int(3))));
    let (response, _) = run(&mut server, "admin", "mdel m \"a\"; mex m \"a\"", NOW);
    assert!(matches!(response.unwrap(), InterpreterResponse::Bool(false)));
}

#[test]
fn test_ttl_expiry_across_time() {
    let mut server = SingleThreadedServer::new();
    let (response, _) = run(&mut server, "admin", "set x 1 1", NOW);
    assert!(matches!(response.unwrap(), InterpreterResponse::Message(m) if m == "Ok"));
    let (response, _) = run(&mut server, "admin", "get x", NOW);
    assert!(matches!(response.unwrap(), InterpreterResponse::Value(StorageValue::Int(1))));
    // Two seconds later the entry has expired.
    let (response, _) = run(&mut server, "admin", "get x", NOW + 2_000);
    let error = response.unwrap_err();
    assert!(matches!(error, ServerError::KeyError(_)));
    assert!(error.to_display_string().starts_with("KeyError:"));
    let (response, _) = run(&mut server, "admin", "ex x", NOW + 2_000);
    assert!(matches!(response.unwrap(), InterpreterResponse::Bool(false)));
}

#[test]
fn test_lifetime_statements() {
    let mut server = SingleThreadedServer::new();
    // `lt` updates an entry's lifetime.
    run(&mut server, "admin", "set x 1", NOW).0.unwrap();
    let (response, _) = run(&mut server, "admin", "lt x 60", NOW);
    assert!(matches!(response.unwrap(), InterpreterResponse::Message(m) if m == "Ok"));
    let (response, _) = run(&mut server, "admin", "get x", NOW + 59_000);
    assert!(matches!(response.unwrap(), InterpreterResponse::Value(StorageValue::Int(1))));
    let (response, _) = run(&mut server, "admin", "get x", NOW + 61_000);
    assert!(matches!(response.unwrap_err(), ServerError::KeyError(_)));
    // Dropping the lifetime keeps the entry alive for good.
    run(&mut server, "admin", "set y 1 60", NOW).0.unwrap();
    run(&mut server, "admin", "lt y", NOW).0.unwrap();
    let (response, _) = run(&mut server, "admin", "get y", NOW + 1_000_000);
    assert!(matches!(response.unwrap(), InterpreterResponse::Value(StorageValue::Int(1))));
}

#[test]
fn test_get_lifetime_via_interpreter() {
    let mut server = SingleThreadedServer::new();
    run(&mut server, "admin", "set x 1 60; set y 1", NOW).0.unwrap();
    let request = kvserver::interpreter::InterpreterRequest {
        statements: vec![kvserver::statements::Statement::GetLifetime("x".to_string())],
        authorization: kvserver::auth::AuthorizationLevel::Read,
    };
    let response = server.interpreter.interpret(request, NOW + 30_000).unwrap();
    assert!(matches!(response, InterpreterResponse::Expiration(Some(30))));
    let request = kvserver::interpreter::InterpreterRequest {
        statements: vec![kvserver::statements::Statement::GetLifetime("y".to_string())],
        authorization: kvserver::auth::AuthorizationLevel::Read,
    };
    let response = server.interpreter.interpret(request, NOW).unwrap();
    assert!(matches!(response, InterpreterResponse::Expiration(None)));
}

#[test]
fn test_auth_matrix_write_refused_for_reader() {
    let mut server = SingleThreadedServer::new();
    let (response, shut_down) = run(&mut server, "read", "set x 1", NOW);
    let error = response.unwrap_err();
    assert!(matches!(error, ServerError::AuthorizationError(_)));
    assert!(error.to_display_string().starts_with("AuthorizationError:"));
    assert!(!shut_down);
    // Nothing was written.
    let (response, _) = run(&mut server, "admin", "get x", NOW);
    assert!(matches!(response.unwrap_err(), ServerError::KeyError(_)));
}

#[test]
fn test_auth_matrix_other_levels() {
    let mut server = SingleThreadedServer::new();
    // A writer may write but not shut down.
    let (response, _) = run(&mut server, "write", "set x 1", NOW);
    assert!(matches!(response.unwrap(), InterpreterResponse::Message(m) if m == "Ok"));
    let (response, shut_down) = run(&mut server, "write", "shutdown", NOW);
    assert!(matches!(response.unwrap_err(), ServerError::AuthorizationError(_)));
    assert!(!shut_down);
    // A reader may read.
    let (response, _) = run(&mut server, "read", "get x", NOW);
    assert!(matches!(response.unwrap(), InterpreterResponse::Value(StorageValue::Int(1))));
    // An unknown user is authenticated but has no level.
    let (response, _) = run(&mut server, "guest", "get x", NOW);
    assert!(matches!(response.unwrap_err(), ServerError::AuthorizationError(_)));
    // The reserved name is rejected outright.
    let (response, _) = run(&mut server, "unauthenticated", "get x", NOW);
    assert!(matches!(response.unwrap_err(), ServerError::AuthenticationError(_)));
    // A missing header is an internal error.
    let (response, _) = server.handle_request(Ok("get x".to_string()), &vec![], NOW);
    assert!(matches!(response.unwrap_err(), ServerError::InternalError(_)));
}

#[test]
fn test_shutdown_statement() {
    let mut server = SingleThreadedServer::new();
    let (response, shut_down) = run(&mut server, "admin", "shutdown", NOW);
    assert!(matches!(response.unwrap(), InterpreterResponse::ShuttingDown));
    assert!(shut_down);
}

#[test]
fn test_error_stops_run_and_earlier_statements_stick() {
    let mut server = SingleThreadedServer::new();
    let (response, _) = run(&mut server, "admin", "set x 5; get missing; set x 6", NOW);
    assert!(matches!(response.unwrap_err(), ServerError::KeyError(_)));
    // The first write ran; the one after the error did not.
    let (response, _) = run(&mut server, "admin", "get x", NOW);
    assert!(matches!(response.unwrap(), InterpreterResponse::Value(StorageValue::Int(5))));
}

#[test]
fn test_semicolons_between_statements_do_not_matter() {
    let mut one = SingleThreadedServer::new();
    let mut many = SingleThreadedServer::new();
    let (r1, _) = run(&mut one, "admin", "set x 1; get x", NOW);
    let (r2, _) = run(&mut many, "admin", "set x 1;;;; get x;;", NOW);
    assert!(matches!(r1.unwrap(), InterpreterResponse::Value(StorageValue::Int(1))));
    assert!(matches!(r2.unwrap(), InterpreterResponse::Value(StorageValue::Int(1))));
}

#[test]
fn test_try_set_and_try_get() {
    let mut server = SingleThreadedServer::new();
    let (response, _) = run(&mut server, "admin", "set x 1; try_set x 2", NOW);
    assert!(matches!(response.unwrap(), InterpreterResponse::Bool(false)));
    let (response, _) = run(&mut server, "admin", "get x", NOW);
    assert!(matches!(response.unwrap(), InterpreterResponse::Value(StorageValue::Int(1))));
    let (response, _) = run(&mut server, "admin", "try_get missing", NOW);
    assert!(matches!(response.unwrap(), InterpreterResponse::Value(StorageValue::Null)));
    let (response, _) = run(&mut server, "admin", "try_set fresh 7", NOW);
    assert!(matches!(response.unwrap(), InterpreterResponse::Bool(true)));
}

#[test]
fn test_delete_reports_presence() {
    let mut server = SingleThreadedServer::new();
    run(&mut server, "admin", "set x 1", NOW).0.unwrap();
    let (response, _) = run(&mut server, "admin", "del x", NOW);
    assert!(matches!(response.unwrap(), InterpreterResponse::Bool(true)));
    let (response, _) = run(&mut server, "admin", "del x", NOW);
    assert!(matches!(response.unwrap(), InterpreterResponse::Bool(false)));
}

#[test]
fn test_value_types() {
    let mut server = SingleThreadedServer::new();
    run(&mut server, "admin", "set a 1; set b \"s\"; set c true; set d 1.5; set e; set f int []; set g str int {}", NOW)
        .0
        .unwrap();
    let (response, _) = run(&mut server, "admin", "type d", NOW);
    assert!(matches!(response.unwrap(), InterpreterResponse::ValueType(ValueType::Float)));
    let (response, _) = run(&mut server, "admin", "type e", NOW);
    assert!(matches!(response.unwrap(), InterpreterResponse::ValueType(ValueType::Null)));
    let (response, _) = run(&mut server, "admin", "type f", NOW);
    assert!(matches!(response.unwrap(), InterpreterResponse::ValueType(ValueType::Vector(_))));
    let (response, _) = run(&mut server, "admin", "type g", NOW);
    assert!(matches!(
        response.unwrap(),
        InterpreterResponse::ValueType(ValueType::Mapping(_, _))
    ));
}

#[test]
fn test_update_statements() {
    let mut server = SingleThreadedServer::new();
    let (response, _) = run(&mut server, "admin", "upd missing 1", NOW);
    assert!(matches!(response.unwrap_err(), ServerError::KeyError(_)));
    run(&mut server, "admin", "set x 1", NOW).0.unwrap();
    let (response, _) = run(&mut server, "admin", "upd x 2; get x", NOW);
    assert!(matches!(response.unwrap(), InterpreterResponse::Value(StorageValue::Int(2))));
}

#[test]
fn test_parse_error_surfaces() {
    let mut server = SingleThreadedServer::new();
    let (response, _) = run(&mut server, "admin", "frobnicate x", NOW);
    let error = response.unwrap_err();
    assert!(matches!(error, ServerError::ParseError(_)));
    assert!(error.to_display_string().starts_with("ParseError:"));
    let (response, _) = run(&mut server, "admin", "set x @", NOW);
    assert!(matches!(response.unwrap_err(), ServerError::TokenizationError(_)));
    let (response, _) = run(&mut server, "admin", "set x 1 -5", NOW);
    assert!(matches!(response.unwrap_err(), ServerError::ParseError(_)));
}

#[test]
fn test_vector_errors() {
    let mut server = SingleThreadedServer::new();
    run(&mut server, "admin", "set xs int [1,2]", NOW).0.unwrap();
    let (response, _) = run(&mut server, "admin", "vget xs 5", NOW);
    assert!(matches!(response.unwrap_err(), ServerError::IndexError(_)));
    let (response, _) = run(&mut server, "admin", "vpush xs true", NOW);
    assert!(matches!(response.unwrap_err(), ServerError::TypeError(_)));
    run(&mut server, "admin", "set n 1", NOW).0.unwrap();
    let (response, _) = run(&mut server, "admin", "vlen n", NOW);
    assert!(matches!(response.unwrap_err(), ServerError::TypeError(_)));
}

#[test]
fn test_uppercase_query_is_case_insensitive() {
    let mut server = SingleThreadedServer::new();
    let (response, _) = run(&mut server, "admin", "SET X 1; GET X", NOW);
    assert!(matches!(response.unwrap(), InterpreterResponse::Value(StorageValue::Int(1))));
}

#[test]
fn test_float_value_round_trip() {
    let mut server = SingleThreadedServer::new();
    let (response, _) = run(&mut server, "admin", "set pi 3.25; get pi", NOW);
    assert!(matches!(
        response.unwrap(),
        InterpreterResponse::Value(StorageValue::Float(s)) if s == "3.25"
    ));
}

#[test]
fn test_expire_keys_via_interpreter() {
    let mut storage = kvserver::storage::HashMapStorage::new();
    storage
        .set(
            "old",
            kvserver::types::StorageElement {
                key: "old".to_string(),
                value: StorageValue::Int(1),
                expiration: Some(NOW - 1),
            },
        )
        .unwrap();
    let mut interpreter = kvserver::interpreter::Interpreter::new(storage);
    let request = kvserver::interpreter::InterpreterRequest {
        statements: vec![kvserver::statements::Statement::ExpireKeys],
        authorization: kvserver::auth::AuthorizationLevel::Admin,
    };
    let response = interpreter.interpret(request, NOW).unwrap();
    assert!(matches!(response, InterpreterResponse::Size(1)));
    assert_eq!(interpreter.storage.len().unwrap(), 0);
}

#[test]
fn test_error_codes() {
    assert_eq!(
        get_error_code(&ServerError::KeyError("m".to_string())),
        "422 Unprocessable Entity"
    );
    assert_eq!(
        get_error_code(&ServerError::AuthorizationError("m".to_string())),
        "401 Unauthorized"
    );
    assert_eq!(
        get_error_code(&ServerError::AuthenticationError("m".to_string())),
        "403 Forbidden"
    );
    assert_eq!(get_error_code(&ServerError::RequestError("m".to_string())), "400 Bad Request");
    assert_eq!(
        get_error_code(&ServerError::InternalError("m".to_string())),
        "500 Internal Server Error"
    );
    assert_eq!(
        get_error_code(&ServerError::ParseError("m".to_string())),
        "422 Unprocessable Entity"
    );
}

#[test]
fn test_error_display_string() {
    let error = ServerError::KeyError("No entry with key 'x' exists".to_string());
    assert_eq!(error.to_display_string(), "KeyError: No entry with key 'x' exists");
}

#[test]
fn test_fmt_u64() {
    assert_eq!(fmt_u64(0), "0");
    assert_eq!(fmt_u64(7), "7");
    assert_eq!(fmt_u64(10), "10");
    assert_eq!(fmt_u64(90210), "90210");
    assert_eq!(fmt_u64(u64::MAX), "18446744073709551615");
}

#[test]
fn test_make_key_errors() {
    let missing = kvserver::types::make_key_error("k");
    assert_eq!(missing.to_display_string(), "KeyError: No entry with key 'k' exists");
    let taken = kvserver::types::make_key_exists_error("k");
    assert_eq!(taken.to_display_string(), "KeyError: Entry with key 'k' already exists");
}

#[test]
fn test_keyword_table() {
    let table = kvserver::tokens::get_word_to_token_map();
    assert_eq!(table.len(), 29);
    assert_eq!(table[0].0, "get");
    assert_eq!(table[12].0, "shutdown");
    assert_eq!(table[28].0, "map");
    for (word, token) in &table {
        assert_eq!(kvserver::tokens::keyword_token(word).unwrap(), token.clone());
    }
}

#[test]
fn test_make_response() {
    let response = kvserver::server::make_response("200 Ok", "{\"Size\":4}");
    assert_eq!(
        response,
        "HTTP/1.1 200 Ok\nConnection: Closed\nContent-Type: application/json\nContent-Length: 10\n\n{\"Size\":4}\n"
    );
}
