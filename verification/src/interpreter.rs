use vstd::prelude::*;

use crate::auth::AuthorizationLevel;
use crate::error::ServerError;
use crate::parser::statement_models;
use crate::statements::{is_mutating_statement, Statement, StatementModel};
use crate::storage::HashMapStorage;
use crate::types::{
    lemma_mapping_model,
    lemma_vector_model,
    map_has_key,
    map_key_index,
    map_lookup,
    key_matches,
    scalar_matches,
    spec_is_expired,
    value_wf,
    CollectionType,
    ElementModel,
    KeyType,
    StorageElement,
    StorageValue,
    ValueModel,
};

verus! {

/// Privilege levels that can be attached to a request, `Unauthorized`
/// marking one that may run nothing.
///
/// The interpreter itself decides by [`AuthorizationLevel`]; this
/// classification is kept as public vocabulary for callers that label
/// requests before admission.
#[derive(Clone, Copy, PartialEq, Eq, Structural, Debug)]
pub enum Privileges {
    /// Admins can do anything.
    Admin,
    /// Allows read-only operations.
    Read,
    /// Allows read and write operations.
    Write,
    /// Allows nothing; always refused.
    Unauthorized,
}

/// The kind of value stored under a key.
#[derive(Clone, Copy, Debug)]
pub enum ValueType {
    /// A null value.
    Null,
    /// A boolean value.
    Bool,
    /// An integer value.
    Int,
    /// A floating point value.
    Float,
    /// A string value.
    String,
    /// A vector collection with its element type.
    Vector(CollectionType),
    /// A map collection with its key and element types.
    Mapping(KeyType, CollectionType),
}

/// A request to the interpreter.
pub struct InterpreterRequest {
    /// The statements to be processed, in order.
    pub statements: Vec<Statement>,
    /// The authorization level this request carries.
    pub authorization: AuthorizationLevel,
}

/// A response from the interpreter.
#[derive(Clone, Debug)]
pub enum InterpreterResponse {
    /// A value from the key value store.
    Value(StorageValue),
    /// A plain message.
    Message(String),
    /// The size of something.
    Size(usize),
    /// When something expires, in remaining whole seconds.
    Expiration(Option<u64>),
    /// A key.
    Key(String),
    /// A boolean answer.
    Bool(bool),
    /// The type of a value.
    ValueType(ValueType),
    /// The server is shutting down.
    ShuttingDown,
    /// No response.
    Null,
}

/// The mathematical shape of a response.
pub enum ResponseModel {
    /// A value from the key value store.
    Value(ValueModel),
    /// A plain message.
    Message(Seq<char>),
    /// The size of something.
    Size(int),
    /// When something expires, in remaining whole seconds.
    Expiration(Option<u64>),
    /// A key.
    Key(Seq<char>),
    /// A boolean answer.
    Bool(bool),
    /// The type of a value.
    ValueType(ValueType),
    /// The server is shutting down.
    ShuttingDown,
    /// No response.
    Null,
}

impl View for InterpreterResponse {
    type V = ResponseModel;

    open spec fn view(&self) -> ResponseModel {
        match self {
            InterpreterResponse::Value(v) => ResponseModel::Value(v@),
            InterpreterResponse::Message(m) => ResponseModel::Message(m@),
            InterpreterResponse::Size(n) => ResponseModel::Size(*n as int),
            InterpreterResponse::Expiration(e) => ResponseModel::Expiration(*e),
            InterpreterResponse::Key(k) => ResponseModel::Key(k@),
            InterpreterResponse::Bool(b) => ResponseModel::Bool(*b),
            InterpreterResponse::ValueType(t) => ResponseModel::ValueType(*t),
            InterpreterResponse::ShuttingDown => ResponseModel::ShuttingDown,
            InterpreterResponse::Null => ResponseModel::Null,
        }
    }
}

/// The kind of an error, with its message abstracted away.
pub enum ErrorKindModel {
    /// A missing or expired key.
    KeyError,
    /// An out-of-range index or missing map entry.
    IndexError,
    /// A value of the wrong kind.
    TypeError,
    /// Malformed query text.
    TokenizationError,
    /// An unparsable token stream.
    ParseError,
    /// Credentials rejected.
    AuthenticationError,
    /// Credentials accepted but the level is too low.
    AuthorizationError,
    /// A malformed request envelope.
    RequestError,
    /// A transport failure while reading.
    NetworkError,
    /// A transport failure while writing.
    WriteError,
    /// A pipeline failure.
    InternalError,
}

/// The kind of an error value.
pub open spec fn error_kind(e: ServerError) -> ErrorKindModel {
    match e {
        ServerError::KeyError(_) => ErrorKindModel::KeyError,
        ServerError::IndexError(_) => ErrorKindModel::IndexError,
        ServerError::TypeError(_) => ErrorKindModel::TypeError,
        ServerError::TokenizationError(_) => ErrorKindModel::TokenizationError,
        ServerError::ParseError(_) => ErrorKindModel::ParseError,
        ServerError::AuthenticationError(_) => ErrorKindModel::AuthenticationError,
        ServerError::AuthorizationError(_) => ErrorKindModel::AuthorizationError,
        ServerError::RequestError(_) => ErrorKindModel::RequestError,
        ServerError::NetworkError(_) => ErrorKindModel::NetworkError,
        ServerError::WriteError(_) => ErrorKindModel::WriteError,
        ServerError::InternalError(_) => ErrorKindModel::InternalError,
    }
}

/// The outcome of running statements: a response model or an error kind.
pub enum OutcomeModel {
    /// A response.
    Resp(ResponseModel),
    /// An error of this kind.
    ErrOf(ErrorKindModel),
}

/// The model of an interpreter result.
pub open spec fn outcome_model(r: Result<InterpreterResponse, ServerError>) -> OutcomeModel {
    match r {
        Ok(resp) => OutcomeModel::Resp(resp@),
        Err(e) => OutcomeModel::ErrOf(error_kind(e)),
    }
}

/// The store as the interpreter sees it.
pub type StoreModel = Map<Seq<char>, ElementModel>;

/// Whether the key holds an entry that has not expired at instant `now`.
pub open spec fn store_live(pre: StoreModel, k: Seq<char>, now: u64) -> bool {
    pre.dom().contains(k) && !spec_is_expired(pre[k], now)
}

/// The absolute expiration instant that a relative lifetime in seconds
/// yields at instant `now`; additions saturate.
pub open spec fn spec_expiration(lifetime: Option<u64>, now: u64) -> Option<u64> {
    match lifetime {
        None => None,
        Some(seconds) => Some(
            if now + seconds * 1000 > u64::MAX {
                u64::MAX
            } else {
                (now + seconds * 1000) as u64
            },
        ),
    }
}

/// The entry written by a set of `k` to `v` with the given lifetime.
pub open spec fn written_element(
    k: Seq<char>,
    v: ValueModel,
    lifetime: Option<u64>,
    now: u64,
) -> ElementModel {
    ElementModel { key: k, expiration: spec_expiration(lifetime, now), value: v }
}

/// The kind of value a model holds.
pub open spec fn model_value_type(m: ValueModel) -> ValueType {
    match m {
        ValueModel::Null => ValueType::Null,
        ValueModel::Bool(_) => ValueType::Bool,
        ValueModel::Int(_) => ValueType::Int,
        ValueModel::Float(_) => ValueType::Float,
        ValueModel::Str(_) => ValueType::String,
        ValueModel::Vector(ct, _) => ValueType::Vector(ct),
        ValueModel::Mapping(kt, ct, _) => ValueType::Mapping(kt, ct),
    }
}

/// The entry `pre[k]` with its value replaced.
pub open spec fn with_value(pre: StoreModel, k: Seq<char>, v: ValueModel) -> ElementModel {
    ElementModel { key: pre[k].key, expiration: pre[k].expiration, value: v }
}

/// How one statement takes the store from `pre` to `post` with outcome
/// `out` at instant `now`.
///
/// Every case but `ExpireKeys` is deterministic; an `ExpireKeys` step may
/// remove any one expired entry or nothing, depending on the random draw.
pub open spec fn interp_step(
    pre: StoreModel,
    stmt: StatementModel,
    now: u64,
    post: StoreModel,
    out: OutcomeModel,
) -> bool {
    match stmt {
        StatementModel::Shutdown => post == pre && out == OutcomeModel::Resp(
            ResponseModel::ShuttingDown,
        ),
        StatementModel::Null => post == pre && out == OutcomeModel::Resp(ResponseModel::Null),
        StatementModel::Get(k) => post == pre && (if store_live(pre, k, now) {
            out == OutcomeModel::Resp(ResponseModel::Value(pre[k].value))
        } else {
            out == OutcomeModel::ErrOf(ErrorKindModel::KeyError)
        }),
        StatementModel::Exists(k) => post == pre && out == OutcomeModel::Resp(
            ResponseModel::Bool(store_live(pre, k, now)),
        ),
        StatementModel::GetIfExists(k) => post == pre && out == OutcomeModel::Resp(
            ResponseModel::Value(
                if store_live(pre, k, now) {
                    pre[k].value
                } else {
                    ValueModel::Null
                },
            ),
        ),
        StatementModel::GetLifetime(k) => post == pre && (if store_live(pre, k, now) {
            out == OutcomeModel::Resp(
                ResponseModel::Expiration(
                    match pre[k].expiration {
                        None => None,
                        Some(exp) => Some((((exp - now) as u64) / 1000) as u64),
                    },
                ),
            )
        } else {
            out == OutcomeModel::ErrOf(ErrorKindModel::KeyError)
        }),
        StatementModel::ValueType(k) => post == pre && (if store_live(pre, k, now) {
            out == OutcomeModel::Resp(ResponseModel::ValueType(model_value_type(pre[k].value)))
        } else {
            out == OutcomeModel::ErrOf(ErrorKindModel::KeyError)
        }),
        StatementModel::Delete(k) => post == pre.remove(k) && out == OutcomeModel::Resp(
            ResponseModel::Bool(store_live(pre, k, now)),
        ),
        StatementModel::SetValue(k, v, lt) => post == pre.insert(k, written_element(k, v, lt, now))
            && out == OutcomeModel::Resp(ResponseModel::Message("Ok"@)),
        StatementModel::SetIfNotExists(k, v, lt) => if pre.dom().contains(k) {
            post == pre && out == OutcomeModel::Resp(ResponseModel::Bool(false))
        } else {
            post == pre.insert(k, written_element(k, v, lt, now)) && out == OutcomeModel::Resp(
                ResponseModel::Bool(true),
            )
        },
        StatementModel::Update(k, v, lt) => if store_live(pre, k, now) {
            post == pre.insert(k, written_element(k, v, lt, now)) && out == OutcomeModel::Resp(
                ResponseModel::Message("Ok"@),
            )
        } else {
            post == pre && out == OutcomeModel::ErrOf(ErrorKindModel::KeyError)
        },
        StatementModel::UpdateLifetime(k, lt) => if store_live(pre, k, now) {
            post == pre.insert(
                k,
                ElementModel {
                    key: pre[k].key,
                    expiration: spec_expiration(lt, now),
                    value: pre[k].value,
                },
            ) && out == OutcomeModel::Resp(ResponseModel::Message("Ok"@))
        } else {
            post == pre && out == OutcomeModel::ErrOf(ErrorKindModel::KeyError)
        },
        StatementModel::ExpireKeys => (out == OutcomeModel::Resp(ResponseModel::Size(1))
            && exists|k: Seq<char>|
            {
                &&& pre.dom().contains(k)
                &&& spec_is_expired(#[trigger] pre[k], now)
                &&& post == pre.remove(k)
            }) || (out == OutcomeModel::Resp(ResponseModel::Size(0)) && post == pre),
        StatementModel::VectorGet(k, ix) => post == pre && (if !store_live(pre, k, now) {
            out == OutcomeModel::ErrOf(ErrorKindModel::KeyError)
        } else {
            match pre[k].value {
                ValueModel::Vector(_, els) => if 0 <= ix < els.len() {
                    out == OutcomeModel::Resp(ResponseModel::Value(els[ix]))
                } else {
                    out == OutcomeModel::ErrOf(ErrorKindModel::IndexError)
                },
                _ => out == OutcomeModel::ErrOf(ErrorKindModel::TypeError),
            }
        }),
        StatementModel::VectorLength(k) => post == pre && (if !store_live(pre, k, now) {
            out == OutcomeModel::ErrOf(ErrorKindModel::KeyError)
        } else {
            match pre[k].value {
                ValueModel::Vector(_, els) => out == OutcomeModel::Resp(
                    ResponseModel::Size(els.len() as int),
                ),
                _ => out == OutcomeModel::ErrOf(ErrorKindModel::TypeError),
            }
        }),
        StatementModel::VectorAppend(k, v) => if !store_live(pre, k, now) {
            post == pre && out == OutcomeModel::ErrOf(ErrorKindModel::KeyError)
        } else {
            match pre[k].value {
                ValueModel::Vector(ct, els) => if scalar_matches(v, ct) {
                    post == pre.insert(k, with_value(pre, k, ValueModel::Vector(ct, els.push(v))))
                        && out == OutcomeModel::Resp(ResponseModel::Message("Ok"@))
                } else {
                    post == pre && out == OutcomeModel::ErrOf(ErrorKindModel::TypeError)
                },
                _ => post == pre && out == OutcomeModel::ErrOf(ErrorKindModel::TypeError),
            }
        },
        StatementModel::VectorPop(k) => if !store_live(pre, k, now) {
            post == pre && out == OutcomeModel::ErrOf(ErrorKindModel::KeyError)
        } else {
            match pre[k].value {
                ValueModel::Vector(ct, els) => if els.len() == 0 {
                    post == pre.insert(k, with_value(pre, k, ValueModel::Vector(ct, els))) && out
                        == OutcomeModel::Resp(ResponseModel::Value(ValueModel::Null))
                } else {
                    post == pre.insert(
                        k,
                        with_value(pre, k, ValueModel::Vector(ct, els.drop_last())),
                    ) && out == OutcomeModel::Resp(ResponseModel::Value(els.last()))
                },
                _ => post == pre && out == OutcomeModel::ErrOf(ErrorKindModel::TypeError),
            }
        },
        StatementModel::VectorSet(k, ix, v) => if !store_live(pre, k, now) {
            post == pre && out == OutcomeModel::ErrOf(ErrorKindModel::KeyError)
        } else {
            match pre[k].value {
                ValueModel::Vector(ct, els) => if !scalar_matches(v, ct) {
                    post == pre && out == OutcomeModel::ErrOf(ErrorKindModel::TypeError)
                } else if !(0 <= ix < els.len()) {
                    post == pre && out == OutcomeModel::ErrOf(ErrorKindModel::IndexError)
                } else {
                    post == pre.insert(
                        k,
                        with_value(pre, k, ValueModel::Vector(ct, els.update(ix, v))),
                    ) && out == OutcomeModel::Resp(ResponseModel::Message("Ok"@))
                },
                _ => post == pre && out == OutcomeModel::ErrOf(ErrorKindModel::TypeError),
            }
        },
        StatementModel::MapGet(k, mk) => post == pre && (if !store_live(pre, k, now) {
            out == OutcomeModel::ErrOf(ErrorKindModel::KeyError)
        } else {
            match pre[k].value {
                ValueModel::Mapping(kt, _, entries) => if !key_matches(mk, kt) {
                    out == OutcomeModel::ErrOf(ErrorKindModel::TypeError)
                } else {
                    match map_lookup(entries, mk) {
                        Some(v) => out == OutcomeModel::Resp(ResponseModel::Value(v)),
                        None => out == OutcomeModel::ErrOf(ErrorKindModel::IndexError),
                    }
                },
                _ => out == OutcomeModel::ErrOf(ErrorKindModel::TypeError),
            }
        }),
        StatementModel::MapLength(k) => post == pre && (if !store_live(pre, k, now) {
            out == OutcomeModel::ErrOf(ErrorKindModel::KeyError)
        } else {
            match pre[k].value {
                ValueModel::Mapping(_, _, entries) => out == OutcomeModel::Resp(
                    ResponseModel::Size(entries.len() as int),
                ),
                _ => out == OutcomeModel::ErrOf(ErrorKindModel::TypeError),
            }
        }),
        StatementModel::MapExists(k, mk) => post == pre && (if !store_live(pre, k, now) {
            out == OutcomeModel::ErrOf(ErrorKindModel::KeyError)
        } else {
            match pre[k].value {
                ValueModel::Mapping(kt, _, entries) => if !key_matches(mk, kt) {
                    out == OutcomeModel::ErrOf(ErrorKindModel::TypeError)
                } else {
                    out == OutcomeModel::Resp(ResponseModel::Bool(map_has_key(entries, mk)))
                },
                _ => out == OutcomeModel::ErrOf(ErrorKindModel::TypeError),
            }
        }),
        StatementModel::MapSet(k, mk, v) => if !store_live(pre, k, now) {
            post == pre && out == OutcomeModel::ErrOf(ErrorKindModel::KeyError)
        } else {
            match pre[k].value {
                ValueModel::Mapping(kt, ct, entries) => if !key_matches(mk, kt) || !scalar_matches(
                    v,
                    ct,
                ) {
                    post == pre && out == OutcomeModel::ErrOf(ErrorKindModel::TypeError)
                } else {
                    post == pre.insert(
                        k,
                        with_value(
                            pre,
                            k,
                            ValueModel::Mapping(
                                kt,
                                ct,
                                crate::parser::spec_assoc_put(entries, mk, v),
                            ),
                        ),
                    ) && out == OutcomeModel::Resp(ResponseModel::Message("Ok"@))
                },
                _ => post == pre && out == OutcomeModel::ErrOf(ErrorKindModel::TypeError),
            }
        },
        StatementModel::MapDelete(k, mk) => if !store_live(pre, k, now) {
            post == pre && out == OutcomeModel::ErrOf(ErrorKindModel::KeyError)
        } else {
            match pre[k].value {
                ValueModel::Mapping(kt, ct, entries) => if !key_matches(mk, kt) {
                    post == pre && out == OutcomeModel::ErrOf(ErrorKindModel::TypeError)
                } else if map_has_key(entries, mk) {
                    post == pre.insert(
                        k,
                        with_value(
                            pre,
                            k,
                            ValueModel::Mapping(
                                kt,
                                ct,
                                entries.remove(map_key_index(entries, mk)),
                            ),
                        ),
                    ) && out == OutcomeModel::Resp(ResponseModel::Bool(true))
                } else {
                    post == pre && out == OutcomeModel::Resp(ResponseModel::Bool(false))
                },
                _ => post == pre && out == OutcomeModel::ErrOf(ErrorKindModel::TypeError),
            }
        },
    }
}

/// The level a statement demands: shutdown is for administrators, mutators
/// for writers, everything else for every authenticated user.
pub open spec fn spec_statement_allowed(s: StatementModel, level: AuthorizationLevel) -> bool {
    if s is Shutdown {
        level is Admin
    } else if is_mutating_statement(s) {
        level is Admin || level is Write
    } else {
        true
    }
}

/// Whether every statement of a request is allowed at the level.
pub open spec fn spec_all_authorized(
    stmts: Seq<StatementModel>,
    level: AuthorizationLevel,
) -> bool {
    forall|i: int| 0 <= i < stmts.len() ==> spec_statement_allowed(#[trigger] stmts[i], level)
}

/// How running a sequence of statements takes the store from `pre` to
/// `post` with outcome `out`: statements run in order; an error or a
/// shutdown stops the run; the outcome is the last statement's, or null for
/// an empty run.
pub open spec fn run_seq(
    pre: StoreModel,
    stmts: Seq<StatementModel>,
    now: u64,
    post: StoreModel,
    out: OutcomeModel,
) -> bool
    decreases stmts.len(),
{
    if stmts.len() == 0 {
        post == pre && out == OutcomeModel::Resp(ResponseModel::Null)
    } else {
        exists|mid: StoreModel, o0: OutcomeModel|
            {
                &&& #[trigger] interp_step(pre, stmts.first(), now, mid, o0)
                &&& if o0 == OutcomeModel::Resp(ResponseModel::ShuttingDown) || o0 is ErrOf
                    || stmts.len() == 1 {
                    post == mid && out == o0
                } else {
                    run_seq(mid, stmts.drop_first(), now, post, out)
                }
            }
    }
}

/// How a whole request is interpreted: an authorization pre-pass refuses
/// the run entirely when any statement demands a higher level; otherwise
/// the statements run in order.
pub open spec fn spec_interpret(
    pre: StoreModel,
    stmts: Seq<StatementModel>,
    level: AuthorizationLevel,
    now: u64,
    post: StoreModel,
    out: OutcomeModel,
) -> bool {
    if spec_all_authorized(stmts, level) {
        run_seq(pre, stmts, now, post, out)
    } else {
        post == pre && out == OutcomeModel::ErrOf(ErrorKindModel::AuthorizationError)
    }
}

/// Whether the values a statement carries are well formed.
pub open spec fn statement_values_wf(s: StatementModel) -> bool {
    match s {
        StatementModel::SetValue(_, v, _) => value_wf(v),
        StatementModel::SetIfNotExists(_, v, _) => value_wf(v),
        StatementModel::Update(_, v, _) => value_wf(v),
        _ => true,
    }
}

/// Whether every statement of a sequence carries well-formed values.
pub open spec fn statements_values_wf(stmts: Seq<StatementModel>) -> bool {
    forall|i: int| 0 <= i < stmts.len() ==> statement_values_wf(#[trigger] stmts[i])
}

/// An interpreter backed by the storage engine; the sole mutator of its
/// store.
pub struct Interpreter {
    /// The underlying storage.
    pub storage: HashMapStorage,
}

/// The absolute expiration instant for a relative lifetime at instant
/// `now`; additions saturate at the far end of time.
fn compute_expiration(lifetime: Option<u64>, now: u64) -> (r: Option<u64>)
    ensures
        r == spec_expiration(lifetime, now),
{
    match lifetime {
        None => None,
        Some(seconds) => {
            let millis = match seconds.checked_mul(1000) {
                Some(m) => m,
                None => u64::MAX,
            };
            Some(now.saturating_add(millis))
        },
    }
}

/// Check that a statement is allowed at the given authorization level.
fn statement_allowed(statement: &Statement, authorization: AuthorizationLevel) -> (r: bool)
    ensures
        r == spec_statement_allowed(statement@, authorization),
{
    match statement {
        Statement::Shutdown => authorization == AuthorizationLevel::Admin,
        Statement::Delete(..) | Statement::SetValue(..) | Statement::SetIfNotExists(..)
            | Statement::VectorSet(..) | Statement::VectorAppend(..) | Statement::VectorPop(..)
            | Statement::MapSet(..) | Statement::MapDelete(..) | Statement::Update(..)
            | Statement::UpdateLifetime(..) => (authorization == AuthorizationLevel::Admin) || (
        authorization == AuthorizationLevel::Write),
        _ => true,
    }
}

/// Check that every statement is allowed at the given authorization level.
pub fn validate_authorization(
    statements: &Vec<Statement>,
    authorization: AuthorizationLevel,
) -> (r: Result<(), ServerError>)
    ensures
        match r {
            Ok(()) => spec_all_authorized(statement_models(statements@), authorization),
            Err(e) => !spec_all_authorized(statement_models(statements@), authorization) && e
                is AuthorizationError,
        },
{
    let ghost ms = statement_models(statements@);
    let mut i: usize = 0;
    while i < statements.len()
        invariant
            i <= statements@.len(),
            ms == statement_models(statements@),
            forall|j: int| 0 <= j < i ==> spec_statement_allowed(#[trigger] ms[j], authorization),
        decreases statements@.len() - i,
    {
        proof {
            assert(ms[i as int] == statements@[i as int]@);
        }
        if !statement_allowed(&statements[i], authorization) {
            return Err(
                ServerError::AuthorizationError(
                    String::from_str("User is not authorized to perform this query."),
                ),
            );
        }
        i = i + 1;
    }
    Ok(())
}

impl Interpreter {
    /// Create a new interpreter for the storage.
    pub fn new(storage: HashMapStorage) -> (r: Interpreter)
        ensures
            r.storage == storage,
    {
        Interpreter { storage }
    }

    /// Interpret a request at instant `now`: refuse it entirely when a
    /// statement exceeds the request's level, else run the statements in
    /// order.
    pub fn interpret(&mut self, request: InterpreterRequest, now: u64) -> (r: Result<
        InterpreterResponse,
        ServerError,
    >)
        requires
            old(self).storage.wf(),
            statements_values_wf(statement_models(request.statements@)),
        ensures
            final(self).storage.wf(),
            spec_interpret(
                old(self).storage.as_map(),
                statement_models(request.statements@),
                request.authorization,
                now,
                final(self).storage.as_map(),
                outcome_model(r),
            ),
    {
        let InterpreterRequest { statements, authorization } = request;
        self.process_statements(statements, authorization, now)
    }

    /// Validate the statements of a request and run them.
    fn process_statements(
        &mut self,
        statements: Vec<Statement>,
        authorization: AuthorizationLevel,
        now: u64,
    ) -> (r: Result<InterpreterResponse, ServerError>)
        requires
            old(self).storage.wf(),
            statements_values_wf(statement_models(statements@)),
        ensures
            final(self).storage.wf(),
            spec_interpret(
                old(self).storage.as_map(),
                statement_models(statements@),
                authorization,
                now,
                final(self).storage.as_map(),
                outcome_model(r),
            ),
    {
        match validate_authorization(&statements, authorization) {
            Ok(()) => (),
            Err(err) => {
                return Err(err);
            },
        };
        proof {
            assert(statement_models(statements@).skip(0) =~= statement_models(statements@));
        }
        self.run_from(&statements, 0, now)
    }

    /// Run the statements from position `i` on, in order, stopping at an
    /// error or a shutdown.
    fn run_from(&mut self, statements: &Vec<Statement>, i: usize, now: u64) -> (r: Result<
        InterpreterResponse,
        ServerError,
    >)
        requires
            old(self).storage.wf(),
            i <= statements@.len(),
            statements_values_wf(statement_models(statements@)),
        ensures
            final(self).storage.wf(),
            run_seq(
                old(self).storage.as_map(),
                statement_models(statements@).skip(i as int),
                now,
                final(self).storage.as_map(),
                outcome_model(r),
            ),
        decreases statements@.len() - i,
    {
        let ghost rest = statement_models(statements@).skip(i as int);
        if i == statements.len() {
            proof {
                assert(rest.len() == 0);
            }
            return Ok(InterpreterResponse::Null);
        }
        proof {
            assert(rest.first() == statement_models(statements@)[i as int]);
            assert(statement_models(statements@)[i as int] == statements@[i as int]@);
            assert(statement_values_wf(statement_models(statements@)[i as int]));
        }
        let response = self.process_statement(&statements[i], now);
        let ghost mid = self.storage.as_map();
        let ghost o0 = outcome_model(response);
        let shutting_down = match &response {
            Ok(InterpreterResponse::ShuttingDown) => true,
            _ => false,
        };
        let failed = match &response {
            Err(_) => true,
            _ => false,
        };
        if shutting_down || failed || i + 1 == statements.len() {
            proof {
                assert(interp_step(old(self).storage.as_map(), rest.first(), now, mid, o0));
                if !(o0 == OutcomeModel::Resp(ResponseModel::ShuttingDown) || o0 is ErrOf
                    || rest.len() == 1) {
                    assert(rest.len() == statements@.len() - i);
                }
            }
            return response;
        }
        let r = self.run_from(statements, i + 1, now);
        proof {
            assert(statement_models(statements@).skip(i + 1) =~= rest.drop_first());
            assert(interp_step(old(self).storage.as_map(), rest.first(), now, mid, o0));
            assert(!(o0 == OutcomeModel::Resp(ResponseModel::ShuttingDown) || o0 is ErrOf
                || rest.len() == 1));
        }
        r
    }
}


impl Interpreter {
    /// Process a single statement at instant `now`.
    fn process_statement(&mut self, statement: &Statement, now: u64) -> (r: Result<
        InterpreterResponse,
        ServerError,
    >)
        requires
            old(self).storage.wf(),
            statement_values_wf(statement@),
        ensures
            final(self).storage.wf(),
            interp_step(
                old(self).storage.as_map(),
                statement@,
                now,
                final(self).storage.as_map(),
                outcome_model(r),
            ),
    {
        match statement {
            Statement::Shutdown => Ok(InterpreterResponse::ShuttingDown),
            Statement::Null => Ok(InterpreterResponse::Null),
            Statement::Get(key) => self.get(key, now),
            Statement::Exists(key) => self.key_exists(key, now),
            Statement::GetIfExists(key) => self.get_if_exists(key, now),
            Statement::GetLifetime(key) => self.get_lifetime(key, now),
            Statement::ExpireKeys => self.expire_keys(now),
            Statement::Delete(key) => self.delete(key, now),
            Statement::SetValue(key, value, lifetime) => self.set(key, value, *lifetime, now),
            Statement::SetIfNotExists(key, value, lifetime) => self.set_if_not_exists(
                key,
                value,
                *lifetime,
                now,
            ),
            Statement::Update(key, value, lifetime) => self.update(key, value, *lifetime, now),
            Statement::UpdateLifetime(key, lifetime) => self.update_expiration(
                key,
                *lifetime,
                now,
            ),
            Statement::VectorGet(key, index) => self.vector_get(key, *index, now),
            Statement::VectorLength(key) => self.vector_length(key, now),
            Statement::VectorAppend(key, value) => self.vector_append(key, value, now),
            Statement::VectorPop(key) => self.vector_pop(key, now),
            Statement::VectorSet(key, index, value) => self.vector_set(key, *index, value, now),
            Statement::MapGet(key, element_key) => self.map_get(key, element_key, now),
            Statement::MapExists(key, element_key) => self.map_exists(key, element_key, now),
            Statement::MapLength(key) => self.map_length(key, now),
            Statement::MapDelete(key, element_key) => self.map_delete(key, element_key, now),
            Statement::MapSet(key, element_key, value) => self.map_set(
                key,
                element_key,
                value,
                now,
            ),
            Statement::ValueType(key) => self.value_type(key, now),
        }
    }

    /// Get the value of an entry.
    fn get(&self, key: &String, now: u64) -> (r: Result<InterpreterResponse, ServerError>)
        requires
            self.storage.wf(),
        ensures
            interp_step(
                self.storage.as_map(),
                StatementModel::Get(key@),
                now,
                self.storage.as_map(),
                outcome_model(r),
            ),
    {
        match self.storage.get(key.as_str(), now) {
            Ok(result) => Ok(InterpreterResponse::Value(result.value)),
            Err(err) => Err(err),
        }
    }

    /// Get the kind of value an entry holds.
    fn value_type(&self, key: &String, now: u64) -> (r: Result<InterpreterResponse, ServerError>)
        requires
            self.storage.wf(),
        ensures
            interp_step(
                self.storage.as_map(),
                StatementModel::ValueType(key@),
                now,
                self.storage.as_map(),
                outcome_model(r),
            ),
    {
        let result = match self.storage.get(key.as_str(), now) {
            Ok(result) => result,
            Err(err) => {
                return Err(err);
            },
        };
        let kind = match &result.value {
            StorageValue::Null => ValueType::Null,
            StorageValue::Bool(_) => ValueType::Bool,
            StorageValue::Int(_) => ValueType::Int,
            StorageValue::Float(_) => ValueType::Float,
            StorageValue::String(_) => ValueType::String,
            StorageValue::Vector(v) => ValueType::Vector(v.collection_type),
            StorageValue::Mapping(m) => ValueType::Mapping(m.key_type, m.collection_type),
        };
        proof {
            match result.value {
                StorageValue::Vector(v) => {
                    lemma_vector_model(v);
                },
                StorageValue::Mapping(m) => {
                    lemma_mapping_model(m);
                },
                _ => {},
            }
        }
        Ok(InterpreterResponse::ValueType(kind))
    }

    /// See whether an entry exists and is live.
    fn key_exists(&self, key: &String, now: u64) -> (r: Result<InterpreterResponse, ServerError>)
        requires
            self.storage.wf(),
        ensures
            interp_step(
                self.storage.as_map(),
                StatementModel::Exists(key@),
                now,
                self.storage.as_map(),
                outcome_model(r),
            ),
    {
        match self.storage.contains_key(key.as_str(), now) {
            Ok(result) => Ok(InterpreterResponse::Bool(result)),
            Err(err) => Err(err),
        }
    }

    /// Get a value, or null when the entry is missing.
    fn get_if_exists(&self, key: &String, now: u64) -> (r: Result<
        InterpreterResponse,
        ServerError,
    >)
        requires
            self.storage.wf(),
        ensures
            interp_step(
                self.storage.as_map(),
                StatementModel::GetIfExists(key@),
                now,
                self.storage.as_map(),
                outcome_model(r),
            ),
    {
        match self.storage.get_if_exists(key.as_str(), now) {
            Ok(Some(element)) => Ok(InterpreterResponse::Value(element.value)),
            Ok(None) => Ok(InterpreterResponse::Value(StorageValue::Null)),
            Err(err) => Err(err),
        }
    }

    /// Get the remaining whole seconds before an entry expires.
    fn get_lifetime(&self, key: &String, now: u64) -> (r: Result<
        InterpreterResponse,
        ServerError,
    >)
        requires
            self.storage.wf(),
        ensures
            interp_step(
                self.storage.as_map(),
                StatementModel::GetLifetime(key@),
                now,
                self.storage.as_map(),
                outcome_model(r),
            ),
    {
        let result = match self.storage.get(key.as_str(), now) {
            Ok(result) => result,
            Err(err) => {
                return Err(err);
            },
        };
        let remaining = match &result.expiration {
            None => None,
            Some(timestamp) => {
                if *timestamp <= now {
                    // The read path filters expired entries, so an entry
                    // seen here always expires strictly later than `now`.
                    let mut msg = String::from_str("No entry found for key ");
                    msg.append(key.as_str());
                    return Err(ServerError::IndexError(msg));
                }
                Some((*timestamp - now) / 1000)
            },
        };
        Ok(InterpreterResponse::Expiration(remaining))
    }

    /// Run one step of the expiration policy.
    fn expire_keys(&mut self, now: u64) -> (r: Result<InterpreterResponse, ServerError>)
        requires
            old(self).storage.wf(),
        ensures
            final(self).storage.wf(),
            interp_step(
                old(self).storage.as_map(),
                StatementModel::ExpireKeys,
                now,
                final(self).storage.as_map(),
                outcome_model(r),
            ),
    {
        match self.storage.invalidate_expired_keys(now) {
            Ok(count) => Ok(InterpreterResponse::Size(count)),
            Err(err) => Err(err),
        }
    }

    /// Delete an entry.
    fn delete(&mut self, key: &String, now: u64) -> (r: Result<InterpreterResponse, ServerError>)
        requires
            old(self).storage.wf(),
        ensures
            final(self).storage.wf(),
            interp_step(
                old(self).storage.as_map(),
                StatementModel::Delete(key@),
                now,
                final(self).storage.as_map(),
                outcome_model(r),
            ),
    {
        match self.storage.delete(key.as_str(), now) {
            Ok(result) => Ok(InterpreterResponse::Bool(result)),
            Err(err) => Err(err),
        }
    }

    /// Set the value of an entry.
    fn set(&mut self, key: &String, value: &StorageValue, lifetime: Option<u64>, now: u64) -> (r:
        Result<InterpreterResponse, ServerError>)
        requires
            old(self).storage.wf(),
            value_wf(value@),
        ensures
            final(self).storage.wf(),
            interp_step(
                old(self).storage.as_map(),
                StatementModel::SetValue(key@, value@, lifetime),
                now,
                final(self).storage.as_map(),
                outcome_model(r),
            ),
    {
        let expiration = compute_expiration(lifetime, now);
        let element = StorageElement { key: key.clone(), expiration, value: value.clone() };
        match self.storage.set(key.as_str(), element) {
            Ok(()) => Ok(InterpreterResponse::Message(String::from_str("Ok"))),
            Err(err) => Err(err),
        }
    }

    /// Set the value of an entry only when its key is still free.
    fn set_if_not_exists(
        &mut self,
        key: &String,
        value: &StorageValue,
        lifetime: Option<u64>,
        now: u64,
    ) -> (r: Result<InterpreterResponse, ServerError>)
        requires
            old(self).storage.wf(),
            value_wf(value@),
        ensures
            final(self).storage.wf(),
            interp_step(
                old(self).storage.as_map(),
                StatementModel::SetIfNotExists(key@, value@, lifetime),
                now,
                final(self).storage.as_map(),
                outcome_model(r),
            ),
    {
        let expiration = compute_expiration(lifetime, now);
        let element = StorageElement { key: key.clone(), expiration, value: value.clone() };
        match self.storage.set_if_not_exists(key.as_str(), element) {
            Ok(result) => Ok(InterpreterResponse::Bool(result)),
            Err(err) => Err(err),
        }
    }

    /// Update an entry that already exists and is live.
    fn update(&mut self, key: &String, value: &StorageValue, lifetime: Option<u64>, now: u64) -> (r:
        Result<InterpreterResponse, ServerError>)
        requires
            old(self).storage.wf(),
            value_wf(value@),
        ensures
            final(self).storage.wf(),
            interp_step(
                old(self).storage.as_map(),
                StatementModel::Update(key@, value@, lifetime),
                now,
                final(self).storage.as_map(),
                outcome_model(r),
            ),
    {
        let expiration = compute_expiration(lifetime, now);
        let element = StorageElement { key: key.clone(), expiration, value: value.clone() };
        match self.storage.update(key.as_str(), element, now) {
            Ok(()) => Ok(InterpreterResponse::Message(String::from_str("Ok"))),
            Err(err) => Err(err),
        }
    }

    /// Update the expiration of an entry that exists and is live.
    fn update_expiration(&mut self, key: &String, lifetime: Option<u64>, now: u64) -> (r: Result<
        InterpreterResponse,
        ServerError,
    >)
        requires
            old(self).storage.wf(),
        ensures
            final(self).storage.wf(),
            interp_step(
                old(self).storage.as_map(),
                StatementModel::UpdateLifetime(key@, lifetime),
                now,
                final(self).storage.as_map(),
                outcome_model(r),
            ),
    {
        let expiration = compute_expiration(lifetime, now);
        match self.storage.update_expiration(key.as_str(), expiration, now) {
            Ok(()) => Ok(InterpreterResponse::Message(String::from_str("Ok"))),
            Err(err) => Err(err),
        }
    }
}


impl Interpreter {
    /// Get one element of a vector entry.
    fn vector_get(&self, key: &String, index: usize, now: u64) -> (r: Result<
        InterpreterResponse,
        ServerError,
    >)
        requires
            self.storage.wf(),
        ensures
            interp_step(
                self.storage.as_map(),
                StatementModel::VectorGet(key@, index as int),
                now,
                self.storage.as_map(),
                outcome_model(r),
            ),
    {
        let element = match self.storage.get(key.as_str(), now) {
            Ok(element) => element,
            Err(err) => {
                return Err(err);
            },
        };
        match element.value {
            StorageValue::Vector(vector) => {
                proof {
                    lemma_vector_model(vector);
                }
                match vector.get(index) {
                    Ok(value) => Ok(InterpreterResponse::Value(value.clone())),
                    Err(err) => Err(err),
                }
            },
            _ => {
                let mut msg = String::from_str("Element with key '");
                msg.append(key.as_str());
                msg.append("' not a vector.");
                Err(ServerError::TypeError(msg))
            },
        }
    }

    /// Get the length of a vector entry.
    fn vector_length(&self, key: &String, now: u64) -> (r: Result<
        InterpreterResponse,
        ServerError,
    >)
        requires
            self.storage.wf(),
        ensures
            interp_step(
                self.storage.as_map(),
                StatementModel::VectorLength(key@),
                now,
                self.storage.as_map(),
                outcome_model(r),
            ),
    {
        let element = match self.storage.get(key.as_str(), now) {
            Ok(element) => element,
            Err(err) => {
                return Err(err);
            },
        };
        match element.value {
            StorageValue::Vector(vector) => {
                proof {
                    lemma_vector_model(vector);
                }
                Ok(InterpreterResponse::Size(vector.len()))
            },
            _ => {
                let mut msg = String::from_str("Element with key '");
                msg.append(key.as_str());
                msg.append("' not a vector.");
                Err(ServerError::TypeError(msg))
            },
        }
    }

    /// Append a value to a vector entry.
    fn vector_append(&mut self, key: &String, value: &StorageValue, now: u64) -> (r: Result<
        InterpreterResponse,
        ServerError,
    >)
        requires
            old(self).storage.wf(),
        ensures
            final(self).storage.wf(),
            interp_step(
                old(self).storage.as_map(),
                StatementModel::VectorAppend(key@, value@),
                now,
                final(self).storage.as_map(),
                outcome_model(r),
            ),
    {
        let element = match self.storage.get(key.as_str(), now) {
            Ok(element) => element,
            Err(err) => {
                return Err(err);
            },
        };
        let StorageElement { key: element_key, expiration, value: stored } = element;
        match stored {
            StorageValue::Vector(vector) => {
                proof {
                    lemma_vector_model(vector);
                }
                let mut vector = vector;
                match vector.push(value.clone()) {
                    Ok(()) => (),
                    Err(err) => {
                        return Err(err);
                    },
                };
                proof {
                    lemma_vector_model(vector);
                }
                let new_element = StorageElement {
                    key: element_key,
                    expiration,
                    value: StorageValue::Vector(vector),
                };
                match self.storage.set(key.as_str(), new_element) {
                    Ok(()) => Ok(InterpreterResponse::Message(String::from_str("Ok"))),
                    Err(err) => Err(err),
                }
            },
            _ => {
                let mut msg = String::from_str("Element with key '");
                msg.append(key.as_str());
                msg.append("' not a vector.");
                Err(ServerError::TypeError(msg))
            },
        }
    }

    /// Pop the last value off a vector entry.
    fn vector_pop(&mut self, key: &String, now: u64) -> (r: Result<
        InterpreterResponse,
        ServerError,
    >)
        requires
            old(self).storage.wf(),
        ensures
            final(self).storage.wf(),
            interp_step(
                old(self).storage.as_map(),
                StatementModel::VectorPop(key@),
                now,
                final(self).storage.as_map(),
                outcome_model(r),
            ),
    {
        let ghost pre = self.storage.as_map();
        let element = match self.storage.get(key.as_str(), now) {
            Ok(element) => element,
            Err(err) => {
                return Err(err);
            },
        };
        let StorageElement { key: element_key, expiration, value: stored } = element;
        match stored {
            StorageValue::Vector(vector) => {
                proof {
                    lemma_vector_model(vector);
                }
                let mut vector = vector;
                let popped = vector.pop();
                match popped {
                    None => {
                        proof {
                            assert(pre.insert(
                                key@,
                                with_value(
                                    pre,
                                    key@,
                                    ValueModel::Vector(vector.collection_type, vector@),
                                ),
                            ) =~= pre);
                        }
                        Ok(InterpreterResponse::Value(StorageValue::Null))
                    },
                    Some(value) => {
                        proof {
                            lemma_vector_model(vector);
                        }
                        let new_element = StorageElement {
                            key: element_key,
                            expiration,
                            value: StorageValue::Vector(vector),
                        };
                        match self.storage.set(key.as_str(), new_element) {
                            Ok(()) => Ok(InterpreterResponse::Value(value)),
                            Err(err) => Err(err),
                        }
                    },
                }
            },
            _ => {
                let mut msg = String::from_str("Element with key '");
                msg.append(key.as_str());
                msg.append("' not a vector.");
                Err(ServerError::TypeError(msg))
            },
        }
    }

    /// Set one element of a vector entry.
    fn vector_set(&mut self, key: &String, index: usize, value: &StorageValue, now: u64) -> (r:
        Result<InterpreterResponse, ServerError>)
        requires
            old(self).storage.wf(),
        ensures
            final(self).storage.wf(),
            interp_step(
                old(self).storage.as_map(),
                StatementModel::VectorSet(key@, index as int, value@),
                now,
                final(self).storage.as_map(),
                outcome_model(r),
            ),
    {
        let element = match self.storage.get(key.as_str(), now) {
            Ok(element) => element,
            Err(err) => {
                return Err(err);
            },
        };
        let StorageElement { key: element_key, expiration, value: stored } = element;
        match stored {
            StorageValue::Vector(vector) => {
                proof {
                    lemma_vector_model(vector);
                }
                let mut vector = vector;
                match vector.set(index, value.clone()) {
                    Ok(()) => (),
                    Err(err) => {
                        return Err(err);
                    },
                };
                proof {
                    lemma_vector_model(vector);
                }
                let new_element = StorageElement {
                    key: element_key,
                    expiration,
                    value: StorageValue::Vector(vector),
                };
                match self.storage.set(key.as_str(), new_element) {
                    Ok(()) => Ok(InterpreterResponse::Message(String::from_str("Ok"))),
                    Err(err) => Err(err),
                }
            },
            _ => {
                let mut msg = String::from_str("Element with key '");
                msg.append(key.as_str());
                msg.append("' not a vector.");
                Err(ServerError::TypeError(msg))
            },
        }
    }

    /// Get one element of a map entry.
    fn map_get(&self, key: &String, map_key: &StorageValue, now: u64) -> (r: Result<
        InterpreterResponse,
        ServerError,
    >)
        requires
            self.storage.wf(),
        ensures
            interp_step(
                self.storage.as_map(),
                StatementModel::MapGet(key@, map_key@),
                now,
                self.storage.as_map(),
                outcome_model(r),
            ),
    {
        let element = match self.storage.get(key.as_str(), now) {
            Ok(element) => element,
            Err(err) => {
                return Err(err);
            },
        };
        match element.value {
            StorageValue::Mapping(map) => {
                proof {
                    lemma_mapping_model(map);
                }
                match map.get(map_key) {
                    Ok(value) => Ok(InterpreterResponse::Value(value.clone())),
                    Err(err) => Err(err),
                }
            },
            _ => {
                let mut msg = String::from_str("Element with key '");
                msg.append(key.as_str());
                msg.append("' not a map.");
                Err(ServerError::TypeError(msg))
            },
        }
    }

    /// Get the number of elements of a map entry.
    fn map_length(&self, key: &String, now: u64) -> (r: Result<InterpreterResponse, ServerError>)
        requires
            self.storage.wf(),
        ensures
            interp_step(
                self.storage.as_map(),
                StatementModel::MapLength(key@),
                now,
                self.storage.as_map(),
                outcome_model(r),
            ),
    {
        let element = match self.storage.get(key.as_str(), now) {
            Ok(element) => element,
            Err(err) => {
                return Err(err);
            },
        };
        match element.value {
            StorageValue::Mapping(map) => {
                proof {
                    lemma_mapping_model(map);
                }
                Ok(InterpreterResponse::Size(map.len()))
            },
            _ => {
                let mut msg = String::from_str("Element with key '");
                msg.append(key.as_str());
                msg.append("' not a map.");
                Err(ServerError::TypeError(msg))
            },
        }
    }

    /// See whether a key exists in a map entry.
    fn map_exists(&self, key: &String, map_key: &StorageValue, now: u64) -> (r: Result<
        InterpreterResponse,
        ServerError,
    >)
        requires
            self.storage.wf(),
        ensures
            interp_step(
                self.storage.as_map(),
                StatementModel::MapExists(key@, map_key@),
                now,
                self.storage.as_map(),
                outcome_model(r),
            ),
    {
        let element = match self.storage.get(key.as_str(), now) {
            Ok(element) => element,
            Err(err) => {
                return Err(err);
            },
        };
        match element.value {
            StorageValue::Mapping(map) => {
                proof {
                    lemma_mapping_model(map);
                }
                match map.contains_key(map_key) {
                    Ok(result) => Ok(InterpreterResponse::Bool(result)),
                    Err(err) => Err(err),
                }
            },
            _ => {
                let mut msg = String::from_str("Element with key '");
                msg.append(key.as_str());
                msg.append("' not a map.");
                Err(ServerError::TypeError(msg))
            },
        }
    }

    /// Set one element of a map entry.
    fn map_set(&mut self, key: &String, map_key: &StorageValue, value: &StorageValue, now: u64) -> (r:
        Result<InterpreterResponse, ServerError>)
        requires
            old(self).storage.wf(),
        ensures
            final(self).storage.wf(),
            interp_step(
                old(self).storage.as_map(),
                StatementModel::MapSet(key@, map_key@, value@),
                now,
                final(self).storage.as_map(),
                outcome_model(r),
            ),
    {
        let element = match self.storage.get(key.as_str(), now) {
            Ok(element) => element,
            Err(err) => {
                return Err(err);
            },
        };
        let StorageElement { key: element_key, expiration, value: stored } = element;
        match stored {
            StorageValue::Mapping(map) => {
                proof {
                    lemma_mapping_model(map);
                }
                let mut map = map;
                match map.set(map_key.clone(), value.clone()) {
                    Ok(()) => (),
                    Err(err) => {
                        return Err(err);
                    },
                };
                proof {
                    lemma_mapping_model(map);
                }
                let new_element = StorageElement {
                    key: element_key,
                    expiration,
                    value: StorageValue::Mapping(map),
                };
                match self.storage.set(key.as_str(), new_element) {
                    Ok(()) => Ok(InterpreterResponse::Message(String::from_str("Ok"))),
                    Err(err) => Err(err),
                }
            },
            _ => {
                let mut msg = String::from_str("Element with key '");
                msg.append(key.as_str());
                msg.append("' not a map.");
                Err(ServerError::TypeError(msg))
            },
        }
    }

    /// Delete one element of a map entry.
    fn map_delete(&mut self, key: &String, map_key: &StorageValue, now: u64) -> (r: Result<
        InterpreterResponse,
        ServerError,
    >)
        requires
            old(self).storage.wf(),
        ensures
            final(self).storage.wf(),
            interp_step(
                old(self).storage.as_map(),
                StatementModel::MapDelete(key@, map_key@),
                now,
                final(self).storage.as_map(),
                outcome_model(r),
            ),
    {
        let element = match self.storage.get(key.as_str(), now) {
            Ok(element) => element,
            Err(err) => {
                return Err(err);
            },
        };
        let StorageElement { key: element_key, expiration, value: stored } = element;
        match stored {
            StorageValue::Mapping(map) => {
                proof {
                    lemma_mapping_model(map);
                }
                let mut map = map;
                let removed = match map.delete(map_key) {
                    Ok(removed) => removed,
                    Err(err) => {
                        return Err(err);
                    },
                };
                if removed {
                    proof {
                        lemma_mapping_model(map);
                    }
                    let new_element = StorageElement {
                        key: element_key,
                        expiration,
                        value: StorageValue::Mapping(map),
                    };
                    match self.storage.set(key.as_str(), new_element) {
                        Ok(()) => Ok(InterpreterResponse::Bool(true)),
                        Err(err) => Err(err),
                    }
                } else {
                    Ok(InterpreterResponse::Bool(false))
                }
            },
            _ => {
                let mut msg = String::from_str("Element with key '");
                msg.append(key.as_str());
                msg.append("' not a map.");
                Err(ServerError::TypeError(msg))
            },
        }
    }
}


} // verus!
