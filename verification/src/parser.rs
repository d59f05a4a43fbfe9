use vstd::prelude::*;

use crate::error::ServerError;
use crate::statements::{Statement, StatementModel};
use crate::tokenizer::Tokenizer;
use crate::tokens::{AnnotatedToken, AnnotatedTokenModel, Token, TokenModel};
use crate::types::{
    map_has_key,
    map_key_index,
    key_matches,
    scalar_matches,
    CollectionType,
    KeyType,
    StorageMap,
    StorageValue,
    StorageVector,
    ValueModel,
};

verus! {

/// The outcome of parsing one statement: the statement's model and the
/// position after it, or a failure.
pub enum StmtStep {
    /// A statement was parsed; it ends here.
    Stmt(StatementModel, int),
    /// The tokens cannot be parsed at this position.
    Fail,
}

/// The first position at or after `i` whose token is not a semicolon.
pub open spec fn spec_strip_semis(ts: Seq<AnnotatedTokenModel>, i: int) -> int
    decreases ts.len() - i,
{
    if !(0 <= i < ts.len()) {
        i
    } else if ts[i].token is Semicolon {
        spec_strip_semis(ts, i + 1)
    } else {
        i
    }
}

/// Take an identifier at `k`: its text and the next position.
pub open spec fn spec_take_ident(ts: Seq<AnnotatedTokenModel>, k: int) -> Option<(Seq<char>, int)> {
    if 0 <= k < ts.len() {
        match ts[k].token {
            TokenModel::Identifier(name) => Some((name, k + 1)),
            _ => None,
        }
    } else {
        None
    }
}

/// Take a map key at `k`: an integer or string literal.
pub open spec fn spec_take_key(ts: Seq<AnnotatedTokenModel>, k: int) -> Option<(ValueModel, int)> {
    if 0 <= k < ts.len() {
        match ts[k].token {
            TokenModel::Integer(v) => Some((ValueModel::Int(v), k + 1)),
            TokenModel::StringValue(s) => Some((ValueModel::Str(s), k + 1)),
            _ => None,
        }
    } else {
        None
    }
}

/// Take a vector index at `k`: a non-negative integer that fits a usize.
pub open spec fn spec_take_index(ts: Seq<AnnotatedTokenModel>, k: int) -> Option<(int, int)> {
    if 0 <= k < ts.len() {
        match ts[k].token {
            TokenModel::Integer(v) => if 0 <= v <= usize::MAX {
                Some((v as int, k + 1))
            } else {
                None
            },
            _ => None,
        }
    } else {
        None
    }
}

/// Take a scalar literal at `k`.
pub open spec fn spec_take_scalar(ts: Seq<AnnotatedTokenModel>, k: int) -> Option<
    (ValueModel, int),
> {
    if 0 <= k < ts.len() {
        match ts[k].token {
            TokenModel::Bool(b) => Some((ValueModel::Bool(b), k + 1)),
            TokenModel::Integer(v) => Some((ValueModel::Int(v), k + 1)),
            TokenModel::Float(s) => Some((ValueModel::Float(s), k + 1)),
            TokenModel::StringValue(s) => Some((ValueModel::Str(s), k + 1)),
            _ => None,
        }
    } else {
        None
    }
}

/// Whether position `k` ends a statement: the end of the tokens or a
/// semicolon.
pub open spec fn spec_at_stmt_end(ts: Seq<AnnotatedTokenModel>, k: int) -> bool {
    k >= ts.len() || !(0 <= k) || ts[k].token is Semicolon
}

/// Take an optional lifetime at `k`: nothing at a statement end, else a
/// non-negative integer literal of seconds.
pub open spec fn spec_take_lifetime(ts: Seq<AnnotatedTokenModel>, k: int) -> Option<
    (Option<u64>, int),
> {
    if spec_at_stmt_end(ts, k) {
        Some((None, k))
    } else {
        match ts[k].token {
            TokenModel::Integer(v) => if v >= 0 {
                Some((Some(v as u64), k + 1))
            } else {
                None
            },
            _ => None,
        }
    }
}

/// The scalar element type a type word denotes.
pub open spec fn spec_collection_type(t: TokenModel) -> Option<CollectionType> {
    match t {
        TokenModel::BoolType => Some(CollectionType::Bool),
        TokenModel::FloatType => Some(CollectionType::Float),
        TokenModel::IntType => Some(CollectionType::Int),
        TokenModel::StringType => Some(CollectionType::String),
        _ => None,
    }
}

/// The map key type a type word denotes.
pub open spec fn spec_key_type(t: TokenModel) -> Option<KeyType> {
    match t {
        TokenModel::IntType => Some(KeyType::Int),
        TokenModel::StringType => Some(KeyType::String),
        _ => None,
    }
}

/// Whether a token is one of the scalar type words.
pub open spec fn spec_is_type_word(t: TokenModel) -> bool {
    t is BoolType || t is StringType || t is FloatType || t is IntType
}

/// Parse vector literal elements from `k` on: scalars of the element type,
/// separated by commas, up to a closing bracket.
pub open spec fn spec_vector_items(
    ts: Seq<AnnotatedTokenModel>,
    k: int,
    ct: CollectionType,
    acc: Seq<ValueModel>,
) -> Option<(Seq<ValueModel>, int)>
    decreases ts.len() - k,
{
    if !(0 <= k < ts.len()) {
        None
    } else {
        match spec_take_scalar(ts, k) {
            None => None,
            Some((v, k1)) => {
                if !scalar_matches(v, ct) {
                    None
                } else if k1 >= ts.len() {
                    None
                } else if ts[k1].token is RightBracket {
                    Some((acc.push(v), k1 + 1))
                } else if ts[k1].token is Comma {
                    spec_vector_items(ts, k1 + 1, ct, acc.push(v))
                } else {
                    None
                }
            },
        }
    }
}

/// Parse a vector literal whose `[` stands at `k`.
pub open spec fn spec_take_vector(ts: Seq<AnnotatedTokenModel>, k: int, ct: CollectionType) -> Option<
    (Seq<ValueModel>, int),
> {
    if !(0 <= k + 1 < ts.len() + 1) || k + 1 >= ts.len() {
        None
    } else if ts[k + 1].token is RightBracket {
        Some((Seq::empty(), k + 2))
    } else {
        spec_vector_items(ts, k + 1, ct, Seq::empty())
    }
}

/// Insert or replace one entry among map literal entries, as the map type
/// does it.
pub open spec fn spec_assoc_put(
    acc: Seq<(ValueModel, ValueModel)>,
    k: ValueModel,
    v: ValueModel,
) -> Seq<(ValueModel, ValueModel)> {
    if map_has_key(acc, k) {
        acc.update(map_key_index(acc, k), (k, v))
    } else {
        acc.push((k, v))
    }
}

/// Parse map literal entries from `k` on: `key : value` pairs of the
/// declared types, separated by commas, up to a closing brace.
pub open spec fn spec_map_entries(
    ts: Seq<AnnotatedTokenModel>,
    k: int,
    kt: KeyType,
    ct: CollectionType,
    acc: Seq<(ValueModel, ValueModel)>,
) -> Option<(Seq<(ValueModel, ValueModel)>, int)>
    decreases ts.len() - k,
{
    if !(0 <= k < ts.len()) {
        None
    } else {
        match spec_take_scalar(ts, k) {
            None => None,
            Some((kv, k1)) => {
                if k1 >= ts.len() {
                    None
                } else if !(ts[k1].token is Colon) {
                    None
                } else {
                    match spec_take_scalar(ts, k1 + 1) {
                        None => None,
                        Some((vv, k2)) => {
                            if !key_matches(kv, kt) || !scalar_matches(vv, ct) {
                                None
                            } else if k2 >= ts.len() {
                                None
                            } else if ts[k2].token is RightCurlyBracket {
                                Some((spec_assoc_put(acc, kv, vv), k2 + 1))
                            } else if ts[k2].token is Comma {
                                spec_map_entries(ts, k2 + 1, kt, ct, spec_assoc_put(acc, kv, vv))
                            } else {
                                None
                            }
                        },
                    }
                }
            },
        }
    }
}

/// Parse a map literal whose `{` stands at `k`.
pub open spec fn spec_take_map(
    ts: Seq<AnnotatedTokenModel>,
    k: int,
    kt: KeyType,
    ct: CollectionType,
) -> Option<(Seq<(ValueModel, ValueModel)>, int)> {
    if k + 1 >= ts.len() || !(0 <= k) {
        None
    } else if ts[k + 1].token is RightCurlyBracket {
        Some((Seq::empty(), k + 2))
    } else {
        spec_map_entries(ts, k + 1, kt, ct, Seq::empty())
    }
}

/// Parse a collection value whose type word stands at `k`: an empty vector
/// at a statement end, a map when a second type word follows, else a vector
/// literal.
pub open spec fn spec_take_collection(ts: Seq<AnnotatedTokenModel>, k: int) -> Option<
    (ValueModel, int),
> {
    if !(0 <= k < ts.len()) {
        None
    } else {
        let tt = ts[k].token;
        if spec_at_stmt_end(ts, k + 1) {
            match spec_collection_type(tt) {
                None => None,
                Some(ct) => Some((ValueModel::Vector(ct, Seq::empty()), k + 1)),
            }
        } else if spec_is_type_word(ts[k + 1].token) {
            match (spec_key_type(tt), spec_collection_type(ts[k + 1].token)) {
                (Some(kt), Some(ct)) => {
                    if spec_at_stmt_end(ts, k + 2) || !(ts[k + 2].token is LeftCurlyBracket) {
                        Some((ValueModel::Mapping(kt, ct, Seq::empty()), k + 2))
                    } else {
                        match spec_take_map(ts, k + 2, kt, ct) {
                            None => None,
                            Some((entries, e)) => Some((ValueModel::Mapping(kt, ct, entries), e)),
                        }
                    }
                },
                _ => None,
            }
        } else if ts[k + 1].token is LeftBracket {
            match spec_collection_type(tt) {
                None => None,
                Some(ct) => match spec_take_vector(ts, k + 1, ct) {
                    None => None,
                    Some((items, e)) => Some((ValueModel::Vector(ct, items), e)),
                },
            }
        } else {
            None
        }
    }
}

/// Parse the value of a write statement at `k`: null at a statement end, a
/// collection after a type word, else a scalar literal.
pub open spec fn spec_take_value(ts: Seq<AnnotatedTokenModel>, k: int) -> Option<
    (ValueModel, int),
> {
    if spec_at_stmt_end(ts, k) {
        Some((ValueModel::Null, k))
    } else if spec_is_type_word(ts[k].token) {
        spec_take_collection(ts, k)
    } else {
        spec_take_scalar(ts, k)
    }
}

/// Parse one statement whose keyword stands at `j`.
pub open spec fn spec_statement(ts: Seq<AnnotatedTokenModel>, j: int) -> StmtStep {
    if !(0 <= j < ts.len()) {
        StmtStep::Fail
    } else {
        match ts[j].token {
            TokenModel::Delete => match spec_take_ident(ts, j + 1) {
                Some((name, e)) => StmtStep::Stmt(StatementModel::Delete(name), e),
                None => StmtStep::Fail,
            },
            TokenModel::Exists => match spec_take_ident(ts, j + 1) {
                Some((name, e)) => StmtStep::Stmt(StatementModel::Exists(name), e),
                None => StmtStep::Fail,
            },
            TokenModel::Get => match spec_take_ident(ts, j + 1) {
                Some((name, e)) => StmtStep::Stmt(StatementModel::Get(name), e),
                None => StmtStep::Fail,
            },
            TokenModel::GetOrNone => match spec_take_ident(ts, j + 1) {
                Some((name, e)) => StmtStep::Stmt(StatementModel::GetIfExists(name), e),
                None => StmtStep::Fail,
            },
            TokenModel::MapDelete => match spec_take_ident(ts, j + 1) {
                Some((name, e1)) => match spec_take_key(ts, e1) {
                    Some((mk, e)) => StmtStep::Stmt(StatementModel::MapDelete(name, mk), e),
                    None => StmtStep::Fail,
                },
                None => StmtStep::Fail,
            },
            TokenModel::MapExists => match spec_take_ident(ts, j + 1) {
                Some((name, e1)) => match spec_take_key(ts, e1) {
                    Some((mk, e)) => StmtStep::Stmt(StatementModel::MapExists(name, mk), e),
                    None => StmtStep::Fail,
                },
                None => StmtStep::Fail,
            },
            TokenModel::MapGet => match spec_take_ident(ts, j + 1) {
                Some((name, e1)) => match spec_take_key(ts, e1) {
                    Some((mk, e)) => StmtStep::Stmt(StatementModel::MapGet(name, mk), e),
                    None => StmtStep::Fail,
                },
                None => StmtStep::Fail,
            },
            TokenModel::MapLength => match spec_take_ident(ts, j + 1) {
                Some((name, e)) => StmtStep::Stmt(StatementModel::MapLength(name), e),
                None => StmtStep::Fail,
            },
            TokenModel::MapSet => match spec_take_ident(ts, j + 1) {
                Some((name, e1)) => match spec_take_key(ts, e1) {
                    Some((mk, e2)) => match spec_take_scalar(ts, e2) {
                        Some((v, e)) => StmtStep::Stmt(StatementModel::MapSet(name, mk, v), e),
                        None => StmtStep::Fail,
                    },
                    None => StmtStep::Fail,
                },
                None => StmtStep::Fail,
            },
            TokenModel::SetValue => match spec_take_ident(ts, j + 1) {
                Some((name, e1)) => match spec_take_value(ts, e1) {
                    Some((v, e2)) => match spec_take_lifetime(ts, e2) {
                        Some((lt, e)) => StmtStep::Stmt(StatementModel::SetValue(name, v, lt), e),
                        None => StmtStep::Fail,
                    },
                    None => StmtStep::Fail,
                },
                None => StmtStep::Fail,
            },
            TokenModel::SetIfNotExists => match spec_take_ident(ts, j + 1) {
                Some((name, e1)) => match spec_take_value(ts, e1) {
                    Some((v, e2)) => match spec_take_lifetime(ts, e2) {
                        Some((lt, e)) => StmtStep::Stmt(
                            StatementModel::SetIfNotExists(name, v, lt),
                            e,
                        ),
                        None => StmtStep::Fail,
                    },
                    None => StmtStep::Fail,
                },
                None => StmtStep::Fail,
            },
            TokenModel::Update => match spec_take_ident(ts, j + 1) {
                Some((name, e1)) => match spec_take_value(ts, e1) {
                    Some((v, e2)) => match spec_take_lifetime(ts, e2) {
                        Some((lt, e)) => StmtStep::Stmt(StatementModel::Update(name, v, lt), e),
                        None => StmtStep::Fail,
                    },
                    None => StmtStep::Fail,
                },
                None => StmtStep::Fail,
            },
            TokenModel::Lifetime => match spec_take_ident(ts, j + 1) {
                Some((name, e1)) => match spec_take_lifetime(ts, e1) {
                    Some((lt, e)) => StmtStep::Stmt(StatementModel::UpdateLifetime(name, lt), e),
                    None => StmtStep::Fail,
                },
                None => StmtStep::Fail,
            },
            TokenModel::Shutdown => StmtStep::Stmt(StatementModel::Shutdown, j + 1),
            TokenModel::ValueType => match spec_take_ident(ts, j + 1) {
                Some((name, e)) => StmtStep::Stmt(StatementModel::ValueType(name), e),
                None => StmtStep::Fail,
            },
            TokenModel::VectorAppend => match spec_take_ident(ts, j + 1) {
                Some((name, e1)) => match spec_take_scalar(ts, e1) {
                    Some((v, e)) => StmtStep::Stmt(StatementModel::VectorAppend(name, v), e),
                    None => StmtStep::Fail,
                },
                None => StmtStep::Fail,
            },
            TokenModel::VectorGet => match spec_take_ident(ts, j + 1) {
                Some((name, e1)) => match spec_take_index(ts, e1) {
                    Some((ix, e)) => StmtStep::Stmt(StatementModel::VectorGet(name, ix), e),
                    None => StmtStep::Fail,
                },
                None => StmtStep::Fail,
            },
            TokenModel::VectorLength => match spec_take_ident(ts, j + 1) {
                Some((name, e)) => StmtStep::Stmt(StatementModel::VectorLength(name), e),
                None => StmtStep::Fail,
            },
            TokenModel::VectorPop => match spec_take_ident(ts, j + 1) {
                Some((name, e)) => StmtStep::Stmt(StatementModel::VectorPop(name), e),
                None => StmtStep::Fail,
            },
            TokenModel::VectorSet => match spec_take_ident(ts, j + 1) {
                Some((name, e1)) => match spec_take_index(ts, e1) {
                    Some((ix, e2)) => match spec_take_scalar(ts, e2) {
                        Some((v, e)) => StmtStep::Stmt(StatementModel::VectorSet(name, ix, v), e),
                        None => StmtStep::Fail,
                    },
                    None => StmtStep::Fail,
                },
                None => StmtStep::Fail,
            },
            _ => StmtStep::Fail,
        }
    }
}

/// Parse all statements from `i` on: strip semicolons, parse one statement,
/// and continue after it. `None` is a failed parse.
pub open spec fn spec_parse_from(ts: Seq<AnnotatedTokenModel>, i: int) -> Option<
    Seq<StatementModel>,
>
    decreases ts.len() - i,
{
    if !(0 <= i <= ts.len()) {
        None
    } else {
        let j = spec_strip_semis(ts, i);
        if !(i <= j <= ts.len()) {
            None
        } else if j == ts.len() {
            Some(Seq::empty())
        } else {
            match spec_statement(ts, j) {
                StmtStep::Fail => None,
                StmtStep::Stmt(st, e) => {
                    if !(j < e <= ts.len()) {
                        None
                    } else {
                        match spec_parse_from(ts, e) {
                            None => None,
                            Some(rest) => Some(seq![st] + rest),
                        }
                    }
                },
            }
        }
    }
}

/// The models of a sequence of statements.
pub open spec fn statement_models(s: Seq<Statement>) -> Seq<StatementModel> {
    Seq::new(s.len(), |i: int| s[i]@)
}


/// The recursive-descent parser from annotated tokens to statements.
pub struct Parser {
    /// The tokens to parse.
    pub tokens: Vec<AnnotatedToken>,
    /// The position parsing has reached.
    pub current_token: usize,
    /// Whether a parse error was found; parsing stops there.
    pub error_encountered: bool,
}

impl Parser {
    /// The models of the tokens being parsed.
    pub open spec fn models(&self) -> Seq<AnnotatedTokenModel> {
        crate::tokenizer::atoken_models(self.tokens@)
    }

    /// Construct a new parser over scanned tokens.
    pub fn new(tokens: Vec<AnnotatedToken>) -> (r: Parser)
        ensures
            r.tokens@ == tokens@,
            r.current_token == 0,
            !r.error_encountered,
    {
        Parser { tokens, current_token: 0, error_encountered: false }
    }

    /// Construct a new parser by scanning a tokenizer's whole command.
    pub fn from(tokenizer: Tokenizer) -> (r: Result<Parser, ServerError>)
        requires
            tokenizer.current_index <= tokenizer.command@.len(),
        ensures
            match r {
                Ok(p) => crate::tokenizer::spec_tokenize_from(
                    tokenizer.command@,
                    tokenizer.current_index as int,
                ) == Some(p.models()) && p.current_token == 0 && !p.error_encountered,
                Err(e) => crate::tokenizer::spec_tokenize_from(
                    tokenizer.command@,
                    tokenizer.current_index as int,
                ) is None && e is TokenizationError,
            },
    {
        let mut tokenizer = tokenizer;
        match tokenizer.tokenize() {
            Ok(tokens) => Ok(Parser::new(tokens)),
            Err(err) => Err(err),
        }
    }

    /// Check whether parsing has reached the end of the tokens.
    fn is_at_end(&self) -> (r: bool)
        ensures
            r == (self.current_token >= self.models().len()),
            self.models().len() <= usize::MAX,
    {
        self.current_token >= self.tokens.len()
    }

    /// Whether the current position ends a statement.
    fn is_at_statement_end(&self) -> (r: bool)
        ensures
            r == spec_at_stmt_end(self.models(), self.current_token as int),
            self.models().len() <= usize::MAX,
    {
        if self.is_at_end() {
            true
        } else {
            proof {
                assert(self.models()[self.current_token as int].token
                    == self.tokens@[self.current_token as int].token@);
            }
            match &self.tokens[self.current_token].token {
                Token::Semicolon => true,
                _ => false,
            }
        }
    }

    /// Remove any run of semicolons at the current position.
    fn strip_semicolons(&mut self)
        ensures
            final(self).tokens@ == old(self).tokens@,
            final(self).error_encountered == old(self).error_encountered,
            old(self).current_token <= final(self).current_token <= final(self).models().len()
                || final(self).current_token == old(self).current_token,
            final(self).current_token as int == spec_strip_semis(
                old(self).models(),
                old(self).current_token as int,
            ),
    {
        let ghost ms = self.models();
        loop
            invariant_except_break
                self.tokens@ == old(self).tokens@,
                self.error_encountered == old(self).error_encountered,
                ms == old(self).models(),
                old(self).current_token <= self.current_token,
                self.current_token <= ms.len() || self.current_token == old(self).current_token,
                spec_strip_semis(ms, old(self).current_token as int) == spec_strip_semis(
                    ms,
                    self.current_token as int,
                ),
            ensures
                self.tokens@ == old(self).tokens@,
                self.error_encountered == old(self).error_encountered,
                old(self).current_token <= self.current_token <= ms.len() || self.current_token
                    == old(self).current_token,
                self.current_token as int == spec_strip_semis(
                    ms,
                    old(self).current_token as int,
                ),
            decreases ms.len() - self.current_token,
        {
            if self.is_at_end() {
                break;
            }
            proof {
                assert(ms[self.current_token as int].token
                    == self.tokens@[self.current_token as int].token@);
            }
            match &self.tokens[self.current_token].token {
                Token::Semicolon => {
                    self.current_token = self.current_token + 1;
                },
                _ => {
                    break;
                },
            }
        }
    }

    /// Take the identifier at the current position as a key name.
    fn get_name_from_next_token(&mut self) -> (r: Result<String, ServerError>)
        ensures
            final(self).tokens@ == old(self).tokens@,
            final(self).error_encountered == old(self).error_encountered,
            match r {
                Ok(name) => spec_take_ident(old(self).models(), old(self).current_token as int)
                    == Some((name@, final(self).current_token as int)) && old(self).current_token
                    < final(self).current_token <= final(self).models().len(),
                Err(e) => spec_take_ident(old(self).models(), old(self).current_token as int)
                    is None && e is ParseError,
            },
    {
        if self.is_at_end() {
            return Err(
                ServerError::ParseError(
                    String::from_str("Expected an identifier instead of the end of the query."),
                ),
            );
        }
        proof {
            assert(self.models()[self.current_token as int].token
                == self.tokens@[self.current_token as int].token@);
        }
        let token = &self.tokens[self.current_token];
        match &token.token {
            Token::Identifier(identifier) => {
                let name = identifier.clone();
                self.current_token = self.current_token + 1;
                Ok(name)
            },
            _ => {
                let mut msg = String::from_str("Expected an identifier. Got ");
                msg.append(token.lexeme.as_str());
                msg.append(" at ");
                msg.append(crate::util::fmt_u64(token.position as u64).as_str());
                Err(ServerError::ParseError(msg))
            },
        }
    }

    /// Take the literal at the current position as a map key.
    fn get_key_from_next_token(&mut self) -> (r: Result<StorageValue, ServerError>)
        ensures
            final(self).tokens@ == old(self).tokens@,
            final(self).error_encountered == old(self).error_encountered,
            match r {
                Ok(v) => spec_take_key(old(self).models(), old(self).current_token as int) == Some(
                    (v@, final(self).current_token as int),
                ) && old(self).current_token < final(self).current_token <= final(self).models().len(),
                Err(e) => spec_take_key(old(self).models(), old(self).current_token as int)
                    is None && e is ParseError,
            },
    {
        if self.is_at_end() {
            return Err(
                ServerError::ParseError(
                    String::from_str("Expected an identifier instead of the end of the query."),
                ),
            );
        }
        proof {
            assert(self.models()[self.current_token as int].token
                == self.tokens@[self.current_token as int].token@);
        }
        let token = &self.tokens[self.current_token];
        match &token.token {
            Token::Integer(value) => {
                let v = StorageValue::Int(*value);
                self.current_token = self.current_token + 1;
                Ok(v)
            },
            Token::StringValue(value) => {
                let v = StorageValue::String(value.clone());
                self.current_token = self.current_token + 1;
                Ok(v)
            },
            _ => {
                let mut msg = String::from_str("Expected a valid map key. Got ");
                msg.append(token.lexeme.as_str());
                msg.append(" at ");
                msg.append(crate::util::fmt_u64(token.position as u64).as_str());
                Err(ServerError::ParseError(msg))
            },
        }
    }

    /// Take the literal at the current position as a vector index.
    fn get_index_from_next_token(&mut self) -> (r: Result<usize, ServerError>)
        ensures
            final(self).tokens@ == old(self).tokens@,
            final(self).error_encountered == old(self).error_encountered,
            match r {
                Ok(ix) => spec_take_index(old(self).models(), old(self).current_token as int)
                    == Some((ix as int, final(self).current_token as int)) && old(self).current_token < final(self).current_token <= final(self).models().len(),
                Err(e) => spec_take_index(old(self).models(), old(self).current_token as int)
                    is None && e is ParseError,
            },
    {
        if self.is_at_end() {
            return Err(
                ServerError::ParseError(
                    String::from_str("Expected an identifier instead of the end of the query."),
                ),
            );
        }
        proof {
            assert(self.models()[self.current_token as int].token
                == self.tokens@[self.current_token as int].token@);
        }
        let token = &self.tokens[self.current_token];
        let bad = {
            let mut msg = String::from_str("Expected a valid vector index. Got ");
            msg.append(token.lexeme.as_str());
            msg.append(" at ");
            msg.append(crate::util::fmt_u64(token.position as u64).as_str());
            ServerError::ParseError(msg)
        };
        match &token.token {
            Token::Integer(value) => {
                if *value >= 0 && (*value as u64) <= (usize::MAX as u64) {
                    let ix = *value as usize;
                    self.current_token = self.current_token + 1;
                    Ok(ix)
                } else {
                    Err(bad)
                }
            },
            _ => Err(bad),
        }
    }

    /// Take the literal at the current position as a scalar value.
    fn get_scalar_value_from_next_token(&mut self) -> (r: Result<StorageValue, ServerError>)
        ensures
            final(self).tokens@ == old(self).tokens@,
            final(self).error_encountered == old(self).error_encountered,
            match r {
                Ok(v) => spec_take_scalar(old(self).models(), old(self).current_token as int)
                    == Some((v@, final(self).current_token as int)) && old(self).current_token
                    < final(self).current_token <= final(self).models().len(),
                Err(e) => spec_take_scalar(old(self).models(), old(self).current_token as int)
                    is None && e is ParseError,
            },
    {
        if self.is_at_end() {
            return Err(
                ServerError::ParseError(
                    String::from_str("Expected an identifier instead of the end of the query."),
                ),
            );
        }
        proof {
            assert(self.models()[self.current_token as int].token
                == self.tokens@[self.current_token as int].token@);
        }
        let next_token = &self.tokens[self.current_token];
        let storage_value = match &next_token.token {
            Token::Bool(value) => StorageValue::Bool(*value),
            Token::Integer(value) => StorageValue::Int(*value),
            Token::Float(value) => StorageValue::Float(value.clone()),
            Token::StringValue(value) => StorageValue::String(value.clone()),
            _ => {
                return Err(
                    ServerError::ParseError(String::from_str("Expected valid scalar value.")),
                );
            },
        };
        self.current_token = self.current_token + 1;
        Ok(storage_value)
    }

    /// Take the optional lifetime at the current position.
    fn get_lifetime_from_next_token(&mut self) -> (r: Result<Option<u64>, ServerError>)
        ensures
            final(self).tokens@ == old(self).tokens@,
            final(self).error_encountered == old(self).error_encountered,
            match r {
                Ok(lt) => spec_take_lifetime(old(self).models(), old(self).current_token as int)
                    == Some((lt, final(self).current_token as int)) && old(self).current_token
                    <= final(self).current_token <= final(self).models().len() || (lt is None
                    && final(self).current_token == old(self).current_token
                    && spec_take_lifetime(old(self).models(), old(self).current_token as int)
                    == Some((None::<u64>, old(self).current_token as int))),
                Err(e) => spec_take_lifetime(old(self).models(), old(self).current_token as int)
                    is None && e is ParseError,
            },
    {
        if self.is_at_statement_end() {
            return Ok(None);
        }
        proof {
            assert(self.models()[self.current_token as int].token
                == self.tokens@[self.current_token as int].token@);
        }
        let token = &self.tokens[self.current_token];
        match &token.token {
            Token::Integer(value) => {
                if *value < 0 {
                    Err(
                        ServerError::ParseError(
                            String::from_str("Expected a positive integer as a lifetime."),
                        ),
                    )
                } else {
                    let lt = *value as u64;
                    self.current_token = self.current_token + 1;
                    Ok(Some(lt))
                }
            },
            _ => Err(
                ServerError::ParseError(
                    String::from_str("Expected an integer value for a lifetime."),
                ),
            ),
        }
    }


    /// Step past the current token.
    fn advance_token(&mut self)
        requires
            old(self).current_token < old(self).models().len(),
        ensures
            final(self).tokens@ == old(self).tokens@,
            final(self).error_encountered == old(self).error_encountered,
            final(self).current_token == old(self).current_token + 1,
    {
        let n = self.tokens.len();
        proof {
            assert(self.current_token < n);
        }
        self.current_token = self.current_token + 1;
    }

    /// Parse a vector literal; the opening bracket stands at the current
    /// position.
    fn get_vector_value(&mut self, collection_type: CollectionType) -> (r: Result<
        StorageValue,
        ServerError,
    >)
        requires
            old(self).current_token < old(self).models().len(),
        ensures
            final(self).tokens@ == old(self).tokens@,
            final(self).error_encountered == old(self).error_encountered,
            match r {
                Ok(v) => {
                    &&& spec_take_vector(
                        old(self).models(),
                        old(self).current_token as int,
                        collection_type,
                    ) matches Some((items, e))
                    &&& v@ == ValueModel::Vector(collection_type, spec_take_vector(
                        old(self).models(),
                        old(self).current_token as int,
                        collection_type,
                    )->Some_0.0)
                    &&& final(self).current_token as int == spec_take_vector(
                        old(self).models(),
                        old(self).current_token as int,
                        collection_type,
                    )->Some_0.1
                    &&& old(self).current_token < final(self).current_token <= final(self).models().len()
                },
                Err(e) => spec_take_vector(
                    old(self).models(),
                    old(self).current_token as int,
                    collection_type,
                ) is None && e is ParseError,
            },
    {
        let ghost ms = self.models();
        let ghost k0 = self.current_token as int;
        let mut value = StorageVector::new(collection_type);
        self.advance_token();
        if self.is_at_end() {
            return Err(ServerError::ParseError(String::from_str("Unfinished vector literal found.")));
        }
        proof {
            assert(ms[self.current_token as int].token
                == self.tokens@[self.current_token as int].token@);
        }
        match &self.tokens[self.current_token].token {
            Token::RightBracket => {
                self.current_token = self.current_token + 1;
                proof {
                    assert(ms[k0 + 1].token is RightBracket);
                    assert(spec_take_vector(ms, k0, collection_type) == Some((Seq::<
                        ValueModel,
                    >::empty(), k0 + 2)));
                    assert(value@ =~= Seq::<ValueModel>::empty());
                    crate::types::lemma_vector_model(value);
                }
                return Ok(StorageValue::Vector(value));
            },
            _ => (),
        }
        let ghost kitems = self.current_token as int;
        loop
            invariant
                ms == old(self).models(),
                k0 == old(self).current_token as int,
                self.tokens@ == old(self).tokens@,
                self.error_encountered == old(self).error_encountered,
                k0 < kitems <= self.current_token as int <= ms.len(),
                value.collection_type == collection_type,
                value.wf(),
                spec_take_vector(ms, k0, collection_type) == spec_vector_items(
                    ms,
                    self.current_token as int,
                    collection_type,
                    value@,
                ),
            decreases ms.len() - self.current_token,
        {
            let element = match self.get_scalar_value_from_next_token() {
                Ok(element) => element,
                Err(err) => {
                    return Err(err);
                },
            };
            let mut value_tmp = value;
            match value_tmp.push(element) {
                Ok(()) => (),
                Err(_) => {
                    value = value_tmp;
                    return Err(
                        ServerError::ParseError(
                            String::from_str("Could not add element to vector."),
                        ),
                    );
                },
            };
            value = value_tmp;
            if self.is_at_end() {
                return Err(
                    ServerError::ParseError(String::from_str("Unfinished vector literal found.")),
                );
            }
            proof {
                assert(ms[self.current_token as int].token
                    == self.tokens@[self.current_token as int].token@);
            }
            match &self.tokens[self.current_token].token {
                Token::RightBracket => {
                    self.current_token = self.current_token + 1;
                    proof {
                        crate::types::lemma_vector_model(value);
                    }
                    return Ok(StorageValue::Vector(value));
                },
                Token::Comma => {
                    self.current_token = self.current_token + 1;
                },
                _ => {
                    return Err(
                        ServerError::ParseError(
                            String::from_str("Unexpected token after vector element."),
                        ),
                    );
                },
            }
        }
    }

    /// Parse a map literal; the opening brace stands at the current
    /// position.
    fn get_map_value(&mut self, key_type: KeyType, collection_type: CollectionType) -> (r: Result<
        StorageValue,
        ServerError,
    >)
        requires
            old(self).current_token < old(self).models().len(),
        ensures
            final(self).tokens@ == old(self).tokens@,
            final(self).error_encountered == old(self).error_encountered,
            match r {
                Ok(v) => {
                    &&& spec_take_map(
                        old(self).models(),
                        old(self).current_token as int,
                        key_type,
                        collection_type,
                    ) matches Some((entries, e))
                    &&& v@ == ValueModel::Mapping(key_type, collection_type, spec_take_map(
                        old(self).models(),
                        old(self).current_token as int,
                        key_type,
                        collection_type,
                    )->Some_0.0)
                    &&& final(self).current_token as int == spec_take_map(
                        old(self).models(),
                        old(self).current_token as int,
                        key_type,
                        collection_type,
                    )->Some_0.1
                    &&& old(self).current_token < final(self).current_token <= final(self).models().len()
                },
                Err(e) => spec_take_map(
                    old(self).models(),
                    old(self).current_token as int,
                    key_type,
                    collection_type,
                ) is None && e is ParseError,
            },
    {
        let ghost ms = self.models();
        let ghost k0 = self.current_token as int;
        let mut value = StorageMap::new(key_type, collection_type);
        self.advance_token();
        if self.is_at_end() {
            return Err(ServerError::ParseError(String::from_str("Unfinished map literal found.")));
        }
        proof {
            assert(ms[self.current_token as int].token
                == self.tokens@[self.current_token as int].token@);
        }
        match &self.tokens[self.current_token].token {
            Token::RightCurlyBracket => {
                self.current_token = self.current_token + 1;
                proof {
                    crate::types::lemma_mapping_model(value);
                }
                return Ok(StorageValue::Mapping(value));
            },
            _ => (),
        }
        loop
            invariant
                ms == old(self).models(),
                k0 == old(self).current_token as int,
                self.tokens@ == old(self).tokens@,
                self.error_encountered == old(self).error_encountered,
                k0 < self.current_token as int <= ms.len(),
                value.key_type == key_type,
                value.collection_type == collection_type,
                value.wf(),
                spec_take_map(ms, k0, key_type, collection_type) == spec_map_entries(
                    ms,
                    self.current_token as int,
                    key_type,
                    collection_type,
                    value@,
                ),
            decreases ms.len() - self.current_token,
        {
            let element_key = match self.get_scalar_value_from_next_token() {
                Ok(element_key) => element_key,
                Err(err) => {
                    return Err(err);
                },
            };
            if self.is_at_end() {
                return Err(
                    ServerError::ParseError(String::from_str("Unfinished map literal found.")),
                );
            }
            proof {
                assert(ms[self.current_token as int].token
                    == self.tokens@[self.current_token as int].token@);
            }
            match &self.tokens[self.current_token].token {
                Token::Colon => {
                    self.current_token = self.current_token + 1;
                },
                _ => {
                    return Err(
                        ServerError::ParseError(String::from_str("Expected colon after key.")),
                    );
                },
            }
            let element_value = match self.get_scalar_value_from_next_token() {
                Ok(element_value) => element_value,
                Err(err) => {
                    return Err(err);
                },
            };
            let mut value_tmp = value;
            match value_tmp.set(element_key, element_value) {
                Ok(()) => (),
                Err(_) => {
                    value = value_tmp;
                    return Err(
                        ServerError::ParseError(
                            String::from_str("Could not add element to map."),
                        ),
                    );
                },
            };
            value = value_tmp;
            if self.is_at_end() {
                return Err(
                    ServerError::ParseError(String::from_str("Unfinished map literal found.")),
                );
            }
            proof {
                assert(ms[self.current_token as int].token
                    == self.tokens@[self.current_token as int].token@);
            }
            match &self.tokens[self.current_token].token {
                Token::RightCurlyBracket => {
                    self.current_token = self.current_token + 1;
                    proof {
                        crate::types::lemma_mapping_model(value);
                    }
                    return Ok(StorageValue::Mapping(value));
                },
                Token::Comma => {
                    self.current_token = self.current_token + 1;
                },
                _ => {
                    return Err(
                        ServerError::ParseError(
                            String::from_str("Unexpected token after key-value pair."),
                        ),
                    );
                },
            }
        }
    }

    /// Parse a collection value; a scalar type word stands at the current
    /// position.
    fn get_collection_value_from_next_token(&mut self) -> (r: Result<StorageValue, ServerError>)
        requires
            old(self).current_token < old(self).models().len(),
        ensures
            final(self).tokens@ == old(self).tokens@,
            final(self).error_encountered == old(self).error_encountered,
            match r {
                Ok(v) => {
                    &&& spec_take_collection(old(self).models(), old(self).current_token as int)
                        matches Some((m, e))
                    &&& v@ == spec_take_collection(
                        old(self).models(),
                        old(self).current_token as int,
                    )->Some_0.0
                    &&& final(self).current_token as int == spec_take_collection(
                        old(self).models(),
                        old(self).current_token as int,
                    )->Some_0.1
                    &&& old(self).current_token < final(self).current_token <= final(self).models().len()
                },
                Err(e) => spec_take_collection(old(self).models(), old(self).current_token as int)
                    is None && e is ParseError,
            },
    {
        let ghost ms = self.models();
        let ghost k0 = self.current_token as int;
        proof {
            assert(ms[k0].token == self.tokens@[k0].token@);
        }
        let first_as_collection = get_collection_type(&self.tokens[self.current_token].token);
        let first_as_key = get_key_type(&self.tokens[self.current_token].token);
        self.advance_token();
        if self.is_at_statement_end() {
            let collection_type = match first_as_collection {
                Ok(collection_type) => collection_type,
                Err(err) => {
                    return Err(err);
                },
            };
            let empty = StorageVector::new(collection_type);
            proof {
                crate::types::lemma_vector_model(empty);
            }
            return Ok(StorageValue::Vector(empty));
        }
        proof {
            assert(ms[k0 + 1].token == self.tokens@[k0 + 1].token@);
        }
        let next_is_type = is_collection_or_key_type(&self.tokens[self.current_token].token);
        if next_is_type {
            let second_as_collection = get_collection_type(&self.tokens[self.current_token].token);
            self.advance_token();
            let key_type = match first_as_key {
                Ok(key_type) => key_type,
                Err(err) => {
                    return Err(err);
                },
            };
            let collection_type = match second_as_collection {
                Ok(collection_type) => collection_type,
                Err(err) => {
                    return Err(err);
                },
            };
            let no_literal = if self.is_at_statement_end() {
                true
            } else {
                proof {
                    assert(ms[k0 + 2].token == self.tokens@[k0 + 2].token@);
                }
                match &self.tokens[self.current_token].token {
                    Token::LeftCurlyBracket => false,
                    _ => true,
                }
            };
            if no_literal {
                let empty = StorageMap::new(key_type, collection_type);
                proof {
                    crate::types::lemma_mapping_model(empty);
                }
                return Ok(StorageValue::Mapping(empty));
            }
            self.get_map_value(key_type, collection_type)
        } else {
            let is_bracket = match &self.tokens[self.current_token].token {
                Token::LeftBracket => true,
                _ => false,
            };
            if is_bracket {
                let collection_type = match first_as_collection {
                    Ok(collection_type) => collection_type,
                    Err(err) => {
                        return Err(err);
                    },
                };
                self.get_vector_value(collection_type)
            } else {
                Err(ServerError::ParseError(String::from_str("Could not parse.")))
            }
        }
    }

    /// Parse the value of a write statement at the current position.
    fn get_value_from_next_token(&mut self) -> (r: Result<StorageValue, ServerError>)
        ensures
            final(self).tokens@ == old(self).tokens@,
            final(self).error_encountered == old(self).error_encountered,
            match r {
                Ok(v) => {
                    &&& spec_take_value(old(self).models(), old(self).current_token as int)
                        matches Some((m, e))
                    &&& v@ == spec_take_value(
                        old(self).models(),
                        old(self).current_token as int,
                    )->Some_0.0
                    &&& final(self).current_token as int == spec_take_value(
                        old(self).models(),
                        old(self).current_token as int,
                    )->Some_0.1
                    &&& old(self).current_token <= final(self).current_token <= final(self).models().len()
                        || final(self).current_token == old(self).current_token
                },
                Err(e) => spec_take_value(old(self).models(), old(self).current_token as int)
                    is None && e is ParseError,
            },
    {
        if self.is_at_statement_end() {
            return Ok(StorageValue::Null);
        }
        proof {
            assert(self.models()[self.current_token as int].token
                == self.tokens@[self.current_token as int].token@);
        }
        if is_collection_or_key_type(&self.tokens[self.current_token].token) {
            self.get_collection_value_from_next_token()
        } else {
            self.get_scalar_value_from_next_token()
        }
    }

    /// Parse the next statement, or report a clean end of input.
    fn get_next_statement(&mut self) -> (r: Result<Option<Statement>, ServerError>)
        requires
            old(self).current_token <= old(self).models().len(),
        ensures
            final(self).tokens@ == old(self).tokens@,
            final(self).error_encountered == old(self).error_encountered,
            ({
                let j = spec_strip_semis(old(self).models(), old(self).current_token as int);
                match r {
                    Ok(None) => j == old(self).models().len() && final(self).current_token as int
                        == j,
                    Ok(Some(st)) => spec_statement(old(self).models(), j) == StmtStep::Stmt(
                        st@,
                        final(self).current_token as int,
                    ) && j < final(self).current_token as int <= final(self).models().len(),
                    Err(e) => spec_statement(old(self).models(), j) == StmtStep::Fail && e
                        is ParseError && j < old(self).models().len(),
                }
            }),
    {
        let ghost ms = self.models();
        self.strip_semicolons();
        let ghost j = self.current_token as int;
        if self.is_at_end() {
            proof {
                lemma_strip_semis_bounds(ms, old(self).current_token as int);
            }
            return Ok(None);
        }
        proof {
            assert(ms[j].token == self.tokens@[j].token@);
        }
        let jx = self.current_token;
        self.advance_token();
        match &self.tokens[jx].token {
            Token::Delete => {
                let name = match self.get_name_from_next_token() {
                    Ok(name) => name,
                    Err(err) => {
                        return Err(err);
                    },
                };
                Ok(Some(Statement::Delete(name)))
            },
            Token::Exists => {
                let name = match self.get_name_from_next_token() {
                    Ok(name) => name,
                    Err(err) => {
                        return Err(err);
                    },
                };
                Ok(Some(Statement::Exists(name)))
            },
            Token::Get => {
                let name = match self.get_name_from_next_token() {
                    Ok(name) => name,
                    Err(err) => {
                        return Err(err);
                    },
                };
                Ok(Some(Statement::Get(name)))
            },
            Token::GetOrNone => {
                let name = match self.get_name_from_next_token() {
                    Ok(name) => name,
                    Err(err) => {
                        return Err(err);
                    },
                };
                Ok(Some(Statement::GetIfExists(name)))
            },
            Token::MapDelete => {
                let name = match self.get_name_from_next_token() {
                    Ok(name) => name,
                    Err(err) => {
                        return Err(err);
                    },
                };
                let key = match self.get_key_from_next_token() {
                    Ok(key) => key,
                    Err(err) => {
                        return Err(err);
                    },
                };
                Ok(Some(Statement::MapDelete(name, key)))
            },
            Token::MapExists => {
                let name = match self.get_name_from_next_token() {
                    Ok(name) => name,
                    Err(err) => {
                        return Err(err);
                    },
                };
                let key = match self.get_key_from_next_token() {
                    Ok(key) => key,
                    Err(err) => {
                        return Err(err);
                    },
                };
                Ok(Some(Statement::MapExists(name, key)))
            },
            Token::MapGet => {
                let name = match self.get_name_from_next_token() {
                    Ok(name) => name,
                    Err(err) => {
                        return Err(err);
                    },
                };
                let key = match self.get_key_from_next_token() {
                    Ok(key) => key,
                    Err(err) => {
                        return Err(err);
                    },
                };
                Ok(Some(Statement::MapGet(name, key)))
            },
            Token::MapLength => {
                let name = match self.get_name_from_next_token() {
                    Ok(name) => name,
                    Err(err) => {
                        return Err(err);
                    },
                };
                Ok(Some(Statement::MapLength(name)))
            },
            Token::MapSet => {
                let name = match self.get_name_from_next_token() {
                    Ok(name) => name,
                    Err(err) => {
                        return Err(err);
                    },
                };
                let key = match self.get_key_from_next_token() {
                    Ok(key) => key,
                    Err(err) => {
                        return Err(err);
                    },
                };
                let value = match self.get_scalar_value_from_next_token() {
                    Ok(value) => value,
                    Err(err) => {
                        return Err(err);
                    },
                };
                Ok(Some(Statement::MapSet(name, key, value)))
            },
            Token::SetValue => {
                let name = match self.get_name_from_next_token() {
                    Ok(name) => name,
                    Err(err) => {
                        return Err(err);
                    },
                };
                let value = match self.get_value_from_next_token() {
                    Ok(value) => value,
                    Err(err) => {
                        return Err(err);
                    },
                };
                let lifetime = match self.get_lifetime_from_next_token() {
                    Ok(lifetime) => lifetime,
                    Err(err) => {
                        return Err(err);
                    },
                };
                Ok(Some(Statement::SetValue(name, value, lifetime)))
            },
            Token::SetIfNotExists => {
                let name = match self.get_name_from_next_token() {
                    Ok(name) => name,
                    Err(err) => {
                        return Err(err);
                    },
                };
                let value = match self.get_value_from_next_token() {
                    Ok(value) => value,
                    Err(err) => {
                        return Err(err);
                    },
                };
                let lifetime = match self.get_lifetime_from_next_token() {
                    Ok(lifetime) => lifetime,
                    Err(err) => {
                        return Err(err);
                    },
                };
                Ok(Some(Statement::SetIfNotExists(name, value, lifetime)))
            },
            Token::Update => {
                let name = match self.get_name_from_next_token() {
                    Ok(name) => name,
                    Err(err) => {
                        return Err(err);
                    },
                };
                let value = match self.get_value_from_next_token() {
                    Ok(value) => value,
                    Err(err) => {
                        return Err(err);
                    },
                };
                let lifetime = match self.get_lifetime_from_next_token() {
                    Ok(lifetime) => lifetime,
                    Err(err) => {
                        return Err(err);
                    },
                };
                Ok(Some(Statement::Update(name, value, lifetime)))
            },
            Token::Lifetime => {
                let name = match self.get_name_from_next_token() {
                    Ok(name) => name,
                    Err(err) => {
                        return Err(err);
                    },
                };
                let lifetime = match self.get_lifetime_from_next_token() {
                    Ok(lifetime) => lifetime,
                    Err(err) => {
                        return Err(err);
                    },
                };
                Ok(Some(Statement::UpdateLifetime(name, lifetime)))
            },
            Token::Shutdown => Ok(Some(Statement::Shutdown)),
            Token::ValueType => {
                let name = match self.get_name_from_next_token() {
                    Ok(name) => name,
                    Err(err) => {
                        return Err(err);
                    },
                };
                Ok(Some(Statement::ValueType(name)))
            },
            Token::VectorAppend => {
                let name = match self.get_name_from_next_token() {
                    Ok(name) => name,
                    Err(err) => {
                        return Err(err);
                    },
                };
                let value = match self.get_scalar_value_from_next_token() {
                    Ok(value) => value,
                    Err(err) => {
                        return Err(err);
                    },
                };
                Ok(Some(Statement::VectorAppend(name, value)))
            },
            Token::VectorGet => {
                let name = match self.get_name_from_next_token() {
                    Ok(name) => name,
                    Err(err) => {
                        return Err(err);
                    },
                };
                let index = match self.get_index_from_next_token() {
                    Ok(index) => index,
                    Err(err) => {
                        return Err(err);
                    },
                };
                Ok(Some(Statement::VectorGet(name, index)))
            },
            Token::VectorLength => {
                let name = match self.get_name_from_next_token() {
                    Ok(name) => name,
                    Err(err) => {
                        return Err(err);
                    },
                };
                Ok(Some(Statement::VectorLength(name)))
            },
            Token::VectorPop => {
                let name = match self.get_name_from_next_token() {
                    Ok(name) => name,
                    Err(err) => {
                        return Err(err);
                    },
                };
                Ok(Some(Statement::VectorPop(name)))
            },
            Token::VectorSet => {
                let name = match self.get_name_from_next_token() {
                    Ok(name) => name,
                    Err(err) => {
                        return Err(err);
                    },
                };
                let index = match self.get_index_from_next_token() {
                    Ok(index) => index,
                    Err(err) => {
                        return Err(err);
                    },
                };
                let value = match self.get_scalar_value_from_next_token() {
                    Ok(value) => value,
                    Err(err) => {
                        return Err(err);
                    },
                };
                Ok(Some(Statement::VectorSet(name, index, value)))
            },
            _ => {
                let token = &self.tokens[jx];
                let mut msg = String::from_str("Cannot parse ");
                msg.append(token.lexeme.as_str());
                msg.append(" at position ");
                msg.append(crate::util::fmt_u64(token.position as u64).as_str());
                msg.append(". Expected a command keyword");
                Err(ServerError::ParseError(msg))
            },
        }
    }

    /// Parse all statements of the token stream.
    pub fn parse(&mut self) -> (r: Result<Vec<Statement>, ServerError>)
        requires
            old(self).current_token <= old(self).models().len(),
        ensures
            final(self).tokens@ == old(self).tokens@,
            match r {
                Ok(v) => spec_parse_from(old(self).models(), old(self).current_token as int)
                    == Some(statement_models(v@)),
                Err(e) => spec_parse_from(old(self).models(), old(self).current_token as int)
                    is None && e is ParseError && final(self).error_encountered,
            },
    {
        let ghost ms = self.models();
        let ghost i0 = self.current_token as int;
        let mut statements: Vec<Statement> = Vec::new();
        loop
            invariant
                ms == old(self).models(),
                i0 == old(self).current_token as int,
                self.tokens@ == old(self).tokens@,
                self.current_token <= ms.len(),
                self.error_encountered == old(self).error_encountered,
                spec_parse_from(ms, i0) == (match spec_parse_from(
                    ms,
                    self.current_token as int,
                ) {
                    None => None::<Seq<StatementModel>>,
                    Some(rest) => Some(statement_models(statements@) + rest),
                }),
            decreases ms.len() - self.current_token,
        {
            let ghost head = self.current_token as int;
            proof {
                lemma_strip_semis_bounds(ms, head);
            }
            match self.get_next_statement() {
                Ok(None) => {
                    proof {
                        assert(spec_parse_from(ms, head) == Some(Seq::<StatementModel>::empty()));
                        assert(statement_models(statements@) + Seq::<StatementModel>::empty()
                            =~= statement_models(statements@));
                    }
                    return Ok(statements);
                },
                Ok(Some(statement)) => {
                    let ghost model = statement@;
                    statements.push(statement);
                    proof {
                        let e = self.current_token as int;
                        assert(statement_models(statements@) =~= statement_models(
                            statements@.drop_last(),
                        ).push(model));
                        match spec_parse_from(ms, e) {
                            None => {
                                assert(spec_parse_from(ms, head) is None);
                            },
                            Some(rest) => {
                                assert(spec_parse_from(ms, head) == Some(seq![model] + rest));
                                assert(statement_models(statements@.drop_last()) + (seq![model]
                                    + rest) =~= statement_models(statements@) + rest);
                            },
                        }
                    }
                },
                Err(err) => {
                    self.error_encountered = true;
                    proof {
                        assert(spec_parse_from(ms, head) is None);
                    }
                    return Err(err);
                },
            }
        }
    }
}

/// Stripping semicolons stays between the start and the end of the tokens.
pub proof fn lemma_strip_semis_bounds(ts: Seq<AnnotatedTokenModel>, i: int)
    requires
        0 <= i <= ts.len(),
    ensures
        i <= spec_strip_semis(ts, i) <= ts.len(),
    decreases ts.len() - i,
{
    if 0 <= i < ts.len() && ts[i].token is Semicolon {
        lemma_strip_semis_bounds(ts, i + 1);
    }
}

/// The scalar element type a type word denotes, or a `ParseError`.
pub fn get_collection_type(token: &Token) -> (r: Result<CollectionType, ServerError>)
    ensures
        match r {
            Ok(ct) => spec_collection_type(token@) == Some(ct),
            Err(e) => spec_collection_type(token@) is None && e is ParseError,
        },
{
    match token {
        Token::BoolType => Ok(CollectionType::Bool),
        Token::FloatType => Ok(CollectionType::Float),
        Token::IntType => Ok(CollectionType::Int),
        Token::StringType => Ok(CollectionType::String),
        _ => Err(
            ServerError::ParseError(String::from_str("Expected a valid collection scalar type.")),
        ),
    }
}

/// The map key type a type word denotes, or a `ParseError`.
pub fn get_key_type(token: &Token) -> (r: Result<KeyType, ServerError>)
    ensures
        match r {
            Ok(kt) => spec_key_type(token@) == Some(kt),
            Err(e) => spec_key_type(token@) is None && e is ParseError,
        },
{
    match token {
        Token::IntType => Ok(KeyType::Int),
        Token::StringType => Ok(KeyType::String),
        _ => Err(ServerError::ParseError(String::from_str("Expected a valid key scalar type."))),
    }
}

/// Whether a token is one of the scalar type words.
pub fn is_collection_or_key_type(token: &Token) -> (r: bool)
    ensures
        r == spec_is_type_word(token@),
{
    match token {
        Token::BoolType | Token::StringType | Token::FloatType | Token::IntType => true,
        _ => false,
    }
}



/// Putting a typed entry into well-formed map entries keeps them well
/// formed.
pub proof fn lemma_assoc_put_wf(
    kt: KeyType,
    ct: CollectionType,
    acc: Seq<(ValueModel, ValueModel)>,
    kv: ValueModel,
    vv: ValueModel,
)
    requires
        crate::types::mapping_body_wf(kt, ct, acc),
        key_matches(kv, kt),
        scalar_matches(vv, ct),
    ensures
        crate::types::mapping_body_wf(kt, ct, spec_assoc_put(acc, kv, vv)),
{
    let out = spec_assoc_put(acc, kv, vv);
    if map_has_key(acc, kv) {
        let i = map_key_index(acc, kv);
        assert(0 <= i < acc.len() && crate::types::value_eq(acc[i].0, kv));
        assert forall|a: int, b: int|
            0 <= a < out.len() && 0 <= b < out.len() && a != b implies !crate::types::value_eq(
            out[a].0,
            out[b].0,
        ) by {
            if a == i && crate::types::value_eq(out[a].0, out[b].0) {
                crate::types::lemma_value_eq_joins(acc[b].0, acc[i].0, kv);
                crate::types::lemma_value_eq_joins(acc[i].0, acc[b].0, acc[b].0);
                crate::types::lemma_value_eq_trans(acc[i].0, kv, acc[b].0);
            } else if b == i && crate::types::value_eq(out[a].0, out[b].0) {
                crate::types::lemma_value_eq_trans(acc[a].0, kv, acc[i].0);
            }
        }
    } else {
        assert forall|a: int, b: int|
            0 <= a < out.len() && 0 <= b < out.len() && a != b implies !crate::types::value_eq(
            out[a].0,
            out[b].0,
        ) by {
            if a == acc.len() as int && crate::types::value_eq(out[a].0, out[b].0) {
                crate::types::lemma_value_eq_joins(acc[b].0, acc[b].0, kv);
            } else if b == acc.len() as int && crate::types::value_eq(out[a].0, out[b].0) {
                crate::types::lemma_value_eq_joins(acc[a].0, acc[a].0, kv);
            }
        }
    }
}

/// Parsed vector items of a declared type are all of that type.
pub proof fn lemma_vector_items_wf(
    ts: Seq<AnnotatedTokenModel>,
    k: int,
    ct: CollectionType,
    acc: Seq<ValueModel>,
)
    requires
        crate::types::vector_body_wf(ct, acc),
        spec_vector_items(ts, k, ct, acc) is Some,
    ensures
        crate::types::vector_body_wf(ct, spec_vector_items(ts, k, ct, acc)->Some_0.0),
    decreases ts.len() - k,
{
    let (v, k1) = spec_take_scalar(ts, k)->Some_0;
    assert(crate::types::vector_body_wf(ct, acc.push(v))) by {
        assert forall|i: int|
            0 <= i < acc.push(v).len() implies scalar_matches(#[trigger] acc.push(v)[i], ct) by {
            if i < acc.len() {
                assert(scalar_matches(acc[i], ct));
            }
        }
    }
    if ts[k1].token is RightBracket {
    } else {
        lemma_vector_items_wf(ts, k1 + 1, ct, acc.push(v));
    }
}

/// Parsed map entries of declared types are well formed.
pub proof fn lemma_map_entries_wf(
    ts: Seq<AnnotatedTokenModel>,
    k: int,
    kt: KeyType,
    ct: CollectionType,
    acc: Seq<(ValueModel, ValueModel)>,
)
    requires
        crate::types::mapping_body_wf(kt, ct, acc),
        spec_map_entries(ts, k, kt, ct, acc) is Some,
    ensures
        crate::types::mapping_body_wf(kt, ct, spec_map_entries(ts, k, kt, ct, acc)->Some_0.0),
    decreases ts.len() - k,
{
    let (kv, k1) = spec_take_scalar(ts, k)->Some_0;
    let (vv, k2) = spec_take_scalar(ts, k1 + 1)->Some_0;
    lemma_assoc_put_wf(kt, ct, acc, kv, vv);
    if ts[k2].token is RightCurlyBracket {
    } else {
        lemma_map_entries_wf(ts, k2 + 1, kt, ct, spec_assoc_put(acc, kv, vv));
    }
}

/// A parsed value is well formed.
pub proof fn lemma_take_value_wf(ts: Seq<AnnotatedTokenModel>, k: int)
    requires
        spec_take_value(ts, k) is Some,
    ensures
        crate::types::value_wf(spec_take_value(ts, k)->Some_0.0),
{
    if spec_at_stmt_end(ts, k) {
    } else if spec_is_type_word(ts[k].token) {
        let tt = ts[k].token;
        if spec_at_stmt_end(ts, k + 1) {
        } else if spec_is_type_word(ts[k + 1].token) {
            let kt = spec_key_type(tt)->Some_0;
            let ct = spec_collection_type(ts[k + 1].token)->Some_0;
            if spec_at_stmt_end(ts, k + 2) || !(ts[k + 2].token is LeftCurlyBracket) {
            } else {
                if !(ts[k + 3].token is RightCurlyBracket) {
                    lemma_map_entries_wf(ts, k + 3, kt, ct, Seq::empty());
                }
            }
        } else if ts[k + 1].token is LeftBracket {
            let ct = spec_collection_type(tt)->Some_0;
            if !(ts[k + 2].token is RightBracket) {
                lemma_vector_items_wf(ts, k + 2, ct, Seq::empty());
            }
        }
    }
}

/// A parsed statement carries only well-formed values.
pub proof fn lemma_statement_wf(ts: Seq<AnnotatedTokenModel>, j: int)
    requires
        spec_statement(ts, j) is Stmt,
    ensures
        crate::interpreter::statement_values_wf(spec_statement(ts, j)->Stmt_0),
{
    if 0 <= j < ts.len() {
        match ts[j].token {
            TokenModel::SetValue | TokenModel::SetIfNotExists | TokenModel::Update => {
                let (name, e1) = spec_take_ident(ts, j + 1)->Some_0;
                lemma_take_value_wf(ts, e1);
            },
            _ => {},
        }
    }
}

/// Every statement a successful parse yields carries only well-formed
/// values.
pub proof fn lemma_parse_wf(ts: Seq<AnnotatedTokenModel>, i: int)
    requires
        spec_parse_from(ts, i) is Some,
    ensures
        crate::interpreter::statements_values_wf(spec_parse_from(ts, i)->Some_0),
    decreases ts.len() - i,
{
    let sts = spec_parse_from(ts, i)->Some_0;
    let j = spec_strip_semis(ts, i);
    if j == ts.len() {
    } else {
        let st = spec_statement(ts, j)->Stmt_0;
        let e = spec_statement(ts, j)->Stmt_1;
        lemma_statement_wf(ts, j);
        lemma_parse_wf(ts, e);
        let rest = spec_parse_from(ts, e)->Some_0;
        assert forall|w: int|
            0 <= w < sts.len() implies crate::interpreter::statement_values_wf(
            #[trigger] sts[w],
        ) by {
            if w == 0 {
                assert(sts[0] == st);
            } else {
                assert(sts[w] == rest[w - 1]);
                assert(crate::interpreter::statement_values_wf(rest[w - 1]));
            }
        }
    }
}



/// A successful vector-items parse starts inside the tokens and ends past
/// where it started, within them.
pub proof fn lemma_vector_items_bounds(
    ts: Seq<AnnotatedTokenModel>,
    k: int,
    ct: CollectionType,
    acc: Seq<ValueModel>,
)
    requires
        spec_vector_items(ts, k, ct, acc) is Some,
    ensures
        k < spec_vector_items(ts, k, ct, acc)->Some_0.1 <= ts.len(),
    decreases ts.len() - k,
{
    let (v, k1) = spec_take_scalar(ts, k)->Some_0;
    if ts[k1].token is RightBracket {
    } else {
        lemma_vector_items_bounds(ts, k1 + 1, ct, acc.push(v));
    }
}

/// A successful map-entries parse starts inside the tokens and ends past
/// where it started, within them.
pub proof fn lemma_map_entries_bounds(
    ts: Seq<AnnotatedTokenModel>,
    k: int,
    kt: KeyType,
    ct: CollectionType,
    acc: Seq<(ValueModel, ValueModel)>,
)
    requires
        spec_map_entries(ts, k, kt, ct, acc) is Some,
    ensures
        k < spec_map_entries(ts, k, kt, ct, acc)->Some_0.1 <= ts.len(),
    decreases ts.len() - k,
{
    let (kv, k1) = spec_take_scalar(ts, k)->Some_0;
    let (vv, k2) = spec_take_scalar(ts, k1 + 1)->Some_0;
    if ts[k2].token is RightCurlyBracket {
    } else {
        lemma_map_entries_bounds(ts, k2 + 1, kt, ct, spec_assoc_put(acc, kv, vv));
    }
}

/// A successful value parse never moves backwards and stays within the
/// tokens.
pub proof fn lemma_take_value_bounds(ts: Seq<AnnotatedTokenModel>, k: int)
    requires
        spec_take_value(ts, k) is Some,
        0 <= k <= ts.len(),
    ensures
        k <= spec_take_value(ts, k)->Some_0.1 <= ts.len(),
{
    if spec_at_stmt_end(ts, k) {
    } else if spec_is_type_word(ts[k].token) {
        let tt = ts[k].token;
        if spec_at_stmt_end(ts, k + 1) {
        } else if spec_is_type_word(ts[k + 1].token) {
            let kt = spec_key_type(tt)->Some_0;
            let ct = spec_collection_type(ts[k + 1].token)->Some_0;
            if spec_at_stmt_end(ts, k + 2) || !(ts[k + 2].token is LeftCurlyBracket) {
            } else {
                if !(ts[k + 3].token is RightCurlyBracket) {
                    lemma_map_entries_bounds(ts, k + 3, kt, ct, Seq::empty());
                }
            }
        } else if ts[k + 1].token is LeftBracket {
            let ct = spec_collection_type(tt)->Some_0;
            if !(ts[k + 2].token is RightBracket) {
                lemma_vector_items_bounds(ts, k + 2, ct, Seq::empty());
            }
        }
    }
}



/// `c` extends `a` and, when anything follows, a semicolon stands first:
/// the shape of a token stream with statements inserted after `a`.
pub open spec fn extends_with_semi(a: Seq<AnnotatedTokenModel>, c: Seq<AnnotatedTokenModel>) -> bool {
    &&& a.len() <= c.len()
    &&& forall|w: int| 0 <= w < a.len() ==> #[trigger] c[w] == a[w]
    &&& (a.len() < c.len() ==> c[a.len() as int].token is Semicolon)
}

/// Statement ends are the same in an extension, up to the boundary.
pub proof fn lemma_ext_stmt_end(a: Seq<AnnotatedTokenModel>, c: Seq<AnnotatedTokenModel>, k: int)
    requires
        extends_with_semi(a, c),
        0 <= k <= a.len(),
    ensures
        spec_at_stmt_end(c, k) == spec_at_stmt_end(a, k),
{
}

/// Vector literal elements parse the same in an extension.
pub proof fn lemma_ext_vector_items(
    a: Seq<AnnotatedTokenModel>,
    c: Seq<AnnotatedTokenModel>,
    k: int,
    ct: CollectionType,
    acc: Seq<ValueModel>,
)
    requires
        extends_with_semi(a, c),
        spec_vector_items(a, k, ct, acc) is Some,
        spec_vector_items(a, k, ct, acc)->Some_0.1 <= a.len(),
    ensures
        spec_vector_items(c, k, ct, acc) == spec_vector_items(a, k, ct, acc),
    decreases a.len() - k,
{
    lemma_vector_items_bounds(a, k, ct, acc);
    let (v, k1) = spec_take_scalar(a, k)->Some_0;
    if a[k1].token is RightBracket {
    } else {
        lemma_vector_items_bounds(a, k1 + 1, ct, acc.push(v));
        lemma_ext_vector_items(a, c, k1 + 1, ct, acc.push(v));
    }
}

/// Map literal entries parse the same in an extension.
pub proof fn lemma_ext_map_entries(
    a: Seq<AnnotatedTokenModel>,
    c: Seq<AnnotatedTokenModel>,
    k: int,
    kt: KeyType,
    ct: CollectionType,
    acc: Seq<(ValueModel, ValueModel)>,
)
    requires
        extends_with_semi(a, c),
        spec_map_entries(a, k, kt, ct, acc) is Some,
        spec_map_entries(a, k, kt, ct, acc)->Some_0.1 <= a.len(),
    ensures
        spec_map_entries(c, k, kt, ct, acc) == spec_map_entries(a, k, kt, ct, acc),
    decreases a.len() - k,
{
    lemma_map_entries_bounds(a, k, kt, ct, acc);
    let (kv, k1) = spec_take_scalar(a, k)->Some_0;
    let (vv, k2) = spec_take_scalar(a, k1 + 1)->Some_0;
    if a[k2].token is RightCurlyBracket {
    } else {
        lemma_map_entries_bounds(a, k2 + 1, kt, ct, spec_assoc_put(acc, kv, vv));
        lemma_ext_map_entries(a, c, k2 + 1, kt, ct, spec_assoc_put(acc, kv, vv));
    }
}

/// A value parses the same in an extension.
pub proof fn lemma_ext_take_value(
    a: Seq<AnnotatedTokenModel>,
    c: Seq<AnnotatedTokenModel>,
    k: int,
)
    requires
        extends_with_semi(a, c),
        0 <= k <= a.len(),
        spec_take_value(a, k) is Some,
        spec_take_value(a, k)->Some_0.1 <= a.len(),
    ensures
        spec_take_value(c, k) == spec_take_value(a, k),
{
    lemma_ext_stmt_end(a, c, k);
    if spec_at_stmt_end(a, k) {
    } else if spec_is_type_word(a[k].token) {
        let tt = a[k].token;
        lemma_ext_stmt_end(a, c, k + 1);
        if spec_at_stmt_end(a, k + 1) {
        } else if spec_is_type_word(a[k + 1].token) {
            let kt = spec_key_type(tt)->Some_0;
            let ct = spec_collection_type(a[k + 1].token)->Some_0;
            lemma_ext_stmt_end(a, c, k + 2);
            if spec_at_stmt_end(a, k + 2) || !(a[k + 2].token is LeftCurlyBracket) {
            } else {
                if a[k + 3].token is RightCurlyBracket {
                } else {
                    lemma_map_entries_bounds(a, k + 3, kt, ct, Seq::empty());
                    lemma_ext_map_entries(a, c, k + 3, kt, ct, Seq::empty());
                }
            }
        } else if a[k + 1].token is LeftBracket {
            let ct = spec_collection_type(tt)->Some_0;
            if a[k + 2].token is RightBracket {
            } else {
                lemma_vector_items_bounds(a, k + 2, ct, Seq::empty());
                lemma_ext_vector_items(a, c, k + 2, ct, Seq::empty());
            }
        }
    }
}

/// A statement parses the same in an extension.
pub proof fn lemma_ext_statement(
    a: Seq<AnnotatedTokenModel>,
    c: Seq<AnnotatedTokenModel>,
    j: int,
)
    requires
        extends_with_semi(a, c),
        spec_statement(a, j) is Stmt,
        spec_statement(a, j)->Stmt_1 <= a.len(),
        0 <= j,
    ensures
        spec_statement(c, j) == spec_statement(a, j),
{
    let e = spec_statement(a, j)->Stmt_1;
    match a[j].token {
        TokenModel::SetValue | TokenModel::SetIfNotExists | TokenModel::Update => {
            let (name, e1) = spec_take_ident(a, j + 1)->Some_0;
            let (v, e2) = spec_take_value(a, e1)->Some_0;
            assert(spec_take_lifetime(a, e2) is Some);
            assert(e >= e2);
            lemma_take_value_bounds(a, e1);
            lemma_ext_take_value(a, c, e1);
            lemma_ext_stmt_end(a, c, e2);
        },
        TokenModel::Lifetime => {
            let (name, e1) = spec_take_ident(a, j + 1)->Some_0;
            lemma_ext_stmt_end(a, c, e1);
        },
        _ => {},
    }
}

/// Stripping semicolons behaves the same in an extension, as long as it
/// stops inside the original tokens.
pub proof fn lemma_ext_strip(a: Seq<AnnotatedTokenModel>, c: Seq<AnnotatedTokenModel>, i: int)
    requires
        extends_with_semi(a, c),
        0 <= i <= a.len(),
        spec_strip_semis(a, i) < a.len(),
    ensures
        spec_strip_semis(c, i) == spec_strip_semis(a, i),
    decreases a.len() - i,
{
    if i < a.len() && a[i].token is Semicolon {
        lemma_ext_strip(a, c, i + 1);
    }
}

/// Stripping semicolons walks through any all-semicolon region.
pub proof fn lemma_strip_through(c: Seq<AnnotatedTokenModel>, i: int, m: int)
    requires
        0 <= i <= m <= c.len(),
        forall|w: int| i <= w < m ==> (#[trigger] c[w]).token is Semicolon,
    ensures
        spec_strip_semis(c, i) == spec_strip_semis(c, m),
    decreases m - i,
{
    if i < m {
        lemma_strip_through(c, i + 1, m);
    }
}



/// Statement ends in a suffix match those of the suffix alone.
pub proof fn lemma_off_stmt_end(
    x: Seq<AnnotatedTokenModel>,
    b: Seq<AnnotatedTokenModel>,
    k: int,
)
    requires
        0 <= k,
    ensures
        spec_at_stmt_end(x + b, x.len() + k) == spec_at_stmt_end(b, k),
{
    if k < b.len() {
        assert((x + b)[x.len() + k] == b[k]);
    }
}

/// Vector literal elements in a suffix parse as in the suffix alone, with
/// the end position shifted.
pub proof fn lemma_off_vector_items(
    x: Seq<AnnotatedTokenModel>,
    b: Seq<AnnotatedTokenModel>,
    k: int,
    ct: CollectionType,
    acc: Seq<ValueModel>,
)
    requires
        0 <= k,
    ensures
        spec_vector_items(x + b, x.len() + k, ct, acc) == (match spec_vector_items(b, k, ct, acc) {
            Some((items, e)) => Some((items, x.len() + e)),
            None => None::<(Seq<ValueModel>, int)>,
        }),
    decreases b.len() - k,
{
    let c = x + b;
    let ll = x.len() as int;
    if k < b.len() {
        assert(c[ll + k] == b[k]);
        match spec_take_scalar(b, k) {
            None => {},
            Some((v, k1)) => {
                if !scalar_matches(v, ct) {
                } else if k1 >= b.len() {
                } else {
                    assert(c[ll + k1] == b[k1]);
                    if b[k1].token is RightBracket {
                    } else if b[k1].token is Comma {
                        lemma_off_vector_items(x, b, k1 + 1, ct, acc.push(v));
                    }
                }
            },
        }
    }
}

/// Map literal entries in a suffix parse as in the suffix alone, with the
/// end position shifted.
pub proof fn lemma_off_map_entries(
    x: Seq<AnnotatedTokenModel>,
    b: Seq<AnnotatedTokenModel>,
    k: int,
    kt: KeyType,
    ct: CollectionType,
    acc: Seq<(ValueModel, ValueModel)>,
)
    requires
        0 <= k,
    ensures
        spec_map_entries(x + b, x.len() + k, kt, ct, acc) == (match spec_map_entries(
            b,
            k,
            kt,
            ct,
            acc,
        ) {
            Some((entries, e)) => Some((entries, x.len() + e)),
            None => None::<(Seq<(ValueModel, ValueModel)>, int)>,
        }),
    decreases b.len() - k,
{
    let c = x + b;
    let ll = x.len() as int;
    if k < b.len() {
        assert(c[ll + k] == b[k]);
        match spec_take_scalar(b, k) {
            None => {},
            Some((kv, k1)) => {
                if k1 >= b.len() {
                } else {
                    assert(c[ll + k1] == b[k1]);
                    if !(b[k1].token is Colon) {
                    } else {
                        if k1 + 1 < b.len() {
                            assert(c[ll + k1 + 1] == b[k1 + 1]);
                        }
                        match spec_take_scalar(b, k1 + 1) {
                            None => {},
                            Some((vv, k2)) => {
                                if !key_matches(kv, kt) || !scalar_matches(vv, ct) {
                                } else if k2 >= b.len() {
                                } else {
                                    assert(c[ll + k2] == b[k2]);
                                    if b[k2].token is RightCurlyBracket {
                                    } else if b[k2].token is Comma {
                                        lemma_off_map_entries(
                                            x,
                                            b,
                                            k2 + 1,
                                            kt,
                                            ct,
                                            spec_assoc_put(acc, kv, vv),
                                        );
                                    }
                                }
                            },
                        }
                    }
                }
            },
        }
    }
}

/// A value in a suffix parses as in the suffix alone, with the end
/// position shifted.
pub proof fn lemma_off_take_value(
    x: Seq<AnnotatedTokenModel>,
    b: Seq<AnnotatedTokenModel>,
    k: int,
)
    requires
        0 <= k,
    ensures
        spec_take_value(x + b, x.len() + k) == (match spec_take_value(b, k) {
            Some((v, e)) => Some((v, x.len() + e)),
            None => None::<(ValueModel, int)>,
        }),
{
    let c = x + b;
    let ll = x.len() as int;
    lemma_off_stmt_end(x, b, k);
    if spec_at_stmt_end(b, k) {
    } else {
        assert(c[ll + k] == b[k]);
        if spec_is_type_word(b[k].token) {
            let tt = b[k].token;
            lemma_off_stmt_end(x, b, k + 1);
            if spec_at_stmt_end(b, k + 1) {
            } else {
                assert(c[ll + k + 1] == b[k + 1]);
                if spec_is_type_word(b[k + 1].token) {
                    lemma_off_stmt_end(x, b, k + 2);
                    match (spec_key_type(tt), spec_collection_type(b[k + 1].token)) {
                        (Some(kt), Some(ct)) => {
                            if spec_at_stmt_end(b, k + 2) {
                            } else {
                                assert(c[ll + k + 2] == b[k + 2]);
                                if !(b[k + 2].token is LeftCurlyBracket) {
                                } else {
                                    if k + 3 < b.len() {
                                        assert(c[ll + k + 3] == b[k + 3]);
                                    }
                                    lemma_off_map_entries(x, b, k + 3, kt, ct, Seq::empty());
                                }
                            }
                        },
                        _ => {},
                    }
                } else if b[k + 1].token is LeftBracket {
                    match spec_collection_type(tt) {
                        Some(ct) => {
                            if k + 2 < b.len() {
                                assert(c[ll + k + 2] == b[k + 2]);
                            }
                            lemma_off_vector_items(x, b, k + 2, ct, Seq::empty());
                        },
                        None => {},
                    }
                }
            }
        }
    }
}

/// A statement in a suffix parses as in the suffix alone, with the end
/// position shifted.
pub proof fn lemma_off_statement(
    x: Seq<AnnotatedTokenModel>,
    b: Seq<AnnotatedTokenModel>,
    j: int,
)
    requires
        0 <= j,
    ensures
        spec_statement(x + b, x.len() + j) == (match spec_statement(b, j) {
            StmtStep::Stmt(st, e) => StmtStep::Stmt(st, x.len() + e),
            StmtStep::Fail => StmtStep::Fail,
        }),
{
    let c = x + b;
    let ll = x.len() as int;
    if j < b.len() {
        assert(c[ll + j] == b[j]);
        assert forall|w: int| 0 <= w < b.len() implies #[trigger] c[ll + w] == b[w] by {}
        match b[j].token {
            TokenModel::SetValue | TokenModel::SetIfNotExists | TokenModel::Update => {
                match spec_take_ident(b, j + 1) {
                    None => {},
                    Some((name, e1)) => {
                        lemma_off_take_value(x, b, e1);
                        match spec_take_value(b, e1) {
                            None => {},
                            Some((v, e2)) => {
                                lemma_take_value_bounds(b, e1);
                                lemma_off_stmt_end(x, b, e2);
                            },
                        }
                    },
                }
            },
            TokenModel::Lifetime => {
                match spec_take_ident(b, j + 1) {
                    None => {},
                    Some((name, e1)) => {
                        lemma_off_stmt_end(x, b, e1);
                    },
                }
            },
            _ => {},
        }
    }
}

/// Stripping semicolons in a suffix works as in the suffix alone.
pub proof fn lemma_off_strip(x: Seq<AnnotatedTokenModel>, b: Seq<AnnotatedTokenModel>, i: int)
    requires
        0 <= i,
    ensures
        spec_strip_semis(x + b, x.len() + i) == x.len() + spec_strip_semis(b, i),
    decreases b.len() - i,
{
    let c = x + b;
    let ll = x.len() as int;
    if 0 <= i < b.len() {
        assert(c[ll + i] == b[i]);
        if b[i].token is Semicolon {
            lemma_off_strip(x, b, i + 1);
        }
    }
}

/// Parsing a suffix of a token stream yields what parsing the suffix alone
/// yields.
pub proof fn lemma_off_parse(x: Seq<AnnotatedTokenModel>, b: Seq<AnnotatedTokenModel>, i: int)
    requires
        0 <= i <= b.len(),
    ensures
        spec_parse_from(x + b, x.len() + i) == spec_parse_from(b, i),
    decreases b.len() - i,
{
    let c = x + b;
    let ll = x.len() as int;
    lemma_off_strip(x, b, i);
    let j = spec_strip_semis(b, i);
    lemma_strip_semis_bounds(b, i);
    if j == b.len() {
    } else {
        lemma_off_statement(x, b, j);
        match spec_statement(b, j) {
            StmtStep::Fail => {},
            StmtStep::Stmt(st, e) => {
                if j < e <= b.len() {
                    lemma_off_parse(x, b, e);
                }
            },
        }
    }
}



/// When stripping runs to the end, everything from `i` on is a semicolon.
pub proof fn lemma_strip_all_semis(a: Seq<AnnotatedTokenModel>, i: int)
    requires
        0 <= i <= a.len(),
        spec_strip_semis(a, i) == a.len(),
    ensures
        forall|w: int| i <= w < a.len() ==> (#[trigger] a[w]).token is Semicolon,
    decreases a.len() - i,
{
    if i < a.len() {
        if a[i].token is Semicolon {
            lemma_strip_all_semis(a, i + 1);
        }
    }
}

/// Parsing a statement list, then at least one semicolon, then another
/// statement list, yields the two parses one after the other.
pub proof fn lemma_parse_concat(
    a: Seq<AnnotatedTokenModel>,
    semis: Seq<AnnotatedTokenModel>,
    b: Seq<AnnotatedTokenModel>,
    i: int,
)
    requires
        0 <= i <= a.len(),
        forall|w: int| 0 <= w < semis.len() ==> (#[trigger] semis[w]).token is Semicolon,
        semis.len() >= 1,
        spec_parse_from(a, i) is Some,
        spec_parse_from(b, 0) is Some,
    ensures
        spec_parse_from(a + semis + b, i) == Some(
            spec_parse_from(a, i)->Some_0 + spec_parse_from(b, 0)->Some_0,
        ),
    decreases a.len() - i,
{
    let x = a + semis;
    let c = x + b;
    let sb = spec_parse_from(b, 0)->Some_0;
    assert(extends_with_semi(a, c)) by {
        assert forall|w: int| 0 <= w < a.len() implies #[trigger] c[w] == a[w] by {
            assert(c[w] == x[w]);
            assert(x[w] == a[w]);
        }
        assert(c[a.len() as int] == semis[0]);
    }
    let j = spec_strip_semis(a, i);
    lemma_strip_semis_bounds(a, i);
    if j == a.len() {
        lemma_strip_all_semis(a, i);
        assert forall|w: int| i <= w < x.len() implies (#[trigger] c[w]).token is Semicolon by {
            if w < a.len() {
                assert(c[w] == a[w]);
            } else {
                assert(c[w] == x[w]);
                assert(x[w] == semis[w - a.len()]);
            }
        }
        lemma_strip_through(c, i, x.len() as int);
        lemma_off_strip(x, b, 0);
        lemma_off_parse(x, b, 0);
        let jc = spec_strip_semis(c, i);
        assert(jc == x.len() + spec_strip_semis(b, 0));
        lemma_strip_semis_bounds(b, 0);
        assert(spec_parse_from(c, i) == spec_parse_from(c, x.len() as int)) by {
            assert(spec_strip_semis(c, x.len() as int) == jc);
        }
        assert(spec_parse_from(a, i) == Some(Seq::<StatementModel>::empty()));
        assert(Seq::<StatementModel>::empty() + sb =~= sb);
    } else {
        lemma_ext_strip(a, c, i);
        match spec_statement(a, j) {
            StmtStep::Fail => {
                assert(spec_parse_from(a, i) is None);
            },
            StmtStep::Stmt(st, e) => {
                if !(j < e <= a.len()) {
                    assert(spec_parse_from(a, i) is None);
                } else {
                    lemma_ext_statement(a, c, j);
                    lemma_parse_concat(a, semis, b, e);
                    let rest = spec_parse_from(a, e)->Some_0;
                    assert(spec_parse_from(a, i) == Some(seq![st] + rest));
                    assert(spec_parse_from(c, i) == Some(seq![st] + (rest + sb)));
                    assert(seq![st] + (rest + sb) =~= (seq![st] + rest) + sb);
                }
            },
        }
    }
}

} // verus!
