use vstd::prelude::*;

verus! {

/// Basic tokens that a command might include.
///
/// The `set` keyword and the `none` literal scan to `SetValue` and
/// `NoneValue`; a float literal carries the text of its lexeme.
#[derive(Clone, Debug)]
pub enum Token {
    /// Get a value.
    Get,
    /// Set a value.
    SetValue,
    /// Delete a value.
    Delete,
    /// Check whether a value exists.
    Exists,
    /// Update an existing value.
    Update,
    /// Get or set lifetimes.
    Lifetime,
    /// Get only if it exists.
    GetOrNone,
    /// Set only if it does not exist yet.
    SetIfNotExists,
    /// The null value.
    NoneValue,
    /// Beginning of a list.
    LeftBracket,
    /// End of a list.
    RightBracket,
    /// Beginning of a map.
    LeftCurlyBracket,
    /// End of a map.
    RightCurlyBracket,
    /// A comma.
    Comma,
    /// A colon.
    Colon,
    /// A semicolon.
    Semicolon,
    /// Shut the server down.
    Shutdown,
    /// Map element set.
    MapSet,
    /// Vector element set.
    VectorSet,
    /// Map element get.
    MapGet,
    /// Vector element get.
    VectorGet,
    /// Vector append.
    VectorAppend,
    /// Map element delete.
    MapDelete,
    /// Vector pop.
    VectorPop,
    /// Vector length.
    VectorLength,
    /// Map length.
    MapLength,
    /// Check whether a key is in a map.
    MapExists,
    /// What kind of object something is.
    ValueType,
    /// Integer type.
    IntType,
    /// Float type.
    FloatType,
    /// String type.
    StringType,
    /// Vector type.
    VectorType,
    /// Map type.
    MapType,
    /// Bool type.
    BoolType,
    /// Boolean literal.
    Bool(bool),
    /// Integer literal.
    Integer(i64),
    /// Float literal, as the text of its lexeme.
    Float(String),
    /// String literal.
    StringValue(String),
    /// Identifier.
    Identifier(String),
}

/// The mathematical shape of a token: text payloads become character
/// sequences.
pub enum TokenModel {
    /// Get a value.
    Get,
    /// Set a value.
    SetValue,
    /// Delete a value.
    Delete,
    /// Check whether a value exists.
    Exists,
    /// Update an existing value.
    Update,
    /// Get or set lifetimes.
    Lifetime,
    /// Get only if it exists.
    GetOrNone,
    /// Set only if it does not exist yet.
    SetIfNotExists,
    /// The null value.
    NoneValue,
    /// Beginning of a list.
    LeftBracket,
    /// End of a list.
    RightBracket,
    /// Beginning of a map.
    LeftCurlyBracket,
    /// End of a map.
    RightCurlyBracket,
    /// A comma.
    Comma,
    /// A colon.
    Colon,
    /// A semicolon.
    Semicolon,
    /// Shut the server down.
    Shutdown,
    /// Map element set.
    MapSet,
    /// Vector element set.
    VectorSet,
    /// Map element get.
    MapGet,
    /// Vector element get.
    VectorGet,
    /// Vector append.
    VectorAppend,
    /// Map element delete.
    MapDelete,
    /// Vector pop.
    VectorPop,
    /// Vector length.
    VectorLength,
    /// Map length.
    MapLength,
    /// Check whether a key is in a map.
    MapExists,
    /// What kind of object something is.
    ValueType,
    /// Integer type.
    IntType,
    /// Float type.
    FloatType,
    /// String type.
    StringType,
    /// Vector type.
    VectorType,
    /// Map type.
    MapType,
    /// Bool type.
    BoolType,
    /// Boolean literal.
    Bool(bool),
    /// Integer literal.
    Integer(i64),
    /// Float literal, as the characters of its lexeme.
    Float(Seq<char>),
    /// String literal.
    StringValue(Seq<char>),
    /// Identifier.
    Identifier(Seq<char>),
}

impl View for Token {
    type V = TokenModel;

    open spec fn view(&self) -> TokenModel {
        match self {
            Token::Get => TokenModel::Get,
            Token::SetValue => TokenModel::SetValue,
            Token::Delete => TokenModel::Delete,
            Token::Exists => TokenModel::Exists,
            Token::Update => TokenModel::Update,
            Token::Lifetime => TokenModel::Lifetime,
            Token::GetOrNone => TokenModel::GetOrNone,
            Token::SetIfNotExists => TokenModel::SetIfNotExists,
            Token::NoneValue => TokenModel::NoneValue,
            Token::LeftBracket => TokenModel::LeftBracket,
            Token::RightBracket => TokenModel::RightBracket,
            Token::LeftCurlyBracket => TokenModel::LeftCurlyBracket,
            Token::RightCurlyBracket => TokenModel::RightCurlyBracket,
            Token::Comma => TokenModel::Comma,
            Token::Colon => TokenModel::Colon,
            Token::Semicolon => TokenModel::Semicolon,
            Token::Shutdown => TokenModel::Shutdown,
            Token::MapSet => TokenModel::MapSet,
            Token::VectorSet => TokenModel::VectorSet,
            Token::MapGet => TokenModel::MapGet,
            Token::VectorGet => TokenModel::VectorGet,
            Token::VectorAppend => TokenModel::VectorAppend,
            Token::MapDelete => TokenModel::MapDelete,
            Token::VectorPop => TokenModel::VectorPop,
            Token::VectorLength => TokenModel::VectorLength,
            Token::MapLength => TokenModel::MapLength,
            Token::MapExists => TokenModel::MapExists,
            Token::ValueType => TokenModel::ValueType,
            Token::IntType => TokenModel::IntType,
            Token::FloatType => TokenModel::FloatType,
            Token::StringType => TokenModel::StringType,
            Token::VectorType => TokenModel::VectorType,
            Token::MapType => TokenModel::MapType,
            Token::BoolType => TokenModel::BoolType,
            Token::Bool(b) => TokenModel::Bool(*b),
            Token::Integer(i) => TokenModel::Integer(*i),
            Token::Float(s) => TokenModel::Float(s@),
            Token::StringValue(s) => TokenModel::StringValue(s@),
            Token::Identifier(s) => TokenModel::Identifier(s@),
        }
    }
}

impl vstd::std_specs::cmp::PartialEqSpecImpl for Token {
    open spec fn obeys_eq_spec() -> bool {
        true
    }

    open spec fn eq_spec(&self, other: &Token) -> bool {
        self@ == other@
    }
}

impl PartialEq for Token {
    /// Tokens are equal when they have the same kind and the same payload.
    fn eq(&self, other: &Token) -> (r: bool) {
        match (self, other) {
            (Token::Get, Token::Get) => true,
            (Token::SetValue, Token::SetValue) => true,
            (Token::Delete, Token::Delete) => true,
            (Token::Exists, Token::Exists) => true,
            (Token::Update, Token::Update) => true,
            (Token::Lifetime, Token::Lifetime) => true,
            (Token::GetOrNone, Token::GetOrNone) => true,
            (Token::SetIfNotExists, Token::SetIfNotExists) => true,
            (Token::NoneValue, Token::NoneValue) => true,
            (Token::LeftBracket, Token::LeftBracket) => true,
            (Token::RightBracket, Token::RightBracket) => true,
            (Token::LeftCurlyBracket, Token::LeftCurlyBracket) => true,
            (Token::RightCurlyBracket, Token::RightCurlyBracket) => true,
            (Token::Comma, Token::Comma) => true,
            (Token::Colon, Token::Colon) => true,
            (Token::Semicolon, Token::Semicolon) => true,
            (Token::Shutdown, Token::Shutdown) => true,
            (Token::MapSet, Token::MapSet) => true,
            (Token::VectorSet, Token::VectorSet) => true,
            (Token::MapGet, Token::MapGet) => true,
            (Token::VectorGet, Token::VectorGet) => true,
            (Token::VectorAppend, Token::VectorAppend) => true,
            (Token::MapDelete, Token::MapDelete) => true,
            (Token::VectorPop, Token::VectorPop) => true,
            (Token::VectorLength, Token::VectorLength) => true,
            (Token::MapLength, Token::MapLength) => true,
            (Token::MapExists, Token::MapExists) => true,
            (Token::ValueType, Token::ValueType) => true,
            (Token::IntType, Token::IntType) => true,
            (Token::FloatType, Token::FloatType) => true,
            (Token::StringType, Token::StringType) => true,
            (Token::VectorType, Token::VectorType) => true,
            (Token::MapType, Token::MapType) => true,
            (Token::BoolType, Token::BoolType) => true,
            (Token::Bool(a), Token::Bool(b)) => *a == *b,
            (Token::Integer(a), Token::Integer(b)) => *a == *b,
            (Token::Float(a), Token::Float(b)) => *a == *b,
            (Token::StringValue(a), Token::StringValue(b)) => *a == *b,
            (Token::Identifier(a), Token::Identifier(b)) => *a == *b,
            _ => false,
        }
    }
}

/// The mathematical shape of an annotated token.
pub struct AnnotatedTokenModel {
    /// The token itself.
    pub token: TokenModel,
    /// Where in the command its lexeme starts.
    pub position: int,
    /// The characters of the lexeme.
    pub lexeme: Seq<char>,
}

/// A token together with its position and lexeme, for error reporting.
#[derive(Clone, Debug)]
pub struct AnnotatedToken {
    /// The token to process.
    pub token: Token,
    /// The position in the input.
    pub position: usize,
    /// The text of the scanned lexeme.
    pub lexeme: String,
}

impl View for AnnotatedToken {
    type V = AnnotatedTokenModel;

    open spec fn view(&self) -> AnnotatedTokenModel {
        AnnotatedTokenModel {
            token: self.token@,
            position: self.position as int,
            lexeme: self.lexeme@,
        }
    }
}

impl vstd::std_specs::cmp::PartialEqSpecImpl for AnnotatedToken {
    open spec fn obeys_eq_spec() -> bool {
        true
    }

    open spec fn eq_spec(&self, other: &AnnotatedToken) -> bool {
        self@ == other@
    }
}

impl PartialEq for AnnotatedToken {
    /// Annotated tokens are equal when token, position and lexeme agree.
    fn eq(&self, other: &AnnotatedToken) -> (r: bool) {
        self.token == other.token && self.position == other.position && self.lexeme == other.lexeme
    }
}

/// The token that a keyword scans to, if the word is a keyword.
pub open spec fn spec_keyword_token(w: Seq<char>) -> Option<Token> {
    if w == "get"@ {
        Some(Token::Get)
    } else if w == "set"@ {
        Some(Token::SetValue)
    } else if w == "del"@ {
        Some(Token::Delete)
    } else if w == "ex"@ {
        Some(Token::Exists)
    } else if w == "upd"@ {
        Some(Token::Update)
    } else if w == "lt"@ {
        Some(Token::Lifetime)
    } else if w == "try_get"@ {
        Some(Token::GetOrNone)
    } else if w == "try_set"@ {
        Some(Token::SetIfNotExists)
    } else if w == "none"@ {
        Some(Token::NoneValue)
    } else if w == "true"@ {
        Some(Token::Bool(true))
    } else if w == "false"@ {
        Some(Token::Bool(false))
    } else if w == "type"@ {
        Some(Token::ValueType)
    } else if w == "shutdown"@ {
        Some(Token::Shutdown)
    } else if w == "vset"@ {
        Some(Token::VectorSet)
    } else if w == "vget"@ {
        Some(Token::VectorGet)
    } else if w == "vpop"@ {
        Some(Token::VectorPop)
    } else if w == "vpush"@ {
        Some(Token::VectorAppend)
    } else if w == "vlen"@ {
        Some(Token::VectorLength)
    } else if w == "mex"@ {
        Some(Token::MapExists)
    } else if w == "mget"@ {
        Some(Token::MapGet)
    } else if w == "mset"@ {
        Some(Token::MapSet)
    } else if w == "mdel"@ {
        Some(Token::MapDelete)
    } else if w == "mlen"@ {
        Some(Token::MapLength)
    } else if w == "int"@ {
        Some(Token::IntType)
    } else if w == "float"@ {
        Some(Token::FloatType)
    } else if w == "str"@ {
        Some(Token::StringType)
    } else if w == "bool"@ {
        Some(Token::BoolType)
    } else if w == "vec"@ {
        Some(Token::VectorType)
    } else if w == "map"@ {
        Some(Token::MapType)
    } else {
        None
    }
}

/// Whether a word equals a literal.
pub fn word_is(word: &String, lit: &str) -> (r: bool)
    ensures
        r == (word@ == lit@),
{
    let other = lit.to_owned();
    *word == other
}

/// Look a word up in the keyword table.
pub fn keyword_token(word: &String) -> (r: Option<Token>)
    ensures
        r == spec_keyword_token(word@),
{
    if word_is(word, "get") {
        Some(Token::Get)
    } else if word_is(word, "set") {
        Some(Token::SetValue)
    } else if word_is(word, "del") {
        Some(Token::Delete)
    } else if word_is(word, "ex") {
        Some(Token::Exists)
    } else if word_is(word, "upd") {
        Some(Token::Update)
    } else if word_is(word, "lt") {
        Some(Token::Lifetime)
    } else if word_is(word, "try_get") {
        Some(Token::GetOrNone)
    } else if word_is(word, "try_set") {
        Some(Token::SetIfNotExists)
    } else if word_is(word, "none") {
        Some(Token::NoneValue)
    } else if word_is(word, "true") {
        Some(Token::Bool(true))
    } else if word_is(word, "false") {
        Some(Token::Bool(false))
    } else if word_is(word, "type") {
        Some(Token::ValueType)
    } else if word_is(word, "shutdown") {
        Some(Token::Shutdown)
    } else if word_is(word, "vset") {
        Some(Token::VectorSet)
    } else if word_is(word, "vget") {
        Some(Token::VectorGet)
    } else if word_is(word, "vpop") {
        Some(Token::VectorPop)
    } else if word_is(word, "vpush") {
        Some(Token::VectorAppend)
    } else if word_is(word, "vlen") {
        Some(Token::VectorLength)
    } else if word_is(word, "mex") {
        Some(Token::MapExists)
    } else if word_is(word, "mget") {
        Some(Token::MapGet)
    } else if word_is(word, "mset") {
        Some(Token::MapSet)
    } else if word_is(word, "mdel") {
        Some(Token::MapDelete)
    } else if word_is(word, "mlen") {
        Some(Token::MapLength)
    } else if word_is(word, "int") {
        Some(Token::IntType)
    } else if word_is(word, "float") {
        Some(Token::FloatType)
    } else if word_is(word, "str") {
        Some(Token::StringType)
    } else if word_is(word, "bool") {
        Some(Token::BoolType)
    } else if word_is(word, "vec") {
        Some(Token::VectorType)
    } else if word_is(word, "map") {
        Some(Token::MapType)
    } else {
        None
    }
}

/// Each keyword evaluates under [`spec_keyword_token`] to its own token.
proof fn lemma_keyword_table_sound()
    ensures
        spec_keyword_token("get"@) == Some(Token::Get),
        spec_keyword_token("set"@) == Some(Token::SetValue),
        spec_keyword_token("del"@) == Some(Token::Delete),
        spec_keyword_token("ex"@) == Some(Token::Exists),
        spec_keyword_token("upd"@) == Some(Token::Update),
        spec_keyword_token("lt"@) == Some(Token::Lifetime),
        spec_keyword_token("try_get"@) == Some(Token::GetOrNone),
        spec_keyword_token("try_set"@) == Some(Token::SetIfNotExists),
        spec_keyword_token("none"@) == Some(Token::NoneValue),
        spec_keyword_token("true"@) == Some(Token::Bool(true)),
        spec_keyword_token("false"@) == Some(Token::Bool(false)),
        spec_keyword_token("type"@) == Some(Token::ValueType),
        spec_keyword_token("shutdown"@) == Some(Token::Shutdown),
        spec_keyword_token("vset"@) == Some(Token::VectorSet),
        spec_keyword_token("vget"@) == Some(Token::VectorGet),
        spec_keyword_token("vpop"@) == Some(Token::VectorPop),
        spec_keyword_token("vpush"@) == Some(Token::VectorAppend),
        spec_keyword_token("vlen"@) == Some(Token::VectorLength),
        spec_keyword_token("mex"@) == Some(Token::MapExists),
        spec_keyword_token("mget"@) == Some(Token::MapGet),
        spec_keyword_token("mset"@) == Some(Token::MapSet),
        spec_keyword_token("mdel"@) == Some(Token::MapDelete),
        spec_keyword_token("mlen"@) == Some(Token::MapLength),
        spec_keyword_token("int"@) == Some(Token::IntType),
        spec_keyword_token("float"@) == Some(Token::FloatType),
        spec_keyword_token("str"@) == Some(Token::StringType),
        spec_keyword_token("bool"@) == Some(Token::BoolType),
        spec_keyword_token("vec"@) == Some(Token::VectorType),
        spec_keyword_token("map"@) == Some(Token::MapType),
{
    reveal_strlit("get");
    reveal_strlit("set");
    reveal_strlit("del");
    reveal_strlit("ex");
    reveal_strlit("upd");
    reveal_strlit("lt");
    reveal_strlit("try_get");
    reveal_strlit("try_set");
    reveal_strlit("none");
    reveal_strlit("true");
    reveal_strlit("false");
    reveal_strlit("type");
    reveal_strlit("shutdown");
    reveal_strlit("vset");
    reveal_strlit("vget");
    reveal_strlit("vpop");
    reveal_strlit("vpush");
    reveal_strlit("vlen");
    reveal_strlit("mex");
    reveal_strlit("mget");
    reveal_strlit("mset");
    reveal_strlit("mdel");
    reveal_strlit("mlen");
    reveal_strlit("int");
    reveal_strlit("float");
    reveal_strlit("str");
    reveal_strlit("bool");
    reveal_strlit("vec");
    reveal_strlit("map");
    assert("get"@.len() == 3);
    assert("set"@.len() == 3);
    assert("del"@.len() == 3);
    assert("ex"@.len() == 2);
    assert("upd"@.len() == 3);
    assert("lt"@.len() == 2);
    assert("try_get"@.len() == 7);
    assert("try_set"@.len() == 7);
    assert("none"@.len() == 4);
    assert("true"@.len() == 4);
    assert("false"@.len() == 5);
    assert("type"@.len() == 4);
    assert("shutdown"@.len() == 8);
    assert("vset"@.len() == 4);
    assert("vget"@.len() == 4);
    assert("vpop"@.len() == 4);
    assert("vpush"@.len() == 5);
    assert("vlen"@.len() == 4);
    assert("mex"@.len() == 3);
    assert("mget"@.len() == 4);
    assert("mset"@.len() == 4);
    assert("mdel"@.len() == 4);
    assert("mlen"@.len() == 4);
    assert("int"@.len() == 3);
    assert("float"@.len() == 5);
    assert("str"@.len() == 3);
    assert("bool"@.len() == 4);
    assert("vec"@.len() == 3);
    assert("map"@.len() == 3);
    assert("set"@[0] != "get"@[0]);
    assert("del"@[0] != "get"@[0]);
    assert("del"@[0] != "set"@[0]);
    assert("upd"@[0] != "get"@[0]);
    assert("upd"@[0] != "set"@[0]);
    assert("upd"@[0] != "del"@[0]);
    assert("lt"@[0] != "ex"@[0]);
    assert("try_set"@[4] != "try_get"@[4]);
    assert("true"@[0] != "none"@[0]);
    assert("type"@[0] != "none"@[0]);
    assert("type"@[1] != "true"@[1]);
    assert("vset"@[0] != "none"@[0]);
    assert("vset"@[0] != "true"@[0]);
    assert("vset"@[0] != "type"@[0]);
    assert("vget"@[0] != "none"@[0]);
    assert("vget"@[0] != "true"@[0]);
    assert("vget"@[0] != "type"@[0]);
    assert("vget"@[1] != "vset"@[1]);
    assert("vpop"@[0] != "none"@[0]);
    assert("vpop"@[0] != "true"@[0]);
    assert("vpop"@[0] != "type"@[0]);
    assert("vpop"@[1] != "vset"@[1]);
    assert("vpop"@[1] != "vget"@[1]);
    assert("vpush"@[0] != "false"@[0]);
    assert("vlen"@[0] != "none"@[0]);
    assert("vlen"@[0] != "true"@[0]);
    assert("vlen"@[0] != "type"@[0]);
    assert("vlen"@[1] != "vset"@[1]);
    assert("vlen"@[1] != "vget"@[1]);
    assert("vlen"@[1] != "vpop"@[1]);
    assert("mex"@[0] != "get"@[0]);
    assert("mex"@[0] != "set"@[0]);
    assert("mex"@[0] != "del"@[0]);
    assert("mex"@[0] != "upd"@[0]);
    assert("mget"@[0] != "none"@[0]);
    assert("mget"@[0] != "true"@[0]);
    assert("mget"@[0] != "type"@[0]);
    assert("mget"@[0] != "vset"@[0]);
    assert("mget"@[0] != "vget"@[0]);
    assert("mget"@[0] != "vpop"@[0]);
    assert("mget"@[0] != "vlen"@[0]);
    assert("mset"@[0] != "none"@[0]);
    assert("mset"@[0] != "true"@[0]);
    assert("mset"@[0] != "type"@[0]);
    assert("mset"@[0] != "vset"@[0]);
    assert("mset"@[0] != "vget"@[0]);
    assert("mset"@[0] != "vpop"@[0]);
    assert("mset"@[0] != "vlen"@[0]);
    assert("mset"@[1] != "mget"@[1]);
    assert("mdel"@[0] != "none"@[0]);
    assert("mdel"@[0] != "true"@[0]);
    assert("mdel"@[0] != "type"@[0]);
    assert("mdel"@[0] != "vset"@[0]);
    assert("mdel"@[0] != "vget"@[0]);
    assert("mdel"@[0] != "vpop"@[0]);
    assert("mdel"@[0] != "vlen"@[0]);
    assert("mdel"@[1] != "mget"@[1]);
    assert("mdel"@[1] != "mset"@[1]);
    assert("mlen"@[0] != "none"@[0]);
    assert("mlen"@[0] != "true"@[0]);
    assert("mlen"@[0] != "type"@[0]);
    assert("mlen"@[0] != "vset"@[0]);
    assert("mlen"@[0] != "vget"@[0]);
    assert("mlen"@[0] != "vpop"@[0]);
    assert("mlen"@[0] != "vlen"@[0]);
    assert("mlen"@[1] != "mget"@[1]);
    assert("mlen"@[1] != "mset"@[1]);
    assert("mlen"@[1] != "mdel"@[1]);
    assert("int"@[0] != "get"@[0]);
    assert("int"@[0] != "set"@[0]);
    assert("int"@[0] != "del"@[0]);
    assert("int"@[0] != "upd"@[0]);
    assert("int"@[0] != "mex"@[0]);
    assert("float"@[1] != "false"@[1]);
    assert("float"@[0] != "vpush"@[0]);
    assert("str"@[0] != "get"@[0]);
    assert("str"@[1] != "set"@[1]);
    assert("str"@[0] != "del"@[0]);
    assert("str"@[0] != "upd"@[0]);
    assert("str"@[0] != "mex"@[0]);
    assert("str"@[0] != "int"@[0]);
    assert("bool"@[0] != "none"@[0]);
    assert("bool"@[0] != "true"@[0]);
    assert("bool"@[0] != "type"@[0]);
    assert("bool"@[0] != "vset"@[0]);
    assert("bool"@[0] != "vget"@[0]);
    assert("bool"@[0] != "vpop"@[0]);
    assert("bool"@[0] != "vlen"@[0]);
    assert("bool"@[0] != "mget"@[0]);
    assert("bool"@[0] != "mset"@[0]);
    assert("bool"@[0] != "mdel"@[0]);
    assert("bool"@[0] != "mlen"@[0]);
    assert("vec"@[0] != "get"@[0]);
    assert("vec"@[0] != "set"@[0]);
    assert("vec"@[0] != "del"@[0]);
    assert("vec"@[0] != "upd"@[0]);
    assert("vec"@[0] != "mex"@[0]);
    assert("vec"@[0] != "int"@[0]);
    assert("vec"@[0] != "str"@[0]);
    assert("map"@[0] != "get"@[0]);
    assert("map"@[0] != "set"@[0]);
    assert("map"@[0] != "del"@[0]);
    assert("map"@[0] != "upd"@[0]);
    assert("map"@[1] != "mex"@[1]);
    assert("map"@[0] != "int"@[0]);
    assert("map"@[0] != "str"@[0]);
    assert("map"@[0] != "vec"@[0]);
}

/// The table from keywords to their tokens: exactly the words the
/// tokenizer knows, each with the token it scans to.
pub fn get_word_to_token_map() -> (r: Vec<(String, Token)>)
    ensures
        r@.len() == 29,
        r@[0].0@ == "get"@ && r@[0].1 == Token::Get,
        r@[1].0@ == "set"@ && r@[1].1 == Token::SetValue,
        r@[2].0@ == "del"@ && r@[2].1 == Token::Delete,
        r@[3].0@ == "ex"@ && r@[3].1 == Token::Exists,
        r@[4].0@ == "upd"@ && r@[4].1 == Token::Update,
        r@[5].0@ == "lt"@ && r@[5].1 == Token::Lifetime,
        r@[6].0@ == "try_get"@ && r@[6].1 == Token::GetOrNone,
        r@[7].0@ == "try_set"@ && r@[7].1 == Token::SetIfNotExists,
        r@[8].0@ == "none"@ && r@[8].1 == Token::NoneValue,
        r@[9].0@ == "true"@ && r@[9].1 == Token::Bool(true),
        r@[10].0@ == "false"@ && r@[10].1 == Token::Bool(false),
        r@[11].0@ == "type"@ && r@[11].1 == Token::ValueType,
        r@[12].0@ == "shutdown"@ && r@[12].1 == Token::Shutdown,
        r@[13].0@ == "vset"@ && r@[13].1 == Token::VectorSet,
        r@[14].0@ == "vget"@ && r@[14].1 == Token::VectorGet,
        r@[15].0@ == "vpop"@ && r@[15].1 == Token::VectorPop,
        r@[16].0@ == "vpush"@ && r@[16].1 == Token::VectorAppend,
        r@[17].0@ == "vlen"@ && r@[17].1 == Token::VectorLength,
        r@[18].0@ == "mex"@ && r@[18].1 == Token::MapExists,
        r@[19].0@ == "mget"@ && r@[19].1 == Token::MapGet,
        r@[20].0@ == "mset"@ && r@[20].1 == Token::MapSet,
        r@[21].0@ == "mdel"@ && r@[21].1 == Token::MapDelete,
        r@[22].0@ == "mlen"@ && r@[22].1 == Token::MapLength,
        r@[23].0@ == "int"@ && r@[23].1 == Token::IntType,
        r@[24].0@ == "float"@ && r@[24].1 == Token::FloatType,
        r@[25].0@ == "str"@ && r@[25].1 == Token::StringType,
        r@[26].0@ == "bool"@ && r@[26].1 == Token::BoolType,
        r@[27].0@ == "vec"@ && r@[27].1 == Token::VectorType,
        r@[28].0@ == "map"@ && r@[28].1 == Token::MapType,
        forall|i: int|
            0 <= i < r@.len() ==> spec_keyword_token((#[trigger] r@[i]).0@) == Some(r@[i].1),
{
    let mut out: Vec<(String, Token)> = Vec::new();
    out.push((String::from_str("get"), Token::Get));
    out.push((String::from_str("set"), Token::SetValue));
    out.push((String::from_str("del"), Token::Delete));
    out.push((String::from_str("ex"), Token::Exists));
    out.push((String::from_str("upd"), Token::Update));
    out.push((String::from_str("lt"), Token::Lifetime));
    out.push((String::from_str("try_get"), Token::GetOrNone));
    out.push((String::from_str("try_set"), Token::SetIfNotExists));
    out.push((String::from_str("none"), Token::NoneValue));
    out.push((String::from_str("true"), Token::Bool(true)));
    out.push((String::from_str("false"), Token::Bool(false)));
    out.push((String::from_str("type"), Token::ValueType));
    out.push((String::from_str("shutdown"), Token::Shutdown));
    out.push((String::from_str("vset"), Token::VectorSet));
    out.push((String::from_str("vget"), Token::VectorGet));
    out.push((String::from_str("vpop"), Token::VectorPop));
    out.push((String::from_str("vpush"), Token::VectorAppend));
    out.push((String::from_str("vlen"), Token::VectorLength));
    out.push((String::from_str("mex"), Token::MapExists));
    out.push((String::from_str("mget"), Token::MapGet));
    out.push((String::from_str("mset"), Token::MapSet));
    out.push((String::from_str("mdel"), Token::MapDelete));
    out.push((String::from_str("mlen"), Token::MapLength));
    out.push((String::from_str("int"), Token::IntType));
    out.push((String::from_str("float"), Token::FloatType));
    out.push((String::from_str("str"), Token::StringType));
    out.push((String::from_str("bool"), Token::BoolType));
    out.push((String::from_str("vec"), Token::VectorType));
    out.push((String::from_str("map"), Token::MapType));
    proof {
        assert forall|i: int|
            0 <= i < out@.len() implies spec_keyword_token((#[trigger] out@[i]).0@) == Some(
            out@[i].1,
        ) by {
            lemma_keyword_table_sound();
            if i == 0 {
                assert(spec_keyword_token("get"@) == Some(Token::Get));
            } else if i == 1 {
                assert(spec_keyword_token("set"@) == Some(Token::SetValue));
            } else if i == 2 {
                assert(spec_keyword_token("del"@) == Some(Token::Delete));
            } else if i == 3 {
                assert(spec_keyword_token("ex"@) == Some(Token::Exists));
            } else if i == 4 {
                assert(spec_keyword_token("upd"@) == Some(Token::Update));
            } else if i == 5 {
                assert(spec_keyword_token("lt"@) == Some(Token::Lifetime));
            } else if i == 6 {
                assert(spec_keyword_token("try_get"@) == Some(Token::GetOrNone));
            } else if i == 7 {
                assert(spec_keyword_token("try_set"@) == Some(Token::SetIfNotExists));
            } else if i == 8 {
                assert(spec_keyword_token("none"@) == Some(Token::NoneValue));
            } else if i == 9 {
                assert(spec_keyword_token("true"@) == Some(Token::Bool(true)));
            } else if i == 10 {
                assert(spec_keyword_token("false"@) == Some(Token::Bool(false)));
            } else if i == 11 {
                assert(spec_keyword_token("type"@) == Some(Token::ValueType));
            } else if i == 12 {
                assert(spec_keyword_token("shutdown"@) == Some(Token::Shutdown));
            } else if i == 13 {
                assert(spec_keyword_token("vset"@) == Some(Token::VectorSet));
            } else if i == 14 {
                assert(spec_keyword_token("vget"@) == Some(Token::VectorGet));
            } else if i == 15 {
                assert(spec_keyword_token("vpop"@) == Some(Token::VectorPop));
            } else if i == 16 {
                assert(spec_keyword_token("vpush"@) == Some(Token::VectorAppend));
            } else if i == 17 {
                assert(spec_keyword_token("vlen"@) == Some(Token::VectorLength));
            } else if i == 18 {
                assert(spec_keyword_token("mex"@) == Some(Token::MapExists));
            } else if i == 19 {
                assert(spec_keyword_token("mget"@) == Some(Token::MapGet));
            } else if i == 20 {
                assert(spec_keyword_token("mset"@) == Some(Token::MapSet));
            } else if i == 21 {
                assert(spec_keyword_token("mdel"@) == Some(Token::MapDelete));
            } else if i == 22 {
                assert(spec_keyword_token("mlen"@) == Some(Token::MapLength));
            } else if i == 23 {
                assert(spec_keyword_token("int"@) == Some(Token::IntType));
            } else if i == 24 {
                assert(spec_keyword_token("float"@) == Some(Token::FloatType));
            } else if i == 25 {
                assert(spec_keyword_token("str"@) == Some(Token::StringType));
            } else if i == 26 {
                assert(spec_keyword_token("bool"@) == Some(Token::BoolType));
            } else if i == 27 {
                assert(spec_keyword_token("vec"@) == Some(Token::VectorType));
            } else if i == 28 {
                assert(spec_keyword_token("map"@) == Some(Token::MapType));
            }
        }
    }
    out
}

} // verus!
