use vstd::prelude::*;

use crate::types::{value_model, StorageValue, ValueModel};

verus! {

/// A single parsed operation, keyed by the entry it addresses.
///
/// The statement that writes a value is `SetValue`, scanned from the `set`
/// keyword.
#[derive(Clone, Debug)]
pub enum Statement {
    /// Get a value.
    Get(String),
    /// Set a value, with an optional lifetime in seconds.
    SetValue(String, StorageValue, Option<u64>),
    /// Update an existing value, with an optional lifetime in seconds.
    Update(String, StorageValue, Option<u64>),
    /// See whether a key exists already.
    Exists(String),
    /// Delete a value.
    Delete(String),
    /// Get the remaining lifetime of a value.
    GetLifetime(String),
    /// Update the lifetime of a value.
    UpdateLifetime(String, Option<u64>),
    /// Get a value if it exists, else nothing.
    GetIfExists(String),
    /// Set a value only when the key is still free.
    SetIfNotExists(String, StorageValue, Option<u64>),
    /// Get one element of a vector.
    VectorGet(String, usize),
    /// Set one element of a vector.
    VectorSet(String, usize, StorageValue),
    /// Push a value onto the end of a vector.
    VectorAppend(String, StorageValue),
    /// Pop the last value off a vector.
    VectorPop(String),
    /// Get the length of a vector.
    VectorLength(String),
    /// Get one element of a map.
    MapGet(String, StorageValue),
    /// Set one element of a map.
    MapSet(String, StorageValue, StorageValue),
    /// Delete one element of a map.
    MapDelete(String, StorageValue),
    /// Get the number of elements in a map.
    MapLength(String),
    /// See whether an element exists in a map.
    MapExists(String, StorageValue),
    /// Get the type of a value.
    ValueType(String),
    /// Run one step of the expiration policy.
    ExpireKeys,
    /// Shut the server down.
    Shutdown,
    /// Do nothing.
    Null,
}

/// The mathematical shape of a statement.
pub enum StatementModel {
    /// Get a value.
    Get(Seq<char>),
    /// Set a value, with an optional lifetime in seconds.
    SetValue(Seq<char>, ValueModel, Option<u64>),
    /// Update an existing value, with an optional lifetime in seconds.
    Update(Seq<char>, ValueModel, Option<u64>),
    /// See whether a key exists already.
    Exists(Seq<char>),
    /// Delete a value.
    Delete(Seq<char>),
    /// Get the remaining lifetime of a value.
    GetLifetime(Seq<char>),
    /// Update the lifetime of a value.
    UpdateLifetime(Seq<char>, Option<u64>),
    /// Get a value if it exists, else nothing.
    GetIfExists(Seq<char>),
    /// Set a value only when the key is still free.
    SetIfNotExists(Seq<char>, ValueModel, Option<u64>),
    /// Get one element of a vector.
    VectorGet(Seq<char>, int),
    /// Set one element of a vector.
    VectorSet(Seq<char>, int, ValueModel),
    /// Push a value onto the end of a vector.
    VectorAppend(Seq<char>, ValueModel),
    /// Pop the last value off a vector.
    VectorPop(Seq<char>),
    /// Get the length of a vector.
    VectorLength(Seq<char>),
    /// Get one element of a map.
    MapGet(Seq<char>, ValueModel),
    /// Set one element of a map.
    MapSet(Seq<char>, ValueModel, ValueModel),
    /// Delete one element of a map.
    MapDelete(Seq<char>, ValueModel),
    /// Get the number of elements in a map.
    MapLength(Seq<char>),
    /// See whether an element exists in a map.
    MapExists(Seq<char>, ValueModel),
    /// Get the type of a value.
    ValueType(Seq<char>),
    /// Run one step of the expiration policy.
    ExpireKeys,
    /// Shut the server down.
    Shutdown,
    /// Do nothing.
    Null,
}

impl View for Statement {
    type V = StatementModel;

    open spec fn view(&self) -> StatementModel {
        match self {
            Statement::Get(k) => StatementModel::Get(k@),
            Statement::SetValue(k, v, lt) => StatementModel::SetValue(k@, value_model(*v), *lt),
            Statement::Update(k, v, lt) => StatementModel::Update(k@, value_model(*v), *lt),
            Statement::Exists(k) => StatementModel::Exists(k@),
            Statement::Delete(k) => StatementModel::Delete(k@),
            Statement::GetLifetime(k) => StatementModel::GetLifetime(k@),
            Statement::UpdateLifetime(k, lt) => StatementModel::UpdateLifetime(k@, *lt),
            Statement::GetIfExists(k) => StatementModel::GetIfExists(k@),
            Statement::SetIfNotExists(k, v, lt) => StatementModel::SetIfNotExists(
                k@,
                value_model(*v),
                *lt,
            ),
            Statement::VectorGet(k, i) => StatementModel::VectorGet(k@, *i as int),
            Statement::VectorSet(k, i, v) => StatementModel::VectorSet(
                k@,
                *i as int,
                value_model(*v),
            ),
            Statement::VectorAppend(k, v) => StatementModel::VectorAppend(k@, value_model(*v)),
            Statement::VectorPop(k) => StatementModel::VectorPop(k@),
            Statement::VectorLength(k) => StatementModel::VectorLength(k@),
            Statement::MapGet(k, mk) => StatementModel::MapGet(k@, value_model(*mk)),
            Statement::MapSet(k, mk, v) => StatementModel::MapSet(
                k@,
                value_model(*mk),
                value_model(*v),
            ),
            Statement::MapDelete(k, mk) => StatementModel::MapDelete(k@, value_model(*mk)),
            Statement::MapLength(k) => StatementModel::MapLength(k@),
            Statement::MapExists(k, mk) => StatementModel::MapExists(k@, value_model(*mk)),
            Statement::ValueType(k) => StatementModel::ValueType(k@),
            Statement::ExpireKeys => StatementModel::ExpireKeys,
            Statement::Shutdown => StatementModel::Shutdown,
            Statement::Null => StatementModel::Null,
        }
    }
}

/// Whether a statement mutates the store or the server when run.
pub open spec fn is_mutating_statement(s: StatementModel) -> bool {
    ||| s is SetValue
    ||| s is Update
    ||| s is Delete
    ||| s is UpdateLifetime
    ||| s is SetIfNotExists
    ||| s is VectorSet
    ||| s is VectorAppend
    ||| s is VectorPop
    ||| s is MapSet
    ||| s is MapDelete
}

} // verus!
