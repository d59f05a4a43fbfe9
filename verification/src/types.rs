use vstd::prelude::*;

use crate::error::ServerError;

verus! {

broadcast use vstd::std_specs::vec::group_vec_axioms;

/// Types of keys that can be used in a map.
#[derive(Clone, Copy, Debug)]
pub enum KeyType {
    /// A string key.
    String,
    /// An integer key.
    Int,
}

/// Types of values that can be held in collections (maps and vectors).
#[derive(Clone, Copy, Debug)]
pub enum CollectionType {
    /// A collection of booleans.
    Bool,
    /// A collection of strings.
    String,
    /// A collection of integers.
    Int,
    /// A collection of floats.
    Float,
}

/// The types of values supported by the database.
///
/// A float is carried as its literal text, exactly as it was scanned; the
/// grammar of accepted literals is checked by the tokenizer. Floats compare
/// by bit identity of the value the text parses to, and no arithmetic ever
/// reads the digits.
#[derive(Debug)]
pub enum StorageValue {
    /// A key that exists but holds no information.
    Null,
    /// A boolean value.
    Bool(bool),
    /// A single string.
    String(String),
    /// An integer.
    Int(i64),
    /// A float, as the text of its literal.
    Float(String),
    /// A vector of scalars of one declared type.
    Vector(StorageVector),
    /// A map from scalar keys to scalar values of declared types.
    Mapping(StorageMap),
}

/// A vector object that can be saved in the key value store.
#[derive(Debug)]
pub struct StorageVector {
    /// The raw vector of elements.
    pub vector: Vec<StorageValue>,
    /// The type of data held in the vector.
    pub collection_type: CollectionType,
}

/// A map object that can be saved in the key value store.
///
/// Entries are held as an association vector in insertion order; the
/// well-formedness condition [`StorageMap::wf`] keeps the keys distinct, so
/// the vector denotes a mapping.
#[derive(Debug)]
pub struct StorageMap {
    /// The key/value entries, in insertion order, with distinct keys.
    pub entries: Vec<(StorageValue, StorageValue)>,
    /// The type of key to be used.
    pub key_type: KeyType,
    /// The type of data held in the map.
    pub collection_type: CollectionType,
}

/// The mathematical shape of a stored value: strings become character
/// sequences, collections become sequences of element models.
pub enum ValueModel {
    /// A key that exists but holds no information.
    Null,
    /// A boolean value.
    Bool(bool),
    /// A string value.
    Str(Seq<char>),
    /// An integer value.
    Int(i64),
    /// A float value, as the characters of its literal.
    Float(Seq<char>),
    /// A vector with its element type and elements in order.
    Vector(CollectionType, Seq<ValueModel>),
    /// A map with its key type, element type and entries in insertion order.
    Mapping(KeyType, CollectionType, Seq<(ValueModel, ValueModel)>),
}

/// The model of a stored value.
pub open spec fn value_model(v: StorageValue) -> ValueModel
    decreases v,
{
    match v {
        StorageValue::Null => ValueModel::Null,
        StorageValue::Bool(b) => ValueModel::Bool(b),
        StorageValue::String(s) => ValueModel::Str(s@),
        StorageValue::Int(i) => ValueModel::Int(i),
        StorageValue::Float(s) => ValueModel::Float(s@),
        StorageValue::Vector(sv) => ValueModel::Vector(
            sv.collection_type,
            Seq::new(
                sv.vector@.len(),
                |i: int|
                    {
                        if 0 <= i < sv.vector@.len() {
                            value_model(sv.vector@[i])
                        } else {
                            ValueModel::Null
                        }
                    },
            ),
        ),
        StorageValue::Mapping(sm) => ValueModel::Mapping(
            sm.key_type,
            sm.collection_type,
            Seq::new(
                sm.entries@.len(),
                |i: int|
                    {
                        if 0 <= i < sm.entries@.len() {
                            (value_model(sm.entries@[i].0), value_model(sm.entries@[i].1))
                        } else {
                            (ValueModel::Null, ValueModel::Null)
                        }
                    },
            ),
        ),
    }
}

impl View for StorageValue {
    type V = ValueModel;

    open spec fn view(&self) -> ValueModel {
        value_model(*self)
    }
}

impl View for StorageVector {
    type V = Seq<ValueModel>;

    open spec fn view(&self) -> Seq<ValueModel> {
        Seq::new(
            self.vector@.len(),
            |i: int|
                {
                    if 0 <= i < self.vector@.len() {
                        value_model(self.vector@[i])
                    } else {
                        ValueModel::Null
                    }
                },
        )
    }
}

impl View for StorageMap {
    type V = Seq<(ValueModel, ValueModel)>;

    open spec fn view(&self) -> Seq<(ValueModel, ValueModel)> {
        Seq::new(
            self.entries@.len(),
            |i: int|
                {
                    if 0 <= i < self.entries@.len() {
                        (value_model(self.entries@[i].0), value_model(self.entries@[i].1))
                    } else {
                        (ValueModel::Null, ValueModel::Null)
                    }
                },
        )
    }
}

/// The bit pattern of the floating point value a float literal parses to;
/// it depends on the characters alone.
pub uninterp spec fn float_bits_of(s: Seq<char>) -> u64;

/// Relies on `str::parse` to std's double-width floating point type and
/// its `to_bits`. Verus gives floating point no meaning, so the type is
/// reached through inference alone: the zero fallback comes from
/// `serde_json::Number`, and a text that does not parse maps to the bits
/// of that zero. Stored floats carry only validated literals, which always
/// parse. The bit pattern depends on the characters alone.
#[verifier::external_body]
fn float_bits(s: &str) -> (r: u64)
    ensures
        r == float_bits_of(s@),
{
    let zero = serde_json::Number::from(0u8).as_f64().unwrap_or_default();
    s.parse().unwrap_or(zero).to_bits()
}

/// Equality as the database defines it: booleans, integers and strings
/// compare by their payloads; floats compare by bit identity of the value
/// their literal parses to; nulls, vectors and maps are unequal even to
/// themselves.
pub open spec fn value_eq(a: ValueModel, b: ValueModel) -> bool {
    match (a, b) {
        (ValueModel::Bool(x), ValueModel::Bool(y)) => x == y,
        (ValueModel::Int(x), ValueModel::Int(y)) => x == y,
        (ValueModel::Str(x), ValueModel::Str(y)) => x == y,
        (ValueModel::Float(x), ValueModel::Float(y)) => float_bits_of(x) == float_bits_of(y),
        _ => false,
    }
}

impl vstd::std_specs::cmp::PartialEqSpecImpl for StorageValue {
    open spec fn obeys_eq_spec() -> bool {
        true
    }

    open spec fn eq_spec(&self, other: &StorageValue) -> bool {
        value_eq(self@, other@)
    }
}

impl PartialEq for StorageValue {
    /// Equality is defined for booleans, integers and strings by payload,
    /// and for floats by bit identity of the parsed value; nulls, vectors
    /// and maps compare unequal.
    fn eq(&self, other: &StorageValue) -> (r: bool) {
        match (self, other) {
            (StorageValue::Bool(x), StorageValue::Bool(y)) => *x == *y,
            (StorageValue::Int(x), StorageValue::Int(y)) => *x == *y,
            (StorageValue::String(x), StorageValue::String(y)) => *x == *y,
            (StorageValue::Float(x), StorageValue::Float(y)) => float_bits(x.as_str())
                == float_bits(y.as_str()),
            _ => false,
        }
    }
}

/// Whether a value model is a scalar of the given collection element type.
pub open spec fn scalar_matches(m: ValueModel, collection_type: CollectionType) -> bool {
    match collection_type {
        CollectionType::Bool => m is Bool,
        CollectionType::Int => m is Int,
        CollectionType::String => m is Str,
        CollectionType::Float => m is Float,
    }
}

/// Whether a value model is a scalar of the given map key type.
pub open spec fn key_matches(m: ValueModel, key_type: KeyType) -> bool {
    match key_type {
        KeyType::Int => m is Int,
        KeyType::String => m is Str,
    }
}

/// Whether a map's entry sequence holds a key equal to `k`.
pub open spec fn map_has_key(entries: Seq<(ValueModel, ValueModel)>, k: ValueModel) -> bool {
    exists|i: int| 0 <= i < entries.len() && value_eq(entries[i].0, k)
}

/// The index of the entry whose key equals `k`.
pub open spec fn map_key_index(entries: Seq<(ValueModel, ValueModel)>, k: ValueModel) -> int {
    choose|i: int| 0 <= i < entries.len() && value_eq(entries[i].0, k)
}

/// The value stored under key `k`, if any.
pub open spec fn map_lookup(entries: Seq<(ValueModel, ValueModel)>, k: ValueModel) -> Option<
    ValueModel,
> {
    if map_has_key(entries, k) {
        Some(entries[map_key_index(entries, k)].1)
    } else {
        None
    }
}

/// Entry keys are pairwise unequal.
pub open spec fn map_keys_distinct(entries: Seq<(ValueModel, ValueModel)>) -> bool {
    forall|i: int, j: int|
        0 <= i < entries.len() && 0 <= j < entries.len() && i != j ==> !value_eq(
            entries[i].0,
            entries[j].0,
        )
}

/// A well-formed vector body: every element is a scalar of the declared type.
pub open spec fn vector_body_wf(collection_type: CollectionType, els: Seq<ValueModel>) -> bool {
    forall|i: int| 0 <= i < els.len() ==> scalar_matches(#[trigger] els[i], collection_type)
}

/// A well-formed map body: keys and values match the declared types and the
/// keys are pairwise distinct.
pub open spec fn mapping_body_wf(
    key_type: KeyType,
    collection_type: CollectionType,
    entries: Seq<(ValueModel, ValueModel)>,
) -> bool {
    &&& forall|i: int| 0 <= i < entries.len() ==> key_matches(#[trigger] entries[i].0, key_type)
    &&& forall|i: int|
        0 <= i < entries.len() ==> scalar_matches(#[trigger] entries[i].1, collection_type)
    &&& map_keys_distinct(entries)
}

/// A well-formed value: collections hold scalars of their declared types, and
/// map keys are distinct and of the declared key type.
pub open spec fn value_wf(m: ValueModel) -> bool {
    match m {
        ValueModel::Vector(collection_type, els) => vector_body_wf(collection_type, els),
        ValueModel::Mapping(key_type, collection_type, entries) => mapping_body_wf(
            key_type,
            collection_type,
            entries,
        ),
        _ => true,
    }
}

/// Two keys equal to the same key are equal to each other.
pub proof fn lemma_value_eq_joins(a: ValueModel, b: ValueModel, k: ValueModel)
    requires
        value_eq(a, k),
        value_eq(b, k),
    ensures
        value_eq(a, b),
        value_eq(b, a),
{
}


/// The nesting depth of a value model; collections are one deeper than the
/// deepest thing they hold. Serves as the termination measure for walks over
/// values.
pub open spec fn model_depth(m: ValueModel) -> nat
    decreases m,
{
    match m {
        ValueModel::Vector(_, els) => 1 + seq_model_depth(els),
        ValueModel::Mapping(_, _, entries) => 1 + pairs_model_depth(entries),
        _ => 0,
    }
}

/// The largest depth of any element of the sequence.
pub open spec fn seq_model_depth(els: Seq<ValueModel>) -> nat
    decreases els,
{
    if els.len() == 0 {
        0
    } else {
        let first = model_depth(els.first());
        let rest = seq_model_depth(els.drop_first());
        if first >= rest {
            first
        } else {
            rest
        }
    }
}

/// The largest depth of any key or value among the pairs.
pub open spec fn pairs_model_depth(entries: Seq<(ValueModel, ValueModel)>) -> nat
    decreases entries,
{
    if entries.len() == 0 {
        0
    } else {
        let k = model_depth(entries.first().0);
        let v = model_depth(entries.first().1);
        let head = if k >= v {
            k
        } else {
            v
        };
        let rest = pairs_model_depth(entries.drop_first());
        if head >= rest {
            head
        } else {
            rest
        }
    }
}

/// Every element is at most as deep as the sequence bound.
pub proof fn lemma_seq_model_depth(els: Seq<ValueModel>, i: int)
    requires
        0 <= i < els.len(),
    ensures
        model_depth(els[i]) <= seq_model_depth(els),
    decreases els.len(),
{
    if i == 0 {
    } else {
        lemma_seq_model_depth(els.drop_first(), i - 1);
        assert(els.drop_first()[i - 1] == els[i]);
    }
}

/// Every key and value among the pairs is at most as deep as the bound.
pub proof fn lemma_pairs_model_depth(entries: Seq<(ValueModel, ValueModel)>, i: int)
    requires
        0 <= i < entries.len(),
    ensures
        model_depth(entries[i].0) <= pairs_model_depth(entries),
        model_depth(entries[i].1) <= pairs_model_depth(entries),
    decreases entries.len(),
{
    if i == 0 {
    } else {
        lemma_pairs_model_depth(entries.drop_first(), i - 1);
        assert(entries.drop_first()[i - 1] == entries[i]);
    }
}


/// The model of a vector value is its element-type tag and its elements' models.
pub proof fn lemma_vector_model(sv: StorageVector)
    ensures
        value_model(StorageValue::Vector(sv)) == ValueModel::Vector(sv.collection_type, sv@),
{
    assert(value_model(StorageValue::Vector(sv))->Vector_1 =~= sv@);
}

/// The model of a map value is its type tags and its entries' models.
pub proof fn lemma_mapping_model(sm: StorageMap)
    ensures
        value_model(StorageValue::Mapping(sm)) == ValueModel::Mapping(
            sm.key_type,
            sm.collection_type,
            sm@,
        ),
{
    assert(value_model(StorageValue::Mapping(sm))->Mapping_2 =~= sm@);
}

impl Clone for StorageVector {
    /// Cloning keeps the element models and the declared element type.
    fn clone(&self) -> (res: Self)
        ensures
            res@ == self@,
            res.collection_type == self.collection_type,
        decreases seq_model_depth(self@), 1nat,
    {
        let mut out: Vec<StorageValue> = Vec::new();
        let mut i: usize = 0;
        while i < self.vector.len()
            invariant
                i <= self.vector@.len(),
                out@.len() == i,
                forall|j: int| 0 <= j < i ==> value_model(#[trigger] out@[j]) == value_model(self.vector@[j]),
            decreases self.vector@.len() - i,
        {
            proof {
                assert(self@[i as int] == value_model(self.vector@[i as int]));
                lemma_seq_model_depth(self@, i as int);
            }
            out.push(self.vector[i].clone());
            i = i + 1;
        }
        let res = StorageVector { vector: out, collection_type: self.collection_type };
        proof {
            assert(res@ =~= self@);
        }
        res
    }
}

impl Clone for StorageMap {
    /// Cloning keeps the entry models, the key type and the element type.
    fn clone(&self) -> (res: Self)
        ensures
            res@ == self@,
            res.key_type == self.key_type,
            res.collection_type == self.collection_type,
        decreases pairs_model_depth(self@), 1nat,
    {
        let mut out: Vec<(StorageValue, StorageValue)> = Vec::new();
        let mut i: usize = 0;
        while i < self.entries.len()
            invariant
                i <= self.entries@.len(),
                out@.len() == i,
                forall|j: int| 0 <= j < i ==> (
                    value_model(#[trigger] out@[j].0) == value_model(self.entries@[j].0)
                    && value_model(out@[j].1) == value_model(self.entries@[j].1)
                ),
            decreases self.entries@.len() - i,
        {
            proof {
                assert(self@[i as int].0 == value_model(self.entries@[i as int].0));
                assert(self@[i as int].1 == value_model(self.entries@[i as int].1));
                lemma_pairs_model_depth(self@, i as int);
            }
            let k = self.entries[i].0.clone();
            let v = self.entries[i].1.clone();
            out.push((k, v));
            i = i + 1;
        }
        let res = StorageMap {
            entries: out,
            key_type: self.key_type,
            collection_type: self.collection_type,
        };
        proof {
            assert(res@ =~= self@);
        }
        res
    }
}

impl Clone for StorageValue {
    /// Cloning keeps the value model.
    fn clone(&self) -> (res: Self)
        ensures
            res@ == self@,
        decreases model_depth(self@), 0nat,
    {
        match self {
            StorageValue::Null => StorageValue::Null,
            StorageValue::Bool(b) => StorageValue::Bool(*b),
            StorageValue::String(s) => StorageValue::String(s.clone()),
            StorageValue::Int(i) => StorageValue::Int(*i),
            StorageValue::Float(s) => StorageValue::Float(s.clone()),
            StorageValue::Vector(sv) => {
                proof {
                    lemma_vector_model(*sv);
                }
                let cloned = sv.clone();
                proof {
                    lemma_vector_model(cloned);
                }
                StorageValue::Vector(cloned)
            },
            StorageValue::Mapping(sm) => {
                proof {
                    lemma_mapping_model(*sm);
                }
                let cloned = sm.clone();
                proof {
                    lemma_mapping_model(cloned);
                }
                StorageValue::Mapping(cloned)
            },
        }
    }
}

/// Under distinct keys, any entry whose key equals `k` is the entry that
/// `map_key_index` picks.
pub proof fn lemma_unique_key_index(entries: Seq<(ValueModel, ValueModel)>, k: ValueModel, i: int)
    requires
        map_keys_distinct(entries),
        0 <= i < entries.len(),
        value_eq(entries[i].0, k),
    ensures
        map_has_key(entries, k),
        map_key_index(entries, k) == i,
{
    assert(map_has_key(entries, k));
    let j = map_key_index(entries, k);
    if j != i {
        lemma_value_eq_joins(entries[j].0, entries[i].0, k);
        assert(false);
    }
}

/// Check that a storage value matches the expected collection element type.
pub fn validate_value(value: &StorageValue, collection_type: CollectionType) -> (r: Result<
    (),
    ServerError,
>)
    ensures
        r is Ok <==> scalar_matches(value@, collection_type),
        r matches Err(e) ==> e is TypeError,
{
    match collection_type {
        CollectionType::Bool => match value {
            StorageValue::Bool(_) => Ok(()),
            _ => Err(ServerError::TypeError(String::from_str("Expected an integer key"))),
        },
        CollectionType::Int => match value {
            StorageValue::Int(_) => Ok(()),
            _ => Err(ServerError::TypeError(String::from_str("Expected an integer key"))),
        },
        CollectionType::String => match value {
            StorageValue::String(_) => Ok(()),
            _ => Err(ServerError::TypeError(String::from_str("Expected an integer key"))),
        },
        CollectionType::Float => match value {
            StorageValue::Float(_) => Ok(()),
            _ => Err(ServerError::TypeError(String::from_str("Expected an integer key"))),
        },
    }
}

/// Check that a storage value matches the expected map key type.
pub fn validate_key(key: &StorageValue, key_type: KeyType) -> (r: Result<(), ServerError>)
    ensures
        r is Ok <==> key_matches(key@, key_type),
        r matches Err(e) ==> e is TypeError,
{
    match key_type {
        KeyType::Int => match key {
            StorageValue::Int(_) => Ok(()),
            _ => Err(ServerError::TypeError(String::from_str("Expected an integer key"))),
        },
        KeyType::String => match key {
            StorageValue::String(_) => Ok(()),
            _ => Err(ServerError::TypeError(String::from_str("Expected a string key."))),
        },
    }
}


impl StorageVector {
    /// Whether every element is a scalar of the declared element type.
    pub open spec fn wf(&self) -> bool {
        vector_body_wf(self.collection_type, self@)
    }

    /// Create a new, empty vector holding the given scalar type.
    pub fn new(collection_type: CollectionType) -> (r: StorageVector)
        ensures
            r@ =~= Seq::<ValueModel>::empty(),
            r.collection_type == collection_type,
            r.wf(),
    {
        StorageVector { vector: Vec::new(), collection_type }
    }

    /// Pop the last value off the vector and return it; `None` when empty.
    pub fn pop(&mut self) -> (r: Option<StorageValue>)
        ensures
            final(self).collection_type == old(self).collection_type,
            old(self)@.len() == 0 ==> r is None && final(self)@ == old(self)@,
            old(self)@.len() > 0 ==> (match r {
                Some(v) => v@ == old(self)@.last() && final(self)@ =~= old(self)@.drop_last(),
                None => false,
            }),
    {
        let r = self.vector.pop();
        proof {
            if old(self)@.len() > 0 {
                assert(final(self)@ =~= old(self)@.drop_last());
            } else {
                assert(final(self)@ =~= old(self)@);
            }
        }
        r
    }

    /// The number of elements.
    pub fn len(&self) -> (r: usize)
        ensures
            r == self@.len(),
    {
        self.vector.len()
    }

    /// The value at the given index, or an `IndexError` past the end.
    pub fn get(&self, index: usize) -> (r: Result<&StorageValue, ServerError>)
        ensures
            index < self@.len() ==> (match r {
                Ok(v) => v@ == self@[index as int],
                Err(_) => false,
            }),
            index >= self@.len() ==> (match r {
                Ok(_) => false,
                Err(e) => e is IndexError,
            }),
    {
        if index < self.vector.len() {
            Ok(&self.vector[index])
        } else {
            let mut msg = String::from_str("Cannot get entry ");
            msg.append(crate::util::fmt_u64(index as u64).as_str());
            msg.append(", vector has only ");
            msg.append(crate::util::fmt_u64(self.vector.len() as u64).as_str());
            msg.append(" elements.");
            Err(ServerError::IndexError(msg))
        }
    }

    /// Append a value of the declared element type to the end.
    pub fn push(&mut self, value: StorageValue) -> (r: Result<(), ServerError>)
        ensures
            final(self).collection_type == old(self).collection_type,
            r is Ok <==> scalar_matches(value@, old(self).collection_type),
            r is Ok ==> final(self)@ =~= old(self)@.push(value@),
            r matches Err(e) ==> e is TypeError && final(self)@ == old(self)@,
            old(self).wf() ==> final(self).wf(),
    {
        match validate_value(&value, self.collection_type) {
            Ok(_) => (),
            Err(err) => return Err(err),
        };
        self.vector.push(value);
        proof {
            assert(final(self)@ =~= old(self)@.push(value@));
            if old(self).wf() {
                assert forall|i: int|
                    0 <= i < final(self)@.len() implies scalar_matches(
                    #[trigger] final(self)@[i],
                    final(self).collection_type,
                ) by {
                    if i < old(self)@.len() {
                        assert(scalar_matches(old(self)@[i], old(self).collection_type));
                    }
                }
            }
        }
        Ok(())
    }

    /// Replace the value at the given index.
    ///
    /// A value of the wrong type is a `TypeError` even when the index is also
    /// out of range; an index past the end is an `IndexError`.
    pub fn set(&mut self, index: usize, value: StorageValue) -> (r: Result<(), ServerError>)
        ensures
            final(self).collection_type == old(self).collection_type,
            r is Ok <==> scalar_matches(value@, old(self).collection_type) && index < old(
                self,
            )@.len(),
            r is Ok ==> final(self)@ =~= old(self)@.update(index as int, value@),
            r is Err ==> final(self)@ == old(self)@,
            r matches Err(e) ==> (if !scalar_matches(value@, old(self).collection_type) {
                e is TypeError
            } else {
                e is IndexError
            }),
            old(self).wf() ==> final(self).wf(),
    {
        match validate_value(&value, self.collection_type) {
            Ok(_) => (),
            Err(err) => return Err(err),
        };
        if index >= self.vector.len() {
            let mut msg = String::from_str("Cannot set value at index ");
            msg.append(crate::util::fmt_u64(index as u64).as_str());
            msg.append(". Vector has ");
            msg.append(crate::util::fmt_u64(self.vector.len() as u64).as_str());
            msg.append(" elements.");
            return Err(ServerError::IndexError(msg));
        }
        let _ = self.vector.remove(index);
        self.vector.insert(index, value);
        proof {
            assert(final(self)@ =~= old(self)@.update(index as int, value@));
            if old(self).wf() {
                assert forall|i: int|
                    0 <= i < final(self)@.len() implies scalar_matches(
                    #[trigger] final(self)@[i],
                    final(self).collection_type,
                ) by {
                    if i != index {
                        assert(scalar_matches(old(self)@[i], old(self).collection_type));
                    }
                }
            }
        }
        Ok(())
    }
}

impl StorageMap {
    /// Whether the keys are distinct and every key and value matches the
    /// declared types.
    pub open spec fn wf(&self) -> bool {
        mapping_body_wf(self.key_type, self.collection_type, self@)
    }

    /// Create a new, empty map with keys and values of the given types.
    pub fn new(key_type: KeyType, collection_type: CollectionType) -> (r: StorageMap)
        ensures
            r@ =~= Seq::<(ValueModel, ValueModel)>::empty(),
            r.key_type == key_type,
            r.collection_type == collection_type,
            r.wf(),
    {
        StorageMap { entries: Vec::new(), key_type, collection_type }
    }

    /// The index of the entry whose key equals the given key, if any.
    fn find_key_index(&self, key: &StorageValue) -> (r: Option<usize>)
        ensures
            match r {
                Some(i) => i < self@.len() && value_eq(self@[i as int].0, key@),
                None => !map_has_key(self@, key@),
            },
    {
        let mut i: usize = 0;
        while i < self.entries.len()
            invariant
                i <= self@.len(),
                self@.len() == self.entries@.len(),
                forall|j: int| 0 <= j < i ==> !value_eq(self@[j].0, key@),
            decreases self@.len() - i,
        {
            proof {
                assert(self@[i as int].0 == value_model(self.entries@[i as int].0));
            }
            if self.entries[i].0 == *key {
                return Some(i);
            }
            i = i + 1;
        }
        None
    }

    /// The value under the given key.
    ///
    /// Fails with `TypeError` when the key has the wrong type, and with
    /// `IndexError` when no entry carries the key.
    pub fn get(&self, key: &StorageValue) -> (r: Result<&StorageValue, ServerError>)
        requires
            self.wf(),
        ensures
            match r {
                Ok(v) => key_matches(key@, self.key_type) && map_lookup(self@, key@) == Some(v@),
                Err(e) => {
                    &&& (e is TypeError <==> !key_matches(key@, self.key_type))
                    &&& (e is IndexError <==> key_matches(key@, self.key_type) && map_lookup(
                        self@,
                        key@,
                    ) is None)
                    &&& (e is TypeError || e is IndexError)
                },
            },
    {
        match validate_key(key, self.key_type) {
            Ok(_) => (),
            Err(err) => return Err(err),
        };
        match self.find_key_index(key) {
            Some(i) => {
                proof {
                    lemma_unique_key_index(self@, key@, i as int);
                }
                Ok(&self.entries[i].1)
            },
            None => Err(
                ServerError::IndexError(String::from_str("No entry found for the given key.")),
            ),
        }
    }

    /// Whether the given key has an entry; `TypeError` on a key of the wrong
    /// type.
    pub fn contains_key(&self, key: &StorageValue) -> (r: Result<bool, ServerError>)
        ensures
            match r {
                Ok(b) => key_matches(key@, self.key_type) && b == map_has_key(self@, key@),
                Err(e) => e is TypeError && !key_matches(key@, self.key_type),
            },
    {
        match validate_key(key, self.key_type) {
            Ok(_) => (),
            Err(err) => return Err(err),
        };
        match self.find_key_index(key) {
            Some(_) => Ok(true),
            None => Ok(false),
        }
    }

    /// Insert or replace the entry for the given key.
    ///
    /// Fails with `TypeError` when the key or the value has the wrong type;
    /// the key's type is checked first.
    pub fn set(&mut self, key: StorageValue, value: StorageValue) -> (r: Result<(), ServerError>)
        requires
            old(self).wf(),
        ensures
            final(self).key_type == old(self).key_type,
            final(self).collection_type == old(self).collection_type,
            final(self).wf(),
            r is Ok <==> key_matches(key@, old(self).key_type) && scalar_matches(
                value@,
                old(self).collection_type,
            ),
            r matches Err(e) ==> e is TypeError && final(self)@ == old(self)@,
            r is Ok ==> (if map_has_key(old(self)@, key@) {
                final(self)@ =~= old(self)@.update(map_key_index(old(self)@, key@), (key@, value@))
            } else {
                final(self)@ =~= old(self)@.push((key@, value@))
            }),
    {
        match validate_key(&key, self.key_type) {
            Ok(_) => (),
            Err(err) => return Err(err),
        };
        match validate_value(&value, self.collection_type) {
            Ok(_) => (),
            Err(err) => return Err(err),
        };
        let ghost pre = self@;
        let ghost km = key@;
        let ghost vm = value@;
        match self.find_key_index(&key) {
            Some(i) => {
                let _ = self.entries.remove(i);
                self.entries.insert(i, (key, value));
                proof {
                    lemma_unique_key_index(pre, km, i as int);
                    assert(final(self)@ =~= pre.update(i as int, (km, vm)));
                    assert forall|a: int, b: int|
                        0 <= a < final(self)@.len() && 0 <= b < final(self)@.len() && a
                            != b implies !value_eq(final(self)@[a].0, final(self)@[b].0) by {
                        if a == i && value_eq(final(self)@[a].0, final(self)@[b].0) {
                            lemma_value_eq_joins(pre[b].0, pre[i as int].0, km);
                            lemma_value_eq_joins(pre[i as int].0, pre[b].0, pre[b].0);
                        } else if b == i && value_eq(final(self)@[a].0, final(self)@[b].0) {
                            lemma_value_eq_joins(pre[a].0, pre[i as int].0, km);
                        }
                    }
                }
                Ok(())
            },
            None => {
                self.entries.push((key, value));
                proof {
                    assert(final(self)@ =~= pre.push((km, vm)));
                    assert forall|a: int, b: int|
                        0 <= a < final(self)@.len() && 0 <= b < final(self)@.len() && a
                            != b implies !value_eq(final(self)@[a].0, final(self)@[b].0) by {
                        if a == pre.len() && value_eq(final(self)@[a].0, final(self)@[b].0) {
                            lemma_value_eq_joins(pre[b].0, pre[b].0, km);
                        } else if b == pre.len() && value_eq(final(self)@[a].0, final(self)@[b].0) {
                            lemma_value_eq_joins(pre[a].0, pre[a].0, km);
                        }
                    }
                }
                Ok(())
            },
        }
    }

    /// Remove the entry for the given key; reports whether one was removed.
    /// Fails with `TypeError` when the key has the wrong type.
    pub fn delete(&mut self, key: &StorageValue) -> (r: Result<bool, ServerError>)
        requires
            old(self).wf(),
        ensures
            final(self).key_type == old(self).key_type,
            final(self).collection_type == old(self).collection_type,
            final(self).wf(),
            match r {
                Ok(b) => {
                    &&& key_matches(key@, old(self).key_type)
                    &&& b == map_has_key(old(self)@, key@)
                    &&& (b ==> final(self)@ =~= old(self)@.remove(map_key_index(old(self)@, key@)))
                    &&& (!b ==> final(self)@ == old(self)@)
                },
                Err(e) => e is TypeError && !key_matches(key@, old(self).key_type) && final(self)@
                    == old(self)@,
            },
    {
        match validate_key(key, self.key_type) {
            Ok(_) => (),
            Err(err) => return Err(err),
        };
        let ghost pre = self@;
        match self.find_key_index(key) {
            Some(i) => {
                let _ = self.entries.remove(i);
                proof {
                    lemma_unique_key_index(pre, key@, i as int);
                    assert(final(self)@ =~= pre.remove(i as int));
                }
                Ok(true)
            },
            None => Ok(false),
        }
    }

    /// The number of entries in the map.
    pub fn len(&self) -> (r: usize)
        ensures
            r == self@.len(),
    {
        self.entries.len()
    }
}

/// Equality of values is transitive through a shared middle value.
pub proof fn lemma_value_eq_trans(a: ValueModel, k: ValueModel, b: ValueModel)
    requires
        value_eq(a, k),
        value_eq(b, k),
    ensures
        !value_eq(a, b) ==> false,
{
}

/// The mathematical shape of a stored entry.
pub struct ElementModel {
    /// The key under which the entry is stored.
    pub key: Seq<char>,
    /// The absolute expiration instant in milliseconds, if any.
    pub expiration: Option<u64>,
    /// The model of the stored value.
    pub value: ValueModel,
}

/// A storage element: the key, the value, and an optional expiration time,
/// given as milliseconds on the same clock that readers pass in as `now`.
#[derive(Debug)]
pub struct StorageElement {
    /// The key used to retrieve the value.
    pub key: String,
    /// The expiration instant in milliseconds, if any.
    pub expiration: Option<u64>,
    /// The value pointed to by the key.
    pub value: StorageValue,
}

impl View for StorageElement {
    type V = ElementModel;

    open spec fn view(&self) -> ElementModel {
        ElementModel { key: self.key@, expiration: self.expiration, value: self.value@ }
    }
}

impl Clone for StorageElement {
    /// Cloning keeps the element model.
    fn clone(&self) -> (res: Self)
        ensures
            res@ == self@,
    {
        StorageElement {
            key: self.key.clone(),
            expiration: match &self.expiration {
                Some(e) => Some(*e),
                None => None,
            },
            value: self.value.clone(),
        }
    }
}

/// Whether an element model is past its expiration at instant `now`.
pub open spec fn spec_is_expired(e: ElementModel, now: u64) -> bool {
    match e.expiration {
        None => false,
        Some(expiration) => expiration <= now,
    }
}

impl StorageElement {
    /// Check whether this element has expired at instant `now`.
    pub fn is_expired(&self, now: u64) -> (r: bool)
        ensures
            r == spec_is_expired(self@, now),
    {
        match &self.expiration {
            None => false,
            Some(expiration) => *expiration <= now,
        }
    }
}

/// The error reported when a key was expected to exist and does not.
pub fn make_key_error(key: &str) -> (r: ServerError)
    ensures
        r is KeyError,
        crate::error::spec_error_message(&r) == "No entry with key '"@ + key@ + "' exists"@,
{
    let mut msg = String::from_str("No entry with key '");
    msg.append(key);
    msg.append("' exists");
    ServerError::KeyError(msg)
}

/// The error reported when a key was expected to be free and is not.
pub fn make_key_exists_error(key: &str) -> (r: ServerError)
    ensures
        r is KeyError,
        crate::error::spec_error_message(&r) == "Entry with key '"@ + key@ + "' already exists"@,
{
    let mut msg = String::from_str("Entry with key '");
    msg.append(key);
    msg.append("' already exists");
    ServerError::KeyError(msg)
}


} // verus!
