use vstd::prelude::*;

use vstd::set_lib::{lemma_int_range, lemma_len_subset, lemma_map_size};

use crate::auth::AuthorizationLevel;
use crate::interpreter::{
    interp_step,
    run_seq,
    spec_all_authorized,
    spec_interpret,
    spec_statement_allowed,
    store_live,
    written_element,
    ErrorKindModel,
    OutcomeModel,
    ResponseModel,
    StoreModel,
};
use crate::statements::{is_mutating_statement, StatementModel};
use crate::storage::HashMapStorage;
use crate::types::ValueModel;

verus! {

/// Setting a key without a lifetime makes an immediate get of that key
/// yield exactly the value written.
pub proof fn lemma_set_then_get(
    pre: StoreModel,
    k: Seq<char>,
    v: ValueModel,
    now: u64,
    mid: StoreModel,
    out: OutcomeModel,
)
    requires
        interp_step(pre, StatementModel::SetValue(k, v, None), now, mid, out),
    ensures
        interp_step(
            mid,
            StatementModel::Get(k),
            now,
            mid,
            OutcomeModel::Resp(ResponseModel::Value(v)),
        ),
{
}

/// Setting a key with a positive lifetime makes an immediate get succeed
/// with the value written, and makes every get or existence check at or
/// past the expiration instant fail as a missing key.
///
/// The lifetime must be positive, and `now` must lie strictly before the
/// end of the clock: a zero lifetime expires at once, and at `u64::MAX`
/// nothing can outlive the clock.
pub proof fn lemma_ttl_expiry(
    pre: StoreModel,
    k: Seq<char>,
    v: ValueModel,
    t: u64,
    now: u64,
    mid: StoreModel,
    out: OutcomeModel,
)
    requires
        interp_step(pre, StatementModel::SetValue(k, v, Some(t)), now, mid, out),
        t >= 1,
        now < u64::MAX,
    ensures
        interp_step(
            mid,
            StatementModel::Get(k),
            now,
            mid,
            OutcomeModel::Resp(ResponseModel::Value(v)),
        ),
        forall|later: u64|
            later >= crate::interpreter::spec_expiration(Some(t), now)->Some_0 ==> interp_step(
                mid,
                StatementModel::Get(k),
                later,
                mid,
                OutcomeModel::ErrOf(ErrorKindModel::KeyError),
            ) && interp_step(
                mid,
                StatementModel::Exists(k),
                later,
                mid,
                OutcomeModel::Resp(ResponseModel::Bool(false)),
            ),
{
    let exp = crate::interpreter::spec_expiration(Some(t), now)->Some_0;
    assert(exp > now);
}

/// The expiration index is sound in every well-formed store: the index
/// holds exactly one slot for each entry that carries an expiration, each
/// such entry's recorded slot is in range and points back at its own key,
/// and the index length equals the number of entries carrying an
/// expiration.
pub proof fn lemma_expiration_index_sound(s: &HashMapStorage)
    requires
        s.wf(),
        s.expiring_keys@.len() <= usize::MAX,
    ensures
        forall|i: int|
            0 <= i < s.storage@.len() ==> ((#[trigger] s.storage@[i]).element.expiration is Some
                <==> s.storage@[i].key_index is Some),
        forall|i: int|
            0 <= i < s.storage@.len() && s.storage@[i].key_index is Some ==> {
                let p = (#[trigger] s.storage@[i]).key_index->0;
                &&& p < s.expiring_keys@.len()
                &&& s.expiring_keys@[p as int]@ == s.storage@[i].key@
            },
        s.expiring_keys@.len() == Set::new(
            |i: int| 0 <= i < s.storage@.len() && s.storage@[i].element.expiration is Some,
        ).len(),
{
    let n = s.storage@.len() as int;
    let m = s.expiring_keys@.len() as int;
    let entries = Set::new(
        |i: int| 0 <= i < s.storage@.len() && s.storage@[i].element.expiration is Some,
    );
    let slots = vstd::set_lib::set_int_range(0, m);
    lemma_int_range(0, m);
    lemma_int_range(0, n);
    assert(entries.subset_of(vstd::set_lib::set_int_range(0, n)));
    lemma_len_subset(entries, vstd::set_lib::set_int_range(0, n));
    let f = |i: int| s.storage@[i].key_index->0 as int;
    assert forall|a: int, b: int|
        entries.contains(a) && entries.contains(b) && a != b implies f(a) != f(b) by {
        if f(a) == f(b) {
            s.lemma_slot_unique(a, b, s.storage@[a].key_index->0);
        }
    }
    assert(vstd::relations::injective_on(f, entries)) by {
        assert forall|a: int, b: int|
            #![trigger f(a), f(b)]
            entries.contains(a) && entries.contains(b) && f(a) == f(b) implies a == b by {
            if a != b {
                s.lemma_slot_unique(a, b, s.storage@[a].key_index->0);
            }
        }
    }
    assert(entries.map(f) =~= slots) by {
        assert forall|p: int| slots.contains(p) implies entries.map(f).contains(p) by {
            assert(s.slot_backed(p as usize));
            let w = choose|w: int|
                0 <= w < s.storage@.len() && #[trigger] s.storage@[w].key_index == Some(p as usize);
            assert(entries.contains(w));
            assert(f(w) == p);
        }
        assert forall|p: int| entries.map(f).contains(p) implies slots.contains(p) by {
            let w = choose|w: int| entries.contains(w) && f(w) == p;
            assert(s.storage@[w].key_index is Some);
        }
    }
    lemma_map_size(entries, slots, f);
}

/// A delete step reports `true` exactly when the key held a live entry
/// immediately before the call.
pub proof fn lemma_delete_reports_presence(
    pre: StoreModel,
    k: Seq<char>,
    now: u64,
    post: StoreModel,
    out: OutcomeModel,
)
    requires
        interp_step(pre, StatementModel::Delete(k), now, post, out),
    ensures
        out == OutcomeModel::Resp(ResponseModel::Bool(store_live(pre, k, now))),
        post == pre.remove(k),
{
}

/// A conditional set never overwrites: after a set of `k`, a conditional
/// set of `k` reports `false`, changes nothing, and a get still yields the
/// first value.
pub proof fn lemma_set_if_not_exists_never_overwrites(
    pre: StoreModel,
    k: Seq<char>,
    v1: ValueModel,
    v2: ValueModel,
    lt2: Option<u64>,
    now: u64,
    mid: StoreModel,
    out1: OutcomeModel,
    post: StoreModel,
    out2: OutcomeModel,
)
    requires
        interp_step(pre, StatementModel::SetValue(k, v1, None), now, mid, out1),
        interp_step(mid, StatementModel::SetIfNotExists(k, v2, lt2), now, post, out2),
    ensures
        out2 == OutcomeModel::Resp(ResponseModel::Bool(false)),
        post == mid,
        interp_step(
            post,
            StatementModel::Get(k),
            now,
            post,
            OutcomeModel::Resp(ResponseModel::Value(v1)),
        ),
{
}

/// Writing a value and reading it back in one run yields the value
/// written: the statement-level round trip for any value, vectors and maps
/// included.
pub proof fn lemma_write_read_round_trip(
    pre: StoreModel,
    k: Seq<char>,
    v: ValueModel,
    now: u64,
    post: StoreModel,
    out: OutcomeModel,
)
    requires
        run_seq(
            pre,
            seq![StatementModel::SetValue(k, v, None), StatementModel::Get(k)],
            now,
            post,
            out,
        ),
    ensures
        out == OutcomeModel::Resp(ResponseModel::Value(v)),
        post == pre.insert(k, written_element(k, v, None, now)),
{
    let stmts = seq![StatementModel::SetValue(k, v, None), StatementModel::Get(k)];
    let (mid, o0) = choose|mid: StoreModel, o0: OutcomeModel|
        {
            &&& #[trigger] interp_step(pre, stmts.first(), now, mid, o0)
            &&& if o0 == OutcomeModel::Resp(ResponseModel::ShuttingDown) || o0 is ErrOf
                || stmts.len() == 1 {
                post == mid && out == o0
            } else {
                run_seq(mid, stmts.drop_first(), now, post, out)
            }
        };
    assert(stmts.first() == StatementModel::SetValue(k, v, None));
    assert(mid == pre.insert(k, written_element(k, v, None, now)));
    let rest = stmts.drop_first();
    assert(rest.len() == 1);
    assert(rest.first() == StatementModel::Get(k));
    let (mid2, o1) = choose|mid2: StoreModel, o1: OutcomeModel|
        {
            &&& #[trigger] interp_step(mid, rest.first(), now, mid2, o1)
            &&& if o1 == OutcomeModel::Resp(ResponseModel::ShuttingDown) || o1 is ErrOf
                || rest.len() == 1 {
                post == mid2 && out == o1
            } else {
                run_seq(mid2, rest.drop_first(), now, post, out)
            }
        };
    lemma_set_then_get(pre, k, v, now, mid, o0);
    assert(store_live(mid, k, now));
    assert(o1 == OutcomeModel::Resp(ResponseModel::Value(v)));
}

/// A run that holds any statement above the request's level is refused
/// outright with an authorization error, and the store is untouched.
pub proof fn lemma_unauthorized_statement_blocks_run(
    pre: StoreModel,
    stmts: Seq<StatementModel>,
    level: AuthorizationLevel,
    now: u64,
    post: StoreModel,
    out: OutcomeModel,
    i: int,
)
    requires
        spec_interpret(pre, stmts, level, now, post, out),
        0 <= i < stmts.len(),
        !spec_statement_allowed(stmts[i], level),
    ensures
        post == pre,
        out == OutcomeModel::ErrOf(ErrorKindModel::AuthorizationError),
{
    assert(!spec_all_authorized(stmts, level));
}

/// At read level every mutating statement blocks the whole run and leaves
/// the store untouched; so does a shutdown at write level.
pub proof fn lemma_authorization_guards_mutation(
    pre: StoreModel,
    stmts: Seq<StatementModel>,
    level: AuthorizationLevel,
    now: u64,
    post: StoreModel,
    out: OutcomeModel,
    i: int,
)
    requires
        spec_interpret(pre, stmts, level, now, post, out),
        0 <= i < stmts.len(),
        (level is Read && is_mutating_statement(stmts[i])) || (level is Write && stmts[i]
            is Shutdown),
    ensures
        post == pre,
        out == OutcomeModel::ErrOf(ErrorKindModel::AuthorizationError),
{
    lemma_unauthorized_statement_blocks_run(pre, stmts, level, now, post, out, i);
}



/// The parser treats semicolons between statements as pure separators:
/// with at least one semicolon between two statement lists, the combined
/// stream parses to the two parses one after the other, whatever the
/// number of semicolons. Inserting more of them changes nothing.
pub proof fn lemma_parser_semicolon_idempotence(
    a: Seq<crate::tokens::AnnotatedTokenModel>,
    semis: Seq<crate::tokens::AnnotatedTokenModel>,
    b: Seq<crate::tokens::AnnotatedTokenModel>,
)
    requires
        forall|w: int| 0 <= w < semis.len() ==> (#[trigger] semis[w]).token is Semicolon,
        semis.len() >= 1,
        crate::parser::spec_parse_from(a, 0) is Some,
        crate::parser::spec_parse_from(b, 0) is Some,
    ensures
        crate::parser::spec_parse_from(a + semis + b, 0) == Some(
            crate::parser::spec_parse_from(a, 0)->Some_0 + crate::parser::spec_parse_from(
                b,
                0,
            )->Some_0,
        ),
{
    crate::parser::lemma_parse_concat(a, semis, b, 0);
}



/// At a statement boundary, the number of semicolons is immaterial: when
/// two statement lists already parse as one stream without any semicolon
/// between them, inserting any number — none included — yields the same
/// parse. Together with the lemma above this settles every count against
/// every other.
pub proof fn lemma_semicolons_at_boundary(
    a: Seq<crate::tokens::AnnotatedTokenModel>,
    semis: Seq<crate::tokens::AnnotatedTokenModel>,
    b: Seq<crate::tokens::AnnotatedTokenModel>,
)
    requires
        forall|w: int| 0 <= w < semis.len() ==> (#[trigger] semis[w]).token is Semicolon,
        crate::parser::spec_parse_from(a, 0) is Some,
        crate::parser::spec_parse_from(b, 0) is Some,
        crate::parser::spec_parse_from(a + b, 0) == Some(
            crate::parser::spec_parse_from(a, 0)->Some_0 + crate::parser::spec_parse_from(
                b,
                0,
            )->Some_0,
        ),
    ensures
        crate::parser::spec_parse_from(a + semis + b, 0) == Some(
            crate::parser::spec_parse_from(a, 0)->Some_0 + crate::parser::spec_parse_from(
                b,
                0,
            )->Some_0,
        ),
{
    if semis.len() == 0 {
        assert(a + semis + b =~= a + b);
    } else {
        crate::parser::lemma_parse_concat(a, semis, b, 0);
    }
}

} // verus!
