//! The guarantees the service gives across calls, proved over the table
//! model: the default fallback, the effect of an upsert on later greetings,
//! idempotence, overwrite-not-duplicate, case-insensitive matching, and the
//! serialization of upserts racing on one name.

use vstd::prelude::*;
use crate::text::upper;
use crate::users_service::{custom_greeting, default_greeting, greeting_of, upserted};

verus! {

/// Table contents after a run of upserts, applied in order, starting from `m`.
pub open spec fn after_upserts(
    m: Map<Seq<char>, Seq<char>>,
    ops: Seq<(Seq<char>, Seq<char>)>,
) -> Map<Seq<char>, Seq<char>>
    decreases ops.len(),
{
    if ops.len() == 0 {
        m
    } else {
        upserted(after_upserts(m, ops.drop_last()), ops.last().0, ops.last().1)
    }
}

/// A name whose normalization was never upserted answers the default
/// greeting, whatever run of upserts built the table from empty.
pub proof fn lemma_never_upserted_defaults(ops: Seq<(Seq<char>, Seq<char>)>, n: Seq<char>)
    requires
        forall|i: int| 0 <= i < ops.len() ==> upper((#[trigger] ops[i]).0) != upper(n),
    ensures
        greeting_of(after_upserts(Map::empty(), ops), n) == default_greeting(n),
    decreases ops.len(),
{
    if ops.len() > 0 {
        lemma_never_upserted_defaults(ops.drop_last(), n);
        assert(upper(ops[ops.len() - 1].0) != upper(n));
    }
}

/// An upsert changes the greeting of no case-insensitively different name.
pub proof fn lemma_upsert_preserves_other_names(
    m: Map<Seq<char>, Seq<char>>,
    n: Seq<char>,
    g: Seq<char>,
    other: Seq<char>,
)
    requires
        upper(other) != upper(n),
    ensures
        greeting_of(upserted(m, n, g), other) == greeting_of(m, other),
{
}

/// After upserting `(n, g)`, the greeting for `n` is the uppercased stored
/// greeting followed by the request name as supplied.
pub proof fn lemma_greeting_after_upsert(m: Map<Seq<char>, Seq<char>>, n: Seq<char>, g: Seq<char>)
    ensures
        greeting_of(upserted(m, n, g), n) == custom_greeting(upper(g), n),
{
}

/// Upsert is idempotent: repeating an identical upsert leaves the same
/// stored state as performing it once.
pub proof fn lemma_upsert_idempotent(m: Map<Seq<char>, Seq<char>>, n: Seq<char>, g: Seq<char>)
    ensures
        upserted(upserted(m, n, g), n, g) == upserted(m, n, g),
{
    assert(upserted(upserted(m, n, g), n, g) =~= upserted(m, n, g));
}

/// A new greeting for an existing name overwrites rather than duplicates:
/// the second upsert yields exactly the table the second pair alone would,
/// and in particular adds no second entry for the name.
pub proof fn lemma_upsert_overwrites(
    m: Map<Seq<char>, Seq<char>>,
    n: Seq<char>,
    g1: Seq<char>,
    g2: Seq<char>,
)
    ensures
        upserted(upserted(m, n, g1), n, g2) == upserted(m, n, g2),
        upserted(upserted(m, n, g1), n, g2).dom() == upserted(m, n, g1).dom(),
{
    assert(upserted(upserted(m, n, g1), n, g2) =~= upserted(m, n, g2));
    assert(upserted(upserted(m, n, g1), n, g2).dom() =~= upserted(m, n, g1).dom());
}

/// Name matching is case-insensitive: two spellings with the same
/// normalization key the same entry, both as upserts and as lookups, and
/// greeting requests for them find the same stored record.
pub proof fn lemma_case_insensitive_names(
    m: Map<Seq<char>, Seq<char>>,
    n1: Seq<char>,
    n2: Seq<char>,
    g: Seq<char>,
)
    requires
        upper(n1) == upper(n2),
    ensures
        upserted(m, n1, g) == upserted(m, n2, g),
        m.contains_key(upper(n1)) == m.contains_key(upper(n2)),
        m.contains_key(upper(n1)) ==> greeting_of(m, n1) == custom_greeting(m[upper(n2)], n1),
{
}

/// Upserts racing on one name serialize: whichever order the store runs
/// them in, the result is as if only the later one had happened — exactly
/// one consistent entry for that name, the last writer's, and no error.
pub proof fn lemma_racing_upserts_serialize(
    m: Map<Seq<char>, Seq<char>>,
    n1: Seq<char>,
    n2: Seq<char>,
    g1: Seq<char>,
    g2: Seq<char>,
)
    requires
        upper(n1) == upper(n2),
    ensures
        upserted(upserted(m, n1, g1), n2, g2) == upserted(m, n2, g2),
        upserted(upserted(m, n2, g2), n1, g1) == upserted(m, n1, g1),
{
    assert(upserted(upserted(m, n1, g1), n2, g2) =~= upserted(m, n2, g2));
    assert(upserted(upserted(m, n2, g2), n1, g1) =~= upserted(m, n1, g1));
}

} // verus!
