//! The service component: the remote operations' logic over the storage
//! component — greeting formatting, the default-greeting fallback, the
//! error mapping and the drop-on-error streaming policy.

use vstd::prelude::*;
use crate::text::{upper, to_upper};
use crate::users_database::{User, UsersDatabase};

verus! {

/// The greeting built from a stored greeting `g` for a request name `n`:
/// `"{g} {n}!"`, the request name passed through as received.
pub open spec fn custom_greeting(g: Seq<char>, n: Seq<char>) -> Seq<char> {
    g + " "@ + n + "!"@
}

/// The fallback greeting for a name with no stored record: `"HELLO {N}!"`
/// with the name uppercased.
pub open spec fn default_greeting(n: Seq<char>) -> Seq<char> {
    "HELLO "@ + upper(n) + "!"@
}

/// What a greeting request for `n` answers against table contents `m`.
pub open spec fn greeting_of(m: Map<Seq<char>, Seq<char>>, n: Seq<char>) -> Seq<char> {
    if m.contains_key(upper(n)) {
        custom_greeting(m[upper(n)], n)
    } else {
        default_greeting(n)
    }
}

/// What one upsert of `(n, g)` does to table contents `m`.
pub open spec fn upserted(m: Map<Seq<char>, Seq<char>>, n: Seq<char>, g: Seq<char>) -> Map<
    Seq<char>,
    Seq<char>,
> {
    m.insert(upper(n), upper(g))
}

/// The internal-error response: a storage failure's description, surfaced
/// to the caller.
#[derive(Debug)]
pub struct ServiceError {
    pub message: String,
}

/// Builds `"{stored greeting} {name}!"` for a found record.
pub fn greet_found(u: &User, name: &str) -> (r: String)
    ensures
        r@ == custom_greeting(u.greeting@, name@),
{
    let mut r = u.greeting.clone();
    r.append(" ");
    r.append(name);
    r.append("!");
    proof {
        assert(r@ =~= custom_greeting(u.greeting@, name@));
    }
    r
}

/// Builds the fallback `"HELLO {NAME}!"`.
pub fn greet_default(name: &str) -> (r: String)
    ensures
        r@ == default_greeting(name@),
{
    let mut r = String::from_str("HELLO ");
    let up = to_upper(name);
    r.append(up.as_str());
    r.append("!");
    proof {
        assert(r@ =~= default_greeting(name@));
    }
    r
}

/// The greeting-response policy over a storage lookup outcome: a storage
/// failure becomes an internal error carrying its description; a missing
/// record falls back to the default greeting; a found record answers its
/// stored greeting.
pub fn greeting_response(name: &str, lookup: Result<Option<User>, String>) -> (r: Result<
    String,
    ServiceError,
>)
    ensures
        lookup is Ok <==> r is Ok,
        lookup matches Ok(Some(u)) ==> r matches Ok(s) && s@ == custom_greeting(
            u.greeting@,
            name@,
        ),
        lookup matches Ok(None) ==> r matches Ok(s) && s@ == default_greeting(name@),
        lookup matches Err(d) ==> r matches Err(e) && e.message@ == d@,
{
    match lookup {
        Ok(Some(u)) => Ok(greet_found(&u, name)),
        Ok(None) => Ok(greet_default(name)),
        Err(d) => Err(ServiceError { message: d }),
    }
}

/// The acknowledgement policy over a storage upsert outcome: success is a
/// content-free acknowledgement, a storage failure becomes an internal
/// error carrying its description.
pub fn update_response(outcome: Result<(), String>) -> (r: Result<(), ServiceError>)
    ensures
        outcome is Ok <==> r is Ok,
        outcome matches Err(d) ==> r matches Err(e) && e.message@ == d@,
{
    match outcome {
        Ok(_) => Ok(()),
        Err(d) => Err(ServiceError { message: d }),
    }
}

/// The rows that survive the drop-on-error streaming policy: the payloads
/// of the rows read successfully, in order.
pub open spec fn ok_rows(s: Seq<Result<User, String>>) -> Seq<User>
    decreases s.len(),
{
    if s.len() == 0 {
        Seq::empty()
    } else {
        match s.last() {
            Ok(u) => ok_rows(s.drop_last()).push(u),
            Err(_) => ok_rows(s.drop_last()),
        }
    }
}

/// Adapts a storage scan to the outbound stream: a row whose read failed is
/// silently dropped; every row read successfully is passed on, in order.
pub fn filter_failed_rows(rows: &Vec<Result<User, String>>) -> (r: Vec<User>)
    ensures
        r@ == ok_rows(rows@),
{
    let n = rows.len();
    let mut r: Vec<User> = Vec::new();
    let mut i: usize = 0;
    while i < n
        invariant
            n == rows@.len(),
            i <= n,
            r@ == ok_rows(rows@.subrange(0, i as int)),
        decreases n - i,
    {
        match &rows[i] {
            Ok(u) => {
                r.push(u.clone());
            },
            Err(_) => {
            },
        }
        i = i + 1;
        proof {
            assert(rows@.subrange(0, i as int).drop_last() =~= rows@.subrange(0, i - 1));
            assert(rows@.subrange(0, i as int).last() == rows@[i - 1]);
            assert(r@ =~= ok_rows(rows@.subrange(0, i as int)));
        }
    }
    proof {
        assert(rows@.subrange(0, n as int) =~= rows@);
    }
    r
}

/// The service component: the remote operations answered from one table.
pub struct UserServiceInstance {
    database: UsersDatabase,
}

impl UserServiceInstance {
    /// The table contents this service answers from.
    pub closed spec fn table(&self) -> Map<Seq<char>, Seq<char>> {
        self.database@
    }

    /// The stored records, in the table's scan order.
    pub closed spec fn records(&self) -> Seq<User> {
        self.database.records()
    }

    /// The underlying table is well-formed.
    pub closed spec fn wf(&self) -> bool {
        self.database.wf()
    }

    pub fn new(database: UsersDatabase) -> (r: Self)
        ensures
            r.table() == database@,
            r.records() == database.records(),
            r.wf() == database.wf(),
    {
        UserServiceInstance { database }
    }

    /// The greeting operation: `"{stored greeting} {name}!"` for a known
    /// name, `"HELLO {NAME}!"` otherwise; absence of a record is not an
    /// error, and the request name passes through as received.
    pub fn get_greeting(&self, name: &str) -> (r: String)
        requires
            self.wf(),
            name@.len() > 0,
        ensures
            r@ == greeting_of(self.table(), name@),
    {
        match self.database.get_user(name) {
            Some(u) => greet_found(&u, name),
            None => greet_default(name),
        }
    }

    /// The upsert operation: stores the pair, normalized, overwriting any
    /// record with the same normalized name.
    pub fn update_user(&mut self, name: &str, greeting: &str)
        requires
            old(self).wf(),
        ensures
            final(self).wf(),
            final(self).table() == upserted(old(self).table(), name@, greeting@),
    {
        let u = User { name: String::from_str(name), greeting: String::from_str(greeting) };
        self.database.update_user(&u);
    }

    /// The streaming operation's source: every stored record, in scan order.
    pub fn get_all_users(&self) -> (r: Vec<User>)
        ensures
            r@ == self.records(),
    {
        self.database.get_all_users()
    }
}

/// The records the streaming operation reads out are exactly the table's
/// entries: a name is stored exactly when some record carries it, that
/// record's greeting is the stored one, and no name appears twice — no
/// duplicates and no extras.
pub proof fn lemma_all_users_exact(svc: &UserServiceInstance)
    requires
        svc.wf(),
    ensures
        forall|k: Seq<char>| #[trigger]
            svc.table().contains_key(k) <==> exists|i: int|
                0 <= i < svc.records().len() && #[trigger] svc.records()[i].name@ == k,
        forall|i: int|
            0 <= i < svc.records().len() ==> svc.table()[(#[trigger] svc.records()[i]).name@]
                == svc.records()[i].greeting@,
        forall|i: int, j: int|
            0 <= i < j < svc.records().len()
                ==> svc.records()[i].name@ != svc.records()[j].name@,
{
    let db = &svc.database;
    crate::users_database::lemma_records_match_view(db);
    assert forall|k: Seq<char>| #[trigger]
        svc.table().contains_key(k) <==> exists|i: int|
            0 <= i < svc.records().len() && #[trigger] svc.records()[i].name@ == k by {
        if db@.contains_key(k) {
            let i = choose|i: int|
                0 <= i < db.records().len() && #[trigger] db.records()[i].name@ == k;
            assert(svc.records()[i].name@ == k);
        }
        if exists|i: int| 0 <= i < svc.records().len() && #[trigger] svc.records()[i].name@ == k {
            let i = choose|i: int|
                0 <= i < svc.records().len() && #[trigger] svc.records()[i].name@ == k;
            assert(db.records()[i].name@ == k);
        }
    }
}

} // verus!
