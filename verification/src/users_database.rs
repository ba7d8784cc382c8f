//! The storage component: a single table of user records keyed
//! case-insensitively by name, with insert-or-overwrite semantics.

use vstd::prelude::*;
use crate::text::{upper, to_upper, lemma_upper_idempotent};

verus! {

/// One stored record: a user's name and the greeting kept for it.
#[derive(Debug)]
pub struct User {
    pub name: String,
    pub greeting: String,
}

impl Clone for User {
    fn clone(&self) -> (r: Self)
        ensures
            r == *self,
    {
        User { name: self.name.clone(), greeting: self.greeting.clone() }
    }
}

/// A record as the table keeps it: both fields already uppercase-normalized.
pub open spec fn normalized(u: User) -> bool {
    u.name@ == upper(u.name@) && u.greeting@ == upper(u.greeting@)
}

/// The contents of a row sequence as a map from name to greeting, later
/// rows taking precedence over earlier ones.
pub open spec fn row_map(rows: Seq<User>) -> Map<Seq<char>, Seq<char>>
    decreases rows.len(),
{
    if rows.len() == 0 {
        Map::empty()
    } else {
        row_map(rows.drop_last()).insert(rows.last().name@, rows.last().greeting@)
    }
}

proof fn lemma_row_map_contains(rows: Seq<User>, k: Seq<char>)
    ensures
        row_map(rows).contains_key(k) <==> exists|i: int|
            0 <= i < rows.len() && #[trigger] rows[i].name@ == k,
    decreases rows.len(),
{
    if rows.len() > 0 {
        lemma_row_map_contains(rows.drop_last(), k);
        if rows.last().name@ == k {
            assert(rows[rows.len() - 1].name@ == k);
        } else {
            if row_map(rows).contains_key(k) {
                let i = choose|i: int|
                    0 <= i < rows.drop_last().len() && #[trigger] rows.drop_last()[i].name@ == k;
                assert(rows[i].name@ == k);
            }
            if exists|i: int| 0 <= i < rows.len() && #[trigger] rows[i].name@ == k {
                let i = choose|i: int| 0 <= i < rows.len() && #[trigger] rows[i].name@ == k;
                assert(rows.drop_last()[i].name@ == k);
            }
        }
    }
}

proof fn lemma_row_map_value(rows: Seq<User>, i: int)
    requires
        0 <= i < rows.len(),
        forall|a: int, b: int| 0 <= a < b < rows.len() ==> rows[a].name@ != rows[b].name@,
    ensures
        row_map(rows).contains_key(rows[i].name@),
        row_map(rows)[rows[i].name@] == rows[i].greeting@,
    decreases rows.len(),
{
    if i < rows.len() - 1 {
        lemma_row_map_value(rows.drop_last(), i);
        assert(rows.drop_last()[i] == rows[i]);
        assert(rows[i].name@ != rows.last().name@);
    }
}

proof fn lemma_row_map_overwrite(rows: Seq<User>, i: int, u: User)
    requires
        0 <= i < rows.len(),
        u.name@ == rows[i].name@,
        forall|a: int, b: int| 0 <= a < b < rows.len() ==> rows[a].name@ != rows[b].name@,
    ensures
        row_map(rows.update(i, u)) == row_map(rows).insert(u.name@, u.greeting@),
    decreases rows.len(),
{
    let s2 = rows.update(i, u);
    if i == rows.len() - 1 {
        assert(s2.drop_last() =~= rows.drop_last());
        assert(s2.last() == u);
        assert(row_map(s2) =~= row_map(rows).insert(u.name@, u.greeting@));
    } else {
        assert(s2.drop_last() =~= rows.drop_last().update(i, u));
        assert(s2.last() == rows.last());
        assert(forall|a: int, b: int|
            0 <= a < b < rows.drop_last().len()
                ==> rows.drop_last()[a].name@ != rows.drop_last()[b].name@);
        lemma_row_map_overwrite(rows.drop_last(), i, u);
        assert(u.name@ != rows.last().name@);
        assert(row_map(s2) =~= row_map(rows).insert(u.name@, u.greeting@));
    }
}

/// The persistent table: at most one row per normalized name.
pub struct UsersDatabase {
    rows: Vec<User>,
}

impl View for UsersDatabase {
    type V = Map<Seq<char>, Seq<char>>;

    open spec fn view(&self) -> Map<Seq<char>, Seq<char>> {
        row_map(self.records())
    }
}

impl UsersDatabase {
    /// The stored records, in the table's scan order.
    pub closed spec fn records(&self) -> Seq<User> {
        self.rows@
    }

    /// Every row normalized, and no two rows share a name.
    pub open spec fn wf(&self) -> bool {
        &&& forall|i: int|
            0 <= i < self.records().len() ==> normalized(#[trigger] self.records()[i])
        &&& forall|i: int, j: int|
            0 <= i < j < self.records().len()
                ==> self.records()[i].name@ != self.records()[j].name@
    }

    /// Creates an empty table.
    pub fn new() -> (r: Self)
        ensures
            r.wf(),
            r@ == Map::<Seq<char>, Seq<char>>::empty(),
            r.records() == Seq::<User>::empty(),
    {
        let r = UsersDatabase { rows: Vec::new() };
        proof {
            assert(r.records() =~= Seq::<User>::empty());
        }
        r
    }

    fn find_row(&self, key: &String) -> (r: Option<usize>)
        ensures
            match r {
                Some(i) => i < self.records().len() && self.records()[i as int].name@ == key@,
                None => forall|j: int|
                    0 <= j < self.records().len() ==> self.records()[j].name@ != key@,
            },
    {
        let n = self.rows.len();
        let mut i: usize = 0;
        while i < n
            invariant
                n == self.records().len(),
                i <= n,
                forall|j: int| 0 <= j < i ==> self.records()[j].name@ != key@,
            decreases n - i,
        {
            if self.rows[i].name == *key {
                return Some(i);
            }
            i = i + 1;
        }
        None
    }

    /// Point lookup by case-insensitive name; `None` means no such record,
    /// which is a valid outcome and not an error.
    pub fn get_user(&self, user: &str) -> (r: Option<User>)
        requires
            self.wf(),
            user@.len() > 0,
        ensures
            match r {
                Some(u) => self@.contains_key(upper(user@)) && u.name@ == upper(user@)
                    && u.greeting@ == self@[upper(user@)],
                None => !self@.contains_key(upper(user@)),
            },
    {
        let key = to_upper(user);
        match self.find_row(&key) {
            Some(i) => {
                proof {
                    lemma_row_map_value(self.records(), i as int);
                }
                Some(self.rows[i].clone())
            },
            None => {
                proof {
                    lemma_row_map_contains(self.records(), upper(user@));
                }
                None
            },
        }
    }

    /// Insert-or-overwrite keyed on the normalized name; both fields are
    /// normalized before storage. Atomic per call: the whole table change
    /// is this one map insert.
    pub fn update_user(&mut self, user: &User)
        requires
            old(self).wf(),
        ensures
            final(self).wf(),
            final(self)@ == old(self)@.insert(upper(user.name@), upper(user.greeting@)),
    {
        let key = to_upper(user.name.as_str());
        let val = to_upper(user.greeting.as_str());
        proof {
            lemma_upper_idempotent(user.name@);
            lemma_upper_idempotent(user.greeting@);
        }
        let ghost old_rows = self.records();
        match self.find_row(&key) {
            Some(i) => {
                let row = User { name: key, greeting: val };
                let ghost grow = row;
                self.rows.set(i, row);
                proof {
                    lemma_row_map_overwrite(old_rows, i as int, grow);
                }
            },
            None => {
                let row = User { name: key, greeting: val };
                self.rows.push(row);
                proof {
                    assert(self.records().drop_last() =~= old_rows);
                }
            },
        }
    }

    /// Snapshot of every stored record, in scan order.
    pub fn get_all_users(&self) -> (r: Vec<User>)
        ensures
            r@ == self.records(),
    {
        let n = self.rows.len();
        let mut r: Vec<User> = Vec::new();
        let mut i: usize = 0;
        while i < n
            invariant
                n == self.records().len(),
                i <= n,
                r@ == self.records().subrange(0, i as int),
            decreases n - i,
        {
            r.push(self.rows[i].clone());
            i = i + 1;
            proof {
                assert(r@ =~= self.records().subrange(0, i as int));
            }
        }
        proof {
            assert(self.records().subrange(0, n as int) =~= self.records());
        }
        r
    }
}

/// The records of a well-formed table are exactly the entries of its map
/// view: a name is in the view exactly when some row carries it, that row's
/// greeting is the view's value, and no name appears on two rows.
pub proof fn lemma_records_match_view(db: &UsersDatabase)
    requires
        db.wf(),
    ensures
        forall|k: Seq<char>| #[trigger]
            db@.contains_key(k) <==> exists|i: int|
                0 <= i < db.records().len() && #[trigger] db.records()[i].name@ == k,
        forall|i: int|
            0 <= i < db.records().len() ==> db@[(#[trigger] db.records()[i]).name@]
                == db.records()[i].greeting@,
        forall|i: int, j: int|
            0 <= i < j < db.records().len()
                ==> db.records()[i].name@ != db.records()[j].name@,
{
    assert forall|k: Seq<char>| #[trigger]
        db@.contains_key(k) <==> exists|i: int|
            0 <= i < db.records().len() && #[trigger] db.records()[i].name@ == k by {
        lemma_row_map_contains(db.records(), k);
    }
    assert forall|i: int| 0 <= i < db.records().len() implies db@[(#[trigger] db.records()[
        i
    ]).name@] == db.records()[i].greeting@ by {
        lemma_row_map_value(db.records(), i);
    }
}

} // verus!
