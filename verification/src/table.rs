//! A keyed table: rows held in insertion order, at most one row per key.

use vstd::prelude::*;
use crate::types::StoreError;

verus! {

/// A row that carries its own primary key.
pub trait Row: Sized {
    type Key;

    /// The primary key of this row.
    spec fn key(&self) -> Self::Key;

    fn get_key(&self) -> (k: Self::Key)
        ensures
            k == self.key(),
    ;

    fn key_eq(a: &Self::Key, b: &Self::Key) -> (e: bool)
        ensures
            e == (*a == *b),
    ;
}

/// Some row of `rows` has the key `key`.
pub open spec fn holds_key<R: Row>(rows: Seq<R>, key: R::Key) -> bool {
    exists|i: int| 0 <= i < rows.len() && #[trigger] rows[i].key() == key
}

/// An index at which `rows` holds the key `key`, if there is one.
pub open spec fn row_index<R: Row>(rows: Seq<R>, key: R::Key) -> int {
    choose|i: int| 0 <= i < rows.len() && #[trigger] rows[i].key() == key
}

/// No two rows of `rows` share a key.
pub open spec fn distinct_keys<R: Row>(rows: Seq<R>) -> bool {
    forall|i: int, j: int|
        0 <= i < j < rows.len() ==> #[trigger] rows[i].key() != #[trigger] rows[j].key()
}

/// The rows of `rows`, each found under its key.
pub open spec fn keyed<R: Row>(rows: Seq<R>) -> Map<R::Key, R> {
    Map::new(|k: R::Key| holds_key(rows, k), |k: R::Key| rows[row_index(rows, k)])
}

/// With distinct keys, the row at index `i` is the one found under its key.
pub proof fn lemma_keyed_at<R: Row>(rows: Seq<R>, i: int)
    requires
        distinct_keys(rows),
        0 <= i < rows.len(),
    ensures
        keyed(rows).contains_key(rows[i].key()),
        keyed(rows)[rows[i].key()] == rows[i],
{
    let k = rows[i].key();
    assert(holds_key(rows, k));
    let j = row_index(rows, k);
    assert(0 <= j < rows.len() && rows[j].key() == k);
    if j < i {
        assert(rows[j].key() != rows[i].key());
    } else if i < j {
        assert(rows[i].key() != rows[j].key());
    }
}

/// Appending a row with a fresh key inserts it into the keyed map.
pub proof fn lemma_keyed_push<R: Row>(rows: Seq<R>, row: R)
    requires
        distinct_keys(rows),
        !holds_key(rows, row.key()),
    ensures
        distinct_keys(rows.push(row)),
        keyed(rows.push(row)) == keyed(rows).insert(row.key(), row),
{
    let grown = rows.push(row);
    let n = rows.len() as int;
    assert forall|i: int, j: int| 0 <= i < j < grown.len() implies #[trigger] grown[i].key()
        != #[trigger] grown[j].key() by {
        if j < n {
            assert(rows[i].key() != rows[j].key());
        } else {
            assert(rows[i].key() == grown[i].key());
        }
    }
    assert forall|k: R::Key| holds_key(grown, k) <==> (holds_key(rows, k) || k == row.key()) by {
        if holds_key(grown, k) {
            let i = row_index(grown, k);
            if i < n {
                assert(rows[i].key() == k);
            }
        }
        if holds_key(rows, k) {
            let i = row_index(rows, k);
            assert(grown[i].key() == k);
        }
        if k == row.key() {
            assert(grown[n].key() == k);
        }
    }
    assert forall|k: R::Key| holds_key(grown, k) implies #[trigger] keyed(grown)[k] == keyed(
        rows,
    ).insert(row.key(), row)[k] by {
        if k == row.key() {
            assert(grown[n].key() == k);
            lemma_keyed_at(grown, n);
        } else {
            let i = row_index(rows, k);
            assert(grown[i] == rows[i]);
            lemma_keyed_at(grown, i);
            lemma_keyed_at(rows, i);
        }
    }
    assert(keyed(grown) =~= keyed(rows).insert(row.key(), row));
}

/// Replacing the row at index `i` by one with the same key replaces it in the keyed map.
pub proof fn lemma_keyed_update<R: Row>(rows: Seq<R>, i: int, row: R)
    requires
        distinct_keys(rows),
        0 <= i < rows.len(),
        rows[i].key() == row.key(),
    ensures
        distinct_keys(rows.update(i, row)),
        keyed(rows.update(i, row)) == keyed(rows).insert(row.key(), row),
{
    let changed = rows.update(i, row);
    assert forall|a: int| 0 <= a < rows.len() implies #[trigger] changed[a].key()
        == rows[a].key() by {}
    assert forall|a: int, b: int| 0 <= a < b < changed.len() implies #[trigger] changed[a].key()
        != #[trigger] changed[b].key() by {
        assert(rows[a].key() != rows[b].key());
    }
    assert forall|k: R::Key| holds_key(changed, k) <==> holds_key(rows, k) by {
        if holds_key(changed, k) {
            let a = row_index(changed, k);
            assert(rows[a].key() == k);
        }
        if holds_key(rows, k) {
            let a = row_index(rows, k);
            assert(changed[a].key() == k);
        }
    }
    assert(holds_key(rows, row.key())) by {
        assert(rows[i].key() == row.key());
    }
    assert forall|k: R::Key| holds_key(changed, k) implies #[trigger] keyed(changed)[k] == keyed(
        rows,
    ).insert(row.key(), row)[k] by {
        let a = row_index(rows, k);
        lemma_keyed_at(changed, a);
        lemma_keyed_at(rows, a);
        if k == row.key() {
            lemma_keyed_at(changed, i);
        } else {
            assert(a != i);
        }
    }
    assert(keyed(changed) =~= keyed(rows).insert(row.key(), row));
}

/// Taking out the row at index `i` removes its key from the keyed map.
pub proof fn lemma_keyed_remove<R: Row>(rows: Seq<R>, i: int)
    requires
        distinct_keys(rows),
        0 <= i < rows.len(),
    ensures
        distinct_keys(rows.remove(i)),
        keyed(rows.remove(i)) == keyed(rows).remove(rows[i].key()),
{
    let rest = rows.remove(i);
    let gone = rows[i].key();
    assert forall|a: int| 0 <= a < rest.len() implies #[trigger] rest[a] == rows[if a < i {
        a
    } else {
        a + 1
    }] by {}
    assert forall|a: int, b: int| 0 <= a < b < rest.len() implies #[trigger] rest[a].key()
        != #[trigger] rest[b].key() by {
        let a0 = if a < i { a } else { a + 1 };
        let b0 = if b < i { b } else { b + 1 };
        assert(rows[a0].key() != rows[b0].key());
    }
    assert forall|k: R::Key| holds_key(rest, k) <==> (holds_key(rows, k) && k != gone) by {
        if holds_key(rest, k) {
            let a = row_index(rest, k);
            let a0 = if a < i { a } else { a + 1 };
            assert(rows[a0].key() == k);
            if a0 < i {
                assert(rows[a0].key() != rows[i].key());
            } else {
                assert(rows[i].key() != rows[a0].key());
            }
        }
        if holds_key(rows, k) && k != gone {
            let a0 = row_index(rows, k);
            let a = if a0 < i { a0 } else { a0 - 1 };
            assert(rest[a].key() == k);
        }
    }
    assert forall|k: R::Key| holds_key(rest, k) implies #[trigger] keyed(rest)[k] == keyed(
        rows,
    ).remove(gone)[k] by {
        let a = row_index(rest, k);
        let a0 = if a < i { a } else { a + 1 };
        lemma_keyed_at(rest, a);
        lemma_keyed_at(rows, a0);
    }
    assert(keyed(rest) =~= keyed(rows).remove(gone));
}

/// With distinct keys, the keyed map has as many entries as there are rows.
pub proof fn lemma_keyed_len<R: Row>(rows: Seq<R>)
    requires
        distinct_keys(rows),
    ensures
        keyed(rows).dom().finite(),
        keyed(rows).dom().len() == rows.len(),
    decreases rows.len(),
{
    if rows.len() == 0 {
        assert(keyed(rows).dom() =~= Set::<R::Key>::empty());
    } else {
        let init = rows.drop_last();
        let last = rows.last();
        assert(rows == init.push(last));
        assert forall|i: int, j: int| 0 <= i < j < init.len() implies #[trigger] init[i].key()
            != #[trigger] init[j].key() by {
            assert(rows[i].key() != rows[j].key());
        }
        if holds_key(init, last.key()) {
            let i = row_index(init, last.key());
            assert(rows[i].key() != rows[rows.len() - 1].key());
        }
        lemma_keyed_len(init);
        lemma_keyed_push(init, last);
        assert(keyed(rows).dom() =~= keyed(init).dom().insert(last.key()));
    }
}

/// The keyed map of any sequence of rows has a finite domain.
pub proof fn lemma_keyed_finite<R: Row>(rows: Seq<R>)
    ensures
        keyed(rows).dom().finite(),
    decreases rows.len(),
{
    if rows.len() == 0 {
        assert(keyed(rows).dom() =~= Set::<R::Key>::empty());
    } else {
        let init = rows.drop_last();
        let last = rows.last();
        lemma_keyed_finite(init);
        assert forall|k: R::Key| holds_key(rows, k) <==> (holds_key(init, k) || k
            == last.key()) by {
            if holds_key(rows, k) {
                let i = row_index(rows, k);
                if i < init.len() {
                    assert(init[i].key() == k);
                }
            }
            if holds_key(init, k) {
                let i = row_index(init, k);
                assert(rows[i].key() == k);
            }
            if k == last.key() {
                assert(rows[rows.len() - 1].key() == k);
            }
        }
        assert(keyed(rows).dom() =~= keyed(init).dom().insert(last.key()));
    }
}

/// A table of rows, at most one per key.
pub struct Table<R: Row> {
    rows: Vec<R>,
}

impl<R: Row> View for Table<R> {
    type V = Map<R::Key, R>;

    /// The table as a map from key to row.
    open spec fn view(&self) -> Map<R::Key, R> {
        keyed(self.rows())
    }
}

impl<R: Row> Table<R> {
    /// The rows in the order in which a scan yields them.
    pub closed spec fn rows(&self) -> Seq<R> {
        self.rows@
    }

    #[verifier::type_invariant]
    spec fn well_formed(&self) -> bool {
        distinct_keys(self.rows@)
    }

    /// An empty table.
    pub fn new() -> (table: Self)
        ensures
            table.rows() == Seq::<R>::empty(),
            table@ == Map::<R::Key, R>::empty(),
    {
        let table = Table { rows: Vec::new() };
        assert(table@ =~= Map::<R::Key, R>::empty());
        table
    }

    fn find(&self, key: &R::Key) -> (found: Option<usize>)
        ensures
            match found {
                Some(i) => i < self.rows().len() && self.rows()[i as int].key() == *key,
                None => !holds_key(self.rows(), *key),
            },
    {
        let mut i: usize = 0;
        while i < self.rows.len()
            invariant
                i <= self.rows@.len(),
                forall|j: int| 0 <= j < i ==> (#[trigger] self.rows@[j].key()) != *key,
            decreases self.rows@.len() - i,
        {
            let k = self.rows[i].get_key();
            if R::key_eq(&k, key) {
                return Some(i);
            }
            i += 1;
        }
        None
    }

    /// The number of rows.
    pub fn len(&self) -> (n: usize)
        ensures
            n == self@.dom().len(),
            n == self.rows().len(),
            self@.dom().finite(),
    {
        proof {
            use_type_invariant(self);
            lemma_keyed_len(self.rows@);
        }
        self.rows.len()
    }

    /// Whether the table holds no row.
    pub fn is_empty(&self) -> (b: bool)
        ensures
            b == (self@.dom().len() == 0),
            b == (self@ == Map::<R::Key, R>::empty()),
            self@.dom().finite(),
    {
        proof {
            use_type_invariant(self);
            lemma_keyed_len(self.rows@);
            if self.rows@.len() == 0 {
                assert(self@ =~= Map::<R::Key, R>::empty());
            } else {
                assert(self@.dom().len() != 0);
            }
        }
        self.rows.len() == 0
    }

    /// Whether a row with the key `key` exists.
    pub fn contains(&self, key: &R::Key) -> (b: bool)
        ensures
            b == self@.contains_key(*key),
    {
        self.find(key).is_some()
    }

    /// The row with the key `key`, if there is one.
    pub fn get(&self, key: &R::Key) -> (row: Option<&R>)
        ensures
            match row {
                Some(r) => self@.contains_key(*key) && *r == self@[*key] && r.key() == *key,
                None => !self@.contains_key(*key),
            },
    {
        match self.find(key) {
            Some(i) => {
                proof {
                    use_type_invariant(self);
                    lemma_keyed_at(self.rows@, i as int);
                }
                Some(&self.rows[i])
            },
            None => None,
        }
    }

    /// Adds `row`; a row with the same key must not exist yet.
    pub fn insert(&mut self, row: R) -> (res: Result<(), StoreError>)
        ensures
            old(self)@.contains_key(row.key()) ==> res == Err::<(), StoreError>(
                StoreError::DuplicateKey,
            ) && *final(self) == *old(self),
            !old(self)@.contains_key(row.key()) ==> res == Ok::<(), StoreError>(())
                && final(self)@ == old(self)@.insert(row.key(), row) && final(self).rows() == old(
                self,
            ).rows().push(row),
    {
        let k = row.get_key();
        match self.find(&k) {
            Some(_) => Err(StoreError::DuplicateKey),
            None => {
                proof {
                    use_type_invariant(&*self);
                    lemma_keyed_push(self.rows@, row);
                }
                let mut rows: Vec<R> = Vec::new();
                std::mem::swap(&mut rows, &mut self.rows);
                rows.push(row);
                self.rows = rows;
                Ok(())
            },
        }
    }

    /// Replaces the row that has the key of `row`; such a row must exist.
    pub fn update(&mut self, row: R) -> (res: Result<(), StoreError>)
        ensures
            !old(self)@.contains_key(row.key()) ==> res == Err::<(), StoreError>(
                StoreError::NotFound,
            ) && *final(self) == *old(self),
            old(self)@.contains_key(row.key()) ==> res == Ok::<(), StoreError>(())
                && final(self)@ == old(self)@.insert(row.key(), row),
    {
        let k = row.get_key();
        match self.find(&k) {
            None => Err(StoreError::NotFound),
            Some(i) => {
                proof {
                    use_type_invariant(&*self);
                    lemma_keyed_update(self.rows@, i as int, row);
                }
                let mut rows: Vec<R> = Vec::new();
                std::mem::swap(&mut rows, &mut self.rows);
                rows.set(i, row);
                self.rows = rows;
                Ok(())
            },
        }
    }

    /// Stores `row` under its key, replacing the row that had this key, if any.
    /// Returns whether a row was replaced.
    pub fn upsert(&mut self, row: R) -> (replaced: bool)
        ensures
            replaced == old(self)@.contains_key(row.key()),
            final(self)@ == old(self)@.insert(row.key(), row),
    {
        let k = row.get_key();
        match self.find(&k) {
            Some(i) => {
                proof {
                    use_type_invariant(&*self);
                    lemma_keyed_update(self.rows@, i as int, row);
                }
                let mut rows: Vec<R> = Vec::new();
                std::mem::swap(&mut rows, &mut self.rows);
                rows.set(i, row);
                self.rows = rows;
                true
            },
            None => {
                proof {
                    use_type_invariant(&*self);
                    lemma_keyed_push(self.rows@, row);
                }
                let mut rows: Vec<R> = Vec::new();
                std::mem::swap(&mut rows, &mut self.rows);
                rows.push(row);
                self.rows = rows;
                false
            },
        }
    }

    /// Removes the row with the key `key`, if there is one.
    /// Returns whether a row was removed.
    pub fn delete(&mut self, key: &R::Key) -> (removed: bool)
        ensures
            removed == old(self)@.contains_key(*key),
            final(self)@ == old(self)@.remove(*key),
            !removed ==> *final(self) == *old(self),
    {
        match self.find(key) {
            Some(i) => {
                proof {
                    use_type_invariant(&*self);
                    lemma_keyed_remove(self.rows@, i as int);
                }
                let mut rows: Vec<R> = Vec::new();
                std::mem::swap(&mut rows, &mut self.rows);
                let _ = rows.remove(i);
                self.rows = rows;
                true
            },
            None => {
                assert(self@.remove(*key) =~= self@);
                false
            },
        }
    }

    /// Removes every row.
    pub fn clear(&mut self)
        ensures
            final(self)@ == Map::<R::Key, R>::empty(),
            final(self).rows() == Seq::<R>::empty(),
    {
        self.rows = Vec::new();
        assert(self@ =~= Map::<R::Key, R>::empty());
    }

    /// All rows, each key once, in an order that stays the same until the
    /// table is next changed.
    pub fn scan(&self) -> (rows: &Vec<R>)
        ensures
            rows@ == self.rows(),
            distinct_keys(rows@),
            rows@.len() == self@.dom().len(),
            forall|i: int|
                0 <= i < rows@.len() ==> self@.contains_key(#[trigger] rows@[i].key())
                    && self@[rows@[i].key()] == rows@[i],
            forall|k: R::Key| self@.contains_key(k) ==> holds_key(rows@, k),
    {
        proof {
            use_type_invariant(self);
            lemma_keyed_len(self.rows@);
            assert forall|i: int| 0 <= i < self.rows@.len() implies self@.contains_key(
                #[trigger] self.rows@[i].key(),
            ) && self@[self.rows@[i].key()] == self.rows@[i] by {
                lemma_keyed_at(self.rows@, i);
            }
        }
        &self.rows
    }
}

} // verus!
