//! A keyed table of rows, the persistence that the vault's operations work
//! on. The table is blind: it finds, lists, saves and deletes by key and by
//! owner, and leaves the question of who may do so to its callers.

use crate::model::Row;
use vstd::prelude::*;

verus! {

/// The values of a list of rows, in order.
pub open spec fn views<R: Row>(rows: Seq<R>) -> Seq<R::V> {
    Seq::new(rows.len(), |i: int| rows[i]@)
}

/// Whether some row has the key.
pub open spec fn has_row<R: Row>(rows: Seq<R::V>, key: Seq<char>) -> bool {
    exists|i: int| 0 <= i < rows.len() && R::key(#[trigger] rows[i]) == key
}

/// Whether `i` is the position of the first row with the key.
pub open spec fn is_first_row<R: Row>(rows: Seq<R::V>, key: Seq<char>, i: int) -> bool {
    &&& 0 <= i < rows.len()
    &&& R::key(rows[i]) == key
    &&& forall|j: int| 0 <= j < i ==> R::key(#[trigger] rows[j]) != key
}

/// The position of the first row with the key, where there is one.
pub open spec fn first_row<R: Row>(rows: Seq<R::V>, key: Seq<char>) -> int {
    choose|i: int| is_first_row::<R>(rows, key, i)
}

/// The row stored under a key.
pub open spec fn row_at<R: Row>(rows: Seq<R::V>, key: Seq<char>) -> Option<R::V> {
    if has_row::<R>(rows, key) {
        Some(rows[first_row::<R>(rows, key)])
    } else {
        None
    }
}

/// The rows after `row` is saved: it takes the place of the row with its key,
/// or comes last where its key is new.
pub open spec fn with_row<R: Row>(rows: Seq<R::V>, row: R::V) -> Seq<R::V> {
    if has_row::<R>(rows, R::key(row)) {
        rows.update(first_row::<R>(rows, R::key(row)), row)
    } else {
        rows.push(row)
    }
}

/// The rows of one owner, in the table's order.
pub open spec fn owned_by<R: Row>(rows: Seq<R::V>, owner: Seq<char>) -> Seq<R::V>
    decreases rows.len(),
{
    if rows.len() == 0 {
        rows
    } else if R::owner(rows.last()) == owner {
        owned_by::<R>(rows.drop_last(), owner).push(rows.last())
    } else {
        owned_by::<R>(rows.drop_last(), owner)
    }
}

/// The rows that are left when those of one owner are deleted.
pub open spec fn without_owner<R: Row>(rows: Seq<R::V>, owner: Seq<char>) -> Seq<R::V>
    decreases rows.len(),
{
    if rows.len() == 0 {
        rows
    } else if R::owner(rows.last()) == owner {
        without_owner::<R>(rows.drop_last(), owner)
    } else {
        without_owner::<R>(rows.drop_last(), owner).push(rows.last())
    }
}

/// The rows that are left when the key is deleted.
pub open spec fn without_key<R: Row>(rows: Seq<R::V>, key: Seq<char>) -> Seq<R::V>
    decreases rows.len(),
{
    if rows.len() == 0 {
        rows
    } else if R::key(rows.last()) == key {
        without_key::<R>(rows.drop_last(), key)
    } else {
        without_key::<R>(rows.drop_last(), key).push(rows.last())
    }
}

/// Whether no key occurs twice.
pub open spec fn distinct<R: Row>(rows: Seq<R::V>) -> bool {
    forall|i: int, j: int|
        0 <= i < j < rows.len() ==> R::key(#[trigger] rows[i]) != R::key(#[trigger] rows[j])
}

/// The first row with a key is the only position that `is_first_row` accepts.
pub proof fn lemma_first_row<R: Row>(rows: Seq<R::V>, key: Seq<char>, i: int)
    requires
        is_first_row::<R>(rows, key, i),
    ensures
        has_row::<R>(rows, key),
        first_row::<R>(rows, key) == i,
        row_at::<R>(rows, key) == Some(rows[i]),
{
    let c = first_row::<R>(rows, key);
    assert(is_first_row::<R>(rows, key, c));
    if c < i {
        assert(R::key(rows[c]) != key);
    }
    if i < c {
        assert(R::key(rows[i]) != key);
    }
}

/// Where a key occurs, its first position exists.
pub proof fn lemma_has_first_row<R: Row>(rows: Seq<R::V>, key: Seq<char>)
    requires
        has_row::<R>(rows, key),
    ensures
        is_first_row::<R>(rows, key, first_row::<R>(rows, key)),
{
    let w = choose|i: int| 0 <= i < rows.len() && R::key(#[trigger] rows[i]) == key;
    lemma_first_row_below::<R>(rows, key, w);
}

proof fn lemma_first_row_below<R: Row>(rows: Seq<R::V>, key: Seq<char>, w: int)
    requires
        0 <= w < rows.len(),
        R::key(rows[w]) == key,
    ensures
        is_first_row::<R>(rows, key, first_row::<R>(rows, key)),
    decreases w,
{
    if forall|j: int| 0 <= j < w ==> R::key(#[trigger] rows[j]) != key {
        assert(is_first_row::<R>(rows, key, w));
    } else {
        let j = choose|j: int| 0 <= j < w && R::key(#[trigger] rows[j]) == key;
        lemma_first_row_below::<R>(rows, key, j);
    }
}

/// A saved row is found under its key, and what is stored under any other
/// key is what was stored there before.
pub proof fn lemma_saved_row<R: Row>(rows: Seq<R::V>, row: R::V, other: Seq<char>)
    ensures
        row_at::<R>(with_row::<R>(rows, row), R::key(row)) == Some(row),
        other != R::key(row) ==> row_at::<R>(with_row::<R>(rows, row), other) == row_at::<R>(
            rows,
            other,
        ),
{
    let key = R::key(row);
    let after = with_row::<R>(rows, row);
    if has_row::<R>(rows, key) {
        lemma_has_first_row::<R>(rows, key);
        let p = first_row::<R>(rows, key);
        assert(is_first_row::<R>(after, key, p)) by {
            assert forall|j: int| 0 <= j < p implies R::key(#[trigger] after[j]) != key by {
                assert(R::key(rows[j]) != key);
            }
        }
        lemma_first_row::<R>(after, key, p);
    } else {
        let p = rows.len() as int;
        assert(is_first_row::<R>(after, key, p)) by {
            assert forall|j: int| 0 <= j < p implies R::key(#[trigger] after[j]) != key by {
                assert(R::key(rows[j]) == R::key(after[j]));
            }
        }
        lemma_first_row::<R>(after, key, p);
    }
    if other != key {
        if has_row::<R>(rows, other) {
            lemma_has_first_row::<R>(rows, other);
            let q = first_row::<R>(rows, other);
            assert(after[q] == rows[q]);
            assert(is_first_row::<R>(after, other, q)) by {
                assert forall|j: int| 0 <= j < q implies R::key(#[trigger] after[j]) != other by {
                    assert(R::key(rows[j]) != other);
                }
            }
            lemma_first_row::<R>(after, other, q);
        } else {
            if has_row::<R>(after, other) {
                let w = choose|i: int| 0 <= i < after.len() && R::key(#[trigger] after[i]) == other;
                if w < rows.len() {
                    assert(R::key(rows[w]) == other);
                }
            }
        }
    }
}

/// The row stored under a key has that key.
pub proof fn lemma_row_at_key<R: Row>(rows: Seq<R::V>, key: Seq<char>)
    ensures
        row_at::<R>(rows, key) matches Some(row) ==> R::key(row) == key && rows.contains(row),
{
    if has_row::<R>(rows, key) {
        lemma_has_first_row::<R>(rows, key);
    }
}

/// Every row that a selection by owner, or a deletion, leaves was in the
/// table, in the same order, and met the condition.
pub proof fn lemma_selected<R: Row>(rows: Seq<R::V>, text: Seq<char>)
    ensures
        forall|i: int|
            0 <= i < owned_by::<R>(rows, text).len() ==> R::owner(
                #[trigger] owned_by::<R>(rows, text)[i],
            ) == text && rows.contains(owned_by::<R>(rows, text)[i]),
        forall|i: int|
            0 <= i < without_owner::<R>(rows, text).len() ==> R::owner(
                #[trigger] without_owner::<R>(rows, text)[i],
            ) != text && rows.contains(without_owner::<R>(rows, text)[i]),
        forall|i: int|
            0 <= i < without_key::<R>(rows, text).len() ==> R::key(
                #[trigger] without_key::<R>(rows, text)[i],
            ) != text && rows.contains(without_key::<R>(rows, text)[i]),
        forall|i: int|
            0 <= i < rows.len() && R::owner(rows[i]) == text ==> owned_by::<R>(
                rows,
                text,
            ).contains(#[trigger] rows[i]),
        forall|i: int|
            0 <= i < rows.len() && R::owner(rows[i]) != text ==> without_owner::<R>(
                rows,
                text,
            ).contains(#[trigger] rows[i]),
        forall|i: int|
            0 <= i < rows.len() && R::key(rows[i]) != text ==> without_key::<R>(
                rows,
                text,
            ).contains(#[trigger] rows[i]),
    decreases rows.len(),
{
    if rows.len() > 0 {
        let rest = rows.drop_last();
        let last = rows.last();
        lemma_selected::<R>(rest, text);
        let a = owned_by::<R>(rows, text);
        let b = without_owner::<R>(rows, text);
        let c = without_key::<R>(rows, text);
        assert forall|i: int| 0 <= i < a.len() implies R::owner(#[trigger] a[i]) == text
            && rows.contains(a[i]) by {
            if i < owned_by::<R>(rest, text).len() {
                let x = owned_by::<R>(rest, text)[i];
                assert(rest.contains(x));
                let k = choose|k: int| 0 <= k < rest.len() && rest[k] == x;
                assert(rows[k] == x);
            } else {
                assert(rows[rows.len() - 1] == last);
            }
        }
        assert forall|i: int| 0 <= i < b.len() implies R::owner(#[trigger] b[i]) != text
            && rows.contains(b[i]) by {
            if i < without_owner::<R>(rest, text).len() {
                let x = without_owner::<R>(rest, text)[i];
                assert(rest.contains(x));
                let k = choose|k: int| 0 <= k < rest.len() && rest[k] == x;
                assert(rows[k] == x);
            } else {
                assert(rows[rows.len() - 1] == last);
            }
        }
        assert forall|i: int| 0 <= i < c.len() implies R::key(#[trigger] c[i]) != text
            && rows.contains(c[i]) by {
            if i < without_key::<R>(rest, text).len() {
                let x = without_key::<R>(rest, text)[i];
                assert(rest.contains(x));
                let k = choose|k: int| 0 <= k < rest.len() && rest[k] == x;
                assert(rows[k] == x);
            } else {
                assert(rows[rows.len() - 1] == last);
            }
        }
        assert forall|i: int| 0 <= i < rows.len() && R::owner(rows[i]) == text implies a.contains(
            #[trigger] rows[i],
        ) by {
            if i < rest.len() {
                assert(rest[i] == rows[i]);
                let x = rows[i];
                assert(owned_by::<R>(rest, text).contains(x));
                let k = choose|k: int|
                    0 <= k < owned_by::<R>(rest, text).len() && owned_by::<R>(rest, text)[k] == x;
                assert(a[k] == x);
            } else {
                assert(a[a.len() - 1] == rows[i]);
            }
        }
        assert forall|i: int| 0 <= i < rows.len() && R::owner(rows[i]) != text implies b.contains(
            #[trigger] rows[i],
        ) by {
            if i < rest.len() {
                assert(rest[i] == rows[i]);
                let x = rows[i];
                assert(without_owner::<R>(rest, text).contains(x));
                let k = choose|k: int|
                    0 <= k < without_owner::<R>(rest, text).len() && without_owner::<R>(
                        rest,
                        text,
                    )[k] == x;
                assert(b[k] == x);
            } else {
                assert(b[b.len() - 1] == rows[i]);
            }
        }
        assert forall|i: int| 0 <= i < rows.len() && R::key(rows[i]) != text implies c.contains(
            #[trigger] rows[i],
        ) by {
            if i < rest.len() {
                assert(rest[i] == rows[i]);
                let x = rows[i];
                assert(without_key::<R>(rest, text).contains(x));
                let k = choose|k: int|
                    0 <= k < without_key::<R>(rest, text).len() && without_key::<R>(rest, text)[k]
                        == x;
                assert(c[k] == x);
            } else {
                assert(c[c.len() - 1] == rows[i]);
            }
        }
    }
}

/// Deleting keeps the keys distinct, and so does selecting.
pub proof fn lemma_distinct_kept<R: Row>(rows: Seq<R::V>, text: Seq<char>)
    requires
        distinct::<R>(rows),
    ensures
        distinct::<R>(without_key::<R>(rows, text)),
        distinct::<R>(without_owner::<R>(rows, text)),
        distinct::<R>(owned_by::<R>(rows, text)),
        forall|i: int|
            0 <= i < without_key::<R>(rows, text).len() ==> has_row::<R>(
                rows,
                R::key(#[trigger] without_key::<R>(rows, text)[i]),
            ),
        forall|i: int|
            0 <= i < without_owner::<R>(rows, text).len() ==> has_row::<R>(
                rows,
                R::key(#[trigger] without_owner::<R>(rows, text)[i]),
            ),
        forall|i: int|
            0 <= i < owned_by::<R>(rows, text).len() ==> has_row::<R>(
                rows,
                R::key(#[trigger] owned_by::<R>(rows, text)[i]),
            ),
    decreases rows.len(),
{
    if rows.len() > 0 {
        let rest = rows.drop_last();
        let last = rows.last();
        assert(distinct::<R>(rest)) by {
            assert forall|i: int, j: int| 0 <= i < j < rest.len() implies R::key(
                #[trigger] rest[i],
            ) != R::key(#[trigger] rest[j]) by {
                assert(R::key(rows[i]) != R::key(rows[j]));
            }
        }
        lemma_distinct_kept::<R>(rest, text);
        assert(forall|k: Seq<char>| has_row::<R>(rest, k) ==> k != R::key(last)) by {
            assert forall|k: Seq<char>| has_row::<R>(rest, k) implies k != R::key(last) by {
                let w = choose|i: int| 0 <= i < rest.len() && R::key(#[trigger] rest[i]) == k;
                assert(R::key(rows[w]) != R::key(rows[rows.len() - 1]));
            }
        }
        assert(forall|k: Seq<char>| has_row::<R>(rest, k) ==> has_row::<R>(rows, k)) by {
            assert forall|k: Seq<char>| has_row::<R>(rest, k) implies has_row::<R>(rows, k) by {
                let w = choose|i: int| 0 <= i < rest.len() && R::key(#[trigger] rest[i]) == k;
                assert(R::key(rows[w]) == k);
            }
        }
        assert(has_row::<R>(rows, R::key(last))) by {
            assert(R::key(rows[rows.len() - 1]) == R::key(last));
        }
    }
}

/// A keyed table. No two of its rows have the same key.
pub struct Table<R: Row> {
    rows: Vec<R>,
}

impl<R: Row> View for Table<R> {
    type V = Seq<R::V>;

    closed spec fn view(&self) -> Seq<R::V> {
        views::<R>(self.rows@)
    }
}

impl<R: Row> Table<R> {
    #[verifier::type_invariant]
    closed spec fn keyed(self) -> bool {
        distinct::<R>(views::<R>(self.rows@))
    }

    /// An empty table.
    pub fn new() -> (table: Self)
        ensures
            table@ == Seq::<R::V>::empty(),
    {
        let table = Table { rows: Vec::new() };
        assert(table@ =~= Seq::<R::V>::empty());
        table
    }

    /// The number of rows.
    pub fn len(&self) -> (n: usize)
        ensures
            n == self@.len(),
    {
        self.rows.len()
    }

    fn position(&self, key: &String) -> (at: Option<usize>)
        ensures
            at.is_some() == has_row::<R>(self@, key@),
            at matches Some(i) ==> is_first_row::<R>(self@, key@, i as int),
    {
        let mut i: usize = 0;
        while i < self.rows.len()
            invariant
                i <= self.rows.len(),
                self@ == views::<R>(self.rows@),
                forall|j: int| 0 <= j < i ==> R::key(#[trigger] self@[j]) != key@,
            decreases self.rows.len() - i,
        {
            if self.rows[i].has_key(key) {
                proof {
                    lemma_first_row::<R>(self@, key@, i as int);
                }
                return Some(i);
            }
            i += 1;
        }
        None
    }

    /// The row stored under the key: a copy of it.
    pub fn find(&self, key: &String) -> (found: Option<R>)
        ensures
            match found {
                Some(row) => row_at::<R>(self@, key@) == Some(row@),
                None => row_at::<R>(self@, key@) is None,
            },
    {
        match self.position(key) {
            Some(i) => {
                proof {
                    lemma_first_row::<R>(self@, key@, i as int);
                }
                Some(self.rows[i].duplicate())
            },
            None => None,
        }
    }

    /// Every row, in the table's order. No two of them have the same key.
    pub fn all(&self) -> (rows: Vec<R>)
        ensures
            views::<R>(rows@) == self@,
            distinct::<R>(self@),
    {
        proof {
            use_type_invariant(self);
        }
        let mut out: Vec<R> = Vec::new();
        let mut i: usize = 0;
        while i < self.rows.len()
            invariant
                i <= self.rows.len(),
                views::<R>(out@) == views::<R>(self.rows@).take(i as int),
            decreases self.rows.len() - i,
        {
            let ghost before = views::<R>(out@);
            out.push(self.rows[i].duplicate());
            assert(views::<R>(out@) =~= before.push(self.rows@[i as int]@));
            assert(before.push(self.rows@[i as int]@) =~= views::<R>(self.rows@).take(i + 1));
            i += 1;
        }
        assert(views::<R>(self.rows@).take(i as int) =~= self@);
        out
    }

    /// The rows of one owner, in the table's order. No two of them have the
    /// same key.
    pub fn find_by_owner(&self, owner: &String) -> (rows: Vec<R>)
        ensures
            views::<R>(rows@) == owned_by::<R>(self@, owner@),
            distinct::<R>(owned_by::<R>(self@, owner@)),
    {
        proof {
            use_type_invariant(self);
            lemma_distinct_kept::<R>(self@, owner@);
        }
        let mut out: Vec<R> = Vec::new();
        let mut i: usize = 0;
        assert(views::<R>(self.rows@).take(0) =~= Seq::<R::V>::empty());
        assert(views::<R>(out@) =~= Seq::<R::V>::empty());
        while i < self.rows.len()
            invariant
                i <= self.rows.len(),
                views::<R>(out@) == owned_by::<R>(views::<R>(self.rows@).take(i as int), owner@),
            decreases self.rows.len() - i,
        {
            let ghost seen = views::<R>(self.rows@).take(i as int);
            let ghost next = views::<R>(self.rows@).take(i + 1);
            assert(next.drop_last() =~= seen);
            assert(next.last() == self.rows@[i as int]@);
            let ghost before = views::<R>(out@);
            if self.rows[i].has_owner(owner) {
                out.push(self.rows[i].duplicate());
                assert(views::<R>(out@) =~= before.push(next.last()));
            }
            i += 1;
        }
        assert(views::<R>(self.rows@).take(i as int) =~= self@);
        out
    }

    /// Saves a row under its key: in the place of the row that has the key,
    /// or as the last row where the key is new.
    pub fn save(&mut self, row: R)
        ensures
            final(self)@ == with_row::<R>(old(self)@, row@),
    {
        proof {
            use_type_invariant(&*self);
        }
        let ghost before = self@;
        let ghost key = R::key(row@);
        match self.position(row.key_text()) {
            Some(i) => {
                proof {
                    lemma_first_row::<R>(before, key, i as int);
                }
                let mut rows: Vec<R> = Vec::new();
                core::mem::swap(&mut self.rows, &mut rows);
                rows.set(i, row);
                proof {
                    let after = views::<R>(rows@);
                    assert(after =~= with_row::<R>(before, row@));
                    assert forall|a: int, b: int| 0 <= a < b < after.len() implies R::key(
                        #[trigger] after[a],
                    ) != R::key(#[trigger] after[b]) by {
                        assert(R::key(before[a]) != R::key(before[b]));
                    }
                }
                self.rows = rows;
            },
            None => {
                let mut rows: Vec<R> = Vec::new();
                core::mem::swap(&mut self.rows, &mut rows);
                rows.push(row);
                proof {
                    let after = views::<R>(rows@);
                    assert(after =~= with_row::<R>(before, row@));
                    assert forall|a: int, b: int| 0 <= a < b < after.len() implies R::key(
                        #[trigger] after[a],
                    ) != R::key(#[trigger] after[b]) by {
                        if b < before.len() {
                            assert(R::key(before[a]) != R::key(before[b]));
                        } else {
                            assert(R::key(before[a]) != key);
                        }
                    }
                }
                self.rows = rows;
            },
        }
    }

    /// Deletes the row stored under the key, if there is one. The other rows
    /// keep their order.
    pub fn delete(&mut self, key: &String)
        ensures
            final(self)@ == without_key::<R>(old(self)@, key@),
    {
        proof {
            use_type_invariant(&*self);
            lemma_distinct_kept::<R>(self@, key@);
        }
        let mut kept: Vec<R> = Vec::new();
        let mut i: usize = 0;
        assert(views::<R>(self.rows@).take(0) =~= Seq::<R::V>::empty());
        assert(views::<R>(kept@) =~= Seq::<R::V>::empty());
        while i < self.rows.len()
            invariant
                i <= self.rows.len(),
                views::<R>(kept@) == without_key::<R>(views::<R>(self.rows@).take(i as int), key@),
            decreases self.rows.len() - i,
        {
            let ghost seen = views::<R>(self.rows@).take(i as int);
            let ghost next = views::<R>(self.rows@).take(i + 1);
            assert(next.drop_last() =~= seen);
            assert(next.last() == self.rows@[i as int]@);
            let ghost before = views::<R>(kept@);
            if !self.rows[i].has_key(key) {
                kept.push(self.rows[i].duplicate());
                assert(views::<R>(kept@) =~= before.push(next.last()));
            }
            i += 1;
        }
        assert(views::<R>(self.rows@).take(i as int) =~= self@);
        self.rows = kept;
    }

    /// Deletes every row of one owner. The other rows keep their order.
    pub fn delete_by_owner(&mut self, owner: &String)
        ensures
            final(self)@ == without_owner::<R>(old(self)@, owner@),
    {
        proof {
            use_type_invariant(&*self);
            lemma_distinct_kept::<R>(self@, owner@);
        }
        let mut kept: Vec<R> = Vec::new();
        let mut i: usize = 0;
        assert(views::<R>(self.rows@).take(0) =~= Seq::<R::V>::empty());
        assert(views::<R>(kept@) =~= Seq::<R::V>::empty());
        while i < self.rows.len()
            invariant
                i <= self.rows.len(),
                views::<R>(kept@) == without_owner::<R>(
                    views::<R>(self.rows@).take(i as int),
                    owner@,
                ),
            decreases self.rows.len() - i,
        {
            let ghost seen = views::<R>(self.rows@).take(i as int);
            let ghost next = views::<R>(self.rows@).take(i + 1);
            assert(next.drop_last() =~= seen);
            assert(next.last() == self.rows@[i as int]@);
            let ghost before = views::<R>(kept@);
            if !self.rows[i].has_owner(owner) {
                kept.push(self.rows[i].duplicate());
                assert(views::<R>(kept@) =~= before.push(next.last()));
            }
            i += 1;
        }
        assert(views::<R>(self.rows@).take(i as int) =~= self@);
        self.rows = kept;
    }
}

} // verus!
