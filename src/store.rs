use vstd::prelude::*;

verus! {

/// A persisted pair of a long URL and its short code.
pub struct Mapping {
    pub long_url: String,
    pub short_code: String,
}

impl View for Mapping {
    type V = (Seq<char>, Seq<char>);

    open spec fn view(&self) -> (Seq<char>, Seq<char>) {
        (self.long_url@, self.short_code@)
    }
}

impl Mapping {
    pub fn new(long_url: String, short_code: String) -> (r: Mapping)
        ensures
            r@ == (long_url@, short_code@),
    {
        Mapping { long_url, short_code }
    }
}

/// Why a durable store call failed.
#[derive(Clone, Copy, Debug, PartialEq, Eq, Structural)]
pub enum StoreError {
    /// The row would repeat a short code or a long URL already stored.
    UniqueViolation,
    /// The store could not be reached or failed otherwise.
    Unavailable,
}

/// Persisted rows as pairs `(long_url, short_code)`.
pub type Rows = Seq<(Seq<char>, Seq<char>)>;

pub open spec fn has_short(rows: Rows, c: Seq<char>) -> bool {
    exists|i: int| 0 <= i < rows.len() && (#[trigger] rows[i]).1 == c
}

pub open spec fn has_long(rows: Rows, l: Seq<char>) -> bool {
    exists|i: int| 0 <= i < rows.len() && (#[trigger] rows[i]).0 == l
}

/// No two rows share a long URL or a short code.
pub open spec fn unique_rows(rows: Rows) -> bool {
    forall|i: int, j: int|
        0 <= i < rows.len() && 0 <= j < rows.len() && i != j ==> {
            &&& (#[trigger] rows[i]).0 != (#[trigger] rows[j]).0
            &&& rows[i].1 != rows[j].1
        }
}

/// How many rows hold the long URL `l`.
pub open spec fn count_long(rows: Rows, l: Seq<char>) -> nat
    decreases rows.len(),
{
    if rows.len() == 0 {
        0
    } else {
        count_long(rows.drop_last(), l) + if rows.last().0 == l {
            1nat
        } else {
            0nat
        }
    }
}

/// The short code stored for `l` (meaningful when `has_long(rows, l)`).
pub open spec fn short_for_long(rows: Rows, l: Seq<char>) -> Seq<char> {
    rows[index_of_long(rows, l)].1
}

/// An index of a row holding the long URL `l`.
pub open spec fn index_of_long(rows: Rows, l: Seq<char>) -> int {
    choose|i: int| 0 <= i < rows.len() && (#[trigger] rows[i]).0 == l
}

/// An index of a row holding the short code `c`.
pub open spec fn index_of_short(rows: Rows, c: Seq<char>) -> int {
    choose|i: int| 0 <= i < rows.len() && (#[trigger] rows[i]).1 == c
}

/// The long URL stored for `c` (meaningful when `has_short(rows, c)`).
pub open spec fn long_for_short(rows: Rows, c: Seq<char>) -> Seq<char> {
    rows[index_of_short(rows, c)].0
}

/// A call counter that stops at its largest value.
pub open spec fn bump(n: u64) -> u64 {
    if n < u64::MAX {
        (n + 1) as u64
    } else {
        n
    }
}

/// With unique rows, a long URL is stored once or not at all.
pub proof fn lemma_count_unique(rows: Rows, l: Seq<char>)
    requires
        unique_rows(rows),
    ensures
        count_long(rows, l) == if has_long(rows, l) {
            1nat
        } else {
            0nat
        },
    decreases rows.len(),
{
    if rows.len() > 0 {
        let p = rows.drop_last();
        let n = rows.len() - 1;
        assert forall|i: int, j: int|
            0 <= i < p.len() && 0 <= j < p.len() && i != j implies {
            &&& (#[trigger] p[i]).0 != (#[trigger] p[j]).0
            &&& p[i].1 != p[j].1
        } by {
            assert(p[i] == rows[i] && p[j] == rows[j]);
        }
        lemma_count_unique(p, l);
        if rows.last().0 == l {
            assert forall|i: int| 0 <= i < p.len() implies (#[trigger] p[i]).0 != l by {
                assert(p[i] == rows[i]);
                assert(rows[i].0 != rows[n].0);
            }
            assert(has_long(rows, l)) by {
                assert(rows[n].0 == l);
            }
        } else {
            if has_long(rows, l) {
                let i = choose|i: int| 0 <= i < rows.len() && (#[trigger] rows[i]).0 == l;
                assert(p[i] == rows[i]);
            }
            if has_long(p, l) {
                let i = choose|i: int| 0 <= i < p.len() && (#[trigger] p[i]).0 == l;
                assert(p[i] == rows[i]);
            }
        }
    }
}

/// Observable state of a store: its rows and how many calls it served.
pub ghost struct StoreState {
    pub rows: Rows,
    pub calls: u64,
}

/// An in-memory durable store with uniqueness constraints on both columns
/// and a counter of the calls made to it.
pub struct MemStore {
    rows: Vec<Mapping>,
    calls: u64,
}

impl View for MemStore {
    type V = StoreState;

    closed spec fn view(&self) -> StoreState {
        StoreState { rows: self.rows@.map_values(|m: Mapping| m@), calls: self.calls }
    }
}

impl MemStore {
    /// No two rows share a long URL or a short code.
    pub open spec fn wf(&self) -> bool {
        unique_rows(self@.rows)
    }

    /// An empty store that has served no call.
    pub fn new() -> (r: MemStore)
        ensures
            r.wf(),
            r@.rows == Seq::<(Seq<char>, Seq<char>)>::empty(),
            r@.calls == 0,
    {
        let r = MemStore { rows: Vec::new(), calls: 0 };
        assert(r@.rows =~= Seq::<(Seq<char>, Seq<char>)>::empty());
        r
    }

    /// Number of calls served so far (inserts and lookups).
    pub fn calls(&self) -> (r: u64)
        ensures
            r == self@.calls,
    {
        self.calls
    }

    /// Number of stored rows.
    pub fn row_count(&self) -> (r: usize)
        ensures
            r == self@.rows.len(),
    {
        self.rows.len()
    }

    /// Number of stored rows whose long URL is `long_url`.
    pub fn count_long_url(&self, long_url: &String) -> (r: usize)
        ensures
            r == count_long(self@.rows, long_url@),
    {
        let ghost rows = self@.rows;
        let mut n: usize = 0;
        let mut i: usize = 0;
        while i < self.rows.len()
            invariant
                rows == self@.rows,
                i <= self.rows@.len(),
                n == count_long(rows.take(i as int), long_url@),
                n <= i,
            decreases self.rows@.len() - i,
        {
            assert(rows.take(i + 1).drop_last() =~= rows.take(i as int));
            if self.rows[i].long_url == *long_url {
                n = n + 1;
            }
            i = i + 1;
        }
        assert(rows.take(i as int) =~= rows);
        n
    }

    /// Finds the index of the row whose column (`by_short` picks which)
    /// equals `key`.
    fn find(&self, key: &String, by_short: bool) -> (r: Option<usize>)
        ensures
            match r {
                Some(i) => i < self@.rows.len() && if by_short {
                    self@.rows[i as int].1 == key@
                } else {
                    self@.rows[i as int].0 == key@
                },
                None => if by_short {
                    !has_short(self@.rows, key@)
                } else {
                    !has_long(self@.rows, key@)
                },
            },
    {
        let mut i: usize = 0;
        while i < self.rows.len()
            invariant
                i <= self.rows@.len(),
                forall|j: int|
                    0 <= j < i ==> if by_short {
                        (#[trigger] self@.rows[j]).1 != key@
                    } else {
                        self@.rows[j].0 != key@
                    },
            decreases self.rows@.len() - i,
        {
            let row = &self.rows[i];
            let hit = if by_short {
                row.short_code == *key
            } else {
                row.long_url == *key
            };
            if hit {
                return Some(i);
            }
            i = i + 1;
        }
        None
    }

    fn count_call(&mut self)
        ensures
            final(self).rows == old(self).rows,
            final(self).calls == bump(old(self).calls),
    {
        if self.calls < u64::MAX {
            self.calls = self.calls + 1;
        }
    }

    /// Inserts `m` unless its short code or its long URL is already stored.
    pub fn insert(&mut self, m: Mapping) -> (r: Result<(), StoreError>)
        requires
            old(self).wf(),
        ensures
            final(self).wf(),
            final(self)@.calls == bump(old(self)@.calls),
            if has_short(old(self)@.rows, m@.1) || has_long(old(self)@.rows, m@.0) {
                &&& r == Err::<(), StoreError>(StoreError::UniqueViolation)
                &&& final(self)@.rows == old(self)@.rows
            } else {
                &&& r == Ok::<(), StoreError>(())
                &&& final(self)@.rows == old(self)@.rows.push(m@)
            },
    {
        self.count_call();
        if self.find(&m.short_code, true).is_some() || self.find(&m.long_url, false).is_some() {
            return Err(StoreError::UniqueViolation);
        }
        let ghost before = self@.rows;
        self.rows.push(m);
        assert(self@.rows =~= before.push(m@));
        Ok(())
    }

    /// The row stored for short code `code`, if any.
    pub fn lookup_by_short_code(&mut self, code: &String) -> (r: Option<Mapping>)
        requires
            old(self).wf(),
        ensures
            final(self).wf(),
            final(self)@.rows == old(self)@.rows,
            final(self)@.calls == bump(old(self)@.calls),
            match r {
                Some(m) => has_short(old(self)@.rows, code@) && m@ == (
                    long_for_short(old(self)@.rows, code@),
                    code@,
                ),
                None => !has_short(old(self)@.rows, code@),
            },
    {
        self.count_call();
        match self.find(code, true) {
            Some(i) => {
                let row = &self.rows[i];
                let m = Mapping { long_url: row.long_url.clone(), short_code: row.short_code.clone() };
                proof {
                    let rows = self@.rows;
                    let j = choose|j: int| 0 <= j < rows.len() && (#[trigger] rows[j]).1 == code@;
                    assert(rows[i as int].1 == code@);
                    assert(j == i);
                }
                Some(m)
            },
            None => None,
        }
    }

    /// The row stored for long URL `long_url`, if any.
    pub fn lookup_by_long_url(&mut self, long_url: &String) -> (r: Option<Mapping>)
        requires
            old(self).wf(),
        ensures
            final(self).wf(),
            final(self)@.rows == old(self)@.rows,
            final(self)@.calls == bump(old(self)@.calls),
            match r {
                Some(m) => has_long(old(self)@.rows, long_url@) && m@ == (
                    long_url@,
                    short_for_long(old(self)@.rows, long_url@),
                ),
                None => !has_long(old(self)@.rows, long_url@),
            },
    {
        self.count_call();
        match self.find(long_url, false) {
            Some(i) => {
                let row = &self.rows[i];
                let m = Mapping { long_url: row.long_url.clone(), short_code: row.short_code.clone() };
                proof {
                    let rows = self@.rows;
                    let j = choose|j: int| 0 <= j < rows.len() && (#[trigger] rows[j]).0 == long_url@;
                    assert(rows[i as int].0 == long_url@);
                    assert(j == i);
                }
                Some(m)
            },
            None => None,
        }
    }
}

} // verus!
