use crate::codegen::{cool_shortener, short_code_of};
use crate::store::{
    bump, count_long, index_of_long, index_of_short, has_long, has_short, lemma_count_unique, long_for_short, short_for_long,
    unique_rows, Mapping, MemStore, Rows, StoreError, StoreState,
};
use crate::table::Table;
use vstd::prelude::*;
use vstd::string::StrSliceExecFns;

verus! {

/// What a caller of the mapping service sees go wrong.
#[derive(Clone, Copy, Debug, PartialEq, Eq, Structural)]
pub enum ServiceError {
    /// The long URL is missing or empty.
    InvalidInput,
    /// No mapping holds the short code.
    NotFound,
    /// The durable store failed for a reason other than a uniqueness
    /// conflict.
    StoreUnavailable,
    /// An insert conflicted, yet neither the cache nor the store showed a
    /// mapping for the long URL; retrying shortly may succeed.
    Unresolvable,
}

/// Accepts a long URL handed in by a request: it must be present and
/// non-empty.
pub fn accept_long_url(q: Option<String>) -> (r: Result<String, ServiceError>)
    ensures
        match q {
            Some(u) => if u@.len() > 0 {
                result_view(r) == Ok::<Seq<char>, ServiceError>(u@)
            } else {
                r == Err::<String, ServiceError>(ServiceError::InvalidInput)
            },
            None => r == Err::<String, ServiceError>(ServiceError::InvalidInput),
        },
{
    match q {
        Some(u) => {
            if u.as_str().unicode_len() > 0 {
                Ok(u)
            } else {
                Err(ServiceError::InvalidInput)
            }
        },
        None => Err(ServiceError::InvalidInput),
    }
}

/// First step of `shorten`, decided on the long-to-short table alone.
pub enum ShortenPlan {
    /// The table already knows the code.
    Cached(String),
    /// Try to persist this freshly generated mapping.
    Insert(Mapping),
}

/// What to do once the store has answered an insert.
#[derive(Clone, Copy, Debug, PartialEq, Eq, Structural)]
pub enum AfterInsert {
    /// The mapping is durable: write it into both tables and return its code.
    Record,
    /// Another caller won the race: consult the long-to-short table, then
    /// the store by long URL.
    Recheck,
    /// Give up with this error; touch no table.
    Fail(ServiceError),
}

/// Looks the long URL up in the long-to-short table; on a miss, generates
/// the mapping to insert.
pub fn shorten_start(long_to_short: &Table, long_url: &String) -> (r: ShortenPlan)
    requires
        long_to_short.wf(),
    ensures
        match r {
            ShortenPlan::Cached(c) => long_to_short@.contains_key(long_url@) && c@
                == long_to_short@[long_url@],
            ShortenPlan::Insert(m) => !long_to_short@.contains_key(long_url@) && m@ == (
                long_url@,
                short_code_of(long_url@),
            ),
        },
{
    match long_to_short.get(long_url) {
        Some(c) => ShortenPlan::Cached(c),
        None => ShortenPlan::Insert(Mapping::new(long_url.clone(), cool_shortener(long_url))),
    }
}

/// Classifies the store's answer to an insert.
pub fn after_insert(outcome: &Result<(), StoreError>) -> (r: AfterInsert)
    ensures
        match outcome {
            Ok(()) => r == AfterInsert::Record,
            Err(StoreError::UniqueViolation) => r == AfterInsert::Recheck,
            Err(StoreError::Unavailable) => r == AfterInsert::Fail(ServiceError::StoreUnavailable),
        },
{
    match outcome {
        Ok(()) => AfterInsert::Record,
        Err(StoreError::UniqueViolation) => AfterInsert::Recheck,
        Err(StoreError::Unavailable) => AfterInsert::Fail(ServiceError::StoreUnavailable),
    }
}

/// Last step of a conflicted `shorten`: the store's answer to a lookup by
/// long URL decides. A row for another URL is not taken.
pub fn settle_by_long(long_url: &String, found: Result<Option<Mapping>, StoreError>) -> (r: Result<
    Mapping,
    ServiceError,
>)
    ensures
        match found {
            Ok(Some(m)) => if m.long_url@ == long_url@ {
                match r {
                    Ok(m2) => m2@ == m@,
                    Err(_) => false,
                }
            } else {
                r == Err::<Mapping, ServiceError>(ServiceError::Unresolvable)
            },
            Ok(None) => r == Err::<Mapping, ServiceError>(ServiceError::Unresolvable),
            Err(_) => r == Err::<Mapping, ServiceError>(ServiceError::StoreUnavailable),
        },
{
    match found {
        Ok(Some(m)) => {
            if m.long_url == *long_url {
                Ok(m)
            } else {
                Err(ServiceError::Unresolvable)
            }
        },
        Ok(None) => Err(ServiceError::Unresolvable),
        Err(_) => Err(ServiceError::StoreUnavailable),
    }
}

/// Second step of `resolve`, after a short-to-long miss: the store's answer
/// to a lookup by short code decides. A row for another code is not taken.
pub fn settle_by_short(code: &String, found: Result<Option<Mapping>, StoreError>) -> (r: Result<
    Mapping,
    ServiceError,
>)
    ensures
        match found {
            Ok(Some(m)) => if m.short_code@ == code@ {
                match r {
                    Ok(m2) => m2@ == m@,
                    Err(_) => false,
                }
            } else {
                r == Err::<Mapping, ServiceError>(ServiceError::NotFound)
            },
            Ok(None) => r == Err::<Mapping, ServiceError>(ServiceError::NotFound),
            Err(_) => r == Err::<Mapping, ServiceError>(ServiceError::StoreUnavailable),
        },
{
    match found {
        Ok(Some(m)) => {
            if m.short_code == *code {
                Ok(m)
            } else {
                Err(ServiceError::NotFound)
            }
        },
        Ok(None) => Err(ServiceError::NotFound),
        Err(_) => Err(ServiceError::StoreUnavailable),
    }
}


/// Observable state of a mapping service: both cache tables and the store.
pub ghost struct ServiceState {
    pub lts: Map<Seq<char>, Seq<char>>,
    pub stl: Map<Seq<char>, Seq<char>>,
    pub store: StoreState,
}

/// A service result with strings seen as character sequences.
pub open spec fn result_view(r: Result<String, ServiceError>) -> Result<Seq<char>, ServiceError> {
    match r {
        Ok(s) => Ok(s@),
        Err(e) => Err(e),
    }
}

/// The caches agree with the store: every cache entry copies a stored row,
/// every long-to-short entry has its inverse in the short-to-long table, and
/// the store's rows are unique in both columns.
pub open spec fn coherent(s: ServiceState) -> bool {
    &&& unique_rows(s.store.rows)
    &&& forall|l: Seq<char>| #[trigger]
        s.lts.contains_key(l) ==> s.store.rows.contains((l, s.lts[l]))
    &&& forall|c: Seq<char>| #[trigger]
        s.stl.contains_key(c) ==> s.store.rows.contains((s.stl[c], c))
    &&& forall|l: Seq<char>| #[trigger]
        s.lts.contains_key(l) ==> s.stl.contains_key(s.lts[l]) && s.stl[s.lts[l]] == l
}

/// `shorten` after a long-to-short miss: insert the generated mapping; on
/// success record it in both tables; on a conflict take the table's code,
/// else the store's row for the URL (recorded in both tables), else fail.
pub open spec fn shorten_after_miss(s: ServiceState, l: Seq<char>) -> (
    ServiceState,
    Result<Seq<char>, ServiceError>,
) {
    let c = short_code_of(l);
    let rows = s.store.rows;
    let once = StoreState { rows: rows, calls: bump(s.store.calls) };
    let twice = StoreState { rows: rows, calls: bump(bump(s.store.calls)) };
    if !has_short(rows, c) && !has_long(rows, l) {
        (
            ServiceState {
                lts: s.lts.insert(l, c),
                stl: s.stl.insert(c, l),
                store: StoreState { rows: rows.push((l, c)), calls: bump(s.store.calls) },
            },
            Ok(c),
        )
    } else if s.lts.contains_key(l) {
        (ServiceState { lts: s.lts, stl: s.stl, store: once }, Ok(s.lts[l]))
    } else if has_long(rows, l) {
        let c2 = short_for_long(rows, l);
        (ServiceState { lts: s.lts.insert(l, c2), stl: s.stl.insert(c2, l), store: twice }, Ok(c2))
    } else {
        (ServiceState { lts: s.lts, stl: s.stl, store: twice }, Err(ServiceError::Unresolvable))
    }
}

/// `shorten`: a long-to-short hit answers at once, with no store call.
pub open spec fn shorten_spec(s: ServiceState, l: Seq<char>) -> (
    ServiceState,
    Result<Seq<char>, ServiceError>,
) {
    if s.lts.contains_key(l) {
        (s, Ok(s.lts[l]))
    } else {
        shorten_after_miss(s, l)
    }
}

/// `resolve`: a short-to-long hit answers at once, with no store call; on a
/// miss the store's row is copied into the short-to-long table, or the code
/// is not found.
pub open spec fn resolve_spec(s: ServiceState, c: Seq<char>) -> (
    ServiceState,
    Result<Seq<char>, ServiceError>,
) {
    let rows = s.store.rows;
    let once = StoreState { rows: rows, calls: bump(s.store.calls) };
    if s.stl.contains_key(c) {
        (s, Ok(s.stl[c]))
    } else if has_short(rows, c) {
        let l = long_for_short(rows, c);
        (ServiceState { lts: s.lts, stl: s.stl.insert(c, l), store: once }, Ok(l))
    } else {
        (ServiceState { lts: s.lts, stl: s.stl, store: once }, Err(ServiceError::NotFound))
    }
}

proof fn lemma_row_of_long(rows: Rows, l: Seq<char>)
    requires
        has_long(rows, l),
    ensures
        rows.contains((l, short_for_long(rows, l))),
{
    let i = index_of_long(rows, l);
    assert(rows[i] == (l, short_for_long(rows, l)));
}

proof fn lemma_row_of_short(rows: Rows, c: Seq<char>)
    requires
        has_short(rows, c),
    ensures
        rows.contains((long_for_short(rows, c), c)),
{
    let i = index_of_short(rows, c);
    assert(rows[i] == (long_for_short(rows, c), c));
}

/// In unique rows, two rows that share a column are the same row.
proof fn lemma_same_row(rows: Rows, a: (Seq<char>, Seq<char>), b: (Seq<char>, Seq<char>))
    requires
        unique_rows(rows),
        rows.contains(a),
        rows.contains(b),
        a.0 == b.0 || a.1 == b.1,
    ensures
        a == b,
{
    let i = choose|i: int| 0 <= i < rows.len() && rows[i] == a;
    let j = choose|j: int| 0 <= j < rows.len() && rows[j] == b;
    if i != j {
        assert(rows[i].0 != rows[j].0 && rows[i].1 != rows[j].1);
    }
}

/// The work after a miss keeps the caches coherent, and a code it returns
/// is the one the long-to-short table now holds.
pub proof fn lemma_after_miss(s: ServiceState, l: Seq<char>)
    requires
        coherent(s),
    ensures
        coherent(shorten_after_miss(s, l).0),
        match shorten_after_miss(s, l).1 {
            Ok(c) => shorten_after_miss(s, l).0.lts.contains_key(l) && shorten_after_miss(
                s,
                l,
            ).0.lts[l] == c,
            Err(_) => true,
        },
{
    let c = short_code_of(l);
    let rows = s.store.rows;
    let s1 = shorten_after_miss(s, l).0;
    if !has_short(rows, c) && !has_long(rows, l) {
        let rows1 = rows.push((l, c));
        assert forall|i: int, j: int|
            0 <= i < rows1.len() && 0 <= j < rows1.len() && i != j implies {
            &&& (#[trigger] rows1[i]).0 != (#[trigger] rows1[j]).0
            &&& rows1[i].1 != rows1[j].1
        } by {
            if i == rows.len() {
                assert(rows1[j] == rows[j]);
                assert(rows[j].0 != l);
                assert(rows[j].1 != c);
            } else if j == rows.len() {
                assert(rows1[i] == rows[i]);
                assert(rows[i].0 != l);
                assert(rows[i].1 != c);
            } else {
                assert(rows1[i] == rows[i] && rows1[j] == rows[j]);
            }
        }
        assert(rows1[rows.len() as int] == (l, c));
        assert forall|k: Seq<char>| #[trigger] s1.lts.contains_key(k) implies rows1.contains(
            (k, s1.lts[k]),
        ) by {
            if k != l {
                let i = choose|i: int| 0 <= i < rows.len() && rows[i] == (k, s.lts[k]);
                assert(rows1[i] == rows[i]);
            }
        }
        assert forall|k: Seq<char>| #[trigger] s1.stl.contains_key(k) implies rows1.contains(
            (s1.stl[k], k),
        ) by {
            if k != c {
                let i = choose|i: int| 0 <= i < rows.len() && rows[i] == (s.stl[k], k);
                assert(rows1[i] == rows[i]);
            }
        }
        assert forall|k: Seq<char>| #[trigger] s1.lts.contains_key(k) implies s1.stl.contains_key(
            s1.lts[k],
        ) && s1.stl[s1.lts[k]] == k by {
            if k != l {
                let i = choose|i: int| 0 <= i < rows.len() && rows[i] == (k, s.lts[k]);
                assert(rows[i].1 != c);
            }
        }
    } else if s.lts.contains_key(l) {
    } else if has_long(rows, l) {
        let c2 = short_for_long(rows, l);
        lemma_row_of_long(rows, l);
        assert forall|k: Seq<char>| #[trigger] s1.lts.contains_key(k) implies s1.stl.contains_key(
            s1.lts[k],
        ) && s1.stl[s1.lts[k]] == k by {
            if k != l {
                assert(rows.contains((k, s.lts[k])));
                if s.lts[k] == c2 {
                    lemma_same_row(rows, (k, s.lts[k]), (l, c2));
                }
            }
        }
    }
}

/// `resolve` keeps the caches coherent.
pub proof fn lemma_resolve_coherent(s: ServiceState, c: Seq<char>)
    requires
        coherent(s),
    ensures
        coherent(resolve_spec(s, c).0),
{
    let rows = s.store.rows;
    let s1 = resolve_spec(s, c).0;
    if !s.stl.contains_key(c) && has_short(rows, c) {
        let l = long_for_short(rows, c);
        lemma_row_of_short(rows, c);
        assert forall|k: Seq<char>| #[trigger] s1.lts.contains_key(k) implies s1.stl.contains_key(
            s1.lts[k],
        ) && s1.stl[s1.lts[k]] == k by {
            assert(rows.contains((k, s.lts[k])));
            if s.lts[k] == c {
                lemma_same_row(rows, (k, s.lts[k]), (l, c));
            }
        }
    }
}

/// `shorten` keeps the caches coherent, and a code it returns is the one the
/// long-to-short table now holds.
pub proof fn lemma_shorten(s: ServiceState, l: Seq<char>)
    requires
        coherent(s),
    ensures
        coherent(shorten_spec(s, l).0),
        match shorten_spec(s, l).1 {
            Ok(c) => shorten_spec(s, l).0.lts.contains_key(l) && shorten_spec(s, l).0.lts[l] == c,
            Err(_) => true,
        },
{
    if !s.lts.contains_key(l) {
        lemma_after_miss(s, l);
    }
}

/// Shortening twice in a row gives the same code both times, the second
/// call changes nothing, and afterwards the store holds exactly one mapping
/// for the URL. The first call succeeds unless the URL is unknown to the
/// store while its generated code is already taken by another URL.
pub proof fn lemma_shorten_idempotent(s: ServiceState, l: Seq<char>)
    requires
        coherent(s),
    ensures
        (shorten_spec(s, l).1 is Ok) <==> (has_long(s.store.rows, l) || !has_short(
            s.store.rows,
            short_code_of(l),
        )),
        shorten_spec(s, l).1 is Ok ==> {
            let s1 = shorten_spec(s, l).0;
            &&& shorten_spec(s1, l) == (s1, shorten_spec(s, l).1)
            &&& count_long(s1.store.rows, l) == 1
        },
{
    lemma_shorten(s, l);
    let s1 = shorten_spec(s, l).0;
    if s.lts.contains_key(l) {
        assert(s.store.rows.contains((l, s.lts[l])));
        let i = choose|i: int| 0 <= i < s.store.rows.len() && s.store.rows[i] == (l, s.lts[l]);
        assert(s.store.rows[i].0 == l);
    }
    if shorten_spec(s, l).1 is Ok {
        assert(s1.store.rows.contains((l, s1.lts[l])));
        let i = choose|i: int| 0 <= i < s1.store.rows.len() && s1.store.rows[i] == (l, s1.lts[l]);
        assert(s1.store.rows[i].0 == l);
        lemma_count_unique(s1.store.rows, l);
    }
}

/// Resolving the code that `shorten` returned gives back the long URL.
pub proof fn lemma_round_trip(s: ServiceState, l: Seq<char>)
    requires
        coherent(s),
    ensures
        match shorten_spec(s, l).1 {
            Ok(c) => resolve_spec(shorten_spec(s, l).0, c).1 == Ok::<Seq<char>, ServiceError>(l),
            Err(_) => true,
        },
{
    lemma_warm_resolve(s, l);
}

/// Right after a successful `shorten`, resolving its code is served from the
/// short-to-long table: it returns the long URL and changes nothing, so the
/// store serves no call.
pub proof fn lemma_warm_resolve(s: ServiceState, l: Seq<char>)
    requires
        coherent(s),
    ensures
        match shorten_spec(s, l).1 {
            Ok(c) => {
                let s1 = shorten_spec(s, l).0;
                &&& s1.stl.contains_key(c)
                &&& resolve_spec(s1, c) == (s1, Ok::<Seq<char>, ServiceError>(l))
            },
            Err(_) => true,
        },
{
    lemma_shorten(s, l);
}

/// `n` callers shorten the same URL at once: all of them miss the
/// long-to-short table, then each runs the rest of `shorten` in turn, the
/// store deciding the order of their inserts. Gives the final state and
/// the callers' results in that order.
pub open spec fn race(s: ServiceState, l: Seq<char>, n: nat) -> (
    ServiceState,
    Seq<Result<Seq<char>, ServiceError>>,
)
    decreases n,
{
    if n == 0 {
        (s, Seq::empty())
    } else {
        let prev = race(s, l, (n - 1) as nat);
        let next = shorten_after_miss(prev.0, l);
        (next.0, prev.1.push(next.1))
    }
}

proof fn lemma_race_step(s: ServiceState, l: Seq<char>, n: nat)
    requires
        coherent(s),
        !s.lts.contains_key(l),
        forall|i: int|
            0 <= i < s.store.rows.len() && (#[trigger] s.store.rows[i]).1 == short_code_of(l)
                ==> s.store.rows[i].0 == l,
        n >= 1,
    ensures
        coherent(race(s, l, n).0),
        race(s, l, n).0.lts.contains_key(l),
        race(s, l, n).1.len() == n,
        forall|i: int|
            0 <= i < n ==> #[trigger] race(s, l, n).1[i] == Ok::<Seq<char>, ServiceError>(
                race(s, l, n).0.lts[l],
            ),
    decreases n,
{
    if n == 1 {
        assert(race(s, l, 0).0 == s);
        lemma_after_miss(s, l);
        if has_short(s.store.rows, short_code_of(l)) {
            let i = choose|i: int|
                0 <= i < s.store.rows.len() && (#[trigger] s.store.rows[i]).1 == short_code_of(l);
            assert(s.store.rows[i].0 == l);
        }
    } else {
        lemma_race_step(s, l, (n - 1) as nat);
        let p = race(s, l, (n - 1) as nat).0;
        assert(p.store.rows.contains((l, p.lts[l])));
        let i = choose|i: int| 0 <= i < p.store.rows.len() && p.store.rows[i] == (l, p.lts[l]);
        assert(p.store.rows[i].0 == l);
        lemma_after_miss(p, l);
        let r = race(s, l, n);
        let q = race(s, l, (n - 1) as nat);
        assert forall|j: int| 0 <= j < n implies #[trigger] r.1[j] == Ok::<Seq<char>, ServiceError>(
            r.0.lts[l],
        ) by {
            if j < n - 1 {
                assert(r.1[j] == q.1[j]);
            }
        }
    }
}

/// When `n` callers shorten one URL at once, all of them get the same code
/// and the store ends with exactly one mapping for the URL, provided the
/// URL's generated code is not already stored for another URL.
pub proof fn lemma_race_agrees(s: ServiceState, l: Seq<char>, n: nat)
    requires
        coherent(s),
        !s.lts.contains_key(l),
        forall|i: int|
            0 <= i < s.store.rows.len() && (#[trigger] s.store.rows[i]).1 == short_code_of(l)
                ==> s.store.rows[i].0 == l,
        n >= 1,
    ensures
        race(s, l, n).1.len() == n,
        race(s, l, n).1[0] is Ok,
        forall|i: int| 0 <= i < n ==> #[trigger] race(s, l, n).1[i] == race(s, l, n).1[0],
        count_long(race(s, l, n).0.store.rows, l) == 1,
{
    lemma_race_step(s, l, n);
    let f = race(s, l, n).0;
    assert(f.store.rows.contains((l, f.lts[l])));
    let i = choose|i: int| 0 <= i < f.store.rows.len() && f.store.rows[i] == (l, f.lts[l]);
    assert(f.store.rows[i].0 == l);
    lemma_count_unique(f.store.rows, l);
}

/// Resolving a code that no mapping holds reports `NotFound`, not a store
/// failure, and leaves both tables as they were.
pub proof fn lemma_resolve_unknown(s: ServiceState, c: Seq<char>)
    requires
        coherent(s),
        !has_short(s.store.rows, c),
    ensures
        resolve_spec(s, c).1 == Err::<Seq<char>, ServiceError>(ServiceError::NotFound),
        resolve_spec(s, c).0.lts == s.lts,
        resolve_spec(s, c).0.stl == s.stl,
{
    if s.stl.contains_key(c) {
        assert(s.store.rows.contains((s.stl[c], c)));
        let i = choose|i: int| 0 <= i < s.store.rows.len() && s.store.rows[i] == (s.stl[c], c);
        assert(s.store.rows[i].1 == c);
    }
}

/// The mapping service over an in-memory store: a long-to-short table, a
/// short-to-long table and the store, kept coherent.
pub struct Shortener {
    long_to_short: Table,
    short_to_long: Table,
    store: MemStore,
}

impl View for Shortener {
    type V = ServiceState;

    closed spec fn view(&self) -> ServiceState {
        ServiceState { lts: self.long_to_short@, stl: self.short_to_long@, store: self.store@ }
    }
}

impl Shortener {
    pub closed spec fn parts_wf(&self) -> bool {
        self.long_to_short.wf() && self.short_to_long.wf() && self.store.wf()
    }

    pub open spec fn wf(&self) -> bool {
        self.parts_wf() && coherent(self@)
    }

    /// A service with empty tables over an empty store.
    pub fn new() -> (r: Shortener)
        ensures
            r.wf(),
            r@.lts == Map::<Seq<char>, Seq<char>>::empty(),
            r@.stl == Map::<Seq<char>, Seq<char>>::empty(),
            r@.store.rows == Seq::<(Seq<char>, Seq<char>)>::empty(),
            r@.store.calls == 0,
    {
        Shortener { long_to_short: Table::new(), short_to_long: Table::new(), store: MemStore::new() }
    }

    /// A service with empty tables over an existing store, as after a
    /// restart.
    pub fn with_store(store: MemStore) -> (r: Shortener)
        requires
            store.wf(),
        ensures
            r.wf(),
            r@.lts == Map::<Seq<char>, Seq<char>>::empty(),
            r@.stl == Map::<Seq<char>, Seq<char>>::empty(),
            r@.store == store@,
    {
        Shortener { long_to_short: Table::new(), short_to_long: Table::new(), store }
    }

    /// The long-to-short table.
    pub fn long_to_short(&self) -> (r: &Table)
        requires
            self.wf(),
        ensures
            r.wf(),
            r@ == self@.lts,
    {
        &self.long_to_short
    }

    /// The short-to-long table.
    pub fn short_to_long(&self) -> (r: &Table)
        requires
            self.wf(),
        ensures
            r.wf(),
            r@ == self@.stl,
    {
        &self.short_to_long
    }

    /// The durable store.
    pub fn store(&self) -> (r: &MemStore)
        requires
            self.wf(),
        ensures
            r.wf(),
            r@ == self@.store,
    {
        &self.store
    }

    /// Writes a confirmed mapping into both tables.
    fn record(&mut self, long_url: String, short_code: String)
        requires
            old(self).parts_wf(),
        ensures
            final(self).parts_wf(),
            final(self)@ == (ServiceState {
                lts: old(self)@.lts.insert(long_url@, short_code@),
                stl: old(self)@.stl.insert(short_code@, long_url@),
                store: old(self)@.store,
            }),
    {
        self.long_to_short.put(long_url.clone(), short_code.clone());
        self.short_to_long.put(short_code, long_url);
    }

    /// The part of `shorten` after a long-to-short miss, as each of several
    /// callers that missed at once runs it.
    pub fn shorten_missed(&mut self, long_url: &String) -> (r: Result<String, ServiceError>)
        requires
            old(self).wf(),
        ensures
            final(self).wf(),
            (final(self)@, result_view(r)) == shorten_after_miss(old(self)@, long_url@),
    {
        let code = cool_shortener(long_url);
        let outcome = self.store.insert(Mapping::new(long_url.clone(), code.clone()));
        let r = match after_insert(&outcome) {
            AfterInsert::Record => {
                self.record(long_url.clone(), code.clone());
                Ok(code)
            },
            AfterInsert::Recheck => {
                match self.long_to_short.get(long_url) {
                    Some(c) => Ok(c),
                    None => {
                        let found = self.store.lookup_by_long_url(long_url);
                        match settle_by_long(long_url, Ok(found)) {
                            Ok(m) => {
                                let c = m.short_code.clone();
                                self.record(m.long_url, m.short_code);
                                Ok(c)
                            },
                            Err(e) => Err(e),
                        }
                    },
                }
            },
            AfterInsert::Fail(e) => Err(e),
        };
        proof {
            lemma_after_miss(old(self)@, long_url@);
        }
        r
    }

    /// Returns the short code of `long_url`, creating and persisting the
    /// mapping on first use.
    pub fn shorten(&mut self, long_url: &String) -> (r: Result<String, ServiceError>)
        requires
            old(self).wf(),
        ensures
            final(self).wf(),
            (final(self)@, result_view(r)) == shorten_spec(old(self)@, long_url@),
    {
        match shorten_start(&self.long_to_short, long_url) {
            ShortenPlan::Cached(c) => Ok(c),
            ShortenPlan::Insert(_) => self.shorten_missed(long_url),
        }
    }

    /// Returns the long URL stored for `code`.
    pub fn resolve(&mut self, code: &String) -> (r: Result<String, ServiceError>)
        requires
            old(self).wf(),
        ensures
            final(self).wf(),
            (final(self)@, result_view(r)) == resolve_spec(old(self)@, code@),
    {
        proof {
            lemma_resolve_coherent(self@, code@);
        }
        match self.short_to_long.get(code) {
            Some(l) => Ok(l),
            None => {
                let found = self.store.lookup_by_short_code(code);
                match settle_by_short(code, Ok(found)) {
                    Ok(m) => {
                        let l = m.long_url.clone();
                        self.short_to_long.put(m.short_code, m.long_url);
                        Ok(l)
                    },
                    Err(e) => Err(e),
                }
            },
        }
    }
}

} // verus!
