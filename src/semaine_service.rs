use vstd::prelude::*;

use crate::error::AppError;
use crate::grid::{
    age_in_period, age_of, age_spec, is_age_of_period, valid_period_number, DAYS_PER_PERIOD, PERIODS_PER_UNIT,
};
use crate::lookup::{
    last_index, lemma_last_index_push_match, lemma_last_index_push_other, lemma_last_index_spec,
};
use crate::models::{Semaine, SemaineWithDetails, SuiviQuotidien};
use crate::store::{batiment_with_id, id_below, semaine_at, suivi_at, GridStore};

verus! {

/// Grid reads over a store: periods are created when missing, day entries
/// are filled in virtually.
pub struct SemaineService;

pub open spec fn new_semaine(id: i64, b: i64, n: i32) -> Semaine {
    Semaine { id: Some(id), batiment_id: b, numero_semaine: n, poids: None }
}

/// The period table and next id after periods `1..=n` of unit `b` are made
/// present, each missing one being appended with a fresh id in turn.
pub open spec fn materialize(ss: Seq<Semaine>, next: i64, b: i64, n: int) -> (Seq<Semaine>, i64)
    decreases n,
{
    if n <= 0 {
        (ss, next)
    } else {
        let (t, nx) = materialize(ss, next, b, n - 1);
        if last_index(t, semaine_at(b, n as i32)) is Some {
            (t, nx)
        } else {
            (t.push(new_semaine(nx, b, n as i32)), (nx + 1) as i64)
        }
    }
}

/// The entry shown at an address: the stored one, else a virtual one.
pub open spec fn day_view(sv: Seq<SuiviQuotidien>, sid: i64, age: i32) -> SuiviQuotidien {
    match last_index(sv, suivi_at(sid, age)) {
        Some(i) => sv[i],
        None => SuiviQuotidien::blank_spec(None, sid, age),
    }
}

/// `row` is period `n` of unit `b` in store `s`, with its seven days.
pub open spec fn grid_row(s: GridStore, b: i64, n: i32, row: SemaineWithDetails) -> bool {
    match s.semaine_number_index(b, n) {
        Some(i) => {
            let p = s.semaines@[i];
            &&& row.id == p.id
            &&& row.batiment_id == b
            &&& row.numero_semaine == n
            &&& row.poids == p.poids
            &&& row.suivi_quotidien@.len() == DAYS_PER_PERIOD
            &&& forall|j: int|
                0 <= j < DAYS_PER_PERIOD ==> #[trigger] row.suivi_quotidien@[j] == day_view(
                    s.suivis@,
                    p.id->0,
                    age_spec(n as int, j + 1) as i32,
                )
        },
        None => false,
    }
}

/// A stored period whose number is out of range, or which has a stored
/// day entry at an age outside the period.
pub open spec fn period_corrupt(s: GridStore, p: Semaine) -> bool {
    ||| !valid_period_number(p.numero_semaine as int)
    ||| exists|k: int|
        0 <= k < s.suivis@.len() && Some((#[trigger] s.suivis@[k]).semaine_id) == p.id && !age_in_period(
            p.numero_semaine as int,
            s.suivis@[k].age as int,
        )
}

/// Some stored period of unit `b` is corrupt.
pub open spec fn unit_grid_corrupt(s: GridStore, b: i64) -> bool {
    exists|i: int| 0 <= i < s.semaines@.len() && (#[trigger] s.semaines@[i]).batiment_id == b && period_corrupt(s, s.semaines@[i])
}

/// Periods 1 to 8 of unit `b` are all stored.
pub open spec fn unit_complete(s: GridStore, b: i64) -> bool {
    forall|k: int| 1 <= k <= PERIODS_PER_UNIT ==> #[trigger] s.semaine_number_index(b, k as i32) is Some
}

/// The inputs on which reading the grid of unit `b` fails: a missing unit,
/// a corrupt stored period, or no room left for the periods to create.
pub open spec fn grid_read_fails(s: GridStore, b: i64) -> bool {
    ||| s.batiment_index(b) is None
    ||| unit_grid_corrupt(s, b)
    ||| (!unit_complete(s, b) && s.next_id > i64::MAX - PERIODS_PER_UNIT)
}

/// All tables but the period table and the id counter are equal.
pub open spec fn same_but_semaines(a: GridStore, b: GridStore) -> bool {
    &&& a.bandes@ == b.bandes@
    &&& a.batiments@ == b.batiments@
    &&& a.suivis@ == b.suivis@
    &&& a.historique@ == b.historique@
    &&& a.soins@ == b.soins@
    &&& a.fermes@ == b.fermes@
    &&& a.personnel@ == b.personnel@
    &&& a.poussins@ == b.poussins@
    &&& a.batiment_maladies@ == b.batiment_maladies@
}

/// Store `new` is store `old` with periods 1 to 8 of unit `b` present.
pub open spec fn periods_materialized(old: GridStore, b: i64, new: GridStore) -> bool {
    &&& same_but_semaines(old, new)
    &&& (new.semaines@, new.next_id) == materialize(old.semaines@, old.next_id, b, PERIODS_PER_UNIT as int)
}

/// What a successful full-grid read of unit `b` leaves and returns.
pub open spec fn full_grid_post(old: GridStore, b: i64, new: GridStore, r: Seq<SemaineWithDetails>) -> bool {
    &&& periods_materialized(old, b, new)
    &&& new.batiment_index(b) is Some
    &&& !unit_grid_corrupt(new, b)
    &&& r.len() == PERIODS_PER_UNIT
    &&& forall|k: int| 0 <= k < PERIODS_PER_UNIT ==> grid_row(new, b, (k + 1) as i32, #[trigger] r[k])
}

proof fn lemma_materialize_present(ss: Seq<Semaine>, next: i64, b: i64, n: int)
    requires
        forall|k: int| 1 <= k <= n ==> #[trigger] last_index(ss, semaine_at(b, k as i32)) is Some,
    ensures
        materialize(ss, next, b, n) == (ss, next),
    decreases n,
{
    if n > 0 {
        lemma_materialize_present(ss, next, b, n - 1);
    }
}

/// Reading the full grid of a unit twice in a row stores no period the
/// second time, leaves every table as the first read left it, and returns
/// the same period ids.
pub proof fn lemma_full_grid_idempotent(
    s0: GridStore,
    s1: GridStore,
    s2: GridStore,
    b: i64,
    r1: Seq<SemaineWithDetails>,
    r2: Seq<SemaineWithDetails>,
)
    requires
        full_grid_post(s0, b, s1, r1),
        full_grid_post(s1, b, s2, r2),
    ensures
        !grid_read_fails(s1, b),
        s2.semaines@ == s1.semaines@,
        s2.next_id == s1.next_id,
        same_but_semaines(s1, s2),
        forall|k: int| 0 <= k < PERIODS_PER_UNIT ==> (#[trigger] r2[k]).id == r1[k].id,
{
    assert forall|k: int| 1 <= k <= PERIODS_PER_UNIT implies #[trigger] last_index(
        s1.semaines@,
        semaine_at(b, k as i32),
    ) is Some by {
        assert(grid_row(s1, b, ((k - 1) + 1) as i32, r1[k - 1]));
    }
    lemma_materialize_present(s1.semaines@, s1.next_id, b, PERIODS_PER_UNIT as int);
    assert(unit_complete(s1, b));
    assert forall|k: int| 0 <= k < PERIODS_PER_UNIT implies (#[trigger] r2[k]).id == r1[k].id by {
        assert(grid_row(s1, b, (k + 1) as i32, r1[k]));
        assert(grid_row(s2, b, (k + 1) as i32, r2[k]));
    }
}

impl SemaineService {
    /// Whether a stored period of unit `b` is corrupt.
    fn unit_grid_is_corrupt(store: &GridStore, b: i64) -> (r: bool)
        ensures
            r == unit_grid_corrupt(*store, b),
    {
        let mut i: usize = 0;
        while i < store.semaines.len()
            invariant
                i <= store.semaines@.len(),
                forall|j: int|
                    0 <= j < i ==> !((#[trigger] store.semaines@[j]).batiment_id == b && period_corrupt(
                        *store,
                        store.semaines@[j],
                    )),
            decreases store.semaines@.len() - i,
        {
            let p = store.semaines[i];
            if p.batiment_id == b {
                if p.numero_semaine < 1 || p.numero_semaine > PERIODS_PER_UNIT {
                    assert(period_corrupt(*store, store.semaines@[i as int]));
                    return true;
                }
                let mut k: usize = 0;
                while k < store.suivis.len()
                    invariant
                        i < store.semaines@.len(),
                        p == store.semaines@[i as int],
                        p.batiment_id == b,
                        k <= store.suivis@.len(),
                        forall|m: int|
                            0 <= m < k ==> !(Some((#[trigger] store.suivis@[m]).semaine_id) == p.id && !age_in_period(
                                p.numero_semaine as int,
                                store.suivis@[m].age as int,
                            )),
                    decreases store.suivis@.len() - k,
                {
                    if Some(store.suivis[k].semaine_id) == p.id && !is_age_of_period(p.numero_semaine, store.suivis[k].age) {
                        assert(period_corrupt(*store, store.semaines@[i as int]));
                        return true;
                    }
                    k += 1;
                }
            }
            i += 1;
        }
        false
    }

    /// Whether periods 1 to 8 of unit `b` are all stored.
    fn unit_is_complete(store: &GridStore, b: i64) -> (r: bool)
        ensures
            r == unit_complete(*store, b),
    {
        let mut n: i32 = 1;
        while n <= PERIODS_PER_UNIT
            invariant
                1 <= n <= PERIODS_PER_UNIT + 1,
                forall|k: int| 1 <= k < n ==> #[trigger] store.semaine_number_index(b, k as i32) is Some,
            decreases PERIODS_PER_UNIT + 1 - n,
        {
            if store.find_semaine_number(b, n).is_none() {
                assert(store.semaine_number_index(b, (n as int) as i32) is None);
                return false;
            }
            n += 1;
        }
        true
    }

    /// Checks unit `b`'s stored grid and makes periods 1 to 8 present,
    /// creating ids only for missing ones.
    fn prepare_grid(store: &mut GridStore, b: i64) -> (r: Result<(), AppError>)
        requires
            old(store).wf(),
        ensures
            final(store).wf(),
            r is Err <==> grid_read_fails(*old(store), b),
            r matches Err(e) ==> *final(store) == *old(store),
            r matches Err(e) ==> (old(store).batiment_index(b) is None ==> e is NotFound),
            r matches Err(e) ==> (old(store).batiment_index(b) is Some && unit_grid_corrupt(*old(store), b)
                ==> e is DataCorruption),
            r matches Err(e) ==> (old(store).batiment_index(b) is Some && !unit_grid_corrupt(*old(store), b)
                ==> e is ResourceUnavailable),
            r is Ok ==> periods_materialized(*old(store), b, *final(store)),
            r is Ok ==> final(store).batiment_index(b) is Some && !unit_grid_corrupt(*final(store), b),
            r is Ok ==> forall|k: int|
                1 <= k <= PERIODS_PER_UNIT ==> #[trigger] final(store).semaine_number_index(b, k as i32) is Some,
    {
        if store.find_batiment(b).is_none() {
            return Err(AppError::not_found("Batiment", b));
        }
        if Self::unit_grid_is_corrupt(store, b) {
            return Err(AppError::data_corruption("âge ou numéro de semaine incohérent"));
        }
        if Self::unit_is_complete(store, b) {
            proof {
                assert forall|k: int| 1 <= k <= PERIODS_PER_UNIT implies #[trigger] last_index(
                    store.semaines@,
                    semaine_at(b, k as i32),
                ) is Some by {
                    assert(store.semaine_number_index(b, k as i32) is Some);
                }
                lemma_materialize_present(store.semaines@, store.next_id, b, PERIODS_PER_UNIT as int);
            }
            return Ok(());
        }
        if store.next_id > i64::MAX - PERIODS_PER_UNIT as i64 {
            return Err(AppError::out_of_range("identifiants épuisés"));
        }
        Self::ensure_semaines(store, b);
        Ok(())
    }

    /// Makes periods 1 to 8 of unit `b` present.
    fn ensure_semaines(store: &mut GridStore, b: i64)
        requires
            old(store).wf(),
            old(store).next_id <= i64::MAX - PERIODS_PER_UNIT,
            old(store).batiment_index(b) is Some,
            !unit_grid_corrupt(*old(store), b),
        ensures
            final(store).wf(),
            !unit_grid_corrupt(*final(store), b),
            periods_materialized(*old(store), b, *final(store)),
            final(store).next_id <= old(store).next_id + PERIODS_PER_UNIT,
            forall|k: int|
                1 <= k <= PERIODS_PER_UNIT ==> #[trigger] final(store).semaine_number_index(b, k as i32) is Some,
    {
        let ghost s0 = *store;
        proof {
            lemma_last_index_spec(s0.batiments@, batiment_with_id(b));
            assert(id_below(s0.batiments@[s0.batiment_index(b)->0].id, s0.next_id));
        }
        let mut n: i32 = 1;
        while n <= PERIODS_PER_UNIT
            invariant
                1 <= n <= PERIODS_PER_UNIT + 1,
                b < s0.next_id,
                s0.next_id <= store.next_id,
                store.wf(),
                !unit_grid_corrupt(*store, b),
                same_but_semaines(s0, *store),
                (store.semaines@, store.next_id) == materialize(s0.semaines@, s0.next_id, b, n - 1),
                store.next_id <= s0.next_id + n - 1,
                s0.next_id <= i64::MAX - PERIODS_PER_UNIT,
                forall|k: int| 1 <= k < n ==> #[trigger] store.semaine_number_index(b, k as i32) is Some,
            decreases PERIODS_PER_UNIT + 1 - n,
        {
            let found = store.find_semaine_number(b, n);
            if found.is_none() {
                let ghost before = *store;
                let id = store.next_id;
                let s = Semaine { id: Some(id), batiment_id: b, numero_semaine: n, poids: None };
                proof {
                    lemma_last_index_spec(before.semaines@, semaine_at(b, n));
                }
                store.semaines.push(s);
                store.next_id = id + 1;
                proof {
                    assert forall|k: int| 1 <= k < n implies #[trigger] store.semaine_number_index(b, k as i32) is Some by {
                        assert(before.semaine_number_index(b, k as i32) is Some);
                        lemma_last_index_push_other(before.semaines@, semaine_at(b, k as i32), s);
                    }
                    lemma_last_index_push_match(before.semaines@, semaine_at(b, n), s);
                    assert(store.semaines@[before.semaines@.len() as int] == s);
                    assert forall|i: int| 0 <= i < store.semaines@.len() implies !((#[trigger] store.semaines@[i]).batiment_id
                        == b && period_corrupt(*store, store.semaines@[i])) by {
                        if i < before.semaines@.len() {
                            assert(store.semaines@[i] == before.semaines@[i]);
                            if before.semaines@[i].batiment_id == b {
                                assert(!period_corrupt(before, before.semaines@[i]));
                            }
                        } else {
                            assert forall|k: int| 0 <= k < store.suivis@.len() implies Some(
                                (#[trigger] store.suivis@[k]).semaine_id,
                            ) != s.id by {
                                assert(before.suivis@[k].semaine_id < before.next_id);
                            }
                        }
                    }
                    assert forall|i: int| 0 <= i < store.semaines@.len() implies (#[trigger] store.semaines@[i]).batiment_id
                        < store.next_id by {
                        if i < before.semaines@.len() {
                            assert(store.semaines@[i] == before.semaines@[i]);
                        }
                    }
                    assert forall|i: int| 0 <= i < store.suivis@.len() implies (#[trigger] store.suivis@[i]).semaine_id
                        < store.next_id by {
                        assert(before.suivis@[i].semaine_id < before.next_id);
                    }
                    assert(store.ids_below_next()) by {
                        assert forall|i: int| 0 <= i < store.semaines@.len() implies id_below(
                            #[trigger] store.semaines@[i].id,
                            store.next_id,
                        ) by {
                            if i < before.semaines@.len() {
                                assert(store.semaines@[i] == before.semaines@[i]);
                            }
                        }
                    }
                    assert(store.semaine_keys_unique()) by {
                        assert forall|i: int, j: int|
                            0 <= i < store.semaines@.len() && 0 <= j < store.semaines@.len() && i != j
                                && #[trigger] store.semaines@[i].batiment_id
                                == #[trigger] store.semaines@[j].batiment_id implies store.semaines@[i].numero_semaine
                            != store.semaines@[j].numero_semaine by {
                            let m = before.semaines@.len() as int;
                            if i == m {
                                assert(!semaine_at(b, n)(before.semaines@[j]));
                            } else if j == m {
                                assert(!semaine_at(b, n)(before.semaines@[i]));
                            } else {
                                assert(store.semaines@[i] == before.semaines@[i]);
                                assert(store.semaines@[j] == before.semaines@[j]);
                            }
                        }
                    }
                }
            }
            n += 1;
        }
    }

    /// Builds period `n` of unit `b`, which must be present, with its seven
    /// days from the stored entries, virtual where none is stored.
    fn build_row(store: &GridStore, b: i64, n: i32) -> (row: SemaineWithDetails)
        requires
            store.wf(),
            valid_period_number(n as int),
            store.semaine_number_index(b, n) is Some,
        ensures
            grid_row(*store, b, n, row),
    {
        let idx = store.find_semaine_number(b, n);
        let i = idx.unwrap();
        proof {
            lemma_last_index_spec(store.semaines@, semaine_at(b, n));
        }
        let p = store.semaines[i];
        assert(id_below(store.semaines@[i as int].id, store.next_id));
        let sid = p.id.unwrap();
        let mut days: Vec<SuiviQuotidien> = Vec::new();
        let mut j: i32 = 0;
        while j < DAYS_PER_PERIOD
            invariant
                0 <= j <= DAYS_PER_PERIOD,
                valid_period_number(n as int),
                days@.len() == j,
                forall|k: int|
                    0 <= k < j ==> #[trigger] days@[k] == day_view(
                        store.suivis@,
                        sid,
                        age_spec(n as int, k + 1) as i32,
                    ),
            decreases DAYS_PER_PERIOD - j,
        {
            let age = age_of(n, j + 1);
            let day = match store.find_suivi(sid, age) {
                Some(d) => store.suivis[d].duplicate(),
                None => SuiviQuotidien::blank(None, sid, age),
            };
            days.push(day);
            j += 1;
        }
        SemaineWithDetails {
            id: p.id,
            batiment_id: b,
            numero_semaine: n,
            poids: p.poids,
            suivi_quotidien: days,
        }
    }

    /// The eight periods of unit `batiment_id`, in order, each with its
    /// seven day entries. Missing periods are created and stored first; day
    /// entries that are not stored come back virtual and are not stored.
    pub fn get_full_semaines_by_batiment(store: &mut GridStore, batiment_id: i64) -> (r: Result<
        Vec<SemaineWithDetails>,
        AppError,
    >)
        requires
            old(store).wf(),
        ensures
            final(store).wf(),
            r is Err <==> grid_read_fails(*old(store), batiment_id),
            r matches Err(e) ==> *final(store) == *old(store),
            r matches Err(e) ==> (old(store).batiment_index(batiment_id) is None ==> e is NotFound),
            r matches Err(e) ==> (old(store).batiment_index(batiment_id) is Some && unit_grid_corrupt(
                *old(store),
                batiment_id,
            ) ==> e is DataCorruption),
            r matches Err(e) ==> (old(store).batiment_index(batiment_id) is Some && !unit_grid_corrupt(
                *old(store),
                batiment_id,
            ) ==> e is ResourceUnavailable),
            r matches Ok(rows) ==> full_grid_post(*old(store), batiment_id, *final(store), rows@),
    {
        Self::prepare_grid(store, batiment_id)?;
        let mut rows: Vec<SemaineWithDetails> = Vec::new();
        let mut n: i32 = 1;
        while n <= PERIODS_PER_UNIT
            invariant
                1 <= n <= PERIODS_PER_UNIT + 1,
                store.wf(),
                rows@.len() == n - 1,
                forall|k: int|
                    1 <= k <= PERIODS_PER_UNIT ==> #[trigger] store.semaine_number_index(batiment_id, k as i32) is Some,
                forall|k: int| 0 <= k < n - 1 ==> grid_row(*store, batiment_id, (k + 1) as i32, #[trigger] rows@[k]),
            decreases PERIODS_PER_UNIT + 1 - n,
        {
            assert(store.semaine_number_index(batiment_id, (n as int) as i32) is Some);
            let row = Self::build_row(store, batiment_id, n);
            rows.push(row);
            n += 1;
        }
        Ok(rows)
    }

    /// Sets the average weight of period `semaine_id`, in milligrams;
    /// independent of the ledger.
    pub fn update_semaine_poids(store: &mut GridStore, semaine_id: i64, poids: Option<i64>) -> (r: Result<Semaine, AppError>)
        requires
            old(store).wf(),
        ensures
            final(store).wf(),
            r is Err <==> old(store).semaine_index(semaine_id) is None,
            r is Err ==> *final(store) == *old(store),
            r matches Err(e) ==> e is NotFound,
            r matches Ok(s) ==> {
                let i = old(store).semaine_index(semaine_id)->0;
                &&& s == (Semaine { poids, ..old(store).semaines@[i] })
                &&& final(store).semaines@ == old(store).semaines@.update(i, s)
                &&& final(store).next_id == old(store).next_id
                &&& final(store).bandes@ == old(store).bandes@
                &&& final(store).batiments@ == old(store).batiments@
                &&& final(store).suivis@ == old(store).suivis@
                &&& final(store).historique@ == old(store).historique@
                &&& final(store).soins@ == old(store).soins@
                &&& final(store).fermes@ == old(store).fermes@
                &&& final(store).personnel@ == old(store).personnel@
                &&& final(store).poussins@ == old(store).poussins@
                &&& final(store).batiment_maladies@ == old(store).batiment_maladies@
            },
    {
        let i = match store.find_semaine(semaine_id) {
            Some(i) => i,
            None => return Err(AppError::not_found("Semaine", semaine_id)),
        };
        let ghost s0 = *store;
        let p = store.semaines[i];
        let s = Semaine { poids, ..p };
        store.semaines[i] = s;
        proof {
            assert forall|k: int| 0 <= k < store.semaines@.len() implies id_below(
                #[trigger] store.semaines@[k].id,
                store.next_id,
            ) by {
                assert(id_below(s0.semaines@[k].id, s0.next_id));
            }
            assert(store.semaine_keys_unique()) by {
                assert forall|a: int, b: int|
                    0 <= a < store.semaines@.len() && 0 <= b < store.semaines@.len() && a != b
                        && #[trigger] store.semaines@[a].batiment_id == #[trigger] store.semaines@[b].batiment_id
                        implies store.semaines@[a].numero_semaine != store.semaines@[b].numero_semaine by {
                    assert(s0.semaines@[a].batiment_id == store.semaines@[a].batiment_id);
                    assert(s0.semaines@[b].batiment_id == store.semaines@[b].batiment_id);
                }
            }
        }
        Ok(s)
    }

    /// Makes periods 1 to 8 of unit `batiment_id` present, creating the
    /// missing ones, and returns them in order of number.
    pub fn initialize_batiment_semaines(store: &mut GridStore, batiment_id: i64) -> (r: Result<Vec<Semaine>, AppError>)
        requires
            old(store).wf(),
        ensures
            final(store).wf(),
            r is Err <==> grid_read_fails(*old(store), batiment_id),
            r matches Err(e) ==> *final(store) == *old(store),
            r matches Err(e) ==> (old(store).batiment_index(batiment_id) is None ==> e is NotFound),
            r matches Err(e) ==> (old(store).batiment_index(batiment_id) is Some && unit_grid_corrupt(
                *old(store),
                batiment_id,
            ) ==> e is DataCorruption),
            r matches Err(e) ==> (old(store).batiment_index(batiment_id) is Some && !unit_grid_corrupt(
                *old(store),
                batiment_id,
            ) ==> e is ResourceUnavailable),
            r matches Ok(ws) ==> {
                &&& periods_materialized(*old(store), batiment_id, *final(store))
                &&& ws@.len() == PERIODS_PER_UNIT
                &&& forall|k: int|
                    0 <= k < PERIODS_PER_UNIT ==> #[trigger] ws@[k] == final(store).semaines@[final(store).semaine_number_index(
                        batiment_id,
                        (k + 1) as i32,
                    )->0]
            },
    {
        Self::prepare_grid(store, batiment_id)?;
        let mut ws: Vec<Semaine> = Vec::new();
        let mut n: i32 = 1;
        while n <= PERIODS_PER_UNIT
            invariant
                1 <= n <= PERIODS_PER_UNIT + 1,
                ws@.len() == n - 1,
                forall|k: int|
                    1 <= k <= PERIODS_PER_UNIT ==> #[trigger] store.semaine_number_index(batiment_id, k as i32) is Some,
                forall|k: int|
                    0 <= k < n - 1 ==> #[trigger] ws@[k] == store.semaines@[store.semaine_number_index(
                        batiment_id,
                        (k + 1) as i32,
                    )->0],
            decreases PERIODS_PER_UNIT + 1 - n,
        {
            assert(store.semaine_number_index(batiment_id, (n as int) as i32) is Some);
            let i = store.find_semaine_number(batiment_id, n).unwrap();
            ws.push(store.semaines[i]);
            n += 1;
        }
        Ok(ws)
    }
}

} // verus!
