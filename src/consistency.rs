use vstd::prelude::*;

use crate::error::AppError;
use crate::grid::GRAMS_PER_MILLI_BAG;
use crate::ledger::{adjust, adjust_fits, lemma_adjust_keeps_ids, moved, moved_fits, not_of_bande, of_bande, same_grid};
use crate::lookup::{last_index, lemma_last_index_push_other, lemma_last_index_spec};
use crate::models::{AlimentationHistory, Bande, Batiment, Semaine, SuiviQuotidien};
use crate::repositories::{
    create_entry_fails, give_back, give_back_fits, requested_entry, semaine_owner, semaine_without_id,
    suivi_not_of_semaine, suivi_of_semaine, SemaineRepository,
};
use crate::batiment_repository::{
    consumption_sum, day_in_unit, day_outside_unit, in_unit, semaine_outside_unit, unit_deleted, updated_unit,
};
use crate::semaine_service::{materialize, new_semaine, periods_materialized};
use crate::store::{bande_with_id, batiment_with_id, id_below, semaine_with_id, GridStore};
use crate::models::{CreateBatiment, CreateSuiviQuotidien, UpdateBatiment};
use crate::bande_service::{
    created_unit, created_week, cycle_deleted, day_outside_cycle, period_of_cycle, period_outside_cycle,
    unit_of_cycle, unit_outside_cycle,
};
use crate::upsert::{
    consumption, is_consumption, next_entry, owner_bande_index, prev_entry, upsert_fails, upsert_post,
    FieldUpdate,
};

verus! {

/// Sum of `f` over a sequence.
pub open spec fn sum_of<T>(s: Seq<T>, f: spec_fn(T) -> int) -> int
    decreases s.len(),
{
    if s.len() == 0 {
        0
    } else {
        sum_of(s.drop_last(), f) + f(s.last())
    }
}

/// Appending adds the new element's value to a sum.
pub proof fn lemma_sum_push<T>(s: Seq<T>, f: spec_fn(T) -> int, x: T)
    ensures
        sum_of(s.push(x), f) == sum_of(s, f) + f(x),
{
    assert(s.push(x).drop_last() =~= s);
}

/// Removing an element takes its value off a sum.
pub proof fn lemma_sum_remove<T>(s: Seq<T>, f: spec_fn(T) -> int, i: int)
    requires
        0 <= i < s.len(),
    ensures
        sum_of(s.remove(i), f) == sum_of(s, f) - f(s[i]),
    decreases s.len(),
{
    let t = s.remove(i);
    if i == s.len() - 1 {
        assert(t =~= s.drop_last());
    } else {
        assert(t.drop_last() =~= s.drop_last().remove(i));
        assert(t.last() == s.last());
        lemma_sum_remove(s.drop_last(), f, i);
    }
}

/// Overwriting an element swaps its value in a sum.
pub proof fn lemma_sum_update<T>(s: Seq<T>, f: spec_fn(T) -> int, i: int, x: T)
    requires
        0 <= i < s.len(),
    ensures
        sum_of(s.update(i, x), f) == sum_of(s, f) - f(s[i]) + f(x),
    decreases s.len(),
{
    let t = s.update(i, x);
    if i == s.len() - 1 {
        assert(t.drop_last() =~= s.drop_last());
    } else {
        assert(t.drop_last() =~= s.drop_last().update(i, x));
        lemma_sum_update(s.drop_last(), f, i, x);
    }
}

/// Sums of two functions that agree on every element are equal.
pub proof fn lemma_sum_congruent<T>(s: Seq<T>, f: spec_fn(T) -> int, g: spec_fn(T) -> int)
    requires
        forall|i: int| 0 <= i < s.len() ==> f(#[trigger] s[i]) == g(s[i]),
    ensures
        sum_of(s, f) == sum_of(s, g),
    decreases s.len(),
{
    if s.len() > 0 {
        assert forall|i: int| 0 <= i < s.drop_last().len() implies f(#[trigger] s.drop_last()[i]) == g(
            s.drop_last()[i],
        ) by {
            assert(s.drop_last()[i] == s[i]);
        }
        lemma_sum_congruent(s.drop_last(), f, g);
        assert(f(s[s.len() - 1]) == g(s[s.len() - 1]));
    }
}

/// The cycle that owns period `sid`, through its unit.
pub open spec fn owner_in(sems: Seq<Semaine>, bats: Seq<Batiment>, sid: i64) -> Option<i64> {
    match last_index(sems, semaine_with_id(sid)) {
        Some(i) => match last_index(bats, batiment_with_id(sems[i].batiment_id)) {
            Some(j) => Some(bats[j].bande_id),
            None => None,
        },
        None => None,
    }
}

/// Consumption of an entry counted for cycle `c`: its own if `c` owns it.
pub open spec fn owned_fn(sems: Seq<Semaine>, bats: Seq<Batiment>, c: i64) -> spec_fn(SuiviQuotidien) -> int {
    |d: SuiviQuotidien| if owner_in(sems, bats, d.semaine_id) == Some(c) {
        consumption(d)
    } else {
        0
    }
}

pub open spec fn adjustment_fn(c: i64) -> spec_fn(AlimentationHistory) -> int {
    |h: AlimentationHistory| if h.bande_id == c {
        h.quantite as int
    } else {
        0
    }
}

/// The ledger of cycle `c` as its records make it: its adjustments, less
/// 50 g per thousandth of a bag consumed by its day entries.
pub open spec fn ledger_from_records(s: GridStore, c: i64) -> int {
    sum_of(s.historique@, adjustment_fn(c)) - GRAMS_PER_MILLI_BAG * sum_of(
        s.suivis@,
        owned_fn(s.semaines@, s.batiments@, c),
    )
}

/// The stored ledger of cycle `c` equals what its records make it.
pub open spec fn ledger_consistent(s: GridStore, c: i64) -> bool {
    s.bande_index(c) matches Some(k) ==> s.bandes@[k].alimentation_contour == ledger_from_records(s, c)
}

/// An upsert keeps the ledger of every cycle equal to what its records
/// make it.
pub proof fn lemma_upsert_keeps_ledger_consistent(
    s0: GridStore,
    sid: i64,
    age: i32,
    u: Option<FieldUpdate>,
    s1: GridStore,
    d: SuiviQuotidien,
    c: i64,
)
    requires
        !upsert_fails(s0, sid, age, u),
        upsert_post(s0, sid, age, u, s1, d),
        ledger_consistent(s0, c),
    ensures
        ledger_consistent(s1, c),
{
    let f = owned_fn(s0.semaines@, s0.batiments@, c);
    let prev = prev_entry(s0, sid, age);
    assert(prev.semaine_id == sid) by {
        lemma_last_index_spec(s0.suivis@, crate::store::suivi_at(sid, age));
    }
    assert(d.semaine_id == sid);
    match s0.suivi_index(sid, age) {
        Some(i) => {
            lemma_last_index_spec(s0.suivis@, crate::store::suivi_at(sid, age));
            lemma_sum_update(s0.suivis@, f, i, d);
        },
        None => {
            lemma_sum_push(s0.suivis@, f, d);
            assert(consumption(prev) == 0);
        },
    }
    // the owner of the entry, by position and by id
    let bi = owner_bande_index(s0, sid)->0;
    lemma_last_index_spec(s0.semaines@, semaine_with_id(sid));
    let si = s0.semaine_index(sid)->0;
    lemma_last_index_spec(s0.batiments@, batiment_with_id(s0.semaines@[si].batiment_id));
    let bj = s0.batiment_index(s0.semaines@[si].batiment_id)->0;
    let x = s0.batiments@[bj].bande_id;
    assert(owner_in(s0.semaines@, s0.batiments@, sid) == Some(x));
    lemma_last_index_spec(s0.bandes@, bande_with_id(x));
    lemma_last_index_spec(s0.bandes@, bande_with_id(c));
    if !is_consumption(u) {
        assert(consumption(next_entry(s0, sid, age, u)) == consumption(prev));
    }
    if is_consumption(u) {
        assert forall|y: i64| #[trigger] s1.bande_index(y) == s0.bande_index(y) by {
            crate::lookup::lemma_last_index_update_same(s0.bandes@, bande_with_id(y), bi, s1.bandes@[bi]);
        }
        if x != c {
            if let Some(k) = s0.bande_index(c) {
                assert(k != bi);
                assert(s1.bandes@[k] == s0.bandes@[k]);
            }
        }
    }
}

/// A ledger move of cycle `a` by `d` keeps every cycle's position and adds
/// `d` to the ledger of `a` alone.
proof fn lemma_adjust_effect(bs: Seq<Bande>, a: i64, d: int, x: i64)
    requires
        adjust_fits(bs, a, d),
    ensures
        last_index(adjust(bs, a, d), bande_with_id(x)) == last_index(bs, bande_with_id(x)),
        last_index(bs, bande_with_id(x)) matches Some(k) ==> adjust(bs, a, d)[k].alimentation_contour
            == bs[k].alimentation_contour + if x == a && last_index(bs, bande_with_id(a)) is Some {
            d
        } else {
            0
        },
{
    lemma_adjust_keeps_ids(bs, a, d);
    lemma_last_index_spec(bs, bande_with_id(a));
    lemma_last_index_spec(bs, bande_with_id(x));
}

/// Recording an adjustment keeps the ledger of every cycle equal to what
/// its records make it.
pub proof fn lemma_adjustment_create_keeps_ledger_consistent(s0: GridStore, s1: GridStore, h: AlimentationHistory, c: i64)
    requires
        adjust_fits(s0.bandes@, h.bande_id, h.quantite as int),
        s1.historique@ == s0.historique@.push(h),
        s1.bandes@ == adjust(s0.bandes@, h.bande_id, h.quantite as int),
        same_grid(s0, s1),
        s0.bande_index(h.bande_id) is Some,
        ledger_consistent(s0, c),
    ensures
        ledger_consistent(s1, c),
{
    lemma_sum_push(s0.historique@, adjustment_fn(c), h);
    lemma_adjust_effect(s0.bandes@, h.bande_id, h.quantite as int, c);
}

/// Deleting record `i` keeps the ledger of every cycle equal to what its
/// records make it.
pub proof fn lemma_adjustment_delete_keeps_ledger_consistent(s0: GridStore, s1: GridStore, i: int, c: i64)
    requires
        0 <= i < s0.historique@.len(),
        adjust_fits(s0.bandes@, s0.historique@[i].bande_id, -s0.historique@[i].quantite),
        s1.historique@ == s0.historique@.remove(i),
        s1.bandes@ == adjust(s0.bandes@, s0.historique@[i].bande_id, -s0.historique@[i].quantite),
        same_grid(s0, s1),
        ledger_consistent(s0, c),
    ensures
        ledger_consistent(s1, c),
{
    let h = s0.historique@[i];
    lemma_sum_remove(s0.historique@, adjustment_fn(c), i);
    lemma_adjust_effect(s0.bandes@, h.bande_id, -h.quantite, c);
    lemma_last_index_spec(s0.bandes@, bande_with_id(c));
    lemma_last_index_spec(s0.bandes@, bande_with_id(h.bande_id));
}

/// Changing record `i` to value `v1` on cycle `b`, moving it from its
/// cycle if `b` differs, keeps the ledger of every cycle equal to what its
/// records make it.
pub proof fn lemma_adjustment_update_keeps_ledger_consistent(
    s0: GridStore,
    s1: GridStore,
    i: int,
    b: i64,
    v1: i64,
    c: i64,
)
    requires
        0 <= i < s0.historique@.len(),
        s0.bande_index(b) is Some,
        moved_fits(s0.bandes@, s0.historique@[i].bande_id, s0.historique@[i].quantite as int, b, v1 as int),
        s1.historique@ == s0.historique@.update(
            i,
            AlimentationHistory { bande_id: b, quantite: v1, ..s0.historique@[i] },
        ),
        s1.bandes@ == moved(s0.bandes@, s0.historique@[i].bande_id, s0.historique@[i].quantite as int, b, v1 as int),
        same_grid(s0, s1),
        ledger_consistent(s0, c),
    ensures
        ledger_consistent(s1, c),
{
    let h = s0.historique@[i];
    let a = h.bande_id;
    let v0 = h.quantite as int;
    lemma_sum_update(
        s0.historique@,
        adjustment_fn(c),
        i,
        AlimentationHistory { bande_id: b, quantite: v1, ..h },
    );
    lemma_last_index_spec(s0.bandes@, bande_with_id(c));
    lemma_last_index_spec(s0.bandes@, bande_with_id(a));
    if a == b {
        lemma_adjust_effect(s0.bandes@, b, v1 - v0, c);
    } else {
        let mid = adjust(s0.bandes@, a, -v0);
        lemma_adjust_effect(s0.bandes@, a, -v0, c);
        lemma_adjust_effect(s0.bandes@, a, -v0, b);
        lemma_adjust_effect(mid, b, v1 as int, c);
    }
}

/// Creating a day entry keeps the ledger of every cycle equal to what its
/// records make it.
pub proof fn lemma_create_entry_keeps_ledger_consistent(
    s0: GridStore,
    req: CreateSuiviQuotidien,
    s1: GridStore,
    d: SuiviQuotidien,
    c: i64,
)
    requires
        !create_entry_fails(s0, req),
        d == requested_entry(req, s0.next_id),
        s1.suivis@ == s0.suivis@.push(d),
        s1.bandes@ == adjust(s0.bandes@, semaine_owner(s0, req.semaine_id)->0, -GRAMS_PER_MILLI_BAG * consumption(d)),
        s1.semaines@ == s0.semaines@,
        s1.batiments@ == s0.batiments@,
        s1.historique@ == s0.historique@,
        ledger_consistent(s0, c),
    ensures
        ledger_consistent(s1, c),
{
    let owner = semaine_owner(s0, req.semaine_id)->0;
    let cd = consumption(d);
    assert(-GRAMS_PER_MILLI_BAG * cd == -(GRAMS_PER_MILLI_BAG * cd)) by (nonlinear_arith);
    lemma_sum_push(s0.suivis@, owned_fn(s0.semaines@, s0.batiments@, c), d);
    assert(owner_in(s0.semaines@, s0.batiments@, d.semaine_id) == Some(owner));
    lemma_adjust_effect(s0.bandes@, owner, -GRAMS_PER_MILLI_BAG * cd, c);
    lemma_last_index_spec(s0.bandes@, bande_with_id(c));
}

/// Largest table length for which a recomputed ledger is accumulated
/// without overflow: 2^57 rows.
pub const MAX_ROWS: u64 = 144115188075855872;

/// Sets the ledger of cycle `bande_id` to what its records make it: its
/// adjustments, less 50 g per thousandth of a bag consumed by its day
/// entries. Returns the new ledger. Nothing changes when it fails.
pub fn recompute_contour(store: &mut GridStore, bande_id: i64) -> (r: Result<i64, AppError>)
    requires
        old(store).wf(),
    ensures
        final(store).wf(),
        r is Err <==> (old(store).bande_index(bande_id) is None || old(store).historique@.len() > MAX_ROWS
            || old(store).suivis@.len() > MAX_ROWS || !crate::parse::in_i64(ledger_from_records(*old(store), bande_id))),
        r is Err ==> *final(store) == *old(store),
        old(store).bande_index(bande_id) is None ==> r matches Err(AppError::NotFound { .. }),
        r matches Ok(v) ==> {
            let k = old(store).bande_index(bande_id)->0;
            &&& v == ledger_from_records(*old(store), bande_id)
            &&& final(store).bandes@ == old(store).bandes@.update(
                k,
                Bande { alimentation_contour: v, ..old(store).bandes@[k] },
            )
            &&& same_grid(*old(store), *final(store))
            &&& final(store).historique@ == old(store).historique@
            &&& final(store).next_id == old(store).next_id
            &&& ledger_consistent(*final(store), bande_id)
        },
{
    let k = match store.find_bande(bande_id) {
        Some(k) => k,
        None => return Err(AppError::not_found("Bande", bande_id)),
    };
    if store.historique.len() as u64 > MAX_ROWS || store.suivis.len() as u64 > MAX_ROWS {
        return Err(AppError::out_of_range("trop d'enregistrements"));
    }
    let ghost s0 = *store;
    let ghost fa = adjustment_fn(bande_id);
    let ghost fc = owned_fn(store.semaines@, store.batiments@, bande_id);
    let mut adj: i128 = 0;
    let mut i: usize = 0;
    while i < store.historique.len()
        invariant
            *store == s0,
            fa == adjustment_fn(bande_id),
            store.historique@.len() <= MAX_ROWS,
            i <= store.historique@.len(),
            adj == sum_of(store.historique@.subrange(0, i as int), fa),
            -(i as int) * 0x8000_0000_0000_0000 <= adj <= (i as int) * 0x8000_0000_0000_0000,
        decreases store.historique@.len() - i,
    {
        proof {
            assert(store.historique@.subrange(0, i + 1) =~= store.historique@.subrange(0, i as int).push(
                store.historique@[i as int],
            ));
            lemma_sum_push(store.historique@.subrange(0, i as int), fa, store.historique@[i as int]);
        }
        if store.historique[i].bande_id == bande_id {
            adj = adj + store.historique[i].quantite as i128;
        }
        i += 1;
    }
    assert(store.historique@.subrange(0, store.historique@.len() as int) =~= store.historique@);
    let mut used: i128 = 0;
    let mut j: usize = 0;
    while j < store.suivis.len()
        invariant
            *store == s0,
            fc == owned_fn(store.semaines@, store.batiments@, bande_id),
            store.suivis@.len() <= MAX_ROWS,
            j <= store.suivis@.len(),
            used == sum_of(store.suivis@.subrange(0, j as int), fc),
            -(j as int) * 0x8000_0000_0000_0000 <= used <= (j as int) * 0x8000_0000_0000_0000,
        decreases store.suivis@.len() - j,
    {
        proof {
            assert(store.suivis@.subrange(0, j + 1) =~= store.suivis@.subrange(0, j as int).push(
                store.suivis@[j as int],
            ));
            lemma_sum_push(store.suivis@.subrange(0, j as int), fc, store.suivis@[j as int]);
        }
        let owner = SemaineRepository::owner_of(store, store.suivis[j].semaine_id);
        if owner == Some(bande_id) {
            let q: i64 = match store.suivis[j].alimentation_par_jour {
                Some(v) => v,
                None => 0,
            };
            used = used + q as i128;
        }
        j += 1;
    }
    assert(store.suivis@.subrange(0, store.suivis@.len() as int) =~= store.suivis@);
    assert(-0x100_0000_0000_0000_0000_0000_0000_0000 <= used <= 0x100_0000_0000_0000_0000_0000_0000_0000);
    assert(-0x100_0000_0000_0000_0000_0000_0000_0000 <= adj <= 0x100_0000_0000_0000_0000_0000_0000_0000);
    assert(GRAMS_PER_MILLI_BAG == 50);
    assert(-0x4000_0000_0000_0000_0000_0000_0000_0000 <= 50 * used <= 0x4000_0000_0000_0000_0000_0000_0000_0000)
        by (nonlinear_arith)
        requires
            -0x100_0000_0000_0000_0000_0000_0000_0000 <= used <= 0x100_0000_0000_0000_0000_0000_0000_0000,
    ;
    let total: i128 = adj - GRAMS_PER_MILLI_BAG as i128 * used;
    if total < i64::MIN as i128 || total > i64::MAX as i128 {
        return Err(AppError::out_of_range("stock d'aliment hors limites"));
    }
    let b = store.bandes[k].duplicate();
    store.bandes[k] = Bande { alimentation_contour: total as i64, ..b };
    proof {
        assert forall|x: int| 0 <= x < store.bandes@.len() implies id_below(#[trigger] store.bandes@[x].id, store.next_id) by {
            assert(id_below(s0.bandes@[x].id, s0.next_id));
        }
        lemma_last_index_spec(s0.bandes@, bande_with_id(bande_id));
        crate::lookup::lemma_last_index_update_same(s0.bandes@, bande_with_id(bande_id), k as int, store.bandes@[k as int]);
    }
    Ok(total as i64)
}

/// Materializing periods keeps the position of every period id below the
/// starting counter, and never lowers the counter.
proof fn lemma_materialize_keeps_old_ids(ss: Seq<Semaine>, next: i64, b: i64, n: int, sid: i64)
    requires
        sid < next,
        next <= i64::MAX - 8,
        n <= 8,
    ensures
        last_index(materialize(ss, next, b, n).0, semaine_with_id(sid)) == last_index(ss, semaine_with_id(sid)),
        next <= materialize(ss, next, b, n).1 <= next + if n > 0 { n } else { 0 },
    decreases n,
{
    if n > 0 {
        lemma_materialize_keeps_old_ids(ss, next, b, n - 1, sid);
        let (t, nx) = materialize(ss, next, b, n - 1);
        if last_index(t, crate::store::semaine_at(b, n as i32)) is None {
            lemma_last_index_push_other(t, semaine_with_id(sid), new_semaine(nx, b, n as i32));
        }
    }
}

/// Reading a unit's full grid, which may create periods, keeps the ledger
/// of every cycle equal to what its records make it.
pub proof fn lemma_materialize_keeps_ledger_consistent(s0: GridStore, b: i64, s1: GridStore, c: i64)
    requires
        s0.wf(),
        s0.next_id <= i64::MAX - 8,
        periods_materialized(s0, b, s1),
        ledger_consistent(s0, c),
    ensures
        ledger_consistent(s1, c),
{
    let f0 = owned_fn(s0.semaines@, s0.batiments@, c);
    let f1 = owned_fn(s1.semaines@, s1.batiments@, c);
    assert forall|i: int| 0 <= i < s1.suivis@.len() implies f1(#[trigger] s1.suivis@[i]) == f0(s1.suivis@[i]) by {
        let sid = s1.suivis@[i].semaine_id;
        assert(s0.suivis@[i].semaine_id < s0.next_id);
        assert(crate::grid::PERIODS_PER_UNIT == 8);
        assert(s1.semaines@ == materialize(s0.semaines@, s0.next_id, b, 8).0);
        lemma_materialize_keeps_old_ids(s0.semaines@, s0.next_id, b, 8, sid);
        let k = last_index(s0.semaines@, semaine_with_id(sid));
        if let Some(k) = k {
            lemma_last_index_spec(s0.semaines@, semaine_with_id(sid));
            lemma_last_index_spec(s1.semaines@, semaine_with_id(sid));
            lemma_materialize_prefix(s0.semaines@, s0.next_id, b, 8, k);
        }
    }
    lemma_sum_congruent(s1.suivis@, f1, f0);
}

/// Materializing only appends periods.
proof fn lemma_materialize_prefix(ss: Seq<Semaine>, next: i64, b: i64, n: int, k: int)
    requires
        0 <= k < ss.len(),
    ensures
        k < materialize(ss, next, b, n).0.len(),
        materialize(ss, next, b, n).0[k] == ss[k],
    decreases n,
{
    if n > 0 {
        lemma_materialize_prefix(ss, next, b, n - 1, k);
    }
}

/// Creating a unit keeps the ledger of every cycle equal to what its
/// records make it.
pub proof fn lemma_unit_create_keeps_ledger_consistent(s0: GridStore, s1: GridStore, u: Batiment, c: i64)
    requires
        s0.wf(),
        u.id == Some(s0.next_id),
        s1.batiments@ == s0.batiments@.push(u),
        s1.bandes@ == s0.bandes@,
        s1.semaines@ == s0.semaines@,
        s1.suivis@ == s0.suivis@,
        s1.historique@ == s0.historique@,
        ledger_consistent(s0, c),
    ensures
        ledger_consistent(s1, c),
{
    let f0 = owned_fn(s0.semaines@, s0.batiments@, c);
    let f1 = owned_fn(s1.semaines@, s1.batiments@, c);
    assert forall|i: int| 0 <= i < s1.suivis@.len() implies f1(#[trigger] s1.suivis@[i]) == f0(s1.suivis@[i]) by {
        let sid = s1.suivis@[i].semaine_id;
        lemma_last_index_spec(s0.semaines@, semaine_with_id(sid));
        if let Some(k) = last_index(s0.semaines@, semaine_with_id(sid)) {
            let x = s0.semaines@[k].batiment_id;
            assert(x < s0.next_id);
            lemma_last_index_push_other(s0.batiments@, batiment_with_id(x), u);
            lemma_last_index_spec(s0.batiments@, batiment_with_id(x));
        }
    }
    lemma_sum_congruent(s1.suivis@, f1, f0);
}

/// Creating a period keeps the ledger of every cycle equal to what its
/// records make it.
pub proof fn lemma_period_create_keeps_ledger_consistent(s0: GridStore, s1: GridStore, p: Semaine, c: i64)
    requires
        s0.wf(),
        p.id == Some(s0.next_id),
        s1.semaines@ == s0.semaines@.push(p),
        s1.bandes@ == s0.bandes@,
        s1.batiments@ == s0.batiments@,
        s1.suivis@ == s0.suivis@,
        s1.historique@ == s0.historique@,
        ledger_consistent(s0, c),
    ensures
        ledger_consistent(s1, c),
{
    let f0 = owned_fn(s0.semaines@, s0.batiments@, c);
    let f1 = owned_fn(s1.semaines@, s1.batiments@, c);
    assert forall|i: int| 0 <= i < s1.suivis@.len() implies f1(#[trigger] s1.suivis@[i]) == f0(s1.suivis@[i]) by {
        let sid = s1.suivis@[i].semaine_id;
        assert(s0.suivis@[i].semaine_id < s0.next_id);
        lemma_last_index_push_other(s0.semaines@, semaine_with_id(sid), p);
        lemma_last_index_spec(s0.semaines@, semaine_with_id(sid));
    }
    lemma_sum_congruent(s1.suivis@, f1, f0);
}

/// Setting a period's weight keeps the ledger of every cycle equal to what
/// its records make it.
pub proof fn lemma_weight_update_keeps_ledger_consistent(s0: GridStore, s1: GridStore, k: int, poids: Option<i64>, c: i64)
    requires
        0 <= k < s0.semaines@.len(),
        s1.semaines@ == s0.semaines@.update(k, Semaine { poids, ..s0.semaines@[k] }),
        s1.bandes@ == s0.bandes@,
        s1.batiments@ == s0.batiments@,
        s1.suivis@ == s0.suivis@,
        s1.historique@ == s0.historique@,
        ledger_consistent(s0, c),
    ensures
        ledger_consistent(s1, c),
{
    let f0 = owned_fn(s0.semaines@, s0.batiments@, c);
    let f1 = owned_fn(s1.semaines@, s1.batiments@, c);
    let w = Semaine { poids, ..s0.semaines@[k] };
    assert forall|i: int| 0 <= i < s1.suivis@.len() implies f1(#[trigger] s1.suivis@[i]) == f0(s1.suivis@[i]) by {
        let sid = s1.suivis@[i].semaine_id;
        crate::lookup::lemma_last_index_update_same(s0.semaines@, semaine_with_id(sid), k, w);
        lemma_last_index_spec(s0.semaines@, semaine_with_id(sid));
    }
    lemma_sum_congruent(s1.suivis@, f1, f0);
}

/// Deleting day entry `i` keeps the ledger of every cycle equal to what its
/// records make it.
pub proof fn lemma_day_delete_keeps_ledger_consistent(s0: GridStore, s1: GridStore, i: int, c: i64)
    requires
        0 <= i < s0.suivis@.len(),
        give_back_fits(s0, s0.suivis@[i].semaine_id, GRAMS_PER_MILLI_BAG * consumption(s0.suivis@[i])),
        s1.suivis@ == s0.suivis@.remove(i),
        s1.bandes@ == give_back(s0, s0.suivis@[i].semaine_id, GRAMS_PER_MILLI_BAG * consumption(s0.suivis@[i])),
        s1.semaines@ == s0.semaines@,
        s1.batiments@ == s0.batiments@,
        s1.historique@ == s0.historique@,
        ledger_consistent(s0, c),
    ensures
        ledger_consistent(s1, c),
{
    let d = s0.suivis@[i];
    let f = owned_fn(s0.semaines@, s0.batiments@, c);
    lemma_sum_remove(s0.suivis@, f, i);
    lemma_last_index_spec(s0.bandes@, bande_with_id(c));
    if let Some(o) = semaine_owner(s0, d.semaine_id) {
        lemma_adjust_effect(s0.bandes@, o, GRAMS_PER_MILLI_BAG * consumption(d), c);
        lemma_last_index_spec(s0.bandes@, bande_with_id(o));
    }
}

/// A sum splits over the elements a filter keeps and those its complement
/// keeps.
pub proof fn lemma_sum_filter_split<T>(s: Seq<T>, f: spec_fn(T) -> int, p: spec_fn(T) -> bool, q: spec_fn(T) -> bool)
    requires
        forall|x: T| #[trigger] p(x) == !q(x),
    ensures
        sum_of(s, f) == sum_of(s.filter(p), f) + sum_of(s.filter(q), f),
    decreases s.len(),
{
    reveal(Seq::filter);
    if s.len() > 0 {
        lemma_sum_filter_split(s.drop_last(), f, p, q);
        let x = s.last();
        if p(x) {
            lemma_sum_push(s.drop_last().filter(p), f, x);
        } else {
            lemma_sum_push(s.drop_last().filter(q), f, x);
        }
    }
}

/// A filter that keeps every element satisfying `p` keeps the element that
/// `last_index` finds for `p`.
pub proof fn lemma_last_index_filter<T>(s: Seq<T>, q: spec_fn(T) -> bool, p: spec_fn(T) -> bool)
    requires
        forall|i: int| 0 <= i < s.len() && p(#[trigger] s[i]) ==> q(s[i]),
    ensures
        last_index(s, p) is Some <==> last_index(s.filter(q), p) is Some,
        last_index(s, p) is Some ==> s.filter(q)[last_index(s.filter(q), p)->0] == s[last_index(s, p)->0],
    decreases s.len(),
{
    reveal(Seq::filter);
    if s.len() > 0 {
        assert forall|i: int| 0 <= i < s.drop_last().len() && p(#[trigger] s.drop_last()[i]) implies q(
            s.drop_last()[i],
        ) by {
            assert(s.drop_last()[i] == s[i]);
        }
        lemma_last_index_filter(s.drop_last(), q, p);
        let x = s.last();
        let t = s.drop_last().filter(q);
        lemma_last_index_spec(t, p);
        lemma_last_index_spec(s.drop_last(), p);
        if q(x) {
            assert(s.filter(q) == t.push(x));
            assert(t.push(x).drop_last() =~= t);
        }
    }
}

/// Entries that all have owner `o` count, for cycle `c`, their whole
/// consumption when `o` is `c` and nothing otherwise.
proof fn lemma_owned_sum_one_owner(
    ds: Seq<SuiviQuotidien>,
    sems: Seq<Semaine>,
    bats: Seq<Batiment>,
    c: i64,
    o: Option<i64>,
)
    requires
        forall|i: int| 0 <= i < ds.len() ==> owner_in(sems, bats, (#[trigger] ds[i]).semaine_id) == o,
    ensures
        sum_of(ds, owned_fn(sems, bats, c)) == if o == Some(c) {
            consumption_sum(ds)
        } else {
            0
        },
    decreases ds.len(),
{
    if ds.len() > 0 {
        assert forall|i: int| 0 <= i < ds.drop_last().len() implies owner_in(
            sems,
            bats,
            (#[trigger] ds.drop_last()[i]).semaine_id,
        ) == o by {
            assert(ds.drop_last()[i] == ds[i]);
        }
        lemma_owned_sum_one_owner(ds.drop_last(), sems, bats, c, o);
        assert(owner_in(sems, bats, ds[ds.len() - 1].semaine_id) == o);
    }
}

/// Removing an element that does not satisfy `p` keeps the element that
/// `last_index` finds.
proof fn lemma_last_index_remove_other<T>(s: Seq<T>, p: spec_fn(T) -> bool, i: int)
    requires
        0 <= i < s.len(),
        !p(s[i]),
    ensures
        last_index(s, p) is Some <==> last_index(s.remove(i), p) is Some,
        last_index(s, p) is Some ==> s.remove(i)[last_index(s.remove(i), p)->0] == s[last_index(s, p)->0],
{
    let t = s.remove(i);
    lemma_last_index_spec(s, p);
    match last_index(s, p) {
        Some(k) => {
            let k2 = if k < i { k } else { k - 1 };
            assert(t[k2] == s[k]);
            assert forall|j: int| k2 < j < t.len() implies !p(#[trigger] t[j]) by {
                if j < i {
                    assert(t[j] == s[j]);
                } else {
                    assert(t[j] == s[j + 1]);
                }
            }
            crate::lookup::lemma_last_index_at(t, p, k2);
        },
        None => {
            assert forall|j: int| 0 <= j < t.len() implies !p(#[trigger] t[j]) by {
                if j < i {
                    assert(t[j] == s[j]);
                } else {
                    assert(t[j] == s[j + 1]);
                }
            }
            crate::lookup::lemma_last_index_none(t, p);
        },
    }
}

/// Deleting a period with its day entries, and giving their consumption
/// back to the owning cycle, keeps the ledger of every cycle equal to what
/// its records make it.
pub proof fn lemma_period_delete_keeps_ledger_consistent(s0: GridStore, s1: GridStore, sid: i64, c: i64)
    requires
        give_back_fits(s0, sid, GRAMS_PER_MILLI_BAG * consumption_sum(s0.suivis@.filter(suivi_of_semaine(sid)))),
        s1.semaines@ == s0.semaines@.filter(semaine_without_id(sid)),
        s1.suivis@ == s0.suivis@.filter(suivi_not_of_semaine(sid)),
        s1.bandes@ == give_back(s0, sid, GRAMS_PER_MILLI_BAG * consumption_sum(s0.suivis@.filter(suivi_of_semaine(sid)))),
        s1.batiments@ == s0.batiments@,
        s1.historique@ == s0.historique@,
        ledger_consistent(s0, c),
    ensures
        ledger_consistent(s1, c),
{
    let f0 = owned_fn(s0.semaines@, s0.batiments@, c);
    let f1 = owned_fn(s1.semaines@, s1.batiments@, c);
    let removed = s0.suivis@.filter(suivi_of_semaine(sid));
    let kept = s0.suivis@.filter(suivi_not_of_semaine(sid));
    lemma_sum_filter_split(s0.suivis@, f0, suivi_not_of_semaine(sid), suivi_of_semaine(sid));
    assert forall|i: int| 0 <= i < removed.len() implies owner_in(
        s0.semaines@,
        s0.batiments@,
        (#[trigger] removed[i]).semaine_id,
    ) == semaine_owner(s0, sid) by {
        s0.suivis@.lemma_filter_pred(suivi_of_semaine(sid), i);
    }
    lemma_owned_sum_one_owner(removed, s0.semaines@, s0.batiments@, c, semaine_owner(s0, sid));
    assert forall|i: int| 0 <= i < kept.len() implies f1(#[trigger] kept[i]) == f0(kept[i]) by {
        s0.suivis@.lemma_filter_pred(suivi_not_of_semaine(sid), i);
        let x = kept[i].semaine_id;
        assert(x != sid);
        lemma_last_index_filter(s0.semaines@, semaine_without_id(sid), semaine_with_id(x));
        lemma_last_index_spec(s0.semaines@, semaine_with_id(x));
    }
    lemma_sum_congruent(kept, f1, f0);
    lemma_last_index_spec(s0.bandes@, bande_with_id(c));
    if let Some(o) = semaine_owner(s0, sid) {
        lemma_adjust_effect(s0.bandes@, o, GRAMS_PER_MILLI_BAG * consumption_sum(removed), c);
        lemma_last_index_spec(s0.bandes@, bande_with_id(o));
    }
}

/// Deleting a unit with its grid, and giving the consumption of its day
/// entries back to its cycle, keeps the ledger of every cycle equal to what
/// its records make it.
pub proof fn lemma_unit_delete_keeps_ledger_consistent(s0: GridStore, uid: i64, s1: GridStore, c: i64)
    requires
        s0.wf(),
        s0.batiment_index(uid) is Some,
        adjust_fits(
            s0.bandes@,
            s0.batiments@[s0.batiment_index(uid)->0].bande_id,
            GRAMS_PER_MILLI_BAG * consumption_sum(s0.suivis@.filter(day_in_unit(s0.semaines@, uid))),
        ),
        unit_deleted(s0, uid, s1),
        ledger_consistent(s0, c),
    ensures
        ledger_consistent(s1, c),
{
    let sems = s0.semaines@;
    let bats = s0.batiments@;
    let bi = s0.batiment_index(uid)->0;
    let c0 = bats[bi].bande_id;
    let f0 = owned_fn(sems, bats, c);
    let f1 = owned_fn(s1.semaines@, s1.batiments@, c);
    let removed = s0.suivis@.filter(day_in_unit(sems, uid));
    let kept = s0.suivis@.filter(day_outside_unit(sems, uid));
    lemma_last_index_spec(bats, batiment_with_id(uid));
    lemma_sum_filter_split(s0.suivis@, f0, day_outside_unit(sems, uid), day_in_unit(sems, uid));
    // every removed entry belongs to the unit, so to its cycle
    assert forall|i: int| 0 <= i < removed.len() implies owner_in(sems, bats, (#[trigger] removed[i]).semaine_id)
        == Some(c0) by {
        s0.suivis@.lemma_filter_pred(day_in_unit(sems, uid), i);
        let sid = removed[i].semaine_id;
        let k = choose|k: int| 0 <= k < sems.len() && (#[trigger] sems[k]).batiment_id == uid && sems[k].id == Some(sid);
        assert forall|j: int| k < j < sems.len() implies !semaine_with_id(sid)(#[trigger] sems[j]) by {
            assert(sems[j].id != sems[k].id);
        }
        crate::lookup::lemma_last_index_at(sems, semaine_with_id(sid), k);
    }
    lemma_owned_sum_one_owner(removed, sems, bats, c, Some(c0));
    // every kept entry keeps its owner
    assert forall|i: int| 0 <= i < kept.len() implies f1(#[trigger] kept[i]) == f0(kept[i]) by {
        s0.suivis@.lemma_filter_pred(day_outside_unit(sems, uid), i);
        let sid = kept[i].semaine_id;
        assert(!in_unit(sems, uid, sid));
        assert forall|j: int| 0 <= j < sems.len() && semaine_with_id(sid)(#[trigger] sems[j]) implies semaine_outside_unit(
            uid,
        )(sems[j]) by {
            if sems[j].batiment_id == uid {
                assert(in_unit(sems, uid, sid));
            }
        }
        lemma_last_index_filter(sems, semaine_outside_unit(uid), semaine_with_id(sid));
        lemma_last_index_spec(sems, semaine_with_id(sid));
        if let Some(k) = last_index(sems, semaine_with_id(sid)) {
            let x = sems[k].batiment_id;
            assert(x != uid) by {
                if x == uid {
                    assert(in_unit(sems, uid, sid));
                }
            }
            lemma_last_index_remove_other(bats, batiment_with_id(x), bi);
        }
    }
    lemma_sum_congruent(kept, f1, f0);
    lemma_last_index_spec(s0.bandes@, bande_with_id(c));
    lemma_last_index_spec(s0.bandes@, bande_with_id(c0));
    lemma_adjust_effect(s0.bandes@, c0, GRAMS_PER_MILLI_BAG * consumption_sum(removed), c);
}

/// Every entry of unit `uid`'s periods is owned, through `bats`, by the
/// cycle at position `bi`, the unit's last position.
proof fn lemma_unit_entries_owner(sems: Seq<Semaine>, bats: Seq<Batiment>, uid: i64, bi: int, ds: Seq<SuiviQuotidien>)
    requires
        forall|i: int, j: int| 0 <= i < sems.len() && 0 <= j < sems.len() && i != j ==> #[trigger] sems[i].id != #[trigger] sems[j].id,
        last_index(bats, batiment_with_id(uid)) == Some(bi),
        forall|i: int| 0 <= i < ds.len() ==> in_unit(sems, uid, (#[trigger] ds[i]).semaine_id),
    ensures
        forall|i: int| 0 <= i < ds.len() ==> owner_in(sems, bats, (#[trigger] ds[i]).semaine_id) == Some(bats[bi].bande_id),
{
    assert forall|i: int| 0 <= i < ds.len() implies owner_in(sems, bats, (#[trigger] ds[i]).semaine_id) == Some(
        bats[bi].bande_id,
    ) by {
        let sid = ds[i].semaine_id;
        assert(in_unit(sems, uid, sid));
        let k = choose|k: int| 0 <= k < sems.len() && (#[trigger] sems[k]).batiment_id == uid && sems[k].id == Some(sid);
        assert forall|j: int| k < j < sems.len() implies !semaine_with_id(sid)(#[trigger] sems[j]) by {
            assert(sems[j].id != sems[k].id);
        }
        crate::lookup::lemma_last_index_at(sems, semaine_with_id(sid), k);
    }
}

/// Changing a unit, possibly moving it to another cycle together with the
/// consumption of its day entries, keeps the ledger of every cycle equal to
/// what its records make it.
pub proof fn lemma_unit_update_keeps_ledger_consistent(
    s0: GridStore,
    uid: i64,
    u: UpdateBatiment,
    s1: GridStore,
    c: i64,
)
    requires
        s0.wf(),
        s0.batiment_index(uid) is Some,
        moved_fits(
            s0.bandes@,
            s0.batiments@[s0.batiment_index(uid)->0].bande_id,
            -GRAMS_PER_MILLI_BAG * consumption_sum(s0.suivis@.filter(day_in_unit(s0.semaines@, uid))),
            u.bande_id,
            -GRAMS_PER_MILLI_BAG * consumption_sum(s0.suivis@.filter(day_in_unit(s0.semaines@, uid))),
        ),
        s1.batiments@ == s0.batiments@.update(
            s0.batiment_index(uid)->0,
            updated_unit(s0.batiments@[s0.batiment_index(uid)->0], u),
        ),
        s1.bandes@ == moved(
            s0.bandes@,
            s0.batiments@[s0.batiment_index(uid)->0].bande_id,
            -GRAMS_PER_MILLI_BAG * consumption_sum(s0.suivis@.filter(day_in_unit(s0.semaines@, uid))),
            u.bande_id,
            -GRAMS_PER_MILLI_BAG * consumption_sum(s0.suivis@.filter(day_in_unit(s0.semaines@, uid))),
        ),
        s1.semaines@ == s0.semaines@,
        s1.suivis@ == s0.suivis@,
        s1.historique@ == s0.historique@,
        ledger_consistent(s0, c),
    ensures
        ledger_consistent(s1, c),
{
    let sems = s0.semaines@;
    let bats = s0.batiments@;
    let bi = s0.batiment_index(uid)->0;
    let a = bats[bi].bande_id;
    let b = u.bande_id;
    let nu = updated_unit(bats[bi], u);
    let f0 = owned_fn(sems, bats, c);
    let f1 = owned_fn(s1.semaines@, s1.batiments@, c);
    let inside = s0.suivis@.filter(day_in_unit(sems, uid));
    let outside = s0.suivis@.filter(day_outside_unit(sems, uid));
    let cs = consumption_sum(inside);
    let w = -GRAMS_PER_MILLI_BAG * cs;
    assert(-GRAMS_PER_MILLI_BAG * cs == -(GRAMS_PER_MILLI_BAG * cs)) by (nonlinear_arith);
    lemma_last_index_spec(bats, batiment_with_id(uid));
    crate::lookup::lemma_last_index_update_same(bats, batiment_with_id(uid), bi, nu);
    lemma_sum_filter_split(s0.suivis@, f0, day_outside_unit(sems, uid), day_in_unit(sems, uid));
    lemma_sum_filter_split(s0.suivis@, f1, day_outside_unit(sems, uid), day_in_unit(sems, uid));
    assert forall|i: int| 0 <= i < inside.len() implies in_unit(sems, uid, (#[trigger] inside[i]).semaine_id) by {
        s0.suivis@.lemma_filter_pred(day_in_unit(sems, uid), i);
    }
    lemma_unit_entries_owner(sems, bats, uid, bi, inside);
    lemma_unit_entries_owner(sems, s1.batiments@, uid, bi, inside);
    lemma_owned_sum_one_owner(inside, sems, bats, c, Some(a));
    lemma_owned_sum_one_owner(inside, sems, s1.batiments@, c, Some(b));
    assert forall|i: int| 0 <= i < outside.len() implies f1(#[trigger] outside[i]) == f0(outside[i]) by {
        s0.suivis@.lemma_filter_pred(day_outside_unit(sems, uid), i);
        let sid = outside[i].semaine_id;
        lemma_last_index_spec(sems, semaine_with_id(sid));
        if let Some(k) = last_index(sems, semaine_with_id(sid)) {
            let x = sems[k].batiment_id;
            assert(x != uid) by {
                if x == uid {
                    assert(in_unit(sems, uid, sid));
                }
            }
            crate::lookup::lemma_last_index_update_same(bats, batiment_with_id(x), bi, nu);
            lemma_last_index_spec(bats, batiment_with_id(x));
        }
    }
    lemma_sum_congruent(outside, f1, f0);
    lemma_last_index_spec(s0.bandes@, bande_with_id(c));
    lemma_last_index_spec(s0.bandes@, bande_with_id(a));
    lemma_last_index_spec(s0.bandes@, bande_with_id(b));
    if a == b {
        lemma_adjust_effect(s0.bandes@, b, w - w, c);
    } else {
        let mid = adjust(s0.bandes@, a, -w);
        lemma_adjust_effect(s0.bandes@, a, -w, c);
        lemma_adjust_effect(s0.bandes@, a, -w, b);
        lemma_adjust_effect(mid, b, w, c);
    }
}

/// A sum of zeros is zero.
pub proof fn lemma_sum_zero<T>(s: Seq<T>, f: spec_fn(T) -> int)
    requires
        forall|i: int| 0 <= i < s.len() ==> f(#[trigger] s[i]) == 0,
    ensures
        sum_of(s, f) == 0,
    decreases s.len(),
{
    if s.len() > 0 {
        assert forall|i: int| 0 <= i < s.drop_last().len() implies f(#[trigger] s.drop_last()[i]) == 0 by {
            assert(s.drop_last()[i] == s[i]);
        }
        lemma_sum_zero(s.drop_last(), f);
        assert(f(s[s.len() - 1]) == 0);
    }
}

/// Creating a cycle with an empty ledger keeps the ledger of every cycle
/// equal to what its records make it: no record names the new id yet.
pub proof fn lemma_cycle_create_keeps_ledger_consistent(s0: GridStore, s1: GridStore, nb: Bande, c: i64)
    requires
        s0.wf(),
        nb.id == Some(s0.next_id),
        nb.alimentation_contour == 0,
        s1.bandes@ == s0.bandes@.push(nb),
        s1.batiments@ == s0.batiments@,
        s1.semaines@ == s0.semaines@,
        s1.suivis@ == s0.suivis@,
        s1.historique@ == s0.historique@,
        ledger_consistent(s0, c),
    ensures
        ledger_consistent(s1, c),
{
    if c == s0.next_id {
        crate::lookup::lemma_last_index_push_match(s0.bandes@, bande_with_id(c), nb);
        let fa = adjustment_fn(c);
        assert forall|i: int| 0 <= i < s0.historique@.len() implies fa(#[trigger] s0.historique@[i]) == 0 by {
            assert(s0.historique@[i].bande_id < s0.next_id);
        }
        lemma_sum_zero(s0.historique@, fa);
        let fc = owned_fn(s0.semaines@, s0.batiments@, c);
        assert forall|i: int| 0 <= i < s0.suivis@.len() implies fc(#[trigger] s0.suivis@[i]) == 0 by {
            let sid = s0.suivis@[i].semaine_id;
            lemma_last_index_spec(s0.semaines@, semaine_with_id(sid));
            if let Some(k) = last_index(s0.semaines@, semaine_with_id(sid)) {
                let x = s0.semaines@[k].batiment_id;
                lemma_last_index_spec(s0.batiments@, batiment_with_id(x));
                if let Some(j) = last_index(s0.batiments@, batiment_with_id(x)) {
                    assert(s0.batiments@[j].bande_id < s0.next_id);
                }
            }
        }
        lemma_sum_zero(s0.suivis@, fc);
    } else {
        lemma_last_index_push_other(s0.bandes@, bande_with_id(c), nb);
        lemma_last_index_spec(s0.bandes@, bande_with_id(c));
    }
}

pub open spec fn day_in_cycle(bats: Seq<Batiment>, sems: Seq<Semaine>, c: i64) -> spec_fn(SuiviQuotidien) -> bool {
    |d: SuiviQuotidien| period_of_cycle(bats, sems, c, d.semaine_id)
}

/// Deleting a cycle with everything under it keeps the ledger of every
/// remaining cycle equal to what its records make it.
pub proof fn lemma_cycle_delete_keeps_ledger_consistent(s0: GridStore, cd: i64, s1: GridStore, c: i64)
    requires
        s0.wf(),
        s0.bande_index(cd) is Some,
        cycle_deleted(s0, cd, s1),
        ledger_consistent(s0, c),
    ensures
        ledger_consistent(s1, c),
{
    let sems = s0.semaines@;
    let bats = s0.batiments@;
    let bi = s0.bande_index(cd)->0;
    lemma_last_index_spec(s0.bandes@, bande_with_id(cd));
    if c == cd {
        // the cycle was the only one with its id
        let t = s0.bandes@.remove(bi);
        assert forall|j: int| 0 <= j < t.len() implies !bande_with_id(cd)(#[trigger] t[j]) by {
            let j0 = if j < bi { j } else { j + 1 };
            assert(t[j] == s0.bandes@[j0]);
            assert(s0.bandes@[j0].id != s0.bandes@[bi].id);
        }
        crate::lookup::lemma_last_index_none(t, bande_with_id(cd));
    } else {
        lemma_last_index_remove_other(s0.bandes@, bande_with_id(c), bi);
        lemma_last_index_spec(s0.bandes@, bande_with_id(c));
        // adjustments of the deleted cycle count nothing for `c`
        let fa = adjustment_fn(c);
        lemma_sum_filter_split(s0.historique@, fa, not_of_bande(cd), of_bande(cd));
        let gone = s0.historique@.filter(of_bande(cd));
        assert forall|i: int| 0 <= i < gone.len() implies fa(#[trigger] gone[i]) == 0 by {
            s0.historique@.lemma_filter_pred(of_bande(cd), i);
        }
        lemma_sum_zero(gone, fa);
        // entries under the deleted cycle are its own, and count nothing for `c`
        let f0 = owned_fn(sems, bats, c);
        let f1 = owned_fn(s1.semaines@, s1.batiments@, c);
        lemma_sum_filter_split(s0.suivis@, f0, day_outside_cycle(bats, sems, cd), day_in_cycle(bats, sems, cd));
        let removed = s0.suivis@.filter(day_in_cycle(bats, sems, cd));
        let kept = s0.suivis@.filter(day_outside_cycle(bats, sems, cd));
        assert forall|i: int| 0 <= i < removed.len() implies f0(#[trigger] removed[i]) == 0 by {
            s0.suivis@.lemma_filter_pred(day_in_cycle(bats, sems, cd), i);
            let sid = removed[i].semaine_id;
            assert(period_of_cycle(bats, sems, cd, sid));
            let k = choose|k: int| 0 <= k < sems.len() && (#[trigger] sems[k]).id == Some(sid) && unit_of_cycle(bats, cd, sems[k].batiment_id);
            assert forall|j: int| k < j < sems.len() implies !semaine_with_id(sid)(#[trigger] sems[j]) by {
                assert(sems[j].id != sems[k].id);
            }
            crate::lookup::lemma_last_index_at(sems, semaine_with_id(sid), k);
            let x = sems[k].batiment_id;
            let j = choose|j: int| 0 <= j < bats.len() && (#[trigger] bats[j]).bande_id == cd && bats[j].id == Some(x);
            assert forall|m: int| j < m < bats.len() implies !batiment_with_id(x)(#[trigger] bats[m]) by {
                assert(bats[m].id != bats[j].id);
            }
            crate::lookup::lemma_last_index_at(bats, batiment_with_id(x), j);
        }
        lemma_sum_zero(removed, f0);
        // entries that stay keep their owner
        assert forall|i: int| 0 <= i < kept.len() implies f1(#[trigger] kept[i]) == f0(kept[i]) by {
            s0.suivis@.lemma_filter_pred(day_outside_cycle(bats, sems, cd), i);
            let sid = kept[i].semaine_id;
            assert(!period_of_cycle(bats, sems, cd, sid));
            assert forall|k: int| 0 <= k < sems.len() && semaine_with_id(sid)(#[trigger] sems[k]) implies period_outside_cycle(
                bats,
                cd,
            )(sems[k]) by {
                if unit_of_cycle(bats, cd, sems[k].batiment_id) {
                    assert(period_of_cycle(bats, sems, cd, sid));
                }
            }
            lemma_last_index_filter(sems, period_outside_cycle(bats, cd), semaine_with_id(sid));
            lemma_last_index_spec(sems, semaine_with_id(sid));
            if let Some(k) = last_index(sems, semaine_with_id(sid)) {
                let x = sems[k].batiment_id;
                assert(!unit_of_cycle(bats, cd, x)) by {
                    if unit_of_cycle(bats, cd, x) {
                        assert(period_of_cycle(bats, sems, cd, sid));
                    }
                }
                assert forall|m: int| 0 <= m < bats.len() && batiment_with_id(x)(#[trigger] bats[m]) implies unit_outside_cycle(
                    cd,
                )(bats[m]) by {
                    if bats[m].bande_id == cd {
                        assert(unit_of_cycle(bats, cd, x));
                    }
                }
                lemma_last_index_filter(bats, unit_outside_cycle(cd), batiment_with_id(x));
                lemma_last_index_spec(bats, batiment_with_id(x));
                let fk = s1.semaines@[last_index(s1.semaines@, semaine_with_id(sid))->0];
                assert(fk == sems[k]);
            }
        }
        lemma_sum_congruent(kept, f1, f0);
    }
}

/// Appending elements that do not satisfy `p` keeps the last index.
pub proof fn lemma_last_index_append_other<T>(s: Seq<T>, t: Seq<T>, p: spec_fn(T) -> bool)
    requires
        forall|i: int| 0 <= i < t.len() ==> !p(#[trigger] t[i]),
    ensures
        last_index(s + t, p) == last_index(s, p),
    decreases t.len(),
{
    if t.len() == 0 {
        assert(s + t =~= s);
    } else {
        assert((s + t).drop_last() =~= s + t.drop_last());
        assert forall|i: int| 0 <= i < t.drop_last().len() implies !p(#[trigger] t.drop_last()[i]) by {
            assert(t.drop_last()[i] == t[i]);
        }
        lemma_last_index_append_other(s, t.drop_last(), p);
        assert(!p(t[t.len() - 1]));
    }
}

/// Creating a cycle with its units and their first periods keeps the
/// ledger of every cycle equal to what its records make it.
pub proof fn lemma_cycle_with_units_keeps_ledger_consistent(
    s0: GridStore,
    s1: GridStore,
    nb: Bande,
    reqs: Seq<CreateBatiment>,
    c: i64,
)
    requires
        s0.wf(),
        s0.next_id <= i64::MAX - 1 - 2 * reqs.len(),
        nb.id == Some(s0.next_id),
        nb.alimentation_contour == 0,
        s1.bandes@ == s0.bandes@.push(nb),
        s1.batiments@.len() == s0.batiments@.len() + reqs.len(),
        forall|k: int| 0 <= k < s0.batiments@.len() ==> #[trigger] s1.batiments@[k] == s0.batiments@[k],
        forall|k: int| 0 <= k < reqs.len() ==> #[trigger] s1.batiments@[s0.batiments@.len() + k]
            == created_unit(s0.next_id, k, reqs[k]),
        s1.semaines@.len() == s0.semaines@.len() + reqs.len(),
        forall|k: int| 0 <= k < s0.semaines@.len() ==> #[trigger] s1.semaines@[k] == s0.semaines@[k],
        forall|k: int| 0 <= k < reqs.len() ==> #[trigger] s1.semaines@[s0.semaines@.len() + k]
            == created_week(s0.next_id, k),
        s1.suivis@ == s0.suivis@,
        s1.historique@ == s0.historique@,
        ledger_consistent(s0, c),
    ensures
        ledger_consistent(s1, c),
{
    let first = s0.next_id;
    let nbat = s0.batiments@.len() as int;
    let nsem = s0.semaines@.len() as int;
    let tb = s1.batiments@.subrange(nbat, s1.batiments@.len() as int);
    let ts = s1.semaines@.subrange(nsem, s1.semaines@.len() as int);
    assert(s1.batiments@ =~= s0.batiments@ + tb);
    assert(s1.semaines@ =~= s0.semaines@ + ts);
    let f0 = owned_fn(s0.semaines@, s0.batiments@, c);
    let f1 = owned_fn(s1.semaines@, s1.batiments@, c);
    // every entry keeps its owner, which is an older cycle
    assert forall|i: int| 0 <= i < s0.suivis@.len() implies f1(#[trigger] s0.suivis@[i]) == f0(s0.suivis@[i])
        && owner_in(s0.semaines@, s0.batiments@, s0.suivis@[i].semaine_id) != Some(first) by {
        let sid = s0.suivis@[i].semaine_id;
        assert(sid < first);
        assert forall|k: int| 0 <= k < ts.len() implies !semaine_with_id(sid)(#[trigger] ts[k]) by {
            assert(ts[k] == s1.semaines@[nsem + k]);
            assert(s1.semaines@[nsem + k] == created_week(first, k));
        }
        lemma_last_index_append_other(s0.semaines@, ts, semaine_with_id(sid));
        lemma_last_index_spec(s0.semaines@, semaine_with_id(sid));
        if let Some(k) = last_index(s0.semaines@, semaine_with_id(sid)) {
            let x = s0.semaines@[k].batiment_id;
            assert(x < first);
            assert forall|m: int| 0 <= m < tb.len() implies !batiment_with_id(x)(#[trigger] tb[m]) by {
                assert(tb[m] == s1.batiments@[nbat + m]);
                assert(s1.batiments@[nbat + m] == created_unit(first, m, reqs[m]));
            }
            lemma_last_index_append_other(s0.batiments@, tb, batiment_with_id(x));
            lemma_last_index_spec(s0.batiments@, batiment_with_id(x));
            if let Some(j) = last_index(s0.batiments@, batiment_with_id(x)) {
                assert(s0.batiments@[j].bande_id < first);
            }
        }
    }
    lemma_sum_congruent(s0.suivis@, f1, f0);
    if c == first {
        crate::lookup::lemma_last_index_push_match(s0.bandes@, bande_with_id(c), nb);
        let fa = adjustment_fn(c);
        assert forall|i: int| 0 <= i < s0.historique@.len() implies fa(#[trigger] s0.historique@[i]) == 0 by {
            assert(s0.historique@[i].bande_id < first);
        }
        lemma_sum_zero(s0.historique@, fa);
        assert forall|i: int| 0 <= i < s0.suivis@.len() implies f0(#[trigger] s0.suivis@[i]) == 0 by {
            assert(owner_in(s0.semaines@, s0.batiments@, s0.suivis@[i].semaine_id) != Some(first));
        }
        lemma_sum_zero(s0.suivis@, f0);
    } else {
        lemma_last_index_push_other(s0.bandes@, bande_with_id(c), nb);
        lemma_last_index_spec(s0.bandes@, bande_with_id(c));
    }
}

} // verus!
