use vstd::prelude::*;
use vstd::string::*;

use crate::error::{names_id, AppError};
use crate::grid::{age_in_period, is_age_of_period, GRAMS_PER_MILLI_BAG};
use crate::lookup::{lemma_last_index_push_match, lemma_last_index_spec, lemma_last_index_update_same};
use crate::models::{clone_text, Bande, SuiviQuotidien};
use crate::parse::{decimal_text, in_i32, in_i64, int_text, parse_i32, parse_i64, parse_thousandths};
use crate::store::{bande_with_id, batiment_with_id, id_below, lemma_ids_kept, semaine_with_id, suivi_at, GridStore};

verus! {

/// A change of one field of a day entry; `None` clears the field.
#[derive(Debug, Clone, PartialEq, Eq)]
pub enum FieldUpdate {
    DecesParJour(Option<i32>),
    /// Thousandths of a feed bag; the one field that moves the ledger.
    AlimentationParJour(Option<i64>),
    SoinsId(Option<i64>),
    SoinsQuantite(Option<String>),
    Analyses(Option<String>),
    Remarques(Option<String>),
}

/// The entry with the update applied; no update leaves it as it is.
pub open spec fn apply_update_spec(d: SuiviQuotidien, u: Option<FieldUpdate>) -> SuiviQuotidien {
    match u {
        None => d,
        Some(FieldUpdate::DecesParJour(v)) => SuiviQuotidien { deces_par_jour: v, ..d },
        Some(FieldUpdate::AlimentationParJour(v)) => SuiviQuotidien { alimentation_par_jour: v, ..d },
        Some(FieldUpdate::SoinsId(v)) => SuiviQuotidien { soins_id: v, ..d },
        Some(FieldUpdate::SoinsQuantite(v)) => SuiviQuotidien { soins_quantite: v, ..d },
        Some(FieldUpdate::Analyses(v)) => SuiviQuotidien { analyses: v, ..d },
        Some(FieldUpdate::Remarques(v)) => SuiviQuotidien { remarques: v, ..d },
    }
}

pub open spec fn is_consumption(u: Option<FieldUpdate>) -> bool {
    u matches Some(FieldUpdate::AlimentationParJour(_))
}

/// The consumption of an entry in thousandths of a bag; unset counts as 0.
pub open spec fn consumption(d: SuiviQuotidien) -> int {
    match d.alimentation_par_jour {
        Some(v) => v as int,
        None => 0,
    }
}

/// Position of the cycle that owns period `sid`, through its unit.
pub open spec fn owner_bande_index(s: GridStore, sid: i64) -> Option<int> {
    match s.semaine_index(sid) {
        None => None,
        Some(i) => match s.batiment_index(s.semaines@[i].batiment_id) {
            None => None,
            Some(j) => s.bande_index(s.batiments@[j].bande_id),
        },
    }
}

/// The entry at an address before an upsert: the stored one, else an
/// empty one with the next free id.
pub open spec fn prev_entry(s: GridStore, sid: i64, age: i32) -> SuiviQuotidien {
    match s.suivi_index(sid, age) {
        Some(i) => s.suivis@[i],
        None => SuiviQuotidien::blank_spec(Some(s.next_id), sid, age),
    }
}

/// The entry at an address after an upsert.
pub open spec fn next_entry(s: GridStore, sid: i64, age: i32, u: Option<FieldUpdate>) -> SuiviQuotidien {
    apply_update_spec(prev_entry(s, sid, age), u)
}

/// The owning cycle's ledger after the upsert: consumption is taken off,
/// 50 g for each thousandth of a bag more than before.
pub open spec fn contour_after(s: GridStore, sid: i64, age: i32, u: Option<FieldUpdate>) -> int {
    s.bandes@[owner_bande_index(s, sid)->0].alimentation_contour - GRAMS_PER_MILLI_BAG * (consumption(
        next_entry(s, sid, age, u),
    ) - consumption(prev_entry(s, sid, age)))
}

/// The inputs on which an upsert fails, in the order they are checked.
pub open spec fn upsert_fails(s: GridStore, sid: i64, age: i32, u: Option<FieldUpdate>) -> bool {
    ||| s.semaine_index(sid) is None
    ||| !age_in_period(s.semaines@[s.semaine_index(sid)->0].numero_semaine as int, age as int)
    ||| owner_bande_index(s, sid) is None
    ||| (u matches Some(FieldUpdate::SoinsId(Some(c))) && !s.has_soin(c))
    ||| (s.suivi_index(sid, age) is None && s.next_id == i64::MAX)
    ||| (is_consumption(u) && !in_i64(contour_after(s, sid, age, u)))
}

/// What a successful upsert leaves: the entry at the address is written
/// (in place, or appended with the next id) and, for a consumption update,
/// the owning cycle's ledger moves by the change.
pub open spec fn upsert_post(
    old: GridStore,
    sid: i64,
    age: i32,
    u: Option<FieldUpdate>,
    new: GridStore,
    d: SuiviQuotidien,
) -> bool {
    let bi = owner_bande_index(old, sid)->0;
    &&& d == next_entry(old, sid, age, u)
    &&& match old.suivi_index(sid, age) {
        Some(i) => new.suivis@ == old.suivis@.update(i, d) && new.next_id == old.next_id,
        None => new.suivis@ == old.suivis@.push(d) && new.next_id == old.next_id + 1,
    }
    &&& new.bandes@ == if is_consumption(u) {
        old.bandes@.update(
            bi,
            Bande { alimentation_contour: contour_after(old, sid, age, u) as i64, ..old.bandes@[bi] },
        )
    } else {
        old.bandes@
    }
    &&& new.batiments@ == old.batiments@
    &&& new.semaines@ == old.semaines@
    &&& new.historique@ == old.historique@
    &&& new.soins@ == old.soins@
    &&& new.fermes@ == old.fermes@
    &&& new.personnel@ == old.personnel@
    &&& new.poussins@ == old.poussins@
    &&& new.batiment_maladies@ == old.batiment_maladies@
}

/// The ledger of cycle `c` in store `s`.
pub open spec fn contour_of(s: GridStore, c: i64) -> int {
    s.bandes@[s.bande_index(c)->0].alimentation_contour as int
}

/// Change of consumption, in thousandths of a bag, that an upsert makes.
pub open spec fn consumption_delta(s: GridStore, sid: i64, age: i32, u: Option<FieldUpdate>) -> int {
    consumption(next_entry(s, sid, age, u)) - consumption(prev_entry(s, sid, age))
}

/// The owning cycle's position is in range and is the position of its id.
proof fn lemma_owner_spec(s: GridStore, sid: i64)
    ensures
        owner_bande_index(s, sid) matches Some(bi) ==> 0 <= bi < s.bandes@.len()
            && s.bandes@[bi].id is Some && s.bande_index(s.bandes@[bi].id->0) == Some(bi),
{
    lemma_last_index_spec(s.semaines@, semaine_with_id(sid));
    if let Some(i) = s.semaine_index(sid) {
        let b = s.semaines@[i].batiment_id;
        lemma_last_index_spec(s.batiments@, batiment_with_id(b));
        if let Some(j) = s.batiment_index(b) {
            lemma_last_index_spec(s.bandes@, bande_with_id(s.batiments@[j].bande_id));
        }
    }
}

/// After a successful upsert the entry is stored at its address, and the
/// cycle that owns it is the same.
proof fn lemma_upsert_stores_entry(
    s0: GridStore,
    sid: i64,
    age: i32,
    u: Option<FieldUpdate>,
    s1: GridStore,
    d: SuiviQuotidien,
)
    requires
        !upsert_fails(s0, sid, age, u),
        upsert_post(s0, sid, age, u, s1, d),
    ensures
        s1.suivi_index(sid, age) matches Some(k) && 0 <= k < s1.suivis@.len() && s1.suivis@[k] == d,
        owner_bande_index(s1, sid) == owner_bande_index(s0, sid),
        forall|c: i64| #[trigger] s1.bande_index(c) == s0.bande_index(c),
        s1.bandes@.len() == s0.bandes@.len(),
        forall|i: int| 0 <= i < s0.bandes@.len() ==> (#[trigger] s1.bandes@[i]).id == s0.bandes@[i].id,
{
    let p = suivi_at(sid, age);
    lemma_last_index_spec(s0.suivis@, p);
    lemma_owner_spec(s0, sid);
    match s0.suivi_index(sid, age) {
        Some(i) => {
            lemma_last_index_update_same(s0.suivis@, p, i, d);
        },
        None => {
            lemma_last_index_push_match(s0.suivis@, p, d);
        },
    }
    lemma_last_index_spec(s1.suivis@, p);
    if is_consumption(u) {
        let bi = owner_bande_index(s0, sid)->0;
        assert forall|c: i64| #[trigger] s1.bande_index(c) == s0.bande_index(c) by {
            lemma_last_index_update_same(s0.bandes@, bande_with_id(c), bi, s1.bandes@[bi]);
        }
        assert forall|i: int| 0 <= i < s0.bandes@.len() implies (#[trigger] s1.bandes@[i]).id
            == s0.bandes@[i].id by {
            if i != bi {
                assert(s1.bandes@[i] == s0.bandes@[i]);
            }
        }
    }
}

/// Applying the same upsert twice leaves the same stored entry, the same
/// ledger and the same tables as applying it once; the second one succeeds.
pub proof fn lemma_upsert_idempotent(
    s0: GridStore,
    s1: GridStore,
    s2: GridStore,
    sid: i64,
    age: i32,
    u: Option<FieldUpdate>,
    d1: SuiviQuotidien,
    d2: SuiviQuotidien,
)
    requires
        !upsert_fails(s0, sid, age, u),
        upsert_post(s0, sid, age, u, s1, d1),
        upsert_post(s1, sid, age, u, s2, d2),
    ensures
        !upsert_fails(s1, sid, age, u),
        d2 == d1,
        s2.suivis@ == s1.suivis@,
        s2.bandes@ == s1.bandes@,
        s2.next_id == s1.next_id,
{
    lemma_upsert_stores_entry(s0, sid, age, u, s1, d1);
    lemma_owner_spec(s1, sid);
    let k = s1.suivi_index(sid, age)->0;
    assert(prev_entry(s1, sid, age) == d1);
    assert(next_entry(s1, sid, age, u) == d1);
    assert(s1.suivis@.update(k, d1) =~= s1.suivis@);
    if is_consumption(u) {
        let bi = owner_bande_index(s1, sid)->0;
        assert(contour_after(s1, sid, age, u) == s1.bandes@[bi].alimentation_contour);
        assert(s1.bandes@.update(
            bi,
            Bande { alimentation_contour: contour_after(s1, sid, age, u) as i64, ..s1.bandes@[bi] },
        ) =~= s1.bandes@);
    }
}

pub open spec fn text_view(t: Option<String>) -> Option<Seq<char>> {
    match t {
        Some(x) => Some(x@),
        None => None,
    }
}

/// Two entries hold the same values, texts compared by their characters.
pub open spec fn same_entry(a: SuiviQuotidien, b: SuiviQuotidien) -> bool {
    &&& a.id == b.id
    &&& a.semaine_id == b.semaine_id
    &&& a.age == b.age
    &&& a.deces_par_jour == b.deces_par_jour
    &&& a.alimentation_par_jour == b.alimentation_par_jour
    &&& a.soins_id == b.soins_id
    &&& text_view(a.soins_quantite) == text_view(b.soins_quantite)
    &&& text_view(a.analyses) == text_view(b.analyses)
    &&& text_view(a.remarques) == text_view(b.remarques)
}

/// Writing the same field name and value twice at one address leaves, after
/// the second write, the same entry values, the same ledgers and the same
/// id counter as after the first; the second write succeeds.
pub proof fn lemma_text_upsert_idempotent(
    s0: GridStore,
    s1: GridStore,
    s2: GridStore,
    sid: i64,
    age: i32,
    f: Seq<char>,
    v: Seq<char>,
    u1: Option<FieldUpdate>,
    u2: Option<FieldUpdate>,
    d1: SuiviQuotidien,
    d2: SuiviQuotidien,
)
    requires
        field_parses_to(f, v, u1),
        field_parses_to(f, v, u2),
        !upsert_fails(s0, sid, age, u1),
        upsert_post(s0, sid, age, u1, s1, d1),
        upsert_post(s1, sid, age, u2, s2, d2),
    ensures
        !upsert_fails(s1, sid, age, u2),
        same_entry(d2, d1),
        s2.bandes@ == s1.bandes@,
        s2.next_id == s1.next_id,
        s2.suivis@.len() == s1.suivis@.len(),
        forall|i: int| 0 <= i < s1.suivis@.len() ==> same_entry(#[trigger] s2.suivis@[i], s1.suivis@[i]),
{
    if u1 == u2 {
        lemma_upsert_idempotent(s0, s1, s2, sid, age, u1, d1, d2);
    } else {
        lemma_upsert_stores_entry(s0, sid, age, u1, s1, d1);
        lemma_owner_spec(s1, sid);
        let k = s1.suivi_index(sid, age)->0;
        assert(prev_entry(s1, sid, age) == d1);
        assert(same_entry(d2, d1));
        assert forall|i: int| 0 <= i < s1.suivis@.len() implies same_entry(#[trigger] s2.suivis@[i], s1.suivis@[i]) by {
            if i != k {
                assert(s2.suivis@[i] == s1.suivis@[i]);
            }
        }
    }
}

/// Sum of the consumption changes of the first `n` steps whose entry
/// belongs to cycle `c`.
pub open spec fn owned_delta_sum(
    states: Seq<GridStore>,
    sids: Seq<i64>,
    ages: Seq<i32>,
    values: Seq<Option<i64>>,
    c: i64,
    n: int,
) -> int
    decreases n,
{
    if n <= 0 {
        0
    } else {
        let s = states[n - 1];
        let u = Some(FieldUpdate::AlimentationParJour(values[n - 1]));
        owned_delta_sum(states, sids, ages, values, c, n - 1) + if s.bandes@[owner_bande_index(
            s,
            sids[n - 1],
        )->0].id == Some(c) {
            consumption_delta(s, sids[n - 1], ages[n - 1], u)
        } else {
            0
        }
    }
}

/// One consumption upsert moves the ledger of cycle `c` by its change if
/// the entry belongs to `c`, and leaves it alone otherwise.
proof fn lemma_upsert_ledger_step(
    s0: GridStore,
    sid: i64,
    age: i32,
    v: Option<i64>,
    s1: GridStore,
    d: SuiviQuotidien,
    c: i64,
)
    requires
        !upsert_fails(s0, sid, age, Some(FieldUpdate::AlimentationParJour(v))),
        upsert_post(s0, sid, age, Some(FieldUpdate::AlimentationParJour(v)), s1, d),
        s0.bande_index(c) is Some,
    ensures
        s1.bande_index(c) == s0.bande_index(c),
        contour_of(s1, c) == contour_of(s0, c) - GRAMS_PER_MILLI_BAG * if s0.bandes@[owner_bande_index(
            s0,
            sid,
        )->0].id == Some(c) {
            consumption_delta(s0, sid, age, Some(FieldUpdate::AlimentationParJour(v)))
        } else {
            0
        },
{
    let u = Some(FieldUpdate::AlimentationParJour(v));
    lemma_upsert_stores_entry(s0, sid, age, u, s1, d);
    lemma_owner_spec(s0, sid);
    let bi = owner_bande_index(s0, sid)->0;
    let ci = s0.bande_index(c)->0;
    lemma_last_index_spec(s0.bandes@, bande_with_id(c));
    if s0.bandes@[bi].id != Some(c) {
        assert(ci != bi);
        assert(s1.bandes@[ci] == s0.bandes@[ci]);
    } else {
        assert(ci == bi);
    }
}

/// Over any sequence of consumption upserts, the ledger of a cycle ends at
/// its starting value less 50 g times the sum of the changes made to its
/// entries.
pub proof fn lemma_ledger_conservation(
    states: Seq<GridStore>,
    sids: Seq<i64>,
    ages: Seq<i32>,
    values: Seq<Option<i64>>,
    days: Seq<SuiviQuotidien>,
    c: i64,
)
    requires
        states.len() == sids.len() + 1,
        sids.len() == ages.len(),
        sids.len() == values.len(),
        sids.len() == days.len(),
        states[0].bande_index(c) is Some,
        forall|k: int|
            0 <= k < sids.len() ==> !upsert_fails(
                #[trigger] states[k],
                sids[k],
                ages[k],
                Some(FieldUpdate::AlimentationParJour(values[k])),
            ),
        forall|k: int|
            0 <= k < sids.len() ==> upsert_post(
                #[trigger] states[k],
                sids[k],
                ages[k],
                Some(FieldUpdate::AlimentationParJour(values[k])),
                states[k + 1],
                days[k],
            ),
    ensures
        contour_of(states[sids.len() as int], c) == contour_of(states[0], c) - GRAMS_PER_MILLI_BAG
            * owned_delta_sum(states, sids, ages, values, c, sids.len() as int),
    decreases sids.len(),
{
    let n = sids.len() as int;
    if n > 0 {
        lemma_ledger_conservation(
            states.drop_last(),
            sids.drop_last(),
            ages.drop_last(),
            values.drop_last(),
            days.drop_last(),
            c,
        );
        assert forall|m: int| 0 <= m <= n - 1 implies owned_delta_sum(
            states.drop_last(),
            sids.drop_last(),
            ages.drop_last(),
            values.drop_last(),
            c,
            m,
        ) == owned_delta_sum(states, sids, ages, values, c, m) by {
            lemma_owned_delta_sum_prefix(states, sids, ages, values, c, m);
        }
        assert(states.drop_last()[n - 1] == states[n - 1]);
        assert(states.drop_last()[0] == states[0]);
        lemma_ledger_index_kept(states, sids, ages, values, days, c, n - 1);
        lemma_upsert_ledger_step(
            states[n - 1],
            sids[n - 1],
            ages[n - 1],
            values[n - 1],
            states[n],
            days[n - 1],
            c,
        );
        let prev_sum = owned_delta_sum(states, sids, ages, values, c, n - 1);
        let s = states[n - 1];
        let term = if s.bandes@[owner_bande_index(s, sids[n - 1])->0].id == Some(c) {
            consumption_delta(s, sids[n - 1], ages[n - 1], Some(FieldUpdate::AlimentationParJour(values[n - 1])))
        } else {
            0
        };
        assert(owned_delta_sum(states, sids, ages, values, c, n) == prev_sum + term);
        assert(contour_of(states[n - 1], c) == contour_of(states[0], c) - GRAMS_PER_MILLI_BAG * prev_sum);
        assert(contour_of(states[n], c) == contour_of(states[n - 1], c) - GRAMS_PER_MILLI_BAG * term);
    }
}

proof fn lemma_owned_delta_sum_prefix(
    states: Seq<GridStore>,
    sids: Seq<i64>,
    ages: Seq<i32>,
    values: Seq<Option<i64>>,
    c: i64,
    m: int,
)
    requires
        0 <= m < states.len(),
        m < sids.len(),
        sids.len() == ages.len(),
        sids.len() == values.len(),
    ensures
        owned_delta_sum(states.drop_last(), sids.drop_last(), ages.drop_last(), values.drop_last(), c, m)
            == owned_delta_sum(states, sids, ages, values, c, m),
    decreases m,
{
    if m > 0 {
        lemma_owned_delta_sum_prefix(states, sids, ages, values, c, m - 1);
        assert(states.drop_last()[m - 1] == states[m - 1]);
        assert(sids.drop_last()[m - 1] == sids[m - 1]);
        assert(ages.drop_last()[m - 1] == ages[m - 1]);
        assert(values.drop_last()[m - 1] == values[m - 1]);
    }
}

/// Cycle `c` stays present through the first `m` steps.
proof fn lemma_ledger_index_kept(
    states: Seq<GridStore>,
    sids: Seq<i64>,
    ages: Seq<i32>,
    values: Seq<Option<i64>>,
    days: Seq<SuiviQuotidien>,
    c: i64,
    m: int,
)
    requires
        0 <= m <= sids.len(),
        states.len() == sids.len() + 1,
        sids.len() == ages.len(),
        sids.len() == values.len(),
        sids.len() == days.len(),
        states[0].bande_index(c) is Some,
        forall|k: int|
            0 <= k < sids.len() ==> !upsert_fails(
                #[trigger] states[k],
                sids[k],
                ages[k],
                Some(FieldUpdate::AlimentationParJour(values[k])),
            ),
        forall|k: int|
            0 <= k < sids.len() ==> upsert_post(
                #[trigger] states[k],
                sids[k],
                ages[k],
                Some(FieldUpdate::AlimentationParJour(values[k])),
                states[k + 1],
                days[k],
            ),
    ensures
        states[m].bande_index(c) is Some,
    decreases m,
{
    if m > 0 {
        lemma_ledger_index_kept(states, sids, ages, values, days, c, m - 1);
        lemma_upsert_ledger_step(
            states[m - 1],
            sids[m - 1],
            ages[m - 1],
            values[m - 1],
            states[m],
            days[m - 1],
            c,
        );
    }
}

/// Applies a field update to an entry; no update leaves it as it is.
pub fn apply_update(d: SuiviQuotidien, u: &Option<FieldUpdate>) -> (r: SuiviQuotidien)
    ensures
        r == apply_update_spec(d, *u),
{
    let mut d = d;
    match u {
        None => {},
        Some(FieldUpdate::DecesParJour(v)) => d.deces_par_jour = *v,
        Some(FieldUpdate::AlimentationParJour(v)) => d.alimentation_par_jour = *v,
        Some(FieldUpdate::SoinsId(v)) => d.soins_id = *v,
        Some(FieldUpdate::SoinsQuantite(v)) => d.soins_quantite = clone_text(v),
        Some(FieldUpdate::Analyses(v)) => d.analyses = clone_text(v),
        Some(FieldUpdate::Remarques(v)) => d.remarques = clone_text(v),
    }
    d
}

fn consumption_of(d: &SuiviQuotidien) -> (r: i64)
    ensures
        r == consumption(*d),
{
    match d.alimentation_par_jour {
        Some(v) => v,
        None => 0,
    }
}

/// Finds or creates the day entry of period `semaine_id` at `age` and
/// applies `update` to it (`None` stores the entry as it is). A change of
/// consumption moves the owning cycle's ledger by 50 g per thousandth of a
/// bag, in the opposite direction. Nothing changes when it fails.
pub fn upsert_day_entry(
    store: &mut GridStore,
    semaine_id: i64,
    age: i32,
    update: Option<FieldUpdate>,
) -> (r: Result<SuiviQuotidien, AppError>)
    requires
        old(store).wf(),
    ensures
        final(store).wf(),
        r is Err <==> upsert_fails(*old(store), semaine_id, age, update),
        r is Err ==> *final(store) == *old(store),
        r matches Ok(d) ==> upsert_post(*old(store), semaine_id, age, update, *final(store), d),
        old(store).semaine_index(semaine_id) is None ==> r matches Err(AppError::NotFound { .. }),
        old(store).semaine_index(semaine_id) is Some && !age_in_period(
            old(store).semaines@[old(store).semaine_index(semaine_id)->0].numero_semaine as int,
            age as int,
        ) ==> r matches Err(AppError::ValidationError { .. }),
        old(store).semaine_index(semaine_id) is Some && age_in_period(
            old(store).semaines@[old(store).semaine_index(semaine_id)->0].numero_semaine as int,
            age as int,
        ) && owner_bande_index(*old(store), semaine_id) is None ==> r matches Err(AppError::NotFound { .. }),
        update matches Some(FieldUpdate::SoinsId(Some(c))) ==> (owner_bande_index(*old(store), semaine_id) is Some
            && age_in_period(
            old(store).semaines@[old(store).semaine_index(semaine_id)->0].numero_semaine as int,
            age as int,
        ) && !old(store).has_soin(c) ==> (r matches Err(AppError::ValidationError { message, .. }) && names_id(
            message@,
            c,
        ))),
        owner_bande_index(*old(store), semaine_id) is Some && age_in_period(
            old(store).semaines@[old(store).semaine_index(semaine_id)->0].numero_semaine as int,
            age as int,
        ) && !(update matches Some(FieldUpdate::SoinsId(Some(c))) && !old(store).has_soin(c)) ==> (r matches Err(
            e,
        ) ==> e is ResourceUnavailable),
{
    let ghost s0 = *store;
    let si = match store.find_semaine(semaine_id) {
        Some(i) => i,
        None => return Err(AppError::not_found("Semaine", semaine_id)),
    };
    let p = store.semaines[si];
    proof {
        lemma_last_index_spec(s0.semaines@, semaine_with_id(semaine_id));
    }
    assert(id_below(s0.semaines@[si as int].id, s0.next_id));
    assert(semaine_id < s0.next_id);
    if !is_age_of_period(p.numero_semaine, age) {
        return Err(AppError::validation_error("age", "Âge hors de la semaine"));
    }
    let ui = match store.find_batiment(p.batiment_id) {
        Some(i) => i,
        None => return Err(AppError::not_found("Batiment", p.batiment_id)),
    };
    let bande_id = store.batiments[ui].bande_id;
    let bi = match store.find_bande(bande_id) {
        Some(i) => i,
        None => return Err(AppError::not_found("Bande", bande_id)),
    };
    assert(owner_bande_index(s0, semaine_id) == Some(bi as int));
    if let Some(FieldUpdate::SoinsId(Some(c))) = &update {
        if !store.soin_exists(*c) {
            return Err(AppError::unknown_care(*c));
        }
    }
    let existing = store.find_suivi(semaine_id, age);
    let prev = match existing {
        Some(i) => store.suivis[i].duplicate(),
        None => {
            if store.next_id == i64::MAX {
                return Err(AppError::out_of_range("identifiants épuisés"));
            }
            SuiviQuotidien::blank(Some(store.next_id), semaine_id, age)
        },
    };
    assert(prev == prev_entry(s0, semaine_id, age));
    let before = consumption_of(&prev);
    let d = apply_update(prev, &update);
    if let Some(FieldUpdate::AlimentationParJour(_)) = &update {
        let after = consumption_of(&d);
        let c = store.bandes[bi].alimentation_contour;
        let nc: i128 = c as i128 - GRAMS_PER_MILLI_BAG as i128 * (after as i128 - before as i128);
        if nc < i64::MIN as i128 || nc > i64::MAX as i128 {
            return Err(AppError::out_of_range("stock d'aliment hors limites"));
        }
        let b = store.bandes[bi].duplicate();
        store.bandes[bi] = Bande { alimentation_contour: nc as i64, ..b };
    }
    let ghost s1 = *store;
    proof {
        lemma_last_index_spec(s0.suivis@, suivi_at(semaine_id, age));
    }
    match existing {
        Some(i) => {
            store.suivis[i] = d.duplicate();
        },
        None => {
            store.suivis.push(d.duplicate());
            store.next_id = store.next_id + 1;
        },
    }
    proof {
        assert forall|i: int| 0 <= i < store.suivis@.len() implies (#[trigger] store.suivis@[i]).semaine_id
            < store.next_id by {
            if i < s0.suivis@.len() && (existing is None || i != existing->0) {
                assert(store.suivis@[i] == s0.suivis@[i]);
                assert(s0.suivis@[i].semaine_id < s0.next_id);
            }
        }
        assert forall|i: int| 0 <= i < store.semaines@.len() implies (#[trigger] store.semaines@[i]).batiment_id
            < store.next_id by {
            assert(s0.semaines@[i].batiment_id < s0.next_id);
        }
        assert forall|i: int| 0 <= i < store.suivis@.len() implies (i < s0.suivis@.len() && (
        #[trigger] store.suivis@[i]).id == s0.suivis@[i].id) || id_below(store.suivis@[i].id, store.next_id) by {
            // the overwritten entry keeps its id; an appended one takes the counter
            if existing matches Some(k) && i == k {
                assert(store.suivis@[i].id == s0.suivis@[i].id);
            }
        }
        lemma_ids_kept(s0, *store);
        assert(store.suivi_keys_unique()) by {
            assert forall|i: int, j: int|
                0 <= i < store.suivis@.len() && 0 <= j < store.suivis@.len() && i != j
                    && #[trigger] store.suivis@[i].semaine_id == #[trigger] store.suivis@[j].semaine_id
                    implies store.suivis@[i].age != store.suivis@[j].age by {
                let k = match existing {
                    Some(x) => x as int,
                    None => s0.suivis@.len() as int,
                };
                if i == k {
                    assert(!suivi_at(semaine_id, age)(s0.suivis@[j]) || existing is Some);
                } else if j == k {
                    assert(!suivi_at(semaine_id, age)(s0.suivis@[i]) || existing is Some);
                } else {
                    assert(store.suivis@[i] == s0.suivis@[i]);
                    assert(store.suivis@[j] == s0.suivis@[j]);
                }
            }
        }
    }
    Ok(d)
}

/// Whether two texts are equal.
pub fn same_text(a: &str, b: &str) -> (r: bool)
    ensures
        r == (a@ == b@),
{
    let n = a.unicode_len();
    if n != b.unicode_len() {
        return false;
    }
    let mut i: usize = 0;
    while i < n
        invariant
            n == a@.len() == b@.len(),
            i <= n,
            forall|j: int| 0 <= j < i ==> a@[j] == b@[j],
        decreases n - i,
    {
        if a.get_char(i) != b.get_char(i) {
            return false;
        }
        i += 1;
    }
    assert(a@ =~= b@);
    true
}

/// A text field set from `v`: cleared when `v` is empty.
pub open spec fn text_update_matches(t: Option<String>, v: Seq<char>) -> bool {
    if v.len() == 0 {
        t is None
    } else {
        t matches Some(x) && x@ == v
    }
}

pub open spec fn known_field(f: Seq<char>) -> bool {
    ||| f == "deces_par_jour"@
    ||| f == "alimentation_par_jour"@
    ||| f == "soins_id"@
    ||| f == "soins_quantite"@
    ||| f == "analyses"@
    ||| f == "remarques"@
}

/// The raw inputs that are refused: an unknown field name, or a care
/// reference that is not an integer.
pub open spec fn field_rejected(f: Seq<char>, v: Seq<char>) -> bool {
    ||| !known_field(f)
    ||| (f == "soins_id"@ && v.len() > 0 && !(int_text(v) is Some && in_i64(int_text(v)->0)))
}

/// The update that field `f` and raw value `v` stand for. An empty value
/// clears the field; a number that does not parse leaves the field as it
/// was (`None`).
pub open spec fn field_parses_to(f: Seq<char>, v: Seq<char>, u: Option<FieldUpdate>) -> bool {
    if f == "deces_par_jour"@ {
        u == if v.len() == 0 {
            Some(FieldUpdate::DecesParJour(None))
        } else if int_text(v) is Some && in_i32(int_text(v)->0) {
            Some(FieldUpdate::DecesParJour(Some(int_text(v)->0 as i32)))
        } else {
            None
        }
    } else if f == "alimentation_par_jour"@ {
        u == if v.len() == 0 {
            Some(FieldUpdate::AlimentationParJour(None))
        } else if decimal_text(v) is Some && in_i64(decimal_text(v)->0) {
            Some(FieldUpdate::AlimentationParJour(Some(decimal_text(v)->0 as i64)))
        } else {
            None
        }
    } else if f == "soins_id"@ {
        u == if v.len() == 0 {
            Some(FieldUpdate::SoinsId(None))
        } else {
            Some(FieldUpdate::SoinsId(Some(int_text(v)->0 as i64)))
        }
    } else if f == "soins_quantite"@ {
        u matches Some(FieldUpdate::SoinsQuantite(t)) && text_update_matches(t, v)
    } else if f == "analyses"@ {
        u matches Some(FieldUpdate::Analyses(t)) && text_update_matches(t, v)
    } else if f == "remarques"@ {
        u matches Some(FieldUpdate::Remarques(t)) && text_update_matches(t, v)
    } else {
        false
    }
}

fn text_value(v: &str) -> (r: Option<String>)
    ensures
        text_update_matches(r, v@),
{
    if v.unicode_len() == 0 {
        None
    } else {
        Some(v.to_owned())
    }
}

/// Reads the update that a field name and a raw value stand for.
pub fn parse_field_update(field: &str, value: &str) -> (r: Result<Option<FieldUpdate>, AppError>)
    ensures
        r is Err <==> field_rejected(field@, value@),
        r matches Err(e) ==> e is ValidationError,
        r matches Ok(u) ==> field_parses_to(field@, value@, u),
{
    let empty = value.unicode_len() == 0;
    proof {
        reveal_strlit("deces_par_jour");
        reveal_strlit("alimentation_par_jour");
        reveal_strlit("soins_id");
        reveal_strlit("soins_quantite");
        reveal_strlit("analyses");
        reveal_strlit("remarques");
    }
    assert("deces_par_jour"@.len() != "soins_id"@.len());
    assert("alimentation_par_jour"@.len() != "soins_id"@.len());
    if same_text(field, "deces_par_jour") {
        if empty {
            Ok(Some(FieldUpdate::DecesParJour(None)))
        } else {
            match parse_i32(value) {
                Some(v) => Ok(Some(FieldUpdate::DecesParJour(Some(v)))),
                None => Ok(None),
            }
        }
    } else if same_text(field, "alimentation_par_jour") {
        if empty {
            Ok(Some(FieldUpdate::AlimentationParJour(None)))
        } else {
            match parse_thousandths(value) {
                Some(v) => Ok(Some(FieldUpdate::AlimentationParJour(Some(v)))),
                None => Ok(None),
            }
        }
    } else if same_text(field, "soins_id") {
        if empty {
            Ok(Some(FieldUpdate::SoinsId(None)))
        } else {
            match parse_i64(value) {
                Some(v) => Ok(Some(FieldUpdate::SoinsId(Some(v)))),
                None => Err(AppError::validation_error("soins_id", "Identifiant de soin invalide")),
            }
        }
    } else if same_text(field, "soins_quantite") {
        Ok(Some(FieldUpdate::SoinsQuantite(text_value(value))))
    } else if same_text(field, "analyses") {
        Ok(Some(FieldUpdate::Analyses(text_value(value))))
    } else if same_text(field, "remarques") {
        Ok(Some(FieldUpdate::Remarques(text_value(value))))
    } else {
        Err(AppError::validation_error("field", "Champ inconnu"))
    }
}

/// Sets one field, named by text, of the day entry of period `semaine_id`
/// at `age`, creating the entry when it is not stored yet. The period is
/// looked up first; then the field name and value are read; then the
/// upsert is made. Nothing changes when it fails.
pub fn upsert_suivi_quotidien_field(
    store: &mut GridStore,
    semaine_id: i64,
    age: i32,
    field: &str,
    value: &str,
) -> (r: Result<SuiviQuotidien, AppError>)
    requires
        old(store).wf(),
    ensures
        final(store).wf(),
        r is Err ==> *final(store) == *old(store),
        old(store).semaine_index(semaine_id) is None ==> r matches Err(AppError::NotFound { .. }),
        old(store).semaine_index(semaine_id) is Some && field_rejected(field@, value@) ==> r matches Err(
            AppError::ValidationError { .. },
        ),
        old(store).semaine_index(semaine_id) is Some && !field_rejected(field@, value@) ==> exists|
            u: Option<FieldUpdate>,
        |
            field_parses_to(field@, value@, u) && (r is Err <==> upsert_fails(
                *old(store),
                semaine_id,
                age,
                u,
            )) && (r matches Ok(d) ==> upsert_post(*old(store), semaine_id, age, u, *final(store), d)),
{
    if store.find_semaine(semaine_id).is_none() {
        return Err(AppError::not_found("Semaine", semaine_id));
    }
    let update = parse_field_update(field, value)?;
    let ghost u = update;
    let r = upsert_day_entry(store, semaine_id, age, update);
    assert(field_parses_to(field@, value@, u));
    r
}

} // verus!
