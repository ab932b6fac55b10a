use vstd::prelude::*;

use crate::batiment_repository::{consumption_sum, SUM_LIMIT};
use crate::error::{names_id, AppError};
use crate::grid::{age_in_period, is_age_of_period, valid_period_number, GRAMS_PER_MILLI_BAG, PERIODS_PER_UNIT};
use crate::ledger::{adjust, adjust_fits, AlimentationRepository};
use crate::lookup::{lemma_last_index_spec, lemma_remove_pairwise};
use crate::models::{clone_text, CreateSuiviQuotidien};
use crate::models::{Bande, CreateSemaine, Semaine, SuiviQuotidien};
use crate::store::{
    bande_with_id, batiment_with_id, grown, id_below, lemma_filtered_wf, lemma_grown_ids, lemma_refs_kept,
    semaine_at, semaine_with_id, suivi_at, GridStore,
};
use crate::upsert::consumption;

verus! {

/// Cycles.
pub struct BandeRepository;

/// Periods of units.
pub struct SemaineRepository;

/// Day entries of periods.
pub struct SuiviQuotidienRepository;

/// The largest cycle number of farm `f` among `bs`, if it has a cycle.
pub open spec fn max_numero(bs: Seq<Bande>, f: i64) -> Option<int>
    decreases bs.len(),
{
    if bs.len() == 0 {
        None
    } else {
        let m = max_numero(bs.drop_last(), f);
        let b = bs.last();
        if b.ferme_id != f {
            m
        } else {
            match m {
                Some(x) => if x >= b.numero_bande { Some(x) } else { Some(b.numero_bande as int) },
                None => Some(b.numero_bande as int),
            }
        }
    }
}

/// The number of the next cycle of farm `f`: one more than its largest.
pub open spec fn numero_for(bs: Seq<Bande>, f: i64) -> int {
    match max_numero(bs, f) {
        Some(m) => m + 1,
        None => 1,
    }
}

/// A new cycle: its entry date in days since 1970-01-01, its farm, notes.
#[derive(Debug, Clone, PartialEq, Eq)]
pub struct CreateBande {
    pub date_entree: i32,
    pub ferme_id: i64,
    pub notes: Option<String>,
}

pub open spec fn suivi_of_semaine(sid: i64) -> spec_fn(SuiviQuotidien) -> bool {
    |d: SuiviQuotidien| d.semaine_id == sid
}

pub open spec fn suivi_not_of_semaine(sid: i64) -> spec_fn(SuiviQuotidien) -> bool {
    |d: SuiviQuotidien| d.semaine_id != sid
}

pub open spec fn semaine_without_id(sid: i64) -> spec_fn(Semaine) -> bool {
    |s: Semaine| s.id != Some(sid)
}

/// The id of the cycle that owns period `sid`, through its unit.
pub open spec fn semaine_owner(s: GridStore, sid: i64) -> Option<i64> {
    match s.semaine_index(sid) {
        Some(i) => match s.batiment_index(s.semaines@[i].batiment_id) {
            Some(j) => Some(s.batiments@[j].bande_id),
            None => None,
        },
        None => None,
    }
}

/// The cycles after `grams` go back to the ledger of the owner of period
/// `sid`; unchanged when it has none.
pub open spec fn give_back(s: GridStore, sid: i64, grams: int) -> Seq<Bande> {
    match semaine_owner(s, sid) {
        Some(c) => adjust(s.bandes@, c, grams),
        None => s.bandes@,
    }
}

pub open spec fn give_back_fits(s: GridStore, sid: i64, grams: int) -> bool {
    match semaine_owner(s, sid) {
        Some(c) => adjust_fits(s.bandes@, c, grams),
        None => true,
    }
}

impl BandeRepository {
    /// The cycle with id `id`, if stored.
    pub fn get_by_id(store: &GridStore, id: i64) -> (r: Option<Bande>)
        ensures
            match store.bande_index(id) {
                Some(i) => r == Some(store.bandes@[i]),
                None => r is None,
            },
    {
        match store.find_bande(id) {
            Some(i) => Some(store.bandes[i].duplicate()),
            None => None,
        }
    }

    /// The number that the next cycle of farm `f` takes, if it fits.
    pub fn next_numero(store: &GridStore, f: i64) -> (r: Option<i32>)
        ensures
            r is Some <==> numero_for(store.bandes@, f) <= i32::MAX,
            r matches Some(n) ==> n == numero_for(store.bandes@, f),
    {
        let mut m: Option<i32> = None;
        let mut i: usize = 0;
        while i < store.bandes.len()
            invariant
                i <= store.bandes@.len(),
                max_numero(store.bandes@.subrange(0, i as int), f) is Some <==> m is Some,
                m matches Some(x) ==> max_numero(store.bandes@.subrange(0, i as int), f) == Some(x as int),
            decreases store.bandes@.len() - i,
        {
            assert(store.bandes@.subrange(0, i + 1).drop_last() =~= store.bandes@.subrange(0, i as int));
            assert(store.bandes@.subrange(0, i + 1).last() == store.bandes@[i as int]);
            let b = store.bandes[i].numero_bande;
            if store.bandes[i].ferme_id == f {
                m = match m {
                    Some(x) => if x >= b { Some(x) } else { Some(b) },
                    None => Some(b),
                };
            }
            i += 1;
        }
        assert(store.bandes@.subrange(0, store.bandes@.len() as int) =~= store.bandes@);
        match m {
            Some(x) => if x < i32::MAX { Some(x + 1) } else { None },
            None => Some(1),
        }
    }

    /// Stores a new cycle of an existing farm, numbered one past the farm's
    /// largest cycle number, with an empty ledger.
    pub fn create(store: &mut GridStore, bande: &CreateBande) -> (r: Result<Bande, AppError>)
        requires
            old(store).wf(),
        ensures
            final(store).wf(),
            r is Err <==> (!old(store).fermes@.contains(bande.ferme_id) || numero_for(old(store).bandes@, bande.ferme_id)
                > i32::MAX || old(store).next_id == i64::MAX),
            r is Err ==> *final(store) == *old(store),
            !old(store).fermes@.contains(bande.ferme_id) ==> r matches Err(AppError::ValidationError { .. }),
            old(store).fermes@.contains(bande.ferme_id) ==> (r matches Err(e) ==> e is ResourceUnavailable),
            r matches Ok(b) ==> {
                &&& b == (Bande {
                    id: Some(old(store).next_id),
                    numero_bande: numero_for(old(store).bandes@, bande.ferme_id) as i32,
                    date_entree: bande.date_entree,
                    ferme_id: bande.ferme_id,
                    notes: bande.notes,
                    alimentation_contour: 0,
                })
                &&& final(store).bandes@ == old(store).bandes@.push(b)
                &&& final(store).next_id == old(store).next_id + 1
                &&& grown(*old(store), *final(store))
                &&& final(store).batiments@ == old(store).batiments@
                &&& final(store).semaines@ == old(store).semaines@
                &&& final(store).suivis@ == old(store).suivis@
            },
    {
        if !store.ferme_exists(bande.ferme_id) {
            return Err(AppError::validation_error("ferme_id", "La ferme spécifiée n'existe pas"));
        }
        let numero = match Self::next_numero(store, bande.ferme_id) {
            Some(n) => n,
            None => return Err(AppError::out_of_range("numéro de bande hors limites")),
        };
        if store.next_id == i64::MAX {
            return Err(AppError::out_of_range("identifiants épuisés"));
        }
        let ghost s0 = *store;
        let b = Bande {
            id: Some(store.next_id),
            numero_bande: numero,
            date_entree: bande.date_entree,
            ferme_id: bande.ferme_id,
            notes: clone_text(&bande.notes),
            alimentation_contour: 0,
        };
        store.bandes.push(b.duplicate());
        store.next_id = store.next_id + 1;
        proof {
            assert(grown(s0, *store));
            lemma_grown_ids(s0, *store);
            lemma_refs_kept(s0, *store);
        }
        Ok(b)
    }
}

impl SemaineRepository {
    /// Stores period `numero_semaine` of a unit. The unit must exist, the
    /// number must be one of 1 to 8, and the unit must not have that period
    /// yet.
    pub fn create(store: &mut GridStore, semaine: CreateSemaine) -> (r: Result<Semaine, AppError>)
        requires
            old(store).wf(),
        ensures
            final(store).wf(),
            r is Err <==> (old(store).batiment_index(semaine.batiment_id) is None || !valid_period_number(
                semaine.numero_semaine as int,
            ) || old(store).semaine_number_index(semaine.batiment_id, semaine.numero_semaine) is Some
                || old(store).next_id == i64::MAX),
            r is Err ==> *final(store) == *old(store),
            old(store).batiment_index(semaine.batiment_id) is None ==> r matches Err(AppError::NotFound { .. }),
            old(store).batiment_index(semaine.batiment_id) is Some && !valid_period_number(semaine.numero_semaine as int)
                ==> r matches Err(AppError::ValidationError { .. }),
            old(store).batiment_index(semaine.batiment_id) is Some && valid_period_number(semaine.numero_semaine as int)
                && old(store).semaine_number_index(semaine.batiment_id, semaine.numero_semaine) is Some
                ==> r matches Err(AppError::ConstraintViolation { .. }),
            r matches Ok(s) ==> {
                &&& s == (Semaine {
                    id: Some(old(store).next_id),
                    batiment_id: semaine.batiment_id,
                    numero_semaine: semaine.numero_semaine,
                    poids: semaine.poids,
                })
                &&& final(store).semaines@ == old(store).semaines@.push(s)
                &&& final(store).next_id == old(store).next_id + 1
                &&& grown(*old(store), *final(store))
                &&& final(store).bandes@ == old(store).bandes@
                &&& final(store).batiments@ == old(store).batiments@
                &&& final(store).suivis@ == old(store).suivis@
            },
    {
        if store.find_batiment(semaine.batiment_id).is_none() {
            return Err(AppError::not_found("Batiment", semaine.batiment_id));
        }
        if semaine.numero_semaine < 1 || semaine.numero_semaine > PERIODS_PER_UNIT {
            return Err(AppError::validation_error("numero_semaine", "Numéro de semaine hors limites"));
        }
        if store.find_semaine_number(semaine.batiment_id, semaine.numero_semaine).is_some() {
            return Err(AppError::constraint_violation("Cette semaine existe déjà pour ce bâtiment"));
        }
        if store.next_id == i64::MAX {
            return Err(AppError::out_of_range("identifiants épuisés"));
        }
        let ghost s0 = *store;
        let s = Semaine {
            id: Some(store.next_id),
            batiment_id: semaine.batiment_id,
            numero_semaine: semaine.numero_semaine,
            poids: semaine.poids,
        };
        proof {
            lemma_last_index_spec(s0.semaines@, semaine_at(semaine.batiment_id, semaine.numero_semaine));
            lemma_last_index_spec(s0.batiments@, batiment_with_id(semaine.batiment_id));
            assert(id_below(s0.batiments@[s0.batiment_index(semaine.batiment_id)->0].id, s0.next_id));
        }
        store.semaines.push(s);
        store.next_id = store.next_id + 1;
        proof {
            assert(grown(s0, *store));
            lemma_grown_ids(s0, *store);
            assert forall|i: int| 0 <= i < store.semaines@.len() implies (#[trigger] store.semaines@[i]).batiment_id
                < store.next_id by {
                if i < s0.semaines@.len() {
                    assert(store.semaines@[i] == s0.semaines@[i]);
                }
            }
            assert forall|i: int| 0 <= i < store.suivis@.len() implies (#[trigger] store.suivis@[i]).semaine_id
                < store.next_id by {
                assert(s0.suivis@[i].semaine_id < s0.next_id);
            }
            assert(store.semaine_keys_unique()) by {
                assert forall|i: int, j: int|
                    0 <= i < store.semaines@.len() && 0 <= j < store.semaines@.len() && i != j
                        && #[trigger] store.semaines@[i].batiment_id == #[trigger] store.semaines@[j].batiment_id
                        implies store.semaines@[i].numero_semaine != store.semaines@[j].numero_semaine by {
                    let m = s0.semaines@.len() as int;
                    if i == m {
                        assert(!semaine_at(semaine.batiment_id, semaine.numero_semaine)(s0.semaines@[j]));
                    } else if j == m {
                        assert(!semaine_at(semaine.batiment_id, semaine.numero_semaine)(s0.semaines@[i]));
                    } else {
                        assert(store.semaines@[i] == s0.semaines@[i]);
                        assert(store.semaines@[j] == s0.semaines@[j]);
                    }
                }
            }
        }
        Ok(s)
    }

    /// Deletes period `id` with its day entries; their consumption goes back
    /// to the ledger of the cycle that owns the period. Nothing changes when
    /// it fails.
    pub fn delete(store: &mut GridStore, id: i64) -> (r: Result<(), AppError>)
        requires
            old(store).wf(),
        ensures
            final(store).wf(),
            r is Err <==> (old(store).semaine_index(id) is None || !give_back_fits(
                *old(store),
                id,
                GRAMS_PER_MILLI_BAG * consumption_sum(old(store).suivis@.filter(suivi_of_semaine(id))),
            )),
            r is Err ==> *final(store) == *old(store),
            old(store).semaine_index(id) is None ==> r matches Err(AppError::NotFound { .. }),
            r is Ok ==> {
                &&& final(store).semaines@ == old(store).semaines@.filter(semaine_without_id(id))
                &&& final(store).suivis@ == old(store).suivis@.filter(suivi_not_of_semaine(id))
                &&& final(store).bandes@ == give_back(
                    *old(store),
                    id,
                    GRAMS_PER_MILLI_BAG * consumption_sum(old(store).suivis@.filter(suivi_of_semaine(id))),
                )
                &&& final(store).batiments@ == old(store).batiments@
                &&& final(store).historique@ == old(store).historique@
                &&& final(store).next_id == old(store).next_id
            },
    {
        if store.find_semaine(id).is_none() {
            return Err(AppError::not_found("Semaine", id));
        }
        let ghost s0 = *store;
        let mut kept_days: Vec<SuiviQuotidien> = Vec::new();
        let mut removed: i128 = 0;
        let mut i: usize = 0;
        while i < store.suivis.len()
            invariant
                *store == s0,
                i <= store.suivis@.len(),
                kept_days@ == store.suivis@.subrange(0, i as int).filter(suivi_not_of_semaine(id)),
                removed == consumption_sum(store.suivis@.subrange(0, i as int).filter(suivi_of_semaine(id))),
                -(i as int) * 0x8000_0000_0000_0000 <= removed <= (i as int) * 0x8000_0000_0000_0000,
            decreases store.suivis@.len() - i,
        {
            let ghost pre = store.suivis@.subrange(0, i as int);
            let ghost d = store.suivis@[i as int];
            assert(store.suivis@.subrange(0, i + 1) =~= pre.push(d));
            proof {
                pre.lemma_filter_push(d, suivi_not_of_semaine(id));
                pre.lemma_filter_push(d, suivi_of_semaine(id));
                assert(pre.filter(suivi_of_semaine(id)).push(d).drop_last() =~= pre.filter(suivi_of_semaine(id)));
            }
            if store.suivis[i].semaine_id == id {
                let q: i64 = match store.suivis[i].alimentation_par_jour {
                    Some(v) => v,
                    None => 0,
                };
                removed = removed + q as i128;
            } else {
                kept_days.push(store.suivis[i].duplicate());
            }
            i += 1;
        }
        assert(store.suivis@.subrange(0, store.suivis@.len() as int) =~= store.suivis@);
        let owner = Self::owner_of(store, id);
        if let Some(c) = owner {
            if removed > SUM_LIMIT || removed < -SUM_LIMIT {
                proof {
                    lemma_last_index_spec(s0.bandes@, bande_with_id(c));
                }
                // a move this large fits only when the cycle is absent,
                // and then there is nothing to move
                if store.find_bande(c).is_some() {
                    return Err(AppError::out_of_range("stock d'aliment hors limites"));
                }
            } else {
                let delta = GRAMS_PER_MILLI_BAG as i128 * removed;
                if !AlimentationRepository::adjust_fits_any(store, c, delta) {
                    return Err(AppError::out_of_range("stock d'aliment hors limites"));
                }
                AlimentationRepository::adjust_contour(store, c, delta);
            }
        }
        let ghost s1 = *store;
        let mut kept_sems: Vec<Semaine> = Vec::new();
        let mut j: usize = 0;
        while j < store.semaines.len()
            invariant
                *store == s1,
                j <= store.semaines@.len(),
                kept_sems@ == store.semaines@.subrange(0, j as int).filter(semaine_without_id(id)),
            decreases store.semaines@.len() - j,
        {
            let ghost pre = store.semaines@.subrange(0, j as int);
            assert(store.semaines@.subrange(0, j + 1) =~= pre.push(store.semaines@[j as int]));
            proof {
                pre.lemma_filter_push(store.semaines@[j as int], semaine_without_id(id));
            }
            if store.semaines[j].id != Some(id) {
                kept_sems.push(store.semaines[j]);
            }
            j += 1;
        }
        assert(store.semaines@.subrange(0, store.semaines@.len() as int) =~= store.semaines@);
        store.suivis = kept_days;
        store.semaines = kept_sems;
        proof {
            lemma_filtered_wf(s1, *store, suivi_not_of_semaine(id), semaine_without_id(id));
        }
        Ok(())
    }

    /// The cycle that owns period `sid`, through its unit.
    pub fn owner_of(store: &GridStore, sid: i64) -> (r: Option<i64>)
        ensures
            r == semaine_owner(*store, sid),
    {
        match store.find_semaine(sid) {
            Some(i) => match store.find_batiment(store.semaines[i].batiment_id) {
                Some(j) => Some(store.batiments[j].bande_id),
                None => None,
            },
            None => None,
        }
    }

    /// The period with id `id`.
    pub fn get_by_id(store: &GridStore, id: i64) -> (r: Result<Semaine, AppError>)
        ensures
            r is Err <==> store.semaine_index(id) is None,
            r matches Err(e) ==> e is NotFound,
            r matches Ok(s) ==> s == store.semaines@[store.semaine_index(id)->0],
    {
        match store.find_semaine(id) {
            Some(i) => Ok(store.semaines[i]),
            None => Err(AppError::not_found("Semaine", id)),
        }
    }

    /// The stored periods of unit `batiment_id`, by rising number.
    pub fn get_by_batiment(store: &GridStore, batiment_id: i64) -> (r: Vec<Semaine>)
        requires
            store.wf(),
        ensures
            forall|w: Semaine| #[trigger] r@.contains(w) <==> (store.semaines@.contains(w) && w.batiment_id == batiment_id),
            forall|a: int, b: int| 0 <= a < b < r@.len() ==> r@[a].numero_semaine < r@[b].numero_semaine,
    {
        let mut out: Vec<Semaine> = Vec::new();
        let mut i: usize = 0;
        while i < store.semaines.len()
            invariant
                store.wf(),
                i <= store.semaines@.len(),
                forall|w: Semaine| #[trigger] out@.contains(w) <==> exists|j: int|
                    0 <= j < i && store.semaines@[j] == w && w.batiment_id == batiment_id,
                forall|a: int, b: int| 0 <= a < b < out@.len() ==> out@[a].numero_semaine < out@[b].numero_semaine,
            decreases store.semaines@.len() - i,
        {
            let x = store.semaines[i];
            if x.batiment_id == batiment_id {
                let mut k: usize = 0;
                while k < out.len() && out[k].numero_semaine < x.numero_semaine
                    invariant
                        k <= out@.len(),
                        forall|m: int| 0 <= m < k ==> out@[m].numero_semaine < x.numero_semaine,
                    decreases out@.len() - k,
                {
                    k += 1;
                }
                proof {
                    assert forall|m: int| 0 <= m < out@.len() implies out@[m].numero_semaine != x.numero_semaine by {
                        assert(out@.contains(out@[m]));
                        let j = choose|j: int| 0 <= j < i && store.semaines@[j] == out@[m] && out@[m].batiment_id == batiment_id;
                        assert(store.semaines@[j].batiment_id == store.semaines@[i as int].batiment_id);
                    }
                }
                let ghost before = out@;
                out.insert(k, x);
                proof {
                    before.insert_ensures(k as int, x);
                    assert forall|w: Semaine| #[trigger] out@.contains(w) <==> (before.contains(w) || w == x) by {
                        if out@.contains(w) {
                            let m = choose|m: int| 0 <= m < out@.len() && out@[m] == w;
                            if m < k {
                                assert(before[m] == w);
                            } else if m > k {
                                assert(before[m - 1] == w);
                            }
                        }
                        if before.contains(w) {
                            let m = choose|m: int| 0 <= m < before.len() && before[m] == w;
                            if m < k {
                                assert(out@[m] == w);
                            } else {
                                assert(out@[m + 1] == w);
                            }
                        }
                        if w == x {
                            assert(out@[k as int] == x);
                        }
                    }
                    assert forall|a: int, b: int| 0 <= a < b < out@.len() implies out@[a].numero_semaine
                        < out@[b].numero_semaine by {
                        if k < before.len() {
                            assert(before[k as int].numero_semaine > x.numero_semaine);
                        }
                        if b < k {
                        } else if b == k {
                        } else if a < k {
                            assert(before[b - 1].numero_semaine >= before[k as int].numero_semaine || b - 1 == k);
                        } else if a == k {
                            assert(before[b - 1].numero_semaine >= before[k as int].numero_semaine || b - 1 == k);
                        } else {
                            assert(out@[a] == before[a - 1]);
                        }
                    }
                }
            }
            i += 1;
        }
        proof {
            assert forall|w: Semaine| #[trigger] out@.contains(w) <==> (store.semaines@.contains(w) && w.batiment_id
                == batiment_id) by {
                if store.semaines@.contains(w) && w.batiment_id == batiment_id {
                    let j = choose|j: int| 0 <= j < store.semaines@.len() && store.semaines@[j] == w;
                    assert(exists|j: int| 0 <= j < i && store.semaines@[j] == w && w.batiment_id == batiment_id);
                }
            }
        }
        out
    }
}

/// The entry that `c` asks for, with id `id`.
pub open spec fn requested_entry(c: CreateSuiviQuotidien, id: i64) -> SuiviQuotidien {
    SuiviQuotidien {
        id: Some(id),
        semaine_id: c.semaine_id,
        age: c.age,
        deces_par_jour: c.deces_par_jour,
        alimentation_par_jour: c.alimentation_par_jour,
        soins_id: c.soins_id,
        soins_quantite: c.soins_quantite,
        analyses: c.analyses,
        remarques: c.remarques,
    }
}

/// The period of a requested entry exists and the age is one of its days.
pub open spec fn entry_parents_ok(s: GridStore, c: CreateSuiviQuotidien) -> bool {
    s.semaine_index(c.semaine_id) is Some && age_in_period(
        s.semaines@[s.semaine_index(c.semaine_id)->0].numero_semaine as int,
        c.age as int,
    )
}

/// Besides, the period's unit and that unit's cycle exist.
pub open spec fn entry_owner_ok(s: GridStore, c: CreateSuiviQuotidien) -> bool {
    entry_parents_ok(s, c) && semaine_owner(s, c.semaine_id) is Some && s.bande_index(
        semaine_owner(s, c.semaine_id)->0,
    ) is Some
}

/// The inputs on which creating a day entry fails.
pub open spec fn create_entry_fails(s: GridStore, c: CreateSuiviQuotidien) -> bool {
    ||| s.semaine_index(c.semaine_id) is None
    ||| !age_in_period(s.semaines@[s.semaine_index(c.semaine_id)->0].numero_semaine as int, c.age as int)
    ||| semaine_owner(s, c.semaine_id) is None
    ||| s.bande_index(semaine_owner(s, c.semaine_id)->0) is None
    ||| s.suivi_index(c.semaine_id, c.age) is Some
    ||| (c.soins_id matches Some(x) && !s.has_soin(x))
    ||| s.next_id == i64::MAX
    ||| !adjust_fits(
        s.bandes@,
        semaine_owner(s, c.semaine_id)->0,
        -GRAMS_PER_MILLI_BAG * consumption(requested_entry(c, s.next_id)),
    )
}

impl SuiviQuotidienRepository {
    /// Stores a new day entry at an address that has none. Its consumption
    /// is taken off the ledger of the cycle that owns the period, as an
    /// upsert would. Nothing changes when it fails.
    pub fn create(store: &mut GridStore, suivi: CreateSuiviQuotidien) -> (r: Result<SuiviQuotidien, AppError>)
        requires
            old(store).wf(),
        ensures
            final(store).wf(),
            r is Err <==> create_entry_fails(*old(store), suivi),
            r is Err ==> *final(store) == *old(store),
            old(store).semaine_index(suivi.semaine_id) is None ==> r matches Err(AppError::NotFound { .. }),
            old(store).semaine_index(suivi.semaine_id) is Some && !age_in_period(
                old(store).semaines@[old(store).semaine_index(suivi.semaine_id)->0].numero_semaine as int,
                suivi.age as int,
            ) ==> r matches Err(AppError::ValidationError { .. }),
            entry_parents_ok(*old(store), suivi) && !(semaine_owner(*old(store), suivi.semaine_id) is Some
                && old(store).bande_index(semaine_owner(*old(store), suivi.semaine_id)->0) is Some) ==> r matches Err(
                AppError::NotFound { .. },
            ),
            entry_owner_ok(*old(store), suivi) && old(store).suivi_index(suivi.semaine_id, suivi.age) is Some
                ==> r matches Err(AppError::ConstraintViolation { .. }),
            suivi.soins_id matches Some(x) ==> (entry_owner_ok(*old(store), suivi) && old(store).suivi_index(
                suivi.semaine_id,
                suivi.age,
            ) is None && !old(store).has_soin(x) ==> (r matches Err(AppError::ValidationError { message, .. })
                && names_id(message@, x))),
            entry_owner_ok(*old(store), suivi) && old(store).suivi_index(suivi.semaine_id, suivi.age) is None && !(
            suivi.soins_id matches Some(x) && !old(store).has_soin(x)) ==> (r matches Err(e) ==> e is ResourceUnavailable),
            r matches Ok(d) ==> {
                &&& d == requested_entry(suivi, old(store).next_id)
                &&& final(store).suivis@ == old(store).suivis@.push(d)
                &&& final(store).next_id == old(store).next_id + 1
                &&& final(store).bandes@ == adjust(
                    old(store).bandes@,
                    semaine_owner(*old(store), suivi.semaine_id)->0,
                    -GRAMS_PER_MILLI_BAG * consumption(d),
                )
                &&& final(store).semaines@ == old(store).semaines@
                &&& final(store).batiments@ == old(store).batiments@
                &&& final(store).historique@ == old(store).historique@
            },
    {
        let ghost s0 = *store;
        let si = match store.find_semaine(suivi.semaine_id) {
            Some(i) => i,
            None => return Err(AppError::not_found("Semaine", suivi.semaine_id)),
        };
        if !is_age_of_period(store.semaines[si].numero_semaine, suivi.age) {
            return Err(AppError::validation_error("age", "Âge hors de la semaine"));
        }
        let c = match SemaineRepository::owner_of(store, suivi.semaine_id) {
            Some(c) => c,
            None => return Err(AppError::not_found("Batiment", store.semaines[si].batiment_id)),
        };
        if store.find_bande(c).is_none() {
            return Err(AppError::not_found("Bande", c));
        }
        if store.find_suivi(suivi.semaine_id, suivi.age).is_some() {
            return Err(AppError::constraint_violation("Ce suivi existe déjà pour cette semaine et cet âge"));
        }
        if let Some(x) = suivi.soins_id {
            if !store.soin_exists(x) {
                return Err(AppError::unknown_care(x));
            }
        }
        if store.next_id == i64::MAX {
            return Err(AppError::out_of_range("identifiants épuisés"));
        }
        let q: i64 = match suivi.alimentation_par_jour {
            Some(v) => v,
            None => 0,
        };
        let delta: i128 = -(GRAMS_PER_MILLI_BAG as i128 * q as i128);
        if !AlimentationRepository::adjust_fits_any(store, c, delta) {
            return Err(AppError::out_of_range("stock d'aliment hors limites"));
        }
        AlimentationRepository::adjust_contour(store, c, delta);
        let ghost s1 = *store;
        let d = SuiviQuotidien {
            id: Some(store.next_id),
            semaine_id: suivi.semaine_id,
            age: suivi.age,
            deces_par_jour: suivi.deces_par_jour,
            alimentation_par_jour: suivi.alimentation_par_jour,
            soins_id: suivi.soins_id,
            soins_quantite: clone_text(&suivi.soins_quantite),
            analyses: clone_text(&suivi.analyses),
            remarques: clone_text(&suivi.remarques),
        };
        proof {
            lemma_last_index_spec(s0.semaines@, semaine_with_id(suivi.semaine_id));
            assert(id_below(s0.semaines@[si as int].id, s0.next_id));
            lemma_last_index_spec(s0.suivis@, suivi_at(suivi.semaine_id, suivi.age));
        }
        store.suivis.push(d.duplicate());
        store.next_id = store.next_id + 1;
        proof {
            assert(grown(s1, *store));
            lemma_grown_ids(s1, *store);
            assert forall|k: int| 0 <= k < store.suivis@.len() implies (#[trigger] store.suivis@[k]).semaine_id
                < store.next_id by {
                if k < s1.suivis@.len() {
                    assert(store.suivis@[k] == s1.suivis@[k]);
                    assert(s1.suivis@[k].semaine_id < s1.next_id);
                }
            }
            assert forall|k: int| 0 <= k < store.semaines@.len() implies (#[trigger] store.semaines@[k]).batiment_id
                < store.next_id by {
                assert(s1.semaines@[k].batiment_id < s1.next_id);
            }
            assert forall|a: int, b: int|
                0 <= a < store.suivis@.len() && 0 <= b < store.suivis@.len() && a != b
                    && #[trigger] store.suivis@[a].semaine_id == #[trigger] store.suivis@[b].semaine_id
                    implies store.suivis@[a].age != store.suivis@[b].age by {
                let m = s1.suivis@.len() as int;
                if a == m {
                    assert(!suivi_at(suivi.semaine_id, suivi.age)(s1.suivis@[b]));
                } else if b == m {
                    assert(!suivi_at(suivi.semaine_id, suivi.age)(s1.suivis@[a]));
                } else {
                    assert(store.suivis@[a] == s1.suivis@[a]);
                    assert(store.suivis@[b] == s1.suivis@[b]);
                }
            }
        }
        Ok(d)
    }

    /// The stored day entries of period `semaine_id`, by rising age.
    pub fn get_by_semaine(store: &GridStore, semaine_id: i64) -> (r: Vec<SuiviQuotidien>)
        requires
            store.wf(),
        ensures
            forall|d: SuiviQuotidien| #[trigger] r@.contains(d) <==> (store.suivis@.contains(d) && d.semaine_id == semaine_id),
            forall|a: int, b: int| 0 <= a < b < r@.len() ==> r@[a].age < r@[b].age,
    {
        let mut out: Vec<SuiviQuotidien> = Vec::new();
        let mut i: usize = 0;
        while i < store.suivis.len()
            invariant
                store.wf(),
                i <= store.suivis@.len(),
                forall|d: SuiviQuotidien| #[trigger] out@.contains(d) <==> exists|j: int|
                    0 <= j < i && store.suivis@[j] == d && d.semaine_id == semaine_id,
                forall|a: int, b: int| 0 <= a < b < out@.len() ==> out@[a].age < out@[b].age,
            decreases store.suivis@.len() - i,
        {
            if store.suivis[i].semaine_id == semaine_id {
                let x = store.suivis[i].duplicate();
                let mut k: usize = 0;
                while k < out.len() && out[k].age < x.age
                    invariant
                        k <= out@.len(),
                        forall|m: int| 0 <= m < k ==> out@[m].age < x.age,
                    decreases out@.len() - k,
                {
                    k += 1;
                }
                proof {
                    assert forall|m: int| 0 <= m < out@.len() implies out@[m].age != x.age by {
                        assert(out@.contains(out@[m]));
                        let j = choose|j: int| 0 <= j < i && store.suivis@[j] == out@[m] && out@[m].semaine_id == semaine_id;
                        assert(store.suivis@[j].semaine_id == store.suivis@[i as int].semaine_id);
                    }
                }
                let ghost before = out@;
                out.insert(k, x);
                proof {
                    before.insert_ensures(k as int, x);
                    assert forall|w: SuiviQuotidien| #[trigger] out@.contains(w) <==> (before.contains(w) || w == x) by {
                        if out@.contains(w) {
                            let m = choose|m: int| 0 <= m < out@.len() && out@[m] == w;
                            if m < k {
                                assert(before[m] == w);
                            } else if m > k {
                                assert(before[m - 1] == w);
                            }
                        }
                        if before.contains(w) {
                            let m = choose|m: int| 0 <= m < before.len() && before[m] == w;
                            if m < k {
                                assert(out@[m] == w);
                            } else {
                                assert(out@[m + 1] == w);
                            }
                        }
                        if w == x {
                            assert(out@[k as int] == x);
                        }
                    }
                    assert forall|a: int, b: int| 0 <= a < b < out@.len() implies out@[a].age < out@[b].age by {
                        if k < before.len() {
                            assert(before[k as int].age > x.age);
                        }
                        if b < k {
                        } else if b == k {
                        } else if a < k {
                            assert(before[b - 1].age >= before[k as int].age || b - 1 == k);
                        } else if a == k {
                            assert(before[b - 1].age >= before[k as int].age || b - 1 == k);
                        } else {
                            assert(out@[a] == before[a - 1]);
                        }
                    }
                }
            }
            i += 1;
        }
        proof {
            assert forall|d: SuiviQuotidien| #[trigger] out@.contains(d) <==> (store.suivis@.contains(d) && d.semaine_id
                == semaine_id) by {
                if store.suivis@.contains(d) && d.semaine_id == semaine_id {
                    let j = choose|j: int| 0 <= j < store.suivis@.len() && store.suivis@[j] == d;
                    assert(exists|j: int| 0 <= j < i && store.suivis@[j] == d && d.semaine_id == semaine_id);
                }
            }
        }
        out
    }

    /// The day entry with id `id`.
    pub fn get_by_id(store: &GridStore, id: i64) -> (r: Result<SuiviQuotidien, AppError>)
        ensures
            r is Err <==> store.suivi_id_index(id) is None,
            r matches Err(e) ==> e is NotFound,
            r matches Ok(d) ==> d == store.suivis@[store.suivi_id_index(id)->0],
    {
        match store.find_suivi_by_id(id) {
            Some(i) => Ok(store.suivis[i].duplicate()),
            None => Err(AppError::not_found("SuiviQuotidien", id)),
        }
    }

    /// The day entry of period `semaine_id` at `age`, if stored.
    pub fn find(store: &GridStore, semaine_id: i64, age: i32) -> (r: Option<SuiviQuotidien>)
        ensures
            match store.suivi_index(semaine_id, age) {
                Some(i) => r == Some(store.suivis@[i]),
                None => r is None,
            },
    {
        match store.find_suivi(semaine_id, age) {
            Some(i) => Some(store.suivis[i].duplicate()),
            None => None,
        }
    }

    /// Deletes day entry `id`; its consumption goes back to the ledger of
    /// the cycle that owns its period.
    pub fn delete(store: &mut GridStore, id: i64) -> (r: Result<(), AppError>)
        requires
            old(store).wf(),
        ensures
            final(store).wf(),
            r is Err <==> (old(store).suivi_id_index(id) is None || !give_back_fits(
                *old(store),
                old(store).suivis@[old(store).suivi_id_index(id)->0].semaine_id,
                GRAMS_PER_MILLI_BAG * consumption(old(store).suivis@[old(store).suivi_id_index(id)->0]),
            )),
            r is Err ==> *final(store) == *old(store),
            old(store).suivi_id_index(id) is None ==> r matches Err(AppError::NotFound { .. }),
            r is Ok ==> {
                let i = old(store).suivi_id_index(id)->0;
                let d = old(store).suivis@[i];
                &&& final(store).suivis@ == old(store).suivis@.remove(i)
                &&& final(store).bandes@ == give_back(*old(store), d.semaine_id, GRAMS_PER_MILLI_BAG * consumption(d))
                &&& final(store).semaines@ == old(store).semaines@
                &&& final(store).batiments@ == old(store).batiments@
                &&& final(store).historique@ == old(store).historique@
                &&& final(store).next_id == old(store).next_id
            },
    {
        let i = match store.find_suivi_by_id(id) {
            Some(i) => i,
            None => return Err(AppError::not_found("SuiviQuotidien", id)),
        };
        let ghost s0 = *store;
        let sid = store.suivis[i].semaine_id;
        let q: i64 = match store.suivis[i].alimentation_par_jour {
            Some(v) => v,
            None => 0,
        };
        let grams: i128 = GRAMS_PER_MILLI_BAG as i128 * q as i128;
        let owner = SemaineRepository::owner_of(store, sid);
        if let Some(c) = owner {
            if !AlimentationRepository::adjust_fits_any(store, c, grams) {
                return Err(AppError::out_of_range("stock d'aliment hors limites"));
            }
            AlimentationRepository::adjust_contour(store, c, grams);
        }
        let ghost s1 = *store;
        store.suivis.remove(i);
        proof {
            let rd = |x: SuiviQuotidien, y: SuiviQuotidien| x.semaine_id == y.semaine_id ==> x.age != y.age;
            assert forall|a: int, b: int| 0 <= a < s0.suivis@.len() && 0 <= b < s0.suivis@.len() && a != b implies #[trigger] rd(
                s0.suivis@[a],
                s0.suivis@[b],
            ) by {
                if s0.suivis@[a].semaine_id == s0.suivis@[b].semaine_id {
                }
            }
            lemma_remove_pairwise(s0.suivis@, i as int, rd);
            assert forall|a: int, b: int|
                0 <= a < store.suivis@.len() && 0 <= b < store.suivis@.len() && a != b
                    && #[trigger] store.suivis@[a].semaine_id == #[trigger] store.suivis@[b].semaine_id
                    implies store.suivis@[a].age != store.suivis@[b].age by {
                assert(rd(store.suivis@[a], store.suivis@[b]));
            }
            assert forall|k: int| 0 <= k < store.suivis@.len() implies id_below((#[trigger] store.suivis@[k]).id, store.next_id)
                && store.suivis@[k].semaine_id < store.next_id by {
                let k0 = if k < i { k } else { k + 1 };
                assert(store.suivis@[k] == s0.suivis@[k0]);
                assert(id_below(s0.suivis@[k0].id, s0.next_id));
                assert(s0.suivis@[k0].semaine_id < s0.next_id);
            }
            assert forall|k: int| 0 <= k < store.semaines@.len() implies (#[trigger] store.semaines@[k]).batiment_id < store.next_id by {
                assert(s0.semaines@[k].batiment_id < s0.next_id);
            }
            assert forall|k: int| 0 <= k < store.bandes@.len() implies id_below(#[trigger] store.bandes@[k].id, store.next_id) by {
                assert(id_below(s1.bandes@[k].id, s1.next_id));
            }
        }
        Ok(())
    }
}

} // verus!
