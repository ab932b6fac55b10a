use vstd::prelude::*;

use crate::error::AppError;
use crate::grid::GRAMS_PER_MILLI_BAG;
use crate::ledger::{adjust, adjust_fits, moved, moved_fits, AlimentationRepository};
use crate::lookup::lemma_last_index_spec;
use crate::models::{Bande, Batiment, CreateBatiment, Semaine, SuiviQuotidien, UpdateBatiment};
use crate::store::{
    bande_with_id, batiment_with_id, grown, id_below, lemma_filtered_wf, lemma_grown_ids,
    lemma_refs_kept, GridStore,
};
use crate::text::{compare_text, lemma_text_lt_irreflexive_asym, lemma_text_lt_total, lemma_text_lt_transitive, text_lt};
use crate::upsert::same_text;
use crate::upsert::consumption;

verus! {

/// Units of cycles, and the cascade that removes a unit with its grid.
pub struct BatimentRepository;

/// Whether period `sid` is one of the periods of unit `b`.
pub open spec fn in_unit(sems: Seq<Semaine>, b: i64, sid: i64) -> bool {
    exists|k: int| 0 <= k < sems.len() && (#[trigger] sems[k]).batiment_id == b && sems[k].id == Some(sid)
}

pub open spec fn day_in_unit(sems: Seq<Semaine>, b: i64) -> spec_fn(SuiviQuotidien) -> bool {
    |d: SuiviQuotidien| in_unit(sems, b, d.semaine_id)
}

pub open spec fn day_outside_unit(sems: Seq<Semaine>, b: i64) -> spec_fn(SuiviQuotidien) -> bool {
    |d: SuiviQuotidien| !in_unit(sems, b, d.semaine_id)
}

pub open spec fn semaine_outside_unit(b: i64) -> spec_fn(Semaine) -> bool {
    |s: Semaine| s.batiment_id != b
}

pub open spec fn link_outside_unit(b: i64) -> spec_fn((i64, i64)) -> bool {
    |l: (i64, i64)| l.0 != b
}

/// Total consumption of a run of entries, in thousandths of a bag.
pub open spec fn consumption_sum(ds: Seq<SuiviQuotidien>) -> int
    decreases ds.len(),
{
    if ds.len() == 0 {
        0
    } else {
        consumption_sum(ds.drop_last()) + consumption(ds.last())
    }
}

/// What deleting unit `id` leaves: its day entries, periods and disease
/// links are gone, and its cycle's ledger gets back the consumption of the
/// removed entries.
pub open spec fn unit_deleted(old: GridStore, id: i64, new: GridStore) -> bool {
    let bi = old.batiment_index(id)->0;
    let c = old.batiments@[bi].bande_id;
    &&& new.suivis@ == old.suivis@.filter(day_outside_unit(old.semaines@, id))
    &&& new.semaines@ == old.semaines@.filter(semaine_outside_unit(id))
    &&& new.batiment_maladies@ == old.batiment_maladies@.filter(link_outside_unit(id))
    &&& new.batiments@ == old.batiments@.remove(bi)
    &&& new.bandes@ == adjust(
        old.bandes@,
        c,
        GRAMS_PER_MILLI_BAG * consumption_sum(old.suivis@.filter(day_in_unit(old.semaines@, id))),
    )
    &&& new.historique@ == old.historique@
    &&& new.soins@ == old.soins@
    &&& new.fermes@ == old.fermes@
    &&& new.personnel@ == old.personnel@
    &&& new.poussins@ == old.poussins@
    &&& new.next_id == old.next_id
}

/// Whether cycle `b` already has a unit numbered `numero`.
pub open spec fn number_taken(bats: Seq<Batiment>, b: i64, numero: Seq<char>) -> bool {
    exists|k: int| 0 <= k < bats.len() && (#[trigger] bats[k]).bande_id == b && bats[k].numero_batiment@ == numero
}

/// The unit that an update turns unit `old` into.
pub open spec fn updated_unit(old: Batiment, u: UpdateBatiment) -> Batiment {
    Batiment {
        id: old.id,
        bande_id: u.bande_id,
        numero_batiment: u.numero_batiment,
        poussin_id: u.poussin_id,
        personnel_id: u.personnel_id,
        quantite: u.quantite,
    }
}

/// Bound on a consumption sum below which 50 times it fits in 2^64.
pub const SUM_LIMIT: i128 = 368934881474191032;

impl BatimentRepository {
    /// Whether period `sid` belongs to unit `b`.
    pub(crate) fn unit_has_period(store: &GridStore, b: i64, sid: i64) -> (r: bool)
        ensures
            r == in_unit(store.semaines@, b, sid),
    {
        let mut k: usize = 0;
        while k < store.semaines.len()
            invariant
                k <= store.semaines@.len(),
                forall|j: int|
                    0 <= j < k ==> !((#[trigger] store.semaines@[j]).batiment_id == b && store.semaines@[j].id
                        == Some(sid)),
            decreases store.semaines@.len() - k,
        {
            if store.semaines[k].batiment_id == b && store.semaines[k].id == Some(sid) {
                return true;
            }
            k += 1;
        }
        false
    }

    fn number_in_use(store: &GridStore, b: i64, numero: &String) -> (r: bool)
        ensures
            r == number_taken(store.batiments@, b, numero@),
    {
        let mut k: usize = 0;
        while k < store.batiments.len()
            invariant
                k <= store.batiments@.len(),
                forall|j: int|
                    0 <= j < k ==> !((#[trigger] store.batiments@[j]).bande_id == b
                        && store.batiments@[j].numero_batiment@ == numero@),
            decreases store.batiments@.len() - k,
        {
            if store.batiments[k].bande_id == b && same_text(
                store.batiments[k].numero_batiment.as_str(),
                numero.as_str(),
            ) {
                return true;
            }
            k += 1;
        }
        false
    }

    /// Stores a unit of a cycle. The cycle must exist and the unit number
    /// must be free within it.
    pub fn create(store: &mut GridStore, batiment: &CreateBatiment) -> (r: Result<Batiment, AppError>)
        requires
            old(store).wf(),
        ensures
            final(store).wf(),
            r is Err <==> (old(store).bande_index(batiment.bande_id) is None || !old(store).personnel@.contains(
                batiment.personnel_id,
            ) || !old(store).poussins@.contains(batiment.poussin_id) || number_taken(
                old(store).batiments@,
                batiment.bande_id,
                batiment.numero_batiment@,
            ) || old(store).next_id == i64::MAX),
            r is Err ==> *final(store) == *old(store),
            old(store).bande_index(batiment.bande_id) is None || !old(store).personnel@.contains(batiment.personnel_id)
                || !old(store).poussins@.contains(batiment.poussin_id) || number_taken(
                old(store).batiments@,
                batiment.bande_id,
                batiment.numero_batiment@,
            ) ==> r matches Err(AppError::ValidationError { .. }),
            r matches Ok(b) ==> {
                &&& b == (Batiment {
                    id: Some(old(store).next_id),
                    bande_id: batiment.bande_id,
                    numero_batiment: batiment.numero_batiment,
                    poussin_id: batiment.poussin_id,
                    personnel_id: batiment.personnel_id,
                    quantite: batiment.quantite,
                })
                &&& final(store).batiments@ == old(store).batiments@.push(b)
                &&& final(store).next_id == old(store).next_id + 1
                &&& grown(*old(store), *final(store))
                &&& final(store).bandes@ == old(store).bandes@
                &&& final(store).semaines@ == old(store).semaines@
                &&& final(store).suivis@ == old(store).suivis@
            },
    {
        if store.find_bande(batiment.bande_id).is_none() {
            return Err(AppError::validation_error("bande_id", "La bande spécifiée n'existe pas"));
        }
        if !store.personnel_exists(batiment.personnel_id) {
            return Err(AppError::validation_error("personnel_id", "Le personnel spécifié n'existe pas"));
        }
        if !store.poussin_exists(batiment.poussin_id) {
            return Err(AppError::validation_error("poussin_id", "Le poussin spécifié n'existe pas"));
        }
        if Self::number_in_use(store, batiment.bande_id, &batiment.numero_batiment) {
            return Err(
                AppError::validation_error(
                    "numero_batiment",
                    "Ce numéro de bâtiment est déjà utilisé dans cette bande",
                ),
            );
        }
        if store.next_id == i64::MAX {
            return Err(AppError::out_of_range("identifiants épuisés"));
        }
        let ghost s0 = *store;
        let b = Batiment {
            id: Some(store.next_id),
            bande_id: batiment.bande_id,
            numero_batiment: batiment.numero_batiment.clone(),
            poussin_id: batiment.poussin_id,
            personnel_id: batiment.personnel_id,
            quantite: batiment.quantite,
        };
        proof {
            lemma_last_index_spec(s0.bandes@, bande_with_id(batiment.bande_id));
            assert(id_below(s0.bandes@[s0.bande_index(batiment.bande_id)->0].id, s0.next_id));
        }
        store.batiments.push(b.duplicate());
        store.next_id = store.next_id + 1;
        proof {
            assert(grown(s0, *store));
            lemma_grown_ids(s0, *store);
            lemma_refs_kept(s0, *store);
        }
        Ok(b)
    }

    /// The units of cycle `bande_id`, by number in text order.
    pub fn get_by_bande(store: &GridStore, bande_id: i64) -> (r: Vec<Batiment>)
        requires
            store.wf(),
        ensures
            forall|u: Batiment| #[trigger] r@.contains(u) <==> (store.batiments@.contains(u) && u.bande_id == bande_id),
            forall|a: int, b: int| 0 <= a < b < r@.len() ==> !text_lt(r@[b].numero_batiment@, r@[a].numero_batiment@),
            forall|a: int, b: int| 0 <= a < r@.len() && 0 <= b < r@.len() && a != b ==> r@[a].id != r@[b].id,
    {
        let mut out: Vec<Batiment> = Vec::new();
        let mut i: usize = 0;
        while i < store.batiments.len()
            invariant
                store.wf(),
                i <= store.batiments@.len(),
                forall|u: Batiment| #[trigger] out@.contains(u) <==> exists|j: int|
                    0 <= j < i && store.batiments@[j] == u && u.bande_id == bande_id,
                forall|a: int, b: int| 0 <= a < b < out@.len() ==> !text_lt(out@[b].numero_batiment@, out@[a].numero_batiment@),
                forall|a: int, b: int| 0 <= a < out@.len() && 0 <= b < out@.len() && a != b ==> out@[a].id != out@[b].id,
            decreases store.batiments@.len() - i,
        {
            if store.batiments[i].bande_id == bande_id {
                let x = store.batiments[i].duplicate();
                let mut k: usize = 0;
                while k < out.len() && compare_text(x.numero_batiment.as_str(), out[k].numero_batiment.as_str()) >= 0
                    invariant
                        k <= out@.len(),
                        forall|m: int| 0 <= m < k ==> !text_lt(x.numero_batiment@, out@[m].numero_batiment@),
                    decreases out@.len() - k,
                {
                    k += 1;
                }
                let ghost before = out@;
                proof {
                    assert forall|m: int| 0 <= m < before.len() implies before[m].id != x.id by {
                        assert(before.contains(before[m]));
                        let j = choose|j: int| 0 <= j < i && store.batiments@[j] == before[m] && before[m].bande_id == bande_id;
                        assert(store.batiments@[j].id != store.batiments@[i as int].id);
                    }
                    assert forall|m: int| k <= m < before.len() implies text_lt(x.numero_batiment@, before[m].numero_batiment@) by {
                        lemma_text_lt_total(before[k as int].numero_batiment@, before[m].numero_batiment@);
                        if text_lt(before[k as int].numero_batiment@, before[m].numero_batiment@) {
                            lemma_text_lt_transitive(
                                x.numero_batiment@,
                                before[k as int].numero_batiment@,
                                before[m].numero_batiment@,
                            );
                        }
                    }
                }
                out.insert(k, x);
                proof {
                    before.insert_ensures(k as int, x);
                    assert forall|w: Batiment| #[trigger] out@.contains(w) <==> (before.contains(w) || w == x) by {
                        if out@.contains(w) {
                            let m = choose|m: int| 0 <= m < out@.len() && out@[m] == w;
                            if m < k {
                                assert(before[m] == w);
                            } else if m > k {
                                assert(before[m - 1] == w);
                            }
                        }
                        if before.contains(w) {
                            let m = choose|m: int| 0 <= m < before.len() && before[m] == w;
                            if m < k {
                                assert(out@[m] == w);
                            } else {
                                assert(out@[m + 1] == w);
                            }
                        }
                        if w == x {
                            assert(out@[k as int] == x);
                        }
                    }
                    assert forall|a: int, b: int| 0 <= a < b < out@.len() implies !text_lt(
                        out@[b].numero_batiment@,
                        out@[a].numero_batiment@,
                    ) by {
                        if b < k {
                        } else if b == k {
                        } else if a < k {
                            assert(out@[b] == before[b - 1]);
                        } else if a == k {
                            assert(out@[b] == before[b - 1]);
                            lemma_text_lt_irreflexive_asym(x.numero_batiment@, before[b - 1].numero_batiment@);
                        } else {
                            assert(out@[a] == before[a - 1]);
                            assert(out@[b] == before[b - 1]);
                        }
                    }
                    assert forall|a: int, b: int| 0 <= a < out@.len() && 0 <= b < out@.len() && a != b implies out@[a].id
                        != out@[b].id by {
                        let a0 = if a < k { a } else { a - 1 };
                        let b0 = if b < k { b } else { b - 1 };
                        if a != k && b != k {
                            assert(out@[a] == before[a0]);
                            assert(out@[b] == before[b0]);
                        } else if a == k {
                            assert(out@[b] == before[b0]);
                        } else {
                            assert(out@[a] == before[a0]);
                        }
                    }
                }
            }
            i += 1;
        }
        proof {
            assert forall|u: Batiment| #[trigger] out@.contains(u) <==> (store.batiments@.contains(u) && u.bande_id
                == bande_id) by {
                if store.batiments@.contains(u) && u.bande_id == bande_id {
                    let j = choose|j: int| 0 <= j < store.batiments@.len() && store.batiments@[j] == u;
                    assert(exists|j: int| 0 <= j < i && store.batiments@[j] == u && u.bande_id == bande_id);
                }
            }
        }
        out
    }

    /// The unit with id `id`, if stored.
    pub fn get_by_id(store: &GridStore, id: i64) -> (r: Option<Batiment>)
        ensures
            match store.batiment_index(id) {
                Some(i) => r == Some(store.batiments@[i]),
                None => r is None,
            },
    {
        match store.find_batiment(id) {
            Some(i) => Some(store.batiments[i].duplicate()),
            None => None,
        }
    }

    /// Deletes unit `id` with its grid in one step: its day entries, its
    /// periods, its disease links, then the unit. The consumption of the
    /// removed entries goes back to the cycle's ledger, which keeps the
    /// ledger equal to what the remaining records make it. Nothing changes
    /// when it fails.
    pub fn delete(store: &mut GridStore, id: i64) -> (r: Result<(), AppError>)
        requires
            old(store).wf(),
        ensures
            final(store).wf(),
            r is Err <==> (old(store).batiment_index(id) is None || !adjust_fits(
                old(store).bandes@,
                old(store).batiments@[old(store).batiment_index(id)->0].bande_id,
                GRAMS_PER_MILLI_BAG * consumption_sum(
                    old(store).suivis@.filter(day_in_unit(old(store).semaines@, id)),
                ),
            )),
            r is Err ==> *final(store) == *old(store),
            old(store).batiment_index(id) is None ==> r matches Err(AppError::NotFound { .. }),
            old(store).batiment_index(id) is Some ==> (r matches Err(e) ==> e is ResourceUnavailable),
            r is Ok ==> unit_deleted(*old(store), id, *final(store)),
    {
        let bi = match store.find_batiment(id) {
            Some(i) => i,
            None => return Err(AppError::not_found("Batiment", id)),
        };
        let c = store.batiments[bi].bande_id;
        let ghost s0 = *store;
        let ghost sems = store.semaines@;
        // 1. the day entries of the unit's periods
        let mut kept_days: Vec<SuiviQuotidien> = Vec::new();
        let mut removed: i128 = 0;
        let mut i: usize = 0;
        while i < store.suivis.len()
            invariant
                *store == s0,
                sems == store.semaines@,
                i <= store.suivis@.len(),
                kept_days@ == store.suivis@.subrange(0, i as int).filter(day_outside_unit(sems, id)),
                removed == consumption_sum(store.suivis@.subrange(0, i as int).filter(day_in_unit(sems, id))),
                -(i as int) * 0x8000_0000_0000_0000 <= removed <= (i as int) * 0x8000_0000_0000_0000,
                i <= usize::MAX,
            decreases store.suivis@.len() - i,
        {
            let ghost pre = store.suivis@.subrange(0, i as int);
            let ghost d = store.suivis@[i as int];
            assert(store.suivis@.subrange(0, i + 1) =~= pre.push(d));
            proof {
                pre.lemma_filter_push(d, day_outside_unit(sems, id));
                pre.lemma_filter_push(d, day_in_unit(sems, id));
                assert(pre.filter(day_in_unit(sems, id)).push(d).drop_last() =~= pre.filter(day_in_unit(sems, id)));
            }
            if Self::unit_has_period(store, id, store.suivis[i].semaine_id) {
                let q: i64 = match store.suivis[i].alimentation_par_jour {
                    Some(v) => v,
                    None => 0,
                };
                removed = removed + q as i128;
            } else {
                kept_days.push(store.suivis[i].duplicate());
            }
            i += 1;
        }
        assert(store.suivis@.subrange(0, store.suivis@.len() as int) =~= store.suivis@);
        // the ledger move must fit before anything changes
        let fits = match store.find_bande(c) {
            None => true,
            Some(k) => {
                if removed > SUM_LIMIT || removed < -SUM_LIMIT {
                    false
                } else {
                    let nc = store.bandes[k].alimentation_contour as i128 + GRAMS_PER_MILLI_BAG as i128 * removed;
                    i64::MIN as i128 <= nc && nc <= i64::MAX as i128
                }
            },
        };
        if !fits {
            return Err(AppError::out_of_range("stock d'aliment hors limites"));
        }
        // 2. the periods of the unit
        let mut kept_sems: Vec<Semaine> = Vec::new();
        let mut j: usize = 0;
        while j < store.semaines.len()
            invariant
                *store == s0,
                j <= store.semaines@.len(),
                kept_sems@ == store.semaines@.subrange(0, j as int).filter(semaine_outside_unit(id)),
            decreases store.semaines@.len() - j,
        {
            let ghost pre = store.semaines@.subrange(0, j as int);
            assert(store.semaines@.subrange(0, j + 1) =~= pre.push(store.semaines@[j as int]));
            proof {
                pre.lemma_filter_push(store.semaines@[j as int], semaine_outside_unit(id));
            }
            if store.semaines[j].batiment_id != id {
                kept_sems.push(store.semaines[j]);
            }
            j += 1;
        }
        assert(store.semaines@.subrange(0, store.semaines@.len() as int) =~= store.semaines@);
        // 3. the disease links of the unit
        let mut kept_links: Vec<(i64, i64)> = Vec::new();
        let mut m: usize = 0;
        while m < store.batiment_maladies.len()
            invariant
                *store == s0,
                m <= store.batiment_maladies@.len(),
                kept_links@ == store.batiment_maladies@.subrange(0, m as int).filter(link_outside_unit(id)),
            decreases store.batiment_maladies@.len() - m,
        {
            let ghost pre = store.batiment_maladies@.subrange(0, m as int);
            assert(store.batiment_maladies@.subrange(0, m + 1) =~= pre.push(store.batiment_maladies@[m as int]));
            proof {
                pre.lemma_filter_push(store.batiment_maladies@[m as int], link_outside_unit(id));
            }
            if store.batiment_maladies[m].0 != id {
                kept_links.push(store.batiment_maladies[m]);
            }
            m += 1;
        }
        assert(store.batiment_maladies@.subrange(0, store.batiment_maladies@.len() as int)
            =~= store.batiment_maladies@);
        // 4. commit: the rows, the unit, the ledger
        store.suivis = kept_days;
        store.semaines = kept_sems;
        store.batiment_maladies = kept_links;
        store.batiments.remove(bi);
        if let Some(k) = store.find_bande(c) {
            let b = store.bandes[k].duplicate();
            let nc = b.alimentation_contour as i128 + GRAMS_PER_MILLI_BAG as i128 * removed;
            store.bandes[k] = Bande { alimentation_contour: nc as i64, ..b };
        }
        proof {
            lemma_last_index_spec(s0.bandes@, bande_with_id(c));
            lemma_last_index_spec(s0.batiments@, batiment_with_id(id));
            Self::lemma_deleted_wf(s0, id, *store);
        }
        Ok(())
    }

    proof fn lemma_deleted_wf(s0: GridStore, id: i64, s1: GridStore)
        requires
            s0.wf(),
            s0.batiment_index(id) is Some,
            s1.suivis@ == s0.suivis@.filter(day_outside_unit(s0.semaines@, id)),
            s1.semaines@ == s0.semaines@.filter(semaine_outside_unit(id)),
            s1.batiments@ == s0.batiments@.remove(s0.batiment_index(id)->0),
            0 <= s0.batiment_index(id)->0 < s0.batiments@.len(),
            s1.bandes@.len() == s0.bandes@.len(),
            forall|i: int| 0 <= i < s0.bandes@.len() ==> (#[trigger] s1.bandes@[i]).id == s0.bandes@[i].id,
            s1.historique@ == s0.historique@,
            s1.next_id == s0.next_id,
        ensures
            s1.wf(),
    {
        assert forall|i: int| 0 <= i < s1.batiments@.len() implies id_below(#[trigger] s1.batiments@[i].id, s1.next_id) by {
            let bi = s0.batiment_index(id)->0;
            if i < bi {
                assert(s1.batiments@[i] == s0.batiments@[i]);
            } else {
                assert(s1.batiments@[i] == s0.batiments@[i + 1]);
            }
            assert(id_below(s0.batiments@[i].id, s0.next_id));
            assert(id_below(s0.batiments@[i + 1].id, s0.next_id));
        }
        assert forall|i: int| 0 <= i < s1.bandes@.len() implies id_below(#[trigger] s1.bandes@[i].id, s1.next_id) by {
            assert(id_below(s0.bandes@[i].id, s0.next_id));
        }
        assert forall|i: int| 0 <= i < s1.historique@.len() implies id_below(#[trigger] s1.historique@[i].id, s1.next_id) by {
            assert(id_below(s0.historique@[i].id, s0.next_id));
        }
        assert forall|i: int| 0 <= i < s1.batiments@.len() implies (#[trigger] s1.batiments@[i]).bande_id < s1.next_id by {
            let bi = s0.batiment_index(id)->0;
            if i < bi {
                assert(s1.batiments@[i] == s0.batiments@[i]);
            } else {
                assert(s1.batiments@[i] == s0.batiments@[i + 1]);
            }
            assert(s0.batiments@[i].bande_id < s0.next_id);
            assert(s0.batiments@[i + 1].bande_id < s0.next_id);
        }
        assert forall|i: int| 0 <= i < s1.historique@.len() implies (#[trigger] s1.historique@[i]).bande_id < s1.next_id by {
            assert(s0.historique@[i].bande_id < s0.next_id);
        }
        let rb = |x: Batiment, y: Batiment| x.id != y.id;
        assert forall|a: int, b: int| 0 <= a < s0.batiments@.len() && 0 <= b < s0.batiments@.len() && a != b implies #[trigger] rb(
            s0.batiments@[a],
            s0.batiments@[b],
        ) by {
            assert(s0.batiments@[a].id != s0.batiments@[b].id);
        }
        crate::lookup::lemma_remove_pairwise(s0.batiments@, s0.batiment_index(id)->0, rb);
        assert forall|a: int, b: int| 0 <= a < s1.batiments@.len() && 0 <= b < s1.batiments@.len() && a != b implies #[trigger] s1.batiments@[a].id
            != #[trigger] s1.batiments@[b].id by {
            assert(rb(s1.batiments@[a], s1.batiments@[b]));
        }
        assert forall|a: int, b: int| 0 <= a < s1.bandes@.len() && 0 <= b < s1.bandes@.len() && a != b implies #[trigger] s1.bandes@[a].id
            != #[trigger] s1.bandes@[b].id by {
            assert(s0.bandes@[a].id != s0.bandes@[b].id);
        }
        lemma_filtered_wf(s0, s1, day_outside_unit(s0.semaines@, id), semaine_outside_unit(id));
    }

    /// Changes unit `id` to `batiment`. The new cycle must exist. When the
    /// unit moves to another cycle, the consumption of its day entries moves
    /// with it: it goes back to the old cycle's ledger and is taken off the
    /// new one's. Nothing changes when it fails.
    pub fn update(store: &mut GridStore, id: i64, batiment: &UpdateBatiment) -> (r: Result<(), AppError>)
        requires
            old(store).wf(),
        ensures
            final(store).wf(),
            r is Err <==> (old(store).bande_index(batiment.bande_id) is None || !old(store).poussins@.contains(
                batiment.poussin_id,
            ) || !old(store).personnel@.contains(batiment.personnel_id) || old(store).batiment_index(id) is None
                || !moved_fits(
                old(store).bandes@,
                old(store).batiments@[old(store).batiment_index(id)->0].bande_id,
                -GRAMS_PER_MILLI_BAG * consumption_sum(old(store).suivis@.filter(day_in_unit(old(store).semaines@, id))),
                batiment.bande_id,
                -GRAMS_PER_MILLI_BAG * consumption_sum(old(store).suivis@.filter(day_in_unit(old(store).semaines@, id))),
            )),
            r is Err ==> *final(store) == *old(store),
            old(store).bande_index(batiment.bande_id) is None || !old(store).poussins@.contains(batiment.poussin_id)
                || !old(store).personnel@.contains(batiment.personnel_id) ==> r matches Err(
                AppError::ValidationError { .. },
            ),
            old(store).bande_index(batiment.bande_id) is Some && old(store).poussins@.contains(batiment.poussin_id)
                && old(store).personnel@.contains(batiment.personnel_id) && old(store).batiment_index(id) is None
                ==> r matches Err(AppError::NotFound { .. }),
            r is Ok ==> {
                let bi = old(store).batiment_index(id)->0;
                let w = -GRAMS_PER_MILLI_BAG * consumption_sum(old(store).suivis@.filter(day_in_unit(old(store).semaines@, id)));
                &&& final(store).batiments@ == old(store).batiments@.update(bi, updated_unit(old(store).batiments@[bi], *batiment))
                &&& final(store).bandes@ == moved(old(store).bandes@, old(store).batiments@[bi].bande_id, w, batiment.bande_id, w)
                &&& final(store).semaines@ == old(store).semaines@
                &&& final(store).suivis@ == old(store).suivis@
                &&& final(store).historique@ == old(store).historique@
                &&& final(store).next_id == old(store).next_id
            },
    {
        if store.find_bande(batiment.bande_id).is_none() {
            return Err(AppError::validation_error("bande_id", "La bande spécifiée n'existe pas"));
        }
        if !store.poussin_exists(batiment.poussin_id) {
            return Err(AppError::validation_error("poussin_id", "Le poussin spécifié n'existe pas"));
        }
        if !store.personnel_exists(batiment.personnel_id) {
            return Err(AppError::validation_error("personnel_id", "Le personnel spécifié n'existe pas"));
        }
        let bi = match store.find_batiment(id) {
            Some(i) => i,
            None => return Err(AppError::not_found("Batiment", id)),
        };
        let ghost s0 = *store;
        let ghost sems = store.semaines@;
        let mut used: i128 = 0;
        let mut i: usize = 0;
        while i < store.suivis.len()
            invariant
                *store == s0,
                sems == store.semaines@,
                i <= store.suivis@.len(),
                used == consumption_sum(store.suivis@.subrange(0, i as int).filter(day_in_unit(sems, id))),
                -(i as int) * 0x8000_0000_0000_0000 <= used <= (i as int) * 0x8000_0000_0000_0000,
            decreases store.suivis@.len() - i,
        {
            let ghost pre = store.suivis@.subrange(0, i as int);
            let ghost d = store.suivis@[i as int];
            assert(store.suivis@.subrange(0, i + 1) =~= pre.push(d));
            proof {
                pre.lemma_filter_push(d, day_in_unit(sems, id));
                assert(pre.filter(day_in_unit(sems, id)).push(d).drop_last() =~= pre.filter(day_in_unit(sems, id)));
            }
            if Self::unit_has_period(store, id, store.suivis[i].semaine_id) {
                let q: i64 = match store.suivis[i].alimentation_par_jour {
                    Some(v) => v,
                    None => 0,
                };
                used = used + q as i128;
            }
            i += 1;
        }
        assert(store.suivis@.subrange(0, store.suivis@.len() as int) =~= store.suivis@);
        let a = store.batiments[bi].bande_id;
        let b = batiment.bande_id;
        if a != b {
            // the new cycle is present, so a move this large cannot fit
            if used > SUM_LIMIT || used < -SUM_LIMIT {
                proof {
                    lemma_last_index_spec(s0.bandes@, bande_with_id(b));
                    crate::ledger::lemma_adjust_keeps_ids(s0.bandes@, a, GRAMS_PER_MILLI_BAG * used);
                }
                return Err(AppError::out_of_range("stock d'aliment hors limites"));
            }
            let w: i128 = -(GRAMS_PER_MILLI_BAG as i128 * used);
            proof {
                crate::ledger::lemma_adjust_fits_other(s0.bandes@, a, -(w as int), b, w as int);
            }
            if !AlimentationRepository::adjust_fits_any(store, a, -w) || !AlimentationRepository::adjust_fits_any(store, b, w) {
                return Err(AppError::out_of_range("stock d'aliment hors limites"));
            }
            AlimentationRepository::adjust_contour(store, a, -w);
            AlimentationRepository::adjust_contour(store, b, w);
        }
        let ghost s1 = *store;
        let old_id = store.batiments[bi].id;
        store.batiments[bi] = Batiment {
            id: old_id,
            bande_id: batiment.bande_id,
            numero_batiment: batiment.numero_batiment.clone(),
            poussin_id: batiment.poussin_id,
            personnel_id: batiment.personnel_id,
            quantite: batiment.quantite,
        };
        proof {
            lemma_last_index_spec(s0.bandes@, bande_with_id(batiment.bande_id));
            assert(id_below(s0.bandes@[s0.bande_index(batiment.bande_id)->0].id, s0.next_id));
            assert forall|k: int| 0 <= k < store.batiments@.len() implies id_below(#[trigger] store.batiments@[k].id, store.next_id) by {
                assert(id_below(s1.batiments@[k].id, s1.next_id));
            }
            assert forall|k: int| 0 <= k < store.batiments@.len() implies (#[trigger] store.batiments@[k]).bande_id < store.next_id by {
                assert(s1.batiments@[k].bande_id < s1.next_id);
            }
            if a == b {
                assert(moved(s0.bandes@, a, 0, b, 0) =~= s0.bandes@) by {
                    crate::ledger::lemma_adjust_zero(s0.bandes@, b);
                }
            }
        }
        Ok(())
    }
}

} // verus!
