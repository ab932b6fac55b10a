use vstd::prelude::*;
use vstd::string::*;

use crate::error::AppError;
use crate::ledger::not_of_bande;
use crate::lookup::{lemma_filter_member, lemma_last_index_spec};
use crate::models::{AlimentationHistory, Bande, Batiment, CreateBatiment, Semaine, SuiviQuotidien};
use crate::repositories::{numero_for, BandeRepository, CreateBande};
use crate::store::{bande_with_id, grown, id_below, lemma_filtered_wf, lemma_grown_ids, GridStore};
use crate::upsert::same_text;

verus! {

/// Creation of a whole cycle with its units.
pub struct BandeService;

/// The Unicode White_Space characters, those that `str::trim` removes.
pub open spec fn is_white_space(c: char) -> bool {
    ||| ('\u{9}' <= c && c <= '\u{d}')
    ||| c == ' '
    ||| c == '\u{85}'
    ||| c == '\u{a0}'
    ||| c == '\u{1680}'
    ||| ('\u{2000}' <= c && c <= '\u{200a}')
    ||| c == '\u{2028}'
    ||| c == '\u{2029}'
    ||| c == '\u{202f}'
    ||| c == '\u{205f}'
    ||| c == '\u{3000}'
}

/// A text that is empty once white space is trimmed.
pub open spec fn blank_text(s: Seq<char>) -> bool {
    forall|i: int| 0 <= i < s.len() ==> is_white_space(#[trigger] s[i])
}

/// Why a unit request is refused: a non-positive head count, a blank
/// number, a negative hatchling-type id, or a staff member or hatchling type
/// missing from its catalog.
pub open spec fn unit_request_invalid(s: GridStore, b: CreateBatiment) -> bool {
    ||| b.quantite <= 0
    ||| blank_text(b.numero_batiment@)
    ||| b.poussin_id < 0
    ||| !s.personnel@.contains(b.personnel_id)
    ||| !s.poussins@.contains(b.poussin_id)
}

/// Two unit requests share a number.
pub open spec fn numbers_repeat(bs: Seq<CreateBatiment>) -> bool {
    exists|i: int, j: int|
        0 <= i < j < bs.len() && (#[trigger] bs[i]).numero_batiment@ == (#[trigger] bs[j]).numero_batiment@
}

/// The unit stored for request `k` of a cycle created with id `first`.
pub open spec fn created_unit(first: i64, k: int, b: CreateBatiment) -> Batiment {
    Batiment {
        id: Some((first + 1 + 2 * k) as i64),
        bande_id: first,
        numero_batiment: b.numero_batiment,
        poussin_id: b.poussin_id,
        personnel_id: b.personnel_id,
        quantite: b.quantite,
    }
}

/// The first period stored for unit request `k`.
pub open spec fn created_week(first: i64, k: int) -> Semaine {
    Semaine { id: Some((first + 2 + 2 * k) as i64), batiment_id: (first + 1 + 2 * k) as i64, numero_semaine: 1, poids: None }
}

/// Whether unit `b` belongs to cycle `c`.
pub open spec fn unit_of_cycle(bats: Seq<Batiment>, c: i64, b: i64) -> bool {
    exists|k: int| 0 <= k < bats.len() && (#[trigger] bats[k]).bande_id == c && bats[k].id == Some(b)
}

/// Whether period `sid` belongs to a unit of cycle `c`.
pub open spec fn period_of_cycle(bats: Seq<Batiment>, sems: Seq<Semaine>, c: i64, sid: i64) -> bool {
    exists|k: int| 0 <= k < sems.len() && (#[trigger] sems[k]).id == Some(sid) && unit_of_cycle(bats, c, sems[k].batiment_id)
}

pub open spec fn unit_outside_cycle(c: i64) -> spec_fn(Batiment) -> bool {
    |b: Batiment| b.bande_id != c
}

pub open spec fn period_outside_cycle(bats: Seq<Batiment>, c: i64) -> spec_fn(Semaine) -> bool {
    |s: Semaine| !unit_of_cycle(bats, c, s.batiment_id)
}

pub open spec fn day_outside_cycle(bats: Seq<Batiment>, sems: Seq<Semaine>, c: i64) -> spec_fn(SuiviQuotidien) -> bool {
    |d: SuiviQuotidien| !period_of_cycle(bats, sems, c, d.semaine_id)
}

pub open spec fn link_outside_cycle(bats: Seq<Batiment>, c: i64) -> spec_fn((i64, i64)) -> bool {
    |l: (i64, i64)| !unit_of_cycle(bats, c, l.0)
}

/// What deleting cycle `id` leaves: the cycle, its units with their
/// periods, day entries and disease links, and its adjustment records are
/// gone.
pub open spec fn cycle_deleted(old: GridStore, id: i64, new: GridStore) -> bool {
    &&& new.bandes@ == old.bandes@.remove(old.bande_index(id)->0)
    &&& new.batiments@ == old.batiments@.filter(unit_outside_cycle(id))
    &&& new.semaines@ == old.semaines@.filter(period_outside_cycle(old.batiments@, id))
    &&& new.suivis@ == old.suivis@.filter(day_outside_cycle(old.batiments@, old.semaines@, id))
    &&& new.batiment_maladies@ == old.batiment_maladies@.filter(link_outside_cycle(old.batiments@, id))
    &&& new.historique@ == old.historique@.filter(not_of_bande(id))
    &&& new.soins@ == old.soins@
    &&& new.fermes@ == old.fermes@
    &&& new.personnel@ == old.personnel@
    &&& new.poussins@ == old.poussins@
    &&& new.next_id == old.next_id
}

impl BandeService {
    fn unit_in_cycle(store: &GridStore, c: i64, b: i64) -> (r: bool)
        ensures
            r == unit_of_cycle(store.batiments@, c, b),
    {
        let mut k: usize = 0;
        while k < store.batiments.len()
            invariant
                k <= store.batiments@.len(),
                forall|j: int|
                    0 <= j < k ==> !((#[trigger] store.batiments@[j]).bande_id == c && store.batiments@[j].id == Some(b)),
            decreases store.batiments@.len() - k,
        {
            if store.batiments[k].bande_id == c && store.batiments[k].id == Some(b) {
                return true;
            }
            k += 1;
        }
        false
    }

    fn period_in_cycle(store: &GridStore, c: i64, sid: i64) -> (r: bool)
        ensures
            r == period_of_cycle(store.batiments@, store.semaines@, c, sid),
    {
        let mut k: usize = 0;
        while k < store.semaines.len()
            invariant
                k <= store.semaines@.len(),
                forall|j: int|
                    0 <= j < k ==> !((#[trigger] store.semaines@[j]).id == Some(sid) && unit_of_cycle(
                        store.batiments@,
                        c,
                        store.semaines@[j].batiment_id,
                    )),
            decreases store.semaines@.len() - k,
        {
            if store.semaines[k].id == Some(sid) && Self::unit_in_cycle(store, c, store.semaines[k].batiment_id) {
                return true;
            }
            k += 1;
        }
        false
    }

    /// Deletes cycle `id` with everything under it, in one step. The
    /// adjustment records of the cycle go with it. Nothing changes when it
    /// fails.
    pub fn delete_bande(store: &mut GridStore, id: i64) -> (r: Result<(), AppError>)
        requires
            old(store).wf(),
        ensures
            final(store).wf(),
            r is Err <==> (id <= 0 || old(store).bande_index(id) is None),
            r is Err ==> *final(store) == *old(store),
            id <= 0 ==> r matches Err(AppError::ValidationError { .. }),
            id > 0 && old(store).bande_index(id) is None ==> r matches Err(AppError::NotFound { .. }),
            r is Ok ==> cycle_deleted(*old(store), id, *final(store)),
    {
        if id <= 0 {
            return Err(AppError::validation_error("id", "L'ID doit être un nombre positif"));
        }
        let bi = match store.find_bande(id) {
            Some(i) => i,
            None => return Err(AppError::not_found("Bande", id)),
        };
        let ghost s0 = *store;
        let ghost bats = store.batiments@;
        let ghost sems = store.semaines@;
        // day entries under the cycle's units
        let mut kept_days: Vec<SuiviQuotidien> = Vec::new();
        let mut i: usize = 0;
        while i < store.suivis.len()
            invariant
                *store == s0,
                bats == store.batiments@,
                sems == store.semaines@,
                i <= store.suivis@.len(),
                kept_days@ == store.suivis@.subrange(0, i as int).filter(day_outside_cycle(bats, sems, id)),
            decreases store.suivis@.len() - i,
        {
            let ghost pre = store.suivis@.subrange(0, i as int);
            assert(store.suivis@.subrange(0, i + 1) =~= pre.push(store.suivis@[i as int]));
            proof {
                pre.lemma_filter_push(store.suivis@[i as int], day_outside_cycle(bats, sems, id));
            }
            if !Self::period_in_cycle(store, id, store.suivis[i].semaine_id) {
                kept_days.push(store.suivis[i].duplicate());
            }
            i += 1;
        }
        assert(store.suivis@.subrange(0, store.suivis@.len() as int) =~= store.suivis@);
        // periods of the cycle's units
        let mut kept_sems: Vec<Semaine> = Vec::new();
        let mut j: usize = 0;
        while j < store.semaines.len()
            invariant
                *store == s0,
                bats == store.batiments@,
                j <= store.semaines@.len(),
                kept_sems@ == store.semaines@.subrange(0, j as int).filter(period_outside_cycle(bats, id)),
            decreases store.semaines@.len() - j,
        {
            let ghost pre = store.semaines@.subrange(0, j as int);
            assert(store.semaines@.subrange(0, j + 1) =~= pre.push(store.semaines@[j as int]));
            proof {
                pre.lemma_filter_push(store.semaines@[j as int], period_outside_cycle(bats, id));
            }
            if !Self::unit_in_cycle(store, id, store.semaines[j].batiment_id) {
                kept_sems.push(store.semaines[j]);
            }
            j += 1;
        }
        assert(store.semaines@.subrange(0, store.semaines@.len() as int) =~= store.semaines@);
        // disease links of the cycle's units
        let mut kept_links: Vec<(i64, i64)> = Vec::new();
        let mut m: usize = 0;
        while m < store.batiment_maladies.len()
            invariant
                *store == s0,
                bats == store.batiments@,
                m <= store.batiment_maladies@.len(),
                kept_links@ == store.batiment_maladies@.subrange(0, m as int).filter(link_outside_cycle(bats, id)),
            decreases store.batiment_maladies@.len() - m,
        {
            let ghost pre = store.batiment_maladies@.subrange(0, m as int);
            assert(store.batiment_maladies@.subrange(0, m + 1) =~= pre.push(store.batiment_maladies@[m as int]));
            proof {
                pre.lemma_filter_push(store.batiment_maladies@[m as int], link_outside_cycle(bats, id));
            }
            if !Self::unit_in_cycle(store, id, store.batiment_maladies[m].0) {
                kept_links.push(store.batiment_maladies[m]);
            }
            m += 1;
        }
        assert(store.batiment_maladies@.subrange(0, store.batiment_maladies@.len() as int)
            =~= store.batiment_maladies@);
        // the cycle's units
        let mut kept_units: Vec<Batiment> = Vec::new();
        let mut u: usize = 0;
        while u < store.batiments.len()
            invariant
                *store == s0,
                store.wf(),
                u <= store.batiments@.len(),
                kept_units@ == store.batiments@.subrange(0, u as int).filter(unit_outside_cycle(id)),
            decreases store.batiments@.len() - u,
        {
            let ghost pre = store.batiments@.subrange(0, u as int);
            assert(store.batiments@.subrange(0, u + 1) =~= pre.push(store.batiments@[u as int]));
            proof {
                pre.lemma_filter_push(store.batiments@[u as int], unit_outside_cycle(id));
            }
            if store.batiments[u].bande_id != id {
                kept_units.push(store.batiments[u].duplicate());
            }
            u += 1;
        }
        assert(store.batiments@.subrange(0, store.batiments@.len() as int) =~= store.batiments@);
        // the cycle's adjustment records
        let mut kept_hist: Vec<AlimentationHistory> = Vec::new();
        let mut h: usize = 0;
        while h < store.historique.len()
            invariant
                *store == s0,
                h <= store.historique@.len(),
                kept_hist@ == store.historique@.subrange(0, h as int).filter(not_of_bande(id)),
            decreases store.historique@.len() - h,
        {
            let ghost pre = store.historique@.subrange(0, h as int);
            assert(store.historique@.subrange(0, h + 1) =~= pre.push(store.historique@[h as int]));
            proof {
                pre.lemma_filter_push(store.historique@[h as int], not_of_bande(id));
            }
            if store.historique[h].bande_id != id {
                kept_hist.push(store.historique[h].duplicate());
            }
            h += 1;
        }
        assert(store.historique@.subrange(0, store.historique@.len() as int) =~= store.historique@);
        store.suivis = kept_days;
        store.semaines = kept_sems;
        store.batiment_maladies = kept_links;
        store.batiments = kept_units;
        store.historique = kept_hist;
        store.bandes.remove(bi);
        proof {
            lemma_last_index_spec(s0.bandes@, bande_with_id(id));
            assert forall|k: int| 0 <= k < store.bandes@.len() implies id_below(
                #[trigger] store.bandes@[k].id,
                store.next_id,
            ) by {
                if k < bi {
                    assert(store.bandes@[k] == s0.bandes@[k]);
                } else {
                    assert(store.bandes@[k] == s0.bandes@[k + 1]);
                }
                assert(id_below(s0.bandes@[k].id, s0.next_id));
                assert(id_below(s0.bandes@[k + 1].id, s0.next_id));
            }
            assert forall|k: int| 0 <= k < store.batiments@.len() implies id_below(
                #[trigger] store.batiments@[k].id,
                store.next_id,
            ) by {
                lemma_filter_member(s0.batiments@, unit_outside_cycle(id), k);
                let w = choose|w: int| 0 <= w < s0.batiments@.len() && s0.batiments@[w] == s0.batiments@.filter(unit_outside_cycle(id))[k];
                assert(id_below(s0.batiments@[w].id, s0.next_id));
            }
            assert forall|k: int| 0 <= k < store.historique@.len() implies id_below(
                #[trigger] store.historique@[k].id,
                store.next_id,
            ) by {
                lemma_filter_member(s0.historique@, not_of_bande(id), k);
                let w = choose|w: int| 0 <= w < s0.historique@.len() && s0.historique@[w] == s0.historique@.filter(not_of_bande(id))[k];
                assert(id_below(s0.historique@[w].id, s0.next_id));
            }
            assert forall|k: int| 0 <= k < store.batiments@.len() implies (#[trigger] store.batiments@[k]).bande_id
                < store.next_id by {
                lemma_filter_member(s0.batiments@, unit_outside_cycle(id), k);
                let w = choose|w: int| 0 <= w < s0.batiments@.len() && s0.batiments@[w] == s0.batiments@.filter(unit_outside_cycle(id))[k];
                assert(s0.batiments@[w].bande_id < s0.next_id);
            }
            assert forall|k: int| 0 <= k < store.historique@.len() implies (#[trigger] store.historique@[k]).bande_id
                < store.next_id by {
                lemma_filter_member(s0.historique@, not_of_bande(id), k);
                let w = choose|w: int| 0 <= w < s0.historique@.len() && s0.historique@[w] == s0.historique@.filter(not_of_bande(id))[k];
                assert(s0.historique@[w].bande_id < s0.next_id);
            }
            let rb = |x: Bande, y: Bande| x.id != y.id;
            assert forall|a: int, b: int| 0 <= a < s0.bandes@.len() && 0 <= b < s0.bandes@.len() && a != b implies #[trigger] rb(
                s0.bandes@[a],
                s0.bandes@[b],
            ) by {
                assert(s0.bandes@[a].id != s0.bandes@[b].id);
            }
            crate::lookup::lemma_remove_pairwise(s0.bandes@, bi as int, rb);
            let ru = |x: Batiment, y: Batiment| x.id != y.id;
            assert forall|a: int, b: int| 0 <= a < s0.batiments@.len() && 0 <= b < s0.batiments@.len() && a != b implies #[trigger] ru(
                s0.batiments@[a],
                s0.batiments@[b],
            ) by {
                assert(s0.batiments@[a].id != s0.batiments@[b].id);
            }
            crate::lookup::lemma_filter_pairwise(s0.batiments@, unit_outside_cycle(id), ru);
            assert forall|a: int, b: int| 0 <= a < store.bandes@.len() && 0 <= b < store.bandes@.len() && a != b implies #[trigger] store.bandes@[a].id
                != #[trigger] store.bandes@[b].id by {
                assert(rb(store.bandes@[a], store.bandes@[b]));
            }
            assert forall|a: int, b: int| 0 <= a < store.batiments@.len() && 0 <= b < store.batiments@.len() && a != b implies #[trigger] store.batiments@[a].id
                != #[trigger] store.batiments@[b].id by {
                assert(ru(store.batiments@[a], store.batiments@[b]));
            }
            let rh = |x: AlimentationHistory, y: AlimentationHistory| x.id != y.id;
            assert forall|a: int, b: int| 0 <= a < s0.historique@.len() && 0 <= b < s0.historique@.len() && a != b implies #[trigger] rh(
                s0.historique@[a],
                s0.historique@[b],
            ) by {
                assert(s0.historique@[a].id != s0.historique@[b].id);
            }
            crate::lookup::lemma_filter_pairwise(s0.historique@, not_of_bande(id), rh);
            assert forall|a: int, b: int| 0 <= a < store.historique@.len() && 0 <= b < store.historique@.len() && a != b implies #[trigger] store.historique@[a].id
                != #[trigger] store.historique@[b].id by {
                assert(rh(store.historique@[a], store.historique@[b]));
            }
            lemma_filtered_wf(s0, *store, day_outside_cycle(bats, sems, id), period_outside_cycle(bats, id));
        }
        Ok(())
    }

    fn is_blank(s: &str) -> (r: bool)
        ensures
            r == blank_text(s@),
    {
        let n = s.unicode_len();
        let mut i: usize = 0;
        while i < n
            invariant
                n == s@.len(),
                i <= n,
                forall|j: int| 0 <= j < i ==> is_white_space(#[trigger] s@[j]),
            decreases n - i,
        {
            let c = s.get_char(i);
            let white = ('\u{9}' <= c && c <= '\u{d}') || c == ' ' || c == '\u{85}' || c == '\u{a0}' || c == '\u{1680}'
                || ('\u{2000}' <= c && c <= '\u{200a}') || c == '\u{2028}' || c == '\u{2029}' || c == '\u{202f}'
                || c == '\u{205f}' || c == '\u{3000}';
            if !white {
                return false;
            }
            i += 1;
        }
        true
    }

    fn has_repeat(bs: &Vec<CreateBatiment>) -> (r: bool)
        ensures
            r == numbers_repeat(bs@),
    {
        let mut j: usize = 0;
        while j < bs.len()
            invariant
                j <= bs@.len(),
                forall|a: int, b: int|
                    0 <= a < b < j ==> (#[trigger] bs@[a]).numero_batiment@ != (#[trigger] bs@[b]).numero_batiment@,
            decreases bs@.len() - j,
        {
            let mut i: usize = 0;
            while i < j
                invariant
                    i <= j < bs@.len(),
                    forall|a: int| 0 <= a < i ==> (#[trigger] bs@[a]).numero_batiment@ != bs@[j as int].numero_batiment@,
                decreases j - i,
            {
                if same_text(bs[i].numero_batiment.as_str(), bs[j].numero_batiment.as_str()) {
                    return true;
                }
                i += 1;
            }
            j += 1;
        }
        false
    }

    /// Creates a cycle with its units and the first period of each unit,
    /// all or nothing. Requests are checked before anything is stored: at
    /// least one unit, each with a positive head count and a non-blank
    /// number, no number twice. The units belong to the new cycle whatever
    /// cycle the requests name. Day entries are not stored: they stay
    /// virtual until a field is written.
    pub fn create_bande_with_batiments_and_first_week(
        store: &mut GridStore,
        create_bande: CreateBande,
        batiments: Vec<CreateBatiment>,
    ) -> (r: Result<Bande, AppError>)
        requires
            old(store).wf(),
        ensures
            final(store).wf(),
            r is Err <==> (batiments@.len() == 0 || !old(store).fermes@.contains(create_bande.ferme_id) || (exists|k: int|
                0 <= k < batiments@.len() && unit_request_invalid(*old(store), #[trigger] batiments@[k]))
                || numbers_repeat(batiments@) || numero_for(old(store).bandes@, create_bande.ferme_id) > i32::MAX
                || old(store).next_id > i64::MAX - 1 - 2 * batiments@.len()),
            r is Err ==> *final(store) == *old(store),
            r is Err && numero_for(old(store).bandes@, create_bande.ferme_id) <= i32::MAX && old(store).next_id
                <= i64::MAX - 1 - 2 * batiments@.len() ==> r matches Err(AppError::ValidationError { .. }),
            r matches Ok(b) ==> {
                let first = old(store).next_id;
                let n = batiments@.len() as int;
                &&& b == (Bande {
                    id: Some(first),
                    numero_bande: numero_for(old(store).bandes@, create_bande.ferme_id) as i32,
                    date_entree: create_bande.date_entree,
                    ferme_id: create_bande.ferme_id,
                    notes: create_bande.notes,
                    alimentation_contour: 0,
                })
                &&& final(store).bandes@ == old(store).bandes@.push(b)
                &&& final(store).batiments@.len() == old(store).batiments@.len() + n
                &&& forall|k: int| 0 <= k < n ==> #[trigger] final(store).batiments@[old(store).batiments@.len() + k]
                    == created_unit(first, k, batiments@[k])
                &&& final(store).semaines@.len() == old(store).semaines@.len() + n
                &&& forall|k: int| 0 <= k < n ==> #[trigger] final(store).semaines@[old(store).semaines@.len() + k]
                    == created_week(first, k)
                &&& final(store).next_id == first + 1 + 2 * n
                &&& grown(*old(store), *final(store))
                &&& final(store).suivis@ == old(store).suivis@
            },
    {
        if batiments.len() == 0 {
            return Err(AppError::validation_error("batiments", "Au moins un bâtiment doit être spécifié"));
        }
        if !store.ferme_exists(create_bande.ferme_id) {
            return Err(AppError::validation_error("ferme_id", "La ferme spécifiée n'existe pas"));
        }
        let ghost s_in = *store;
        let mut k: usize = 0;
        while k < batiments.len()
            invariant
                *store == s_in,
                s_in == *old(store),
                s_in.wf(),
                k <= batiments@.len(),
                forall|j: int| 0 <= j < k ==> !unit_request_invalid(s_in, #[trigger] batiments@[j]),
            decreases batiments@.len() - k,
        {
            if batiments[k].quantite <= 0 {
                return Err(AppError::validation_error("quantite", "La quantité doit être supérieure à 0"));
            }
            if Self::is_blank(batiments[k].numero_batiment.as_str()) {
                return Err(
                    AppError::validation_error("numero_batiment", "Le numéro de bâtiment ne peut pas être vide"),
                );
            }
            if batiments[k].poussin_id < 0 {
                return Err(AppError::validation_error("poussin_id", "Un poussin valide doit être sélectionné"));
            }
            if !store.personnel_exists(batiments[k].personnel_id) {
                return Err(AppError::validation_error("personnel_id", "Le personnel spécifié n'existe pas"));
            }
            if !store.poussin_exists(batiments[k].poussin_id) {
                return Err(AppError::validation_error("poussin_id", "Le poussin spécifié n'existe pas"));
            }
            k += 1;
        }
        if Self::has_repeat(&batiments) {
            return Err(
                AppError::validation_error(
                    "numero_batiment",
                    "Ce numéro de bâtiment est déjà utilisé dans cette bande",
                ),
            );
        }
        let numero = match BandeRepository::next_numero(store, create_bande.ferme_id) {
            Some(n) => n,
            None => return Err(AppError::out_of_range("numéro de bande hors limites")),
        };
        if store.next_id as i128 > i64::MAX as i128 - 1 - 2 * (batiments.len() as i128) {
            return Err(AppError::out_of_range("identifiants épuisés"));
        }
        let ghost s0 = *store;
        let first = store.next_id;
        let bande = Bande {
            id: Some(first),
            numero_bande: numero,
            date_entree: create_bande.date_entree,
            ferme_id: create_bande.ferme_id,
            notes: create_bande.notes,
            alimentation_contour: 0,
        };
        store.bandes.push(bande.duplicate());
        store.next_id = first + 1;
        let mut i: usize = 0;
        while i < batiments.len()
            invariant
                s0.wf(),
                first == s0.next_id,
                first <= i64::MAX - 1 - 2 * batiments@.len(),
                i <= batiments@.len(),
                store.next_id == first + 1 + 2 * i,
                store.bandes@ == s0.bandes@.push(bande),
                store.suivis@ == s0.suivis@,
                store.historique@ == s0.historique@,
                store.soins@ == s0.soins@,
                store.fermes@ == s0.fermes@,
                store.personnel@ == s0.personnel@,
                store.poussins@ == s0.poussins@,
                store.batiment_maladies@ == s0.batiment_maladies@,
                store.batiments@.len() == s0.batiments@.len() + i,
                store.semaines@.len() == s0.semaines@.len() + i,
                forall|j: int| 0 <= j < s0.batiments@.len() ==> #[trigger] store.batiments@[j] == s0.batiments@[j],
                forall|j: int| 0 <= j < s0.semaines@.len() ==> #[trigger] store.semaines@[j] == s0.semaines@[j],
                forall|j: int| 0 <= j < i ==> #[trigger] store.batiments@[s0.batiments@.len() + j]
                    == created_unit(first, j, batiments@[j]),
                forall|j: int| 0 <= j < i ==> #[trigger] store.semaines@[s0.semaines@.len() + j]
                    == created_week(first, j),
            decreases batiments@.len() - i,
        {
            let bid = store.next_id;
            let req = &batiments[i];
            let b = Batiment {
                id: Some(bid),
                bande_id: first,
                numero_batiment: req.numero_batiment.clone(),
                poussin_id: req.poussin_id,
                personnel_id: req.personnel_id,
                quantite: req.quantite,
            };
            store.batiments.push(b);
            let w = Semaine { id: Some(bid + 1), batiment_id: bid, numero_semaine: 1, poids: None };
            store.semaines.push(w);
            store.next_id = bid + 2;
            proof {
                assert(store.batiments@[s0.batiments@.len() + i] == created_unit(first, i as int, batiments@[i as int]));
                assert(store.semaines@[s0.semaines@.len() + i] == created_week(first, i as int));
            }
            assert(store.semaines@[s0.semaines@.len() + i] == created_week(first, i as int));
            i += 1;
        }
        proof {
            assert(grown(s0, *store)) by {
                assert forall|j: int| s0.batiments@.len() <= j < store.batiments@.len() implies id_below(
                    (#[trigger] store.batiments@[j]).id,
                    store.next_id,
                ) by {
                    assert(store.batiments@[s0.batiments@.len() + (j - s0.batiments@.len())] == created_unit(
                        first,
                        j - s0.batiments@.len(),
                        batiments@[j - s0.batiments@.len()],
                    ));
                }
                assert forall|j: int| s0.semaines@.len() <= j < store.semaines@.len() implies id_below(
                    (#[trigger] store.semaines@[j]).id,
                    store.next_id,
                ) by {
                    assert(store.semaines@[s0.semaines@.len() + (j - s0.semaines@.len())] == created_week(
                        first,
                        j - s0.semaines@.len(),
                    ));
                }
                assert(store.bandes@[s0.bandes@.len() as int] == bande);
            }
            lemma_grown_ids(s0, *store);
            assert forall|j: int| 0 <= j < store.semaines@.len() implies (#[trigger] store.semaines@[j]).batiment_id
                < store.next_id by {
                let m = s0.semaines@.len() as int;
                if j >= m {
                    assert(store.semaines@[m + (j - m)] == created_week(first, j - m));
                } else {
                    assert(s0.semaines@[j].batiment_id < s0.next_id);
                }
            }
            assert forall|j: int| 0 <= j < store.suivis@.len() implies (#[trigger] store.suivis@[j]).semaine_id
                < store.next_id by {
                assert(s0.suivis@[j].semaine_id < s0.next_id);
            }
            assert forall|j: int| 0 <= j < store.batiments@.len() implies (#[trigger] store.batiments@[j]).bande_id
                < store.next_id by {
                let m = s0.batiments@.len() as int;
                if j >= m {
                    assert(store.batiments@[m + (j - m)] == created_unit(first, j - m, batiments@[j - m]));
                } else {
                    assert(s0.batiments@[j].bande_id < s0.next_id);
                }
            }
            assert forall|j: int| 0 <= j < store.historique@.len() implies (#[trigger] store.historique@[j]).bande_id
                < store.next_id by {
                assert(s0.historique@[j].bande_id < s0.next_id);
            }
            assert(store.suivi_keys_unique());
            assert(store.parent_ids_unique()) by {
                assert forall|a: int, b: int|
                    0 <= a < store.batiments@.len() && 0 <= b < store.batiments@.len() && a != b implies #[trigger] store.batiments@[a].id
                    != #[trigger] store.batiments@[b].id by {
                    let m = s0.batiments@.len() as int;
                    if a >= m {
                        assert(store.batiments@[m + (a - m)] == created_unit(first, a - m, batiments@[a - m]));
                    } else {
                        assert(store.batiments@[a] == s0.batiments@[a]);
                        assert(id_below(s0.batiments@[a].id, s0.next_id));
                    }
                    if b >= m {
                        assert(store.batiments@[m + (b - m)] == created_unit(first, b - m, batiments@[b - m]));
                    } else {
                        assert(store.batiments@[b] == s0.batiments@[b]);
                        assert(id_below(s0.batiments@[b].id, s0.next_id));
                    }
                }
                assert forall|a: int, b: int|
                    0 <= a < store.bandes@.len() && 0 <= b < store.bandes@.len() && a != b implies #[trigger] store.bandes@[a].id
                    != #[trigger] store.bandes@[b].id by {
                    let m = s0.bandes@.len() as int;
                    if a < m {
                        assert(id_below(s0.bandes@[a].id, s0.next_id));
                    }
                    if b < m {
                        assert(id_below(s0.bandes@[b].id, s0.next_id));
                    }
                }
            }
            assert(store.semaine_ids_unique()) by {
                assert forall|a: int, b: int|
                    0 <= a < store.semaines@.len() && 0 <= b < store.semaines@.len() && a != b implies #[trigger] store.semaines@[a].id
                    != #[trigger] store.semaines@[b].id by {
                    let m = s0.semaines@.len() as int;
                    if a >= m {
                        assert(store.semaines@[m + (a - m)] == created_week(first, a - m));
                    } else {
                        assert(store.semaines@[a] == s0.semaines@[a]);
                        assert(id_below(s0.semaines@[a].id, s0.next_id));
                    }
                    if b >= m {
                        assert(store.semaines@[m + (b - m)] == created_week(first, b - m));
                    } else {
                        assert(store.semaines@[b] == s0.semaines@[b]);
                        assert(id_below(s0.semaines@[b].id, s0.next_id));
                    }
                }
            }
            assert(store.semaine_keys_unique()) by {
                assert forall|a: int, b: int|
                    0 <= a < store.semaines@.len() && 0 <= b < store.semaines@.len() && a != b
                        && #[trigger] store.semaines@[a].batiment_id == #[trigger] store.semaines@[b].batiment_id
                        implies store.semaines@[a].numero_semaine != store.semaines@[b].numero_semaine by {
                    let m = s0.semaines@.len() as int;
                    if a >= m && b >= m {
                        assert(store.semaines@[m + (a - m)] == created_week(first, a - m));
                        assert(store.semaines@[m + (b - m)] == created_week(first, b - m));
                    } else if a >= m {
                        assert(store.semaines@[m + (a - m)] == created_week(first, a - m));
                        assert(store.semaines@[b] == s0.semaines@[b]);
                        assert(s0.semaines@[b].batiment_id < first);
                    } else if b >= m {
                        assert(store.semaines@[m + (b - m)] == created_week(first, b - m));
                        assert(store.semaines@[a] == s0.semaines@[a]);
                        assert(s0.semaines@[a].batiment_id < first);
                    } else {
                        assert(store.semaines@[a] == s0.semaines@[a]);
                        assert(store.semaines@[b] == s0.semaines@[b]);
                    }
                }
            }
        }
        Ok(bande)
    }
}

} // verus!
