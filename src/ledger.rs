use vstd::prelude::*;

use crate::error::AppError;
use crate::lookup::{last_index, lemma_last_index_spec, lemma_last_index_update_same};
use crate::models::{AlimentationHistory, Bande, CreateAlimentationHistory, UpdateAlimentationHistory};
use crate::parse::in_i64;
use crate::text::{compare_text, lemma_text_lt_irreflexive_asym, lemma_text_lt_total, lemma_text_lt_transitive, text_lt};
use crate::store::{bande_with_id, history_with_id, id_below, lemma_ids_kept, GridStore};

verus! {

/// Ledger adjustment records of cycles, and the ledger moves that go with
/// them.
pub struct AlimentationRepository;

/// The cycles with the ledger of cycle `c` moved by `delta`; unchanged when
/// `c` is absent.
pub open spec fn adjust(bs: Seq<Bande>, c: i64, delta: int) -> Seq<Bande> {
    match last_index(bs, bande_with_id(c)) {
        Some(k) => bs.update(
            k,
            Bande { alimentation_contour: (bs[k].alimentation_contour + delta) as i64, ..bs[k] },
        ),
        None => bs,
    }
}

/// Whether moving the ledger of cycle `c` by `delta` stays in range.
pub open spec fn adjust_fits(bs: Seq<Bande>, c: i64, delta: int) -> bool {
    match last_index(bs, bande_with_id(c)) {
        Some(k) => in_i64(bs[k].alimentation_contour + delta),
        None => true,
    }
}

/// The ledger of cycle `c`, 0 when absent.
pub open spec fn ledger(bs: Seq<Bande>, c: i64) -> int {
    match last_index(bs, bande_with_id(c)) {
        Some(k) => bs[k].alimentation_contour as int,
        None => 0,
    }
}

/// The ledgers after a record of `v0` on cycle `a` becomes one of `v1` on
/// cycle `b`.
pub open spec fn moved(bs: Seq<Bande>, a: i64, v0: int, b: i64, v1: int) -> Seq<Bande> {
    if a == b {
        adjust(bs, b, v1 - v0)
    } else {
        adjust(adjust(bs, a, -v0), b, v1)
    }
}

pub open spec fn moved_fits(bs: Seq<Bande>, a: i64, v0: int, b: i64, v1: int) -> bool {
    if a == b {
        adjust_fits(bs, b, v1 - v0)
    } else {
        adjust_fits(bs, a, -v0) && adjust_fits(adjust(bs, a, -v0), b, v1)
    }
}

/// Adjustment records of cycle `c`.
pub open spec fn of_bande(c: i64) -> spec_fn(AlimentationHistory) -> bool {
    |h: AlimentationHistory| h.bande_id == c
}

/// The cycles with the ledger of `c` set to zero; unchanged when `c` is
/// absent.
pub open spec fn reset(bs: Seq<Bande>, c: i64) -> Seq<Bande> {
    match last_index(bs, bande_with_id(c)) {
        Some(k) => bs.update(k, Bande { alimentation_contour: 0, ..bs[k] }),
        None => bs,
    }
}

pub open spec fn not_of_bande(c: i64) -> spec_fn(AlimentationHistory) -> bool {
    |h: AlimentationHistory| h.bande_id != c
}

/// Record `x` is listed before record `y`: created later, or at the same
/// time with a larger id.
pub open spec fn history_before(x: AlimentationHistory, y: AlimentationHistory) -> bool {
    ||| text_lt(y.created_at@, x.created_at@)
    ||| (x.created_at@ == y.created_at@ && y.id->0 < x.id->0)
}

proof fn lemma_history_order_total(x: AlimentationHistory, y: AlimentationHistory)
    requires
        x.id is Some,
        y.id is Some,
        x.id != y.id,
    ensures
        history_before(x, y) || history_before(y, x),
{
    lemma_text_lt_total(x.created_at@, y.created_at@);
}

proof fn lemma_history_order_transitive(x: AlimentationHistory, y: AlimentationHistory, z: AlimentationHistory)
    requires
        history_before(x, y),
        history_before(y, z),
    ensures
        history_before(x, z),
{
    if text_lt(y.created_at@, x.created_at@) && text_lt(z.created_at@, y.created_at@) {
        lemma_text_lt_transitive(z.created_at@, y.created_at@, x.created_at@);
    }
}

/// Only the cycles and the adjustment records may differ.
pub open spec fn same_grid(a: GridStore, b: GridStore) -> bool {
    &&& a.batiments@ == b.batiments@
    &&& a.semaines@ == b.semaines@
    &&& a.suivis@ == b.suivis@
    &&& a.soins@ == b.soins@
    &&& a.fermes@ == b.fermes@
    &&& a.personnel@ == b.personnel@
    &&& a.poussins@ == b.poussins@
    &&& a.batiment_maladies@ == b.batiment_maladies@
}

/// What updating record `id` to `u` leaves.
pub open spec fn history_update_post(old: GridStore, id: i64, u: UpdateAlimentationHistory, new: GridStore) -> bool {
    let i = old.history_index(id)->0;
    let h = old.historique@[i];
    &&& new.historique@ == old.historique@.update(
        i,
        AlimentationHistory { bande_id: u.bande_id, quantite: u.quantite, ..h },
    )
    &&& new.bandes@ == moved(old.bandes@, h.bande_id, h.quantite as int, u.bande_id, u.quantite as int)
    &&& new.next_id == old.next_id
    &&& same_grid(old, new)
}

/// Moving a ledger keeps the position of every cycle id and the ids.
pub proof fn lemma_adjust_keeps_ids(bs: Seq<Bande>, c: i64, delta: int)
    ensures
        adjust(bs, c, delta).len() == bs.len(),
        forall|i: int| 0 <= i < bs.len() ==> (#[trigger] adjust(bs, c, delta)[i]).id == bs[i].id,
        forall|x: i64| #[trigger] last_index(adjust(bs, c, delta), bande_with_id(x)) == last_index(bs, bande_with_id(x)),
{
    lemma_last_index_spec(bs, bande_with_id(c));
    if let Some(k) = last_index(bs, bande_with_id(c)) {
        let nb = Bande { alimentation_contour: (bs[k].alimentation_contour + delta) as i64, ..bs[k] };
        assert forall|x: i64| #[trigger] last_index(adjust(bs, c, delta), bande_with_id(x)) == last_index(bs, bande_with_id(x)) by {
            lemma_last_index_update_same(bs, bande_with_id(x), k, nb);
        }
    }
}

/// What moving a ledger does to the ledgers of `c` and of other cycles.
proof fn lemma_adjust_ledger(bs: Seq<Bande>, c: i64, delta: int, x: i64)
    requires
        last_index(bs, bande_with_id(c)) is Some,
        adjust_fits(bs, c, delta),
    ensures
        ledger(adjust(bs, c, delta), x) == if x == c {
            ledger(bs, x) + delta
        } else {
            ledger(bs, x)
        },
{
    lemma_adjust_keeps_ids(bs, c, delta);
    lemma_last_index_spec(bs, bande_with_id(c));
    lemma_last_index_spec(bs, bande_with_id(x));
}

/// Moving the ledger of `a` does not change whether a move of another
/// cycle's ledger fits.
pub proof fn lemma_adjust_fits_other(bs: Seq<Bande>, a: i64, d: int, b: i64, e: int)
    requires
        a != b,
    ensures
        adjust_fits(adjust(bs, a, d), b, e) == adjust_fits(bs, b, e),
{
    lemma_adjust_keeps_ids(bs, a, d);
    lemma_last_index_spec(bs, bande_with_id(a));
    lemma_last_index_spec(bs, bande_with_id(b));
}

/// Moving a ledger by zero changes nothing.
pub proof fn lemma_adjust_zero(bs: Seq<Bande>, c: i64)
    ensures
        adjust(bs, c, 0) =~= bs,
{
    lemma_last_index_spec(bs, bande_with_id(c));
}

/// Moving a record of value `v` from cycle `a` to another cycle `b` takes
/// `v` off the ledger of `a`, adds it to that of `b`, and keeps their sum.
pub proof fn lemma_repoint_conserves(old: GridStore, id: i64, u: UpdateAlimentationHistory, new: GridStore)
    requires
        old.history_index(id) is Some,
        history_update_post(old, id, u, new),
        moved_fits(
            old.bandes@,
            old.historique@[old.history_index(id)->0].bande_id,
            old.historique@[old.history_index(id)->0].quantite as int,
            u.bande_id,
            u.quantite as int,
        ),
        old.historique@[old.history_index(id)->0].bande_id != u.bande_id,
        old.historique@[old.history_index(id)->0].quantite == u.quantite,
        old.bande_index(old.historique@[old.history_index(id)->0].bande_id) is Some,
        old.bande_index(u.bande_id) is Some,
    ensures
        ledger(new.bandes@, old.historique@[old.history_index(id)->0].bande_id) == ledger(
            old.bandes@,
            old.historique@[old.history_index(id)->0].bande_id,
        ) - u.quantite,
        ledger(new.bandes@, u.bande_id) == ledger(old.bandes@, u.bande_id) + u.quantite,
        ledger(new.bandes@, old.historique@[old.history_index(id)->0].bande_id) + ledger(
            new.bandes@,
            u.bande_id,
        ) == ledger(old.bandes@, old.historique@[old.history_index(id)->0].bande_id) + ledger(
            old.bandes@,
            u.bande_id,
        ),
{
    let h = old.historique@[old.history_index(id)->0];
    let a = h.bande_id;
    let b = u.bande_id;
    let v = u.quantite as int;
    let mid = adjust(old.bandes@, a, -v);
    lemma_adjust_ledger(old.bandes@, a, -v, a);
    lemma_adjust_ledger(old.bandes@, a, -v, b);
    lemma_adjust_keeps_ids(old.bandes@, a, -v);
    lemma_adjust_ledger(mid, b, v, a);
    lemma_adjust_ledger(mid, b, v, b);
}

impl AlimentationRepository {
    /// Moves the ledger of cycle `c` by `delta`.
    pub(crate) fn adjust_contour(store: &mut GridStore, c: i64, delta: i128)
        requires
            old(store).wf(),
            adjust_fits(old(store).bandes@, c, delta as int),
        ensures
            final(store).wf(),
            final(store).bandes@ == adjust(old(store).bandes@, c, delta as int),
            final(store).historique@ == old(store).historique@,
            final(store).next_id == old(store).next_id,
            same_grid(*old(store), *final(store)),
    {
        let ghost s0 = *store;
        if let Some(k) = store.find_bande(c) {
            let b = store.bandes[k].duplicate();
            let nc = b.alimentation_contour as i128 + delta;
            store.bandes[k] = Bande { alimentation_contour: nc as i64, ..b };
            proof {
                assert forall|i: int| 0 <= i < store.bandes@.len() implies id_below(
                    #[trigger] store.bandes@[i].id,
                    store.next_id,
                ) by {
                    assert(id_below(s0.bandes@[i].id, s0.next_id));
                }
            }
        }
    }

    /// Whether moving the ledger of `c` by any `delta` stays in range.
    pub(crate) fn adjust_fits_any(store: &GridStore, c: i64, delta: i128) -> (r: bool)
        ensures
            r == adjust_fits(store.bandes@, c, delta as int),
    {
        match store.find_bande(c) {
            Some(k) => {
                if delta > 0x1_0000_0000_0000_0000 || delta < -0x1_0000_0000_0000_0000 {
                    false
                } else {
                    let nc = store.bandes[k].alimentation_contour as i128 + delta;
                    i64::MIN as i128 <= nc && nc <= i64::MAX as i128
                }
            },
            None => true,
        }
    }

    /// Whether moving the ledger of `c` by `delta` stays in range.
    fn adjust_ok(store: &GridStore, c: i64, delta: i128) -> (r: bool)
        requires
            -0x1_0000_0000_0000_0000 <= delta <= 0x1_0000_0000_0000_0000,
        ensures
            r == adjust_fits(store.bandes@, c, delta as int),
    {
        match store.find_bande(c) {
            Some(k) => {
                let nc = store.bandes[k].alimentation_contour as i128 + delta;
                i64::MIN as i128 <= nc && nc <= i64::MAX as i128
            },
            None => true,
        }
    }

    /// Records an adjustment of `quantite` grams on a cycle and adds it to
    /// that cycle's ledger.
    pub fn create(store: &mut GridStore, alimentation: &CreateAlimentationHistory) -> (r: Result<
        AlimentationHistory,
        AppError,
    >)
        requires
            old(store).wf(),
        ensures
            final(store).wf(),
            r is Err <==> (old(store).bande_index(alimentation.bande_id) is None || old(store).next_id
                == i64::MAX || !adjust_fits(old(store).bandes@, alimentation.bande_id, alimentation.quantite as int)),
            r is Err ==> *final(store) == *old(store),
            old(store).bande_index(alimentation.bande_id) is None ==> r matches Err(AppError::ValidationError { .. }),
            old(store).bande_index(alimentation.bande_id) is Some ==> (r matches Err(e) ==> e is ResourceUnavailable),
            r matches Ok(h) ==> {
                &&& h == (AlimentationHistory {
                    id: Some(old(store).next_id),
                    bande_id: alimentation.bande_id,
                    quantite: alimentation.quantite,
                    created_at: alimentation.created_at,
                })
                &&& final(store).historique@ == old(store).historique@.push(h)
                &&& final(store).bandes@ == adjust(old(store).bandes@, alimentation.bande_id, alimentation.quantite as int)
                &&& final(store).next_id == old(store).next_id + 1
                &&& same_grid(*old(store), *final(store))
            },
    {
        if store.find_bande(alimentation.bande_id).is_none() {
            return Err(AppError::validation_error("bande_id", "La bande spécifiée n'existe pas"));
        }
        if store.next_id == i64::MAX {
            return Err(AppError::out_of_range("identifiants épuisés"));
        }
        if !Self::adjust_ok(store, alimentation.bande_id, alimentation.quantite as i128) {
            return Err(AppError::out_of_range("stock d'aliment hors limites"));
        }
        let h = AlimentationHistory {
            id: Some(store.next_id),
            bande_id: alimentation.bande_id,
            quantite: alimentation.quantite,
            created_at: alimentation.created_at.clone(),
        };
        let ghost s0 = *store;
        Self::adjust_contour(store, alimentation.bande_id, alimentation.quantite as i128);
        let ghost s1 = *store;
        proof {
            lemma_last_index_spec(s1.bandes@, bande_with_id(alimentation.bande_id));
            lemma_adjust_keeps_ids(s0.bandes@, alimentation.bande_id, alimentation.quantite as int);
            lemma_last_index_spec(s0.bandes@, bande_with_id(alimentation.bande_id));
            assert(id_below(s0.bandes@[s0.bande_index(alimentation.bande_id)->0].id, s0.next_id));
        }
        store.historique.push(h.duplicate());
        store.next_id = store.next_id + 1;
        proof {
            assert forall|i: int| 0 <= i < store.historique@.len() implies (#[trigger] store.historique@[i]).bande_id
                < store.next_id by {
                if i < s1.historique@.len() {
                    assert(s1.historique@[i].bande_id < s1.next_id);
                }
            }
            assert forall|i: int| 0 <= i < store.batiments@.len() implies (#[trigger] store.batiments@[i]).bande_id
                < store.next_id by {
                assert(s1.batiments@[i].bande_id < s1.next_id);
            }
            assert forall|i: int| 0 <= i < store.semaines@.len() implies (#[trigger] store.semaines@[i]).batiment_id
                < store.next_id by {
                assert(s1.semaines@[i].batiment_id < s1.next_id);
            }
            assert forall|i: int| 0 <= i < store.suivis@.len() implies (#[trigger] store.suivis@[i]).semaine_id
                < store.next_id by {
                assert(s1.suivis@[i].semaine_id < s1.next_id);
            }
            lemma_ids_kept(s1, *store);
        }
        Ok(h)
    }

    /// The records of cycle `bande_id`, the latest first: by creation time,
    /// then by id, both falling.
    pub fn get_by_bande(store: &GridStore, bande_id: i64) -> (r: Vec<AlimentationHistory>)
        requires
            store.wf(),
        ensures
            forall|h: AlimentationHistory| #[trigger] r@.contains(h) <==> (store.historique@.contains(h) && h.bande_id
                == bande_id),
            forall|a: int, b: int| 0 <= a < b < r@.len() ==> history_before(r@[a], r@[b]),
    {
        let mut out: Vec<AlimentationHistory> = Vec::new();
        let mut i: usize = 0;
        while i < store.historique.len()
            invariant
                store.wf(),
                i <= store.historique@.len(),
                forall|h: AlimentationHistory| #[trigger] out@.contains(h) <==> exists|j: int|
                    0 <= j < i && store.historique@[j] == h && h.bande_id == bande_id,
                forall|a: int, b: int| 0 <= a < b < out@.len() ==> history_before(out@[a], out@[b]),
            decreases store.historique@.len() - i,
        {
            if store.historique[i].bande_id == bande_id {
                let x = store.historique[i].duplicate();
                assert(id_below(store.historique@[i as int].id, store.next_id));
                proof {
                    assert forall|m: int| 0 <= m < out@.len() implies out@[m].id is Some && out@[m].id != x.id by {
                        assert(out@.contains(out@[m]));
                        let j = choose|j: int| 0 <= j < i && store.historique@[j] == out@[m] && out@[m].bande_id == bande_id;
                        assert(id_below(store.historique@[j].id, store.next_id));
                        assert(store.historique@[j].id != store.historique@[i as int].id);
                    }
                }
                let mut k: usize = 0;
                while k < out.len() && Self::listed_before(&out[k], &x)
                    invariant
                        k <= out@.len(),
                        x.id is Some,
                        forall|m: int| 0 <= m < out@.len() ==> out@[m].id is Some && out@[m].id != x.id,
                        forall|m: int| 0 <= m < k ==> history_before(out@[m], x),
                    decreases out@.len() - k,
                {
                    k += 1;
                }
                let ghost before = out@;
                proof {
                    assert forall|m: int| k <= m < before.len() implies history_before(x, before[m]) by {
                        lemma_history_order_total(x, before[k as int]);
                        if m > k {
                            lemma_history_order_transitive(x, before[k as int], before[m]);
                        }
                    }
                }
                out.insert(k, x);
                proof {
                    before.insert_ensures(k as int, x);
                    assert forall|w: AlimentationHistory| #[trigger] out@.contains(w) <==> (before.contains(w) || w == x) by {
                        if out@.contains(w) {
                            let m = choose|m: int| 0 <= m < out@.len() && out@[m] == w;
                            if m < k {
                                assert(before[m] == w);
                            } else if m > k {
                                assert(before[m - 1] == w);
                            }
                        }
                        if before.contains(w) {
                            let m = choose|m: int| 0 <= m < before.len() && before[m] == w;
                            if m < k {
                                assert(out@[m] == w);
                            } else {
                                assert(out@[m + 1] == w);
                            }
                        }
                        if w == x {
                            assert(out@[k as int] == x);
                        }
                    }
                    assert forall|a: int, b: int| 0 <= a < b < out@.len() implies history_before(out@[a], out@[b]) by {
                        if b < k {
                        } else if b == k {
                        } else if a < k {
                            assert(out@[b] == before[b - 1]);
                            lemma_history_order_transitive(out@[a], x, before[b - 1]);
                        } else if a == k {
                            assert(out@[b] == before[b - 1]);
                        } else {
                            assert(out@[a] == before[a - 1]);
                            assert(out@[b] == before[b - 1]);
                        }
                    }
                }
            }
            i += 1;
        }
        proof {
            assert forall|h: AlimentationHistory| #[trigger] out@.contains(h) <==> (store.historique@.contains(h)
                && h.bande_id == bande_id) by {
                if store.historique@.contains(h) && h.bande_id == bande_id {
                    let j = choose|j: int| 0 <= j < store.historique@.len() && store.historique@[j] == h;
                    assert(exists|j: int| 0 <= j < i && store.historique@[j] == h && h.bande_id == bande_id);
                }
            }
        }
        out
    }

    /// Whether record `x` is listed before record `y`.
    fn listed_before(x: &AlimentationHistory, y: &AlimentationHistory) -> (r: bool)
        requires
            x.id is Some,
            y.id is Some,
        ensures
            r == history_before(*x, *y),
    {
        let c = compare_text(y.created_at.as_str(), x.created_at.as_str());
        if c < 0 {
            true
        } else if c == 0 {
            y.id.unwrap() < x.id.unwrap()
        } else {
            proof {
                lemma_text_lt_irreflexive_asym(x.created_at@, y.created_at@);
            }
            false
        }
    }

    /// The record with id `id`, if stored.
    pub fn get_by_id(store: &GridStore, id: i64) -> (r: Option<AlimentationHistory>)
        ensures
            match store.history_index(id) {
                Some(i) => r == Some(store.historique@[i]),
                None => r is None,
            },
    {
        match store.find_history(id) {
            Some(i) => Some(store.historique[i].duplicate()),
            None => None,
        }
    }

    /// The ledger of cycle `bande_id`, in grams.
    pub fn get_contour(store: &GridStore, bande_id: i64) -> (r: Result<i64, AppError>)
        ensures
            r is Err <==> store.bande_index(bande_id) is None,
            r matches Err(e) ==> e is NotFound,
            r matches Ok(v) ==> v == ledger(store.bandes@, bande_id),
    {
        match store.find_bande(bande_id) {
            Some(k) => Ok(store.bandes[k].alimentation_contour),
            None => Err(AppError::not_found("Bande", bande_id)),
        }
    }

    /// Changes record `id` to `alimentation`, possibly moving it to another
    /// cycle. On the same cycle the ledger moves by the difference; across
    /// cycles the old value leaves the old cycle and the new value enters
    /// the new one.
    pub fn update(store: &mut GridStore, id: i64, alimentation: &UpdateAlimentationHistory) -> (r: Result<
        (),
        AppError,
    >)
        requires
            old(store).wf(),
        ensures
            final(store).wf(),
            r is Err <==> (old(store).bande_index(alimentation.bande_id) is None || old(store).history_index(id) is None
                || !moved_fits(
                old(store).bandes@,
                old(store).historique@[old(store).history_index(id)->0].bande_id,
                old(store).historique@[old(store).history_index(id)->0].quantite as int,
                alimentation.bande_id,
                alimentation.quantite as int,
            )),
            r is Err ==> *final(store) == *old(store),
            old(store).bande_index(alimentation.bande_id) is None ==> r matches Err(AppError::ValidationError { .. }),
            old(store).bande_index(alimentation.bande_id) is Some && old(store).history_index(id) is None ==> r matches Err(
                AppError::NotFound { .. },
            ),
            old(store).bande_index(alimentation.bande_id) is Some && old(store).history_index(id) is Some ==> (r matches Err(
                e,
            ) ==> e is ResourceUnavailable),
            r is Ok ==> history_update_post(*old(store), id, *alimentation, *final(store)),
    {
        if store.find_bande(alimentation.bande_id).is_none() {
            return Err(AppError::validation_error("bande_id", "La bande spécifiée n'existe pas"));
        }
        let i = match store.find_history(id) {
            Some(i) => i,
            None => return Err(AppError::not_found("Alimentation History", id)),
        };
        let old_bande = store.historique[i].bande_id;
        let old_q = store.historique[i].quantite;
        let b = alimentation.bande_id;
        let q = alimentation.quantite;
        let ghost s0 = *store;
        if old_bande == b {
            if !Self::adjust_ok(store, b, q as i128 - old_q as i128) {
                return Err(AppError::out_of_range("stock d'aliment hors limites"));
            }
            Self::adjust_contour(store, b, q as i128 - old_q as i128);
        } else {
            proof {
                lemma_adjust_fits_other(s0.bandes@, old_bande, -(old_q as int), b, q as int);
            }
            if !Self::adjust_ok(store, old_bande, -(old_q as i128)) || !Self::adjust_ok(store, b, q as i128) {
                return Err(AppError::out_of_range("stock d'aliment hors limites"));
            }
            Self::adjust_contour(store, old_bande, -(old_q as i128));
            Self::adjust_contour(store, b, q as i128);
        }
        let h = store.historique[i].duplicate();
        let ghost s1 = *store;
        store.historique[i] = AlimentationHistory { bande_id: b, quantite: q, ..h };
        proof {
            lemma_last_index_spec(s0.historique@, history_with_id(id));
            lemma_last_index_spec(s0.bandes@, bande_with_id(b));
            assert(id_below(s0.bandes@[s0.bande_index(b)->0].id, s0.next_id));
            assert forall|k: int| 0 <= k < store.historique@.len() implies (#[trigger] store.historique@[k]).bande_id
                < store.next_id by {
                assert(s1.historique@[k].bande_id < s1.next_id);
            }
            assert forall|k: int| 0 <= k < store.historique@.len() implies id_below(
                #[trigger] store.historique@[k].id,
                store.next_id,
            ) by {
                assert(id_below(s1.historique@[k].id, s1.next_id));
            }
        }
        Ok(())
    }

    /// Removes record `id` and takes its value off its cycle's ledger.
    pub fn delete(store: &mut GridStore, id: i64) -> (r: Result<(), AppError>)
        requires
            old(store).wf(),
        ensures
            final(store).wf(),
            r is Err <==> (old(store).history_index(id) is None || !adjust_fits(
                old(store).bandes@,
                old(store).historique@[old(store).history_index(id)->0].bande_id,
                -old(store).historique@[old(store).history_index(id)->0].quantite,
            )),
            r is Err ==> *final(store) == *old(store),
            old(store).history_index(id) is None ==> r matches Err(AppError::NotFound { .. }),
            old(store).history_index(id) is Some ==> (r matches Err(e) ==> e is ResourceUnavailable),
            r is Ok ==> {
                let i = old(store).history_index(id)->0;
                let h = old(store).historique@[i];
                &&& final(store).historique@ == old(store).historique@.remove(i)
                &&& final(store).bandes@ == adjust(old(store).bandes@, h.bande_id, -h.quantite)
                &&& final(store).next_id == old(store).next_id
                &&& same_grid(*old(store), *final(store))
            },
    {
        let i = match store.find_history(id) {
            Some(i) => i,
            None => return Err(AppError::not_found("Alimentation History", id)),
        };
        let c = store.historique[i].bande_id;
        let q = store.historique[i].quantite;
        if !Self::adjust_ok(store, c, -(q as i128)) {
            return Err(AppError::out_of_range("stock d'aliment hors limites"));
        }
        Self::adjust_contour(store, c, -(q as i128));
        let ghost s1 = *store;
        store.historique.remove(i);
        proof {
            assert forall|k: int| 0 <= k < store.historique@.len() implies id_below(
                #[trigger] store.historique@[k].id,
                store.next_id,
            ) by {
                if k < i {
                    assert(store.historique@[k] == s1.historique@[k]);
                } else {
                    assert(store.historique@[k] == s1.historique@[k + 1]);
                }
                assert(id_below(s1.historique@[k].id, s1.next_id));
                assert(id_below(s1.historique@[k + 1].id, s1.next_id));
            }
        }
        Ok(())
    }

    /// Removes every record of cycle `bande_id` and sets its ledger to zero
    /// at once, without subtracting record by record. Returns how many
    /// records were removed.
    pub fn delete_by_bande(store: &mut GridStore, bande_id: i64) -> (r: Result<u64, AppError>)
        requires
            old(store).wf(),
        ensures
            final(store).wf(),
            r matches Ok(n) && n == old(store).historique@.len() - final(store).historique@.len(),
            final(store).historique@ == old(store).historique@.filter(not_of_bande(bande_id)),
            final(store).bandes@ == reset(old(store).bandes@, bande_id),
            final(store).next_id == old(store).next_id,
            same_grid(*old(store), *final(store)),
    {
        let ghost s0 = *store;
        let mut kept: Vec<AlimentationHistory> = Vec::new();
        let mut i: usize = 0;
        while i < store.historique.len()
            invariant
                *store == s0,
                store.wf(),
                i <= store.historique@.len(),
                kept@ == store.historique@.subrange(0, i as int).filter(not_of_bande(bande_id)),
                kept@.len() <= i,
                forall|k: int| 0 <= k < kept@.len() ==> id_below(#[trigger] kept@[k].id, store.next_id),
                forall|k: int| 0 <= k < kept@.len() ==> (#[trigger] kept@[k]).bande_id < store.next_id,
            decreases store.historique@.len() - i,
        {
            let ghost pre = store.historique@.subrange(0, i as int);
            assert(store.historique@.subrange(0, i + 1) =~= pre.push(store.historique@[i as int]));
            proof {
                pre.lemma_filter_push(store.historique@[i as int], not_of_bande(bande_id));
                assert(id_below(store.historique@[i as int].id, store.next_id));
                assert(store.historique@[i as int].bande_id < store.next_id);
            }
            if store.historique[i].bande_id != bande_id {
                kept.push(store.historique[i].duplicate());
            }
            i += 1;
        }
        assert(store.historique@.subrange(0, store.historique@.len() as int) =~= store.historique@);
        proof {
            let rh = |x: AlimentationHistory, y: AlimentationHistory| x.id != y.id;
            assert forall|a: int, b: int| 0 <= a < s0.historique@.len() && 0 <= b < s0.historique@.len() && a != b implies #[trigger] rh(
                s0.historique@[a],
                s0.historique@[b],
            ) by {
                assert(s0.historique@[a].id != s0.historique@[b].id);
            }
            crate::lookup::lemma_filter_pairwise(s0.historique@, not_of_bande(bande_id), rh);
            assert forall|a: int, b: int| 0 <= a < kept@.len() && 0 <= b < kept@.len() && a != b implies #[trigger] kept@[a].id
                != #[trigger] kept@[b].id by {
                assert(rh(kept@[a], kept@[b]));
            }
        }
        let removed = (store.historique.len() - kept.len()) as u64;
        store.historique = kept;
        if let Some(k) = store.find_bande(bande_id) {
            let b = store.bandes[k].duplicate();
            store.bandes[k] = Bande { alimentation_contour: 0, ..b };
        }
        proof {
            assert forall|k: int| 0 <= k < store.bandes@.len() implies id_below(
                #[trigger] store.bandes@[k].id,
                store.next_id,
            ) by {
                assert(id_below(s0.bandes@[k].id, s0.next_id));
            }
        }
        Ok(removed)
    }
}

} // verus!
