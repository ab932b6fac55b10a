use vstd::prelude::*;

use crate::lookup::{
    last_index, lemma_filter_member, lemma_filter_pairwise, lemma_last_index_at,
    lemma_last_index_none,
};
use crate::models::{AlimentationHistory, Bande, Batiment, Semaine, SuiviQuotidien};

verus! {

/// The grid store: cycles, units, periods, day entries and ledger
/// adjustments, with the care-product catalog and the unit-to-disease links
/// that the grid logic checks and cleans up.
pub struct GridStore {
    pub bandes: Vec<Bande>,
    pub batiments: Vec<Batiment>,
    pub semaines: Vec<Semaine>,
    pub suivis: Vec<SuiviQuotidien>,
    pub historique: Vec<AlimentationHistory>,
    /// Ids of the care products of the catalog.
    pub soins: Vec<i64>,
    /// Ids of the farms.
    pub fermes: Vec<i64>,
    /// Ids of the staff members.
    pub personnel: Vec<i64>,
    /// Ids of the hatchling types.
    pub poussins: Vec<i64>,
    /// Links between a unit and a recorded disease: `(batiment_id, maladie_id)`.
    pub batiment_maladies: Vec<(i64, i64)>,
    /// The id that the next stored row receives.
    pub next_id: i64,
}

pub open spec fn bande_with_id(id: i64) -> spec_fn(Bande) -> bool {
    |b: Bande| b.id == Some(id)
}

pub open spec fn batiment_with_id(id: i64) -> spec_fn(Batiment) -> bool {
    |b: Batiment| b.id == Some(id)
}

pub open spec fn semaine_with_id(id: i64) -> spec_fn(Semaine) -> bool {
    |s: Semaine| s.id == Some(id)
}

/// The period of unit `b` with number `n`.
pub open spec fn semaine_at(b: i64, n: i32) -> spec_fn(Semaine) -> bool {
    |s: Semaine| s.batiment_id == b && s.numero_semaine == n
}

/// The day entry of period `sid` at `age`.
pub open spec fn suivi_at(sid: i64, age: i32) -> spec_fn(SuiviQuotidien) -> bool {
    |d: SuiviQuotidien| d.semaine_id == sid && d.age == age
}

pub open spec fn suivi_with_id(id: i64) -> spec_fn(SuiviQuotidien) -> bool {
    |d: SuiviQuotidien| d.id == Some(id)
}

pub open spec fn history_with_id(id: i64) -> spec_fn(AlimentationHistory) -> bool {
    |h: AlimentationHistory| h.id == Some(id)
}

pub open spec fn id_below(id: Option<i64>, next: i64) -> bool {
    id matches Some(v) && 0 < v < next
}

/// `t` is `s` with rows appended whose ids are below `next`.
pub open spec fn appended<T>(s: Seq<T>, t: Seq<T>, id_of: spec_fn(T) -> Option<i64>, next: i64) -> bool {
    &&& s.len() <= t.len()
    &&& forall|i: int| 0 <= i < s.len() ==> #[trigger] t[i] == s[i]
    &&& forall|i: int| s.len() <= i < t.len() ==> id_below(id_of(#[trigger] t[i]), next)
}

/// Store `b` is store `a` with rows appended with fresh ids; the other
/// tables are equal.
pub open spec fn grown(a: GridStore, b: GridStore) -> bool {
    &&& a.next_id <= b.next_id
    &&& appended(a.bandes@, b.bandes@, |x: Bande| x.id, b.next_id)
    &&& appended(a.batiments@, b.batiments@, |x: Batiment| x.id, b.next_id)
    &&& appended(a.semaines@, b.semaines@, |x: Semaine| x.id, b.next_id)
    &&& appended(a.suivis@, b.suivis@, |x: SuiviQuotidien| x.id, b.next_id)
    &&& a.historique@ == b.historique@
    &&& a.soins@ == b.soins@
    &&& a.fermes@ == b.fermes@
    &&& a.personnel@ == b.personnel@
    &&& a.poussins@ == b.poussins@
    &&& a.batiment_maladies@ == b.batiment_maladies@
}

/// A store grown with fresh ids keeps every id below the counter.
pub proof fn lemma_grown_ids(a: GridStore, b: GridStore)
    requires
        a.ids_below_next(),
        grown(a, b),
    ensures
        b.ids_below_next(),
{
    assert forall|i: int| 0 <= i < b.bandes@.len() implies id_below(#[trigger] b.bandes@[i].id, b.next_id) by {
        if i < a.bandes@.len() {
            assert(b.bandes@[i] == a.bandes@[i]);
            assert(id_below(a.bandes@[i].id, a.next_id));
        }
    }
    assert forall|i: int| 0 <= i < b.batiments@.len() implies id_below(#[trigger] b.batiments@[i].id, b.next_id) by {
        if i < a.batiments@.len() {
            assert(b.batiments@[i] == a.batiments@[i]);
            assert(id_below(a.batiments@[i].id, a.next_id));
        }
    }
    assert forall|i: int| 0 <= i < b.semaines@.len() implies id_below(#[trigger] b.semaines@[i].id, b.next_id) by {
        if i < a.semaines@.len() {
            assert(b.semaines@[i] == a.semaines@[i]);
            assert(id_below(a.semaines@[i].id, a.next_id));
        }
    }
    assert forall|i: int| 0 <= i < b.suivis@.len() implies id_below(#[trigger] b.suivis@[i].id, b.next_id) by {
        if i < a.suivis@.len() {
            assert(b.suivis@[i] == a.suivis@[i]);
            assert(id_below(a.suivis@[i].id, a.next_id));
        }
    }
    assert forall|i: int| 0 <= i < b.historique@.len() implies id_below(#[trigger] b.historique@[i].id, b.next_id) by {
        assert(id_below(a.historique@[i].id, a.next_id));
    }
}

/// A larger counter keeps the references of unchanged tables below it.
pub proof fn lemma_refs_kept(a: GridStore, b: GridStore)
    requires
        a.refs_below_next(),
        a.next_id <= b.next_id,
        b.semaines@ == a.semaines@,
        b.suivis@ == a.suivis@,
        b.historique@ == a.historique@,
        a.batiments@.len() <= b.batiments@.len(),
        forall|i: int| 0 <= i < a.batiments@.len() ==> #[trigger] b.batiments@[i] == a.batiments@[i],
        forall|i: int| a.batiments@.len() <= i < b.batiments@.len() ==> (#[trigger] b.batiments@[i]).bande_id < b.next_id,
    ensures
        b.refs_below_next(),
{
    assert forall|i: int| 0 <= i < b.batiments@.len() implies (#[trigger] b.batiments@[i]).bande_id < b.next_id by {
        if i < a.batiments@.len() {
            assert(b.batiments@[i] == a.batiments@[i]);
            assert(a.batiments@[i].bande_id < a.next_id);
        }
    }
    assert forall|i: int| 0 <= i < b.semaines@.len() implies (#[trigger] b.semaines@[i]).batiment_id < b.next_id by {
        assert(a.semaines@[i].batiment_id < a.next_id);
    }
    assert forall|i: int| 0 <= i < b.suivis@.len() implies (#[trigger] b.suivis@[i]).semaine_id < b.next_id by {
        assert(a.suivis@[i].semaine_id < a.next_id);
    }
    assert forall|i: int| 0 <= i < b.historique@.len() implies (#[trigger] b.historique@[i]).bande_id < b.next_id by {
        assert(a.historique@[i].bande_id < a.next_id);
    }
}

/// A store whose rows keep their ids, or carry ids below its counter, keeps
/// every id below the counter.
pub proof fn lemma_ids_kept(a: GridStore, b: GridStore)
    requires
        a.ids_below_next(),
        a.next_id <= b.next_id,
        b.bandes@.len() == a.bandes@.len(),
        forall|i: int| 0 <= i < a.bandes@.len() ==> (#[trigger] b.bandes@[i]).id == a.bandes@[i].id,
        b.batiments@ == a.batiments@,
        b.semaines@ == a.semaines@,
        forall|i: int|
            0 <= i < b.suivis@.len() ==> (i < a.suivis@.len() && (#[trigger] b.suivis@[i]).id == a.suivis@[i].id)
                || id_below(b.suivis@[i].id, b.next_id),
        forall|i: int|
            0 <= i < b.historique@.len() ==> (i < a.historique@.len() && (#[trigger] b.historique@[i]).id
                == a.historique@[i].id) || id_below(b.historique@[i].id, b.next_id),
    ensures
        b.ids_below_next(),
{
    assert forall|i: int| 0 <= i < b.bandes@.len() implies id_below(#[trigger] b.bandes@[i].id, b.next_id) by {
        assert(id_below(a.bandes@[i].id, a.next_id));
    }
    assert forall|i: int| 0 <= i < b.batiments@.len() implies id_below(#[trigger] b.batiments@[i].id, b.next_id) by {
        assert(id_below(a.batiments@[i].id, a.next_id));
    }
    assert forall|i: int| 0 <= i < b.semaines@.len() implies id_below(#[trigger] b.semaines@[i].id, b.next_id) by {
        assert(id_below(a.semaines@[i].id, a.next_id));
    }
    assert forall|i: int| 0 <= i < b.suivis@.len() implies id_below(#[trigger] b.suivis@[i].id, b.next_id) by {
        if i < a.suivis@.len() && b.suivis@[i].id == a.suivis@[i].id {
            assert(id_below(a.suivis@[i].id, a.next_id));
        }
    }
    assert forall|i: int| 0 <= i < b.historique@.len() implies id_below(#[trigger] b.historique@[i].id, b.next_id) by {
        if i < a.historique@.len() && b.historique@[i].id == a.historique@[i].id {
            assert(id_below(a.historique@[i].id, a.next_id));
        }
    }
}

/// A store whose period and day tables are filters of a well-formed
/// store's, with the same id counter and with ids below it in the other
/// tables, is well-formed.
pub proof fn lemma_filtered_wf(
    s0: GridStore,
    s1: GridStore,
    sp: spec_fn(SuiviQuotidien) -> bool,
    pp: spec_fn(Semaine) -> bool,
)
    requires
        s0.wf(),
        s1.suivis@ == s0.suivis@.filter(sp),
        s1.semaines@ == s0.semaines@.filter(pp),
        s1.next_id == s0.next_id,
        forall|i: int| 0 <= i < s1.bandes@.len() ==> id_below(#[trigger] s1.bandes@[i].id, s1.next_id),
        forall|i: int| 0 <= i < s1.batiments@.len() ==> id_below(#[trigger] s1.batiments@[i].id, s1.next_id),
        forall|i: int| 0 <= i < s1.historique@.len() ==> id_below(#[trigger] s1.historique@[i].id, s1.next_id),
        forall|i: int| 0 <= i < s1.batiments@.len() ==> (#[trigger] s1.batiments@[i]).bande_id < s1.next_id,
        forall|i: int| 0 <= i < s1.historique@.len() ==> (#[trigger] s1.historique@[i]).bande_id < s1.next_id,
        s1.parent_ids_unique(),
        forall|i: int, j: int|
            0 <= i < s1.historique@.len() && 0 <= j < s1.historique@.len() && i != j ==> #[trigger] s1.historique@[i].id
                != #[trigger] s1.historique@[j].id,
    ensures
        s1.wf(),
{
    let rid = |x: SuiviQuotidien, y: SuiviQuotidien| x.id != y.id;
    assert forall|i: int, j: int| 0 <= i < s0.suivis@.len() && 0 <= j < s0.suivis@.len() && i != j implies #[trigger] rid(
        s0.suivis@[i],
        s0.suivis@[j],
    ) by {
        assert(s0.suivis@[i].id != s0.suivis@[j].id);
    }
    lemma_filter_pairwise(s0.suivis@, sp, rid);
    assert forall|i: int, j: int| 0 <= i < s1.suivis@.len() && 0 <= j < s1.suivis@.len() && i != j implies #[trigger] s1.suivis@[i].id
        != #[trigger] s1.suivis@[j].id by {
        assert(rid(s1.suivis@[i], s1.suivis@[j]));
    }
    assert forall|i: int| 0 <= i < s1.suivis@.len() implies id_below((#[trigger] s1.suivis@[i]).id, s1.next_id)
        && s1.suivis@[i].semaine_id < s1.next_id by {
        lemma_filter_member(s0.suivis@, sp, i);
        let k = choose|k: int| 0 <= k < s0.suivis@.len() && s0.suivis@[k] == s0.suivis@.filter(sp)[i];
        assert(id_below(s0.suivis@[k].id, s0.next_id));
        assert(s0.suivis@[k].semaine_id < s0.next_id);
    }
    assert forall|i: int| 0 <= i < s1.semaines@.len() implies id_below((#[trigger] s1.semaines@[i]).id, s1.next_id)
        && s1.semaines@[i].batiment_id < s1.next_id by {
        lemma_filter_member(s0.semaines@, pp, i);
        let k = choose|k: int| 0 <= k < s0.semaines@.len() && s0.semaines@[k] == s0.semaines@.filter(pp)[i];
        assert(id_below(s0.semaines@[k].id, s0.next_id));
        assert(s0.semaines@[k].batiment_id < s0.next_id);
    }
    assert(s1.ids_below_next());
    assert(s1.refs_below_next());
    let rs = |x: Semaine, y: Semaine| x.batiment_id == y.batiment_id ==> x.numero_semaine != y.numero_semaine;
    assert forall|i: int, j: int| 0 <= i < s0.semaines@.len() && 0 <= j < s0.semaines@.len() && i != j implies #[trigger] rs(
        s0.semaines@[i],
        s0.semaines@[j],
    ) by {
        if s0.semaines@[i].batiment_id == s0.semaines@[j].batiment_id {
        }
    }
    lemma_filter_pairwise(s0.semaines@, pp, rs);
    assert(s1.semaine_keys_unique()) by {
        assert forall|i: int, j: int|
            0 <= i < s1.semaines@.len() && 0 <= j < s1.semaines@.len() && i != j
                && #[trigger] s1.semaines@[i].batiment_id == #[trigger] s1.semaines@[j].batiment_id
                implies s1.semaines@[i].numero_semaine != s1.semaines@[j].numero_semaine by {
            assert(rs(s1.semaines@[i], s1.semaines@[j]));
        }
    }
    let ri = |x: Semaine, y: Semaine| x.id != y.id;
    assert forall|i: int, j: int| 0 <= i < s0.semaines@.len() && 0 <= j < s0.semaines@.len() && i != j implies #[trigger] ri(
        s0.semaines@[i],
        s0.semaines@[j],
    ) by {
        assert(s0.semaines@[i].id != s0.semaines@[j].id);
    }
    lemma_filter_pairwise(s0.semaines@, pp, ri);
    assert(s1.semaine_ids_unique()) by {
        assert forall|i: int, j: int|
            0 <= i < s1.semaines@.len() && 0 <= j < s1.semaines@.len() && i != j implies #[trigger] s1.semaines@[i].id
            != #[trigger] s1.semaines@[j].id by {
            assert(ri(s1.semaines@[i], s1.semaines@[j]));
        }
    }
    let rd = |x: SuiviQuotidien, y: SuiviQuotidien| x.semaine_id == y.semaine_id ==> x.age != y.age;
    assert forall|i: int, j: int| 0 <= i < s0.suivis@.len() && 0 <= j < s0.suivis@.len() && i != j implies #[trigger] rd(
        s0.suivis@[i],
        s0.suivis@[j],
    ) by {
        if s0.suivis@[i].semaine_id == s0.suivis@[j].semaine_id {
        }
    }
    lemma_filter_pairwise(s0.suivis@, sp, rd);
    assert(s1.suivi_keys_unique()) by {
        assert forall|i: int, j: int|
            0 <= i < s1.suivis@.len() && 0 <= j < s1.suivis@.len() && i != j
                && #[trigger] s1.suivis@[i].semaine_id == #[trigger] s1.suivis@[j].semaine_id
                implies s1.suivis@[i].age != s1.suivis@[j].age by {
            assert(rd(s1.suivis@[i], s1.suivis@[j]));
        }
    }
}

/// Whether `ids` holds `id`.
fn listed(ids: &Vec<i64>, id: i64) -> (r: bool)
    ensures
        r == ids@.contains(id),
{
    let mut i: usize = 0;
    while i < ids.len()
        invariant
            i <= ids@.len(),
            forall|j: int| 0 <= j < i ==> ids@[j] != id,
        decreases ids@.len() - i,
    {
        if ids[i] == id {
            assert(ids@[i as int] == id);
            return true;
        }
        i += 1;
    }
    false
}

impl GridStore {
    /// Every stored row has an id below `next_id`.
    pub open spec fn ids_below_next(&self) -> bool {
        &&& forall|i: int| 0 <= i < self.bandes@.len() ==> id_below(#[trigger] self.bandes@[i].id, self.next_id)
        &&& forall|i: int| 0 <= i < self.batiments@.len() ==> id_below(#[trigger] self.batiments@[i].id, self.next_id)
        &&& forall|i: int| 0 <= i < self.semaines@.len() ==> id_below(#[trigger] self.semaines@[i].id, self.next_id)
        &&& forall|i: int| 0 <= i < self.suivis@.len() ==> id_below(#[trigger] self.suivis@[i].id, self.next_id)
        &&& forall|i: int| 0 <= i < self.historique@.len() ==> id_below(#[trigger] self.historique@[i].id, self.next_id)
    }

    /// No two periods of a unit share a number.
    pub open spec fn semaine_keys_unique(&self) -> bool {
        forall|i: int, j: int|
            0 <= i < self.semaines@.len() && 0 <= j < self.semaines@.len() && i != j
                && #[trigger] self.semaines@[i].batiment_id == #[trigger] self.semaines@[j].batiment_id
                ==> self.semaines@[i].numero_semaine != self.semaines@[j].numero_semaine
    }

    /// No two day entries of a period share an age.
    pub open spec fn suivi_keys_unique(&self) -> bool {
        forall|i: int, j: int|
            0 <= i < self.suivis@.len() && 0 <= j < self.suivis@.len() && i != j
                && #[trigger] self.suivis@[i].semaine_id == #[trigger] self.suivis@[j].semaine_id
                ==> self.suivis@[i].age != self.suivis@[j].age
    }

    /// Units, periods, day entries and adjustment records refer to ids
    /// that were already handed out.
    pub open spec fn refs_below_next(&self) -> bool {
        &&& forall|i: int| 0 <= i < self.batiments@.len() ==> (#[trigger] self.batiments@[i]).bande_id < self.next_id
        &&& forall|i: int| 0 <= i < self.semaines@.len() ==> (#[trigger] self.semaines@[i]).batiment_id < self.next_id
        &&& forall|i: int| 0 <= i < self.suivis@.len() ==> (#[trigger] self.suivis@[i]).semaine_id < self.next_id
        &&& forall|i: int| 0 <= i < self.historique@.len() ==> (#[trigger] self.historique@[i]).bande_id < self.next_id
    }

    /// No two periods share an id.
    pub open spec fn semaine_ids_unique(&self) -> bool {
        forall|i: int, j: int|
            0 <= i < self.semaines@.len() && 0 <= j < self.semaines@.len() && i != j ==> #[trigger] self.semaines@[i].id
                != #[trigger] self.semaines@[j].id
    }

    /// No two cycles, and no two units, share an id.
    pub open spec fn parent_ids_unique(&self) -> bool {
        &&& forall|i: int, j: int|
            0 <= i < self.bandes@.len() && 0 <= j < self.bandes@.len() && i != j ==> #[trigger] self.bandes@[i].id
                != #[trigger] self.bandes@[j].id
        &&& forall|i: int, j: int|
            0 <= i < self.batiments@.len() && 0 <= j < self.batiments@.len() && i != j ==> #[trigger] self.batiments@[i].id
                != #[trigger] self.batiments@[j].id
    }

    /// No two day entries, and no two adjustment records, share an id.
    pub open spec fn leaf_ids_unique(&self) -> bool {
        &&& forall|i: int, j: int|
            0 <= i < self.suivis@.len() && 0 <= j < self.suivis@.len() && i != j ==> #[trigger] self.suivis@[i].id
                != #[trigger] self.suivis@[j].id
        &&& forall|i: int, j: int|
            0 <= i < self.historique@.len() && 0 <= j < self.historique@.len() && i != j ==> #[trigger] self.historique@[i].id
                != #[trigger] self.historique@[j].id
    }

    pub open spec fn wf(&self) -> bool {
        &&& 0 < self.next_id
        &&& self.leaf_ids_unique()
        &&& self.ids_below_next()
        &&& self.refs_below_next()
        &&& self.semaine_ids_unique()
        &&& self.parent_ids_unique()
        &&& self.semaine_keys_unique()
        &&& self.suivi_keys_unique()
    }

    pub open spec fn bande_index(&self, id: i64) -> Option<int> {
        last_index(self.bandes@, bande_with_id(id))
    }

    pub open spec fn batiment_index(&self, id: i64) -> Option<int> {
        last_index(self.batiments@, batiment_with_id(id))
    }

    pub open spec fn semaine_index(&self, id: i64) -> Option<int> {
        last_index(self.semaines@, semaine_with_id(id))
    }

    pub open spec fn semaine_number_index(&self, b: i64, n: i32) -> Option<int> {
        last_index(self.semaines@, semaine_at(b, n))
    }

    pub open spec fn suivi_index(&self, sid: i64, age: i32) -> Option<int> {
        last_index(self.suivis@, suivi_at(sid, age))
    }

    pub open spec fn suivi_id_index(&self, id: i64) -> Option<int> {
        last_index(self.suivis@, suivi_with_id(id))
    }

    pub open spec fn history_index(&self, id: i64) -> Option<int> {
        last_index(self.historique@, history_with_id(id))
    }

    pub open spec fn has_soin(&self, id: i64) -> bool {
        self.soins@.contains(id)
    }

    /// An empty store.
    pub fn new() -> (r: GridStore)
        ensures
            r.wf(),
            r.next_id == 1,
            r.bandes@.len() == 0,
            r.batiments@.len() == 0,
            r.semaines@.len() == 0,
            r.suivis@.len() == 0,
            r.historique@.len() == 0,
            r.soins@.len() == 0,
            r.batiment_maladies@.len() == 0,
    {
        GridStore {
            bandes: Vec::new(),
            batiments: Vec::new(),
            semaines: Vec::new(),
            suivis: Vec::new(),
            historique: Vec::new(),
            soins: Vec::new(),
            fermes: Vec::new(),
            personnel: Vec::new(),
            poussins: Vec::new(),
            batiment_maladies: Vec::new(),
            next_id: 1,
        }
    }

    fn id_ok(id: Option<i64>, next: i64) -> (r: bool)
        ensures
            r == id_below(id, next),
    {
        match id {
            Some(v) => 0 < v && v < next,
            None => false,
        }
    }

    /// Whether the store is well-formed; a store read from outside is
    /// checked with this before it is handed to the other operations.
    pub fn is_well_formed(&self) -> (r: bool)
        ensures
            r == self.wf(),
    {
        let next = self.next_id;
        if next <= 0 {
            return false;
        }
        let mut i: usize = 0;
        while i < self.bandes.len()
            invariant
                next == self.next_id,
                i <= self.bandes@.len(),
                forall|k: int| 0 <= k < i ==> id_below(#[trigger] self.bandes@[k].id, next),
                forall|a: int, b: int| 0 <= a < i && 0 <= b < i && a != b ==> #[trigger] self.bandes@[a].id != #[trigger] self.bandes@[b].id,
            decreases self.bandes@.len() - i,
        {
            if !Self::id_ok(self.bandes[i].id, next) {
                assert(!id_below(self.bandes@[i as int].id, self.next_id));
                return false;
            }
            let mut j: usize = 0;
            while j < i
                invariant
                    j <= i < self.bandes@.len(),
                    forall|b: int| 0 <= b < j ==> #[trigger] self.bandes@[b].id != self.bandes@[i as int].id,
                decreases i - j,
            {
                if self.bandes[j].id == self.bandes[i].id {
                    return false;
                }
                j += 1;
            }
            i += 1;
        }
        let mut i: usize = 0;
        while i < self.batiments.len()
            invariant
                next == self.next_id,
                i <= self.batiments@.len(),
                forall|k: int| 0 <= k < i ==> id_below(#[trigger] self.batiments@[k].id, next),
                forall|k: int| 0 <= k < i ==> (#[trigger] self.batiments@[k]).bande_id < next,
                forall|a: int, b: int| 0 <= a < i && 0 <= b < i && a != b ==> #[trigger] self.batiments@[a].id != #[trigger] self.batiments@[b].id,
            decreases self.batiments@.len() - i,
        {
            if !Self::id_ok(self.batiments[i].id, next) {
                assert(!id_below(self.batiments@[i as int].id, self.next_id));
                return false;
            }
            if self.batiments[i].bande_id >= next {
                assert(!(self.batiments@[i as int].bande_id < self.next_id));
                return false;
            }
            let mut j: usize = 0;
            while j < i
                invariant
                    j <= i < self.batiments@.len(),
                    forall|b: int| 0 <= b < j ==> #[trigger] self.batiments@[b].id != self.batiments@[i as int].id,
                decreases i - j,
            {
                if self.batiments[j].id == self.batiments[i].id {
                    return false;
                }
                j += 1;
            }
            i += 1;
        }
        let mut i: usize = 0;
        while i < self.historique.len()
            invariant
                next == self.next_id,
                i <= self.historique@.len(),
                forall|k: int| 0 <= k < i ==> id_below(#[trigger] self.historique@[k].id, next),
                forall|k: int| 0 <= k < i ==> (#[trigger] self.historique@[k]).bande_id < next,
                forall|a: int, b: int|
                    0 <= a < i && 0 <= b < i && a != b ==> #[trigger] self.historique@[a].id != #[trigger] self.historique@[b].id,
            decreases self.historique@.len() - i,
        {
            if !Self::id_ok(self.historique[i].id, next) {
                assert(!id_below(self.historique@[i as int].id, self.next_id));
                return false;
            }
            if self.historique[i].bande_id >= next {
                assert(!(self.historique@[i as int].bande_id < self.next_id));
                return false;
            }
            let mut j: usize = 0;
            while j < i
                invariant
                    j <= i < self.historique@.len(),
                    forall|b: int| 0 <= b < j ==> #[trigger] self.historique@[b].id != self.historique@[i as int].id,
                decreases i - j,
            {
                if self.historique[j].id == self.historique[i].id {
                    return false;
                }
                j += 1;
            }
            i += 1;
        }
        let mut i: usize = 0;
        while i < self.semaines.len()
            invariant
                next == self.next_id,
                i <= self.semaines@.len(),
                forall|k: int|
                    0 <= k < i ==> id_below((#[trigger] self.semaines@[k]).id, next) && self.semaines@[k].batiment_id
                        < next,
                forall|a: int, b: int|
                    0 <= a < i && 0 <= b < i && a != b && #[trigger] self.semaines@[a].batiment_id
                        == #[trigger] self.semaines@[b].batiment_id ==> self.semaines@[a].numero_semaine
                        != self.semaines@[b].numero_semaine,
                forall|a: int, b: int|
                    0 <= a < i && 0 <= b < i && a != b ==> #[trigger] self.semaines@[a].id != #[trigger] self.semaines@[b].id,
            decreases self.semaines@.len() - i,
        {
            let w = self.semaines[i];
            if !Self::id_ok(w.id, next) || w.batiment_id >= next {
                assert(!(id_below(self.semaines@[i as int].id, self.next_id) && self.semaines@[i as int].batiment_id
                    < self.next_id));
                return false;
            }
            let mut j: usize = 0;
            while j < i
                invariant
                    j <= i < self.semaines@.len(),
                    w == self.semaines@[i as int],
                    forall|b: int|
                        0 <= b < j ==> !(#[trigger] self.semaines@[b].batiment_id == w.batiment_id
                            && self.semaines@[b].numero_semaine == w.numero_semaine),
                    forall|b: int| 0 <= b < j ==> #[trigger] self.semaines@[b].id != w.id,
                decreases i - j,
            {
                if self.semaines[j].batiment_id == w.batiment_id && self.semaines[j].numero_semaine == w.numero_semaine {
                    return false;
                }
                if self.semaines[j].id == w.id {
                    return false;
                }
                j += 1;
            }
            i += 1;
        }
        let mut i: usize = 0;
        while i < self.suivis.len()
            invariant
                next == self.next_id,
                i <= self.suivis@.len(),
                forall|k: int|
                    0 <= k < i ==> id_below((#[trigger] self.suivis@[k]).id, next) && self.suivis@[k].semaine_id < next,
                forall|a: int, b: int|
                    0 <= a < i && 0 <= b < i && a != b && #[trigger] self.suivis@[a].semaine_id
                        == #[trigger] self.suivis@[b].semaine_id ==> self.suivis@[a].age != self.suivis@[b].age,
                forall|a: int, b: int|
                    0 <= a < i && 0 <= b < i && a != b ==> #[trigger] self.suivis@[a].id != #[trigger] self.suivis@[b].id,
            decreases self.suivis@.len() - i,
        {
            let sid = self.suivis[i].semaine_id;
            let age = self.suivis[i].age;
            if !Self::id_ok(self.suivis[i].id, next) || sid >= next {
                assert(!(id_below(self.suivis@[i as int].id, self.next_id) && self.suivis@[i as int].semaine_id
                    < self.next_id));
                return false;
            }
            let mut j: usize = 0;
            while j < i
                invariant
                    j <= i < self.suivis@.len(),
                    sid == self.suivis@[i as int].semaine_id,
                    age == self.suivis@[i as int].age,
                    forall|b: int|
                        0 <= b < j ==> !(#[trigger] self.suivis@[b].semaine_id == sid && self.suivis@[b].age == age),
                    forall|b: int| 0 <= b < j ==> #[trigger] self.suivis@[b].id != self.suivis@[i as int].id,
                decreases i - j,
            {
                if self.suivis[j].semaine_id == sid && self.suivis[j].age == age {
                    return false;
                }
                if self.suivis[j].id == self.suivis[i].id {
                    return false;
                }
                j += 1;
            }
            i += 1;
        }
        true
    }

    /// Position of the cycle with id `id`.
    pub fn find_bande(&self, id: i64) -> (r: Option<usize>)
        ensures
            match r {
                Some(i) => self.bande_index(id) == Some(i as int) && i < self.bandes@.len(),
                None => self.bande_index(id) is None,
            },
    {
        let mut i = self.bandes.len();
        while i > 0
            invariant
                i <= self.bandes@.len(),
                forall|j: int| i <= j < self.bandes@.len() ==> !bande_with_id(id)(#[trigger] self.bandes@[j]),
            decreases i,
        {
            if self.bandes[i - 1].id == Some(id) {
                proof {
                    lemma_last_index_at(self.bandes@, bande_with_id(id), i - 1);
                }
                return Some(i - 1);
            }
            i -= 1;
        }
        proof {
            lemma_last_index_none(self.bandes@, bande_with_id(id));
        }
        None
    }

    /// Position of the unit with id `id`.
    pub fn find_batiment(&self, id: i64) -> (r: Option<usize>)
        ensures
            match r {
                Some(i) => self.batiment_index(id) == Some(i as int) && i < self.batiments@.len(),
                None => self.batiment_index(id) is None,
            },
    {
        let mut i = self.batiments.len();
        while i > 0
            invariant
                i <= self.batiments@.len(),
                forall|j: int| i <= j < self.batiments@.len() ==> !batiment_with_id(id)(#[trigger] self.batiments@[j]),
            decreases i,
        {
            if self.batiments[i - 1].id == Some(id) {
                proof {
                    lemma_last_index_at(self.batiments@, batiment_with_id(id), i - 1);
                }
                return Some(i - 1);
            }
            i -= 1;
        }
        proof {
            lemma_last_index_none(self.batiments@, batiment_with_id(id));
        }
        None
    }

    /// Position of the period with id `id`.
    pub fn find_semaine(&self, id: i64) -> (r: Option<usize>)
        ensures
            match r {
                Some(i) => self.semaine_index(id) == Some(i as int) && i < self.semaines@.len(),
                None => self.semaine_index(id) is None,
            },
    {
        let mut i = self.semaines.len();
        while i > 0
            invariant
                i <= self.semaines@.len(),
                forall|j: int| i <= j < self.semaines@.len() ==> !semaine_with_id(id)(#[trigger] self.semaines@[j]),
            decreases i,
        {
            if self.semaines[i - 1].id == Some(id) {
                proof {
                    lemma_last_index_at(self.semaines@, semaine_with_id(id), i - 1);
                }
                return Some(i - 1);
            }
            i -= 1;
        }
        proof {
            lemma_last_index_none(self.semaines@, semaine_with_id(id));
        }
        None
    }

    /// Position of period `n` of unit `b`.
    pub fn find_semaine_number(&self, b: i64, n: i32) -> (r: Option<usize>)
        ensures
            match r {
                Some(i) => self.semaine_number_index(b, n) == Some(i as int) && i < self.semaines@.len(),
                None => self.semaine_number_index(b, n) is None,
            },
    {
        let mut i = self.semaines.len();
        while i > 0
            invariant
                i <= self.semaines@.len(),
                forall|j: int| i <= j < self.semaines@.len() ==> !semaine_at(b, n)(#[trigger] self.semaines@[j]),
            decreases i,
        {
            if self.semaines[i - 1].batiment_id == b && self.semaines[i - 1].numero_semaine == n {
                proof {
                    lemma_last_index_at(self.semaines@, semaine_at(b, n), i - 1);
                }
                return Some(i - 1);
            }
            i -= 1;
        }
        proof {
            lemma_last_index_none(self.semaines@, semaine_at(b, n));
        }
        None
    }

    /// Position of the day entry of period `sid` at `age`.
    pub fn find_suivi(&self, sid: i64, age: i32) -> (r: Option<usize>)
        ensures
            match r {
                Some(i) => self.suivi_index(sid, age) == Some(i as int) && i < self.suivis@.len(),
                None => self.suivi_index(sid, age) is None,
            },
    {
        let mut i = self.suivis.len();
        while i > 0
            invariant
                i <= self.suivis@.len(),
                forall|j: int| i <= j < self.suivis@.len() ==> !suivi_at(sid, age)(#[trigger] self.suivis@[j]),
            decreases i,
        {
            if self.suivis[i - 1].semaine_id == sid && self.suivis[i - 1].age == age {
                proof {
                    lemma_last_index_at(self.suivis@, suivi_at(sid, age), i - 1);
                }
                return Some(i - 1);
            }
            i -= 1;
        }
        proof {
            lemma_last_index_none(self.suivis@, suivi_at(sid, age));
        }
        None
    }

    /// Position of the day entry with id `id`.
    pub fn find_suivi_by_id(&self, id: i64) -> (r: Option<usize>)
        ensures
            match r {
                Some(i) => self.suivi_id_index(id) == Some(i as int) && i < self.suivis@.len(),
                None => self.suivi_id_index(id) is None,
            },
    {
        let mut i = self.suivis.len();
        while i > 0
            invariant
                i <= self.suivis@.len(),
                forall|j: int| i <= j < self.suivis@.len() ==> !suivi_with_id(id)(#[trigger] self.suivis@[j]),
            decreases i,
        {
            if self.suivis[i - 1].id == Some(id) {
                proof {
                    lemma_last_index_at(self.suivis@, suivi_with_id(id), i - 1);
                }
                return Some(i - 1);
            }
            i -= 1;
        }
        proof {
            lemma_last_index_none(self.suivis@, suivi_with_id(id));
        }
        None
    }

    /// Position of the adjustment record with id `id`.
    pub fn find_history(&self, id: i64) -> (r: Option<usize>)
        ensures
            match r {
                Some(i) => self.history_index(id) == Some(i as int) && i < self.historique@.len(),
                None => self.history_index(id) is None,
            },
    {
        let mut i = self.historique.len();
        while i > 0
            invariant
                i <= self.historique@.len(),
                forall|j: int| i <= j < self.historique@.len() ==> !history_with_id(id)(#[trigger] self.historique@[j]),
            decreases i,
        {
            if self.historique[i - 1].id == Some(id) {
                proof {
                    lemma_last_index_at(self.historique@, history_with_id(id), i - 1);
                }
                return Some(i - 1);
            }
            i -= 1;
        }
        proof {
            lemma_last_index_none(self.historique@, history_with_id(id));
        }
        None
    }

    /// Whether the care catalog holds `id`.
    pub fn soin_exists(&self, id: i64) -> (r: bool)
        ensures
            r == self.has_soin(id),
    {
        listed(&self.soins, id)
    }

    /// Whether the farm catalog holds `id`.
    pub fn ferme_exists(&self, id: i64) -> (r: bool)
        ensures
            r == self.fermes@.contains(id),
    {
        listed(&self.fermes, id)
    }

    /// Whether the staff catalog holds `id`.
    pub fn personnel_exists(&self, id: i64) -> (r: bool)
        ensures
            r == self.personnel@.contains(id),
    {
        listed(&self.personnel, id)
    }

    /// Whether the hatchling-type catalog holds `id`.
    pub fn poussin_exists(&self, id: i64) -> (r: bool)
        ensures
            r == self.poussins@.contains(id),
    {
        listed(&self.poussins, id)
    }
}

} // verus!
