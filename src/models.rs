use vstd::prelude::*;

verus! {

/// A production cycle ("bande"). `date_entree` counts days since
/// 1970-01-01; the feed ledger `alimentation_contour` is held in grams.
#[derive(Debug, Clone, PartialEq, Eq)]
pub struct Bande {
    pub id: Option<i64>,
    /// Number of the cycle within its farm.
    pub numero_bande: i32,
    pub date_entree: i32,
    pub ferme_id: i64,
    pub notes: Option<String>,
    pub alimentation_contour: i64,
}

/// A unit ("bâtiment") of a cycle.
#[derive(Debug, Clone, PartialEq, Eq)]
pub struct Batiment {
    pub id: Option<i64>,
    pub bande_id: i64,
    pub numero_batiment: String,
    pub poussin_id: i64,
    pub personnel_id: i64,
    pub quantite: i32,
}

#[derive(Debug, Clone, PartialEq, Eq)]
pub struct CreateBatiment {
    pub bande_id: i64,
    pub numero_batiment: String,
    pub poussin_id: i64,
    pub personnel_id: i64,
    pub quantite: i32,
}

#[derive(Debug, Clone, PartialEq, Eq)]
pub struct UpdateBatiment {
    pub id: i64,
    pub bande_id: i64,
    pub numero_batiment: String,
    pub poussin_id: i64,
    pub personnel_id: i64,
    pub quantite: i32,
}

#[derive(Debug, Clone, PartialEq, Eq)]
pub struct BatimentWithDetails {
    pub id: Option<i64>,
    pub bande_id: i64,
    pub numero_batiment: String,
    pub type_poussin: String,
    pub personnel_id: i64,
    pub personnel_nom: String,
    pub quantite: i32,
}

/// A weekly period of a unit. `poids` is the average weight in milligrams.
#[derive(Debug, Clone, Copy, PartialEq, Eq)]
pub struct Semaine {
    pub id: Option<i64>,
    pub batiment_id: i64,
    pub numero_semaine: i32,
    pub poids: Option<i64>,
}

#[derive(Debug, Clone, Copy, PartialEq, Eq)]
pub struct CreateSemaine {
    pub batiment_id: i64,
    pub numero_semaine: i32,
    pub poids: Option<i64>,
}

/// A day entry of a period. `alimentation_par_jour` counts thousandths of
/// a feed bag. An entry without `id` is virtual: it fills a grid and is not
/// stored.
#[derive(Debug, Clone, PartialEq, Eq)]
pub struct SuiviQuotidien {
    pub id: Option<i64>,
    pub semaine_id: i64,
    pub age: i32,
    pub deces_par_jour: Option<i32>,
    pub alimentation_par_jour: Option<i64>,
    pub soins_id: Option<i64>,
    pub soins_quantite: Option<String>,
    pub analyses: Option<String>,
    pub remarques: Option<String>,
}

#[derive(Debug, Clone, PartialEq, Eq)]
pub struct CreateSuiviQuotidien {
    pub semaine_id: i64,
    pub age: i32,
    pub deces_par_jour: Option<i32>,
    pub alimentation_par_jour: Option<i64>,
    pub soins_id: Option<i64>,
    pub soins_quantite: Option<String>,
    pub analyses: Option<String>,
    pub remarques: Option<String>,
}

/// A period with its seven day entries, stored or virtual.
#[derive(Debug, Clone, PartialEq, Eq)]
pub struct SemaineWithDetails {
    pub id: Option<i64>,
    pub batiment_id: i64,
    pub numero_semaine: i32,
    pub poids: Option<i64>,
    pub suivi_quotidien: Vec<SuiviQuotidien>,
}

/// A manual adjustment of a cycle's feed ledger, in grams (positive adds,
/// negative removes).
#[derive(Debug, Clone, PartialEq, Eq)]
pub struct AlimentationHistory {
    pub id: Option<i64>,
    pub bande_id: i64,
    pub quantite: i64,
    pub created_at: String,
}

#[derive(Debug, Clone, PartialEq, Eq)]
pub struct CreateAlimentationHistory {
    pub bande_id: i64,
    pub quantite: i64,
    pub created_at: String,
}

#[derive(Debug, Clone, Copy, PartialEq, Eq)]
pub struct UpdateAlimentationHistory {
    pub bande_id: i64,
    pub quantite: i64,
}

/// A copy of an optional text.
pub fn clone_text(o: &Option<String>) -> (r: Option<String>)
    ensures
        r == *o,
{
    match o {
        Some(s) => Some(s.clone()),
        None => None,
    }
}

impl SuiviQuotidien {
    /// An empty entry at an address: every optional field unset.
    pub open spec fn blank_spec(id: Option<i64>, semaine_id: i64, age: i32) -> SuiviQuotidien {
        SuiviQuotidien {
            id,
            semaine_id,
            age,
            deces_par_jour: None,
            alimentation_par_jour: None,
            soins_id: None,
            soins_quantite: None,
            analyses: None,
            remarques: None,
        }
    }

    /// An empty entry at an address.
    pub fn blank(id: Option<i64>, semaine_id: i64, age: i32) -> (r: SuiviQuotidien)
        ensures
            r == SuiviQuotidien::blank_spec(id, semaine_id, age),
    {
        SuiviQuotidien {
            id,
            semaine_id,
            age,
            deces_par_jour: None,
            alimentation_par_jour: None,
            soins_id: None,
            soins_quantite: None,
            analyses: None,
            remarques: None,
        }
    }

    /// A field-by-field copy.
    pub fn duplicate(&self) -> (r: SuiviQuotidien)
        ensures
            r == *self,
    {
        SuiviQuotidien {
            id: self.id,
            semaine_id: self.semaine_id,
            age: self.age,
            deces_par_jour: self.deces_par_jour,
            alimentation_par_jour: self.alimentation_par_jour,
            soins_id: self.soins_id,
            soins_quantite: clone_text(&self.soins_quantite),
            analyses: clone_text(&self.analyses),
            remarques: clone_text(&self.remarques),
        }
    }

    /// Whether the entry is virtual (never stored).
    pub fn is_virtual(&self) -> (r: bool)
        ensures
            r == (self.id is None),
    {
        self.id.is_none()
    }
}

impl Bande {
    /// A field-by-field copy.
    pub fn duplicate(&self) -> (r: Bande)
        ensures
            r == *self,
    {
        Bande {
            id: self.id,
            numero_bande: self.numero_bande,
            date_entree: self.date_entree,
            ferme_id: self.ferme_id,
            notes: clone_text(&self.notes),
            alimentation_contour: self.alimentation_contour,
        }
    }
}

impl Batiment {
    /// A field-by-field copy.
    pub fn duplicate(&self) -> (r: Batiment)
        ensures
            r == *self,
    {
        Batiment {
            id: self.id,
            bande_id: self.bande_id,
            numero_batiment: self.numero_batiment.clone(),
            poussin_id: self.poussin_id,
            personnel_id: self.personnel_id,
            quantite: self.quantite,
        }
    }
}

impl AlimentationHistory {
    /// A field-by-field copy.
    pub fn duplicate(&self) -> (r: AlimentationHistory)
        ensures
            r == *self,
    {
        AlimentationHistory {
            id: self.id,
            bande_id: self.bande_id,
            quantite: self.quantite,
            created_at: self.created_at.clone(),
        }
    }
}

} // verus!
