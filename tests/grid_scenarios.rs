use farm_grid::batiment_repository::BatimentRepository;
use farm_grid::error::AppError;
use farm_grid::models::CreateSemaine;
use farm_grid::ledger::AlimentationRepository;
use farm_grid::models::CreateBatiment;
use farm_grid::repositories::{BandeRepository, CreateBande, SemaineRepository, SuiviQuotidienRepository};
use farm_grid::semaine_service::SemaineService;
use farm_grid::store::GridStore;
use farm_grid::upsert::upsert_suivi_quotidien_field;

/// An empty store with farms 1, 2 and 4, staff 1 to 3 and hatchling types
/// 1 and 2 in its catalogs.
fn new_store() -> GridStore {
    let mut store = GridStore::new();
    store.fermes.extend([1, 2, 4]);
    store.personnel.extend([1, 2, 3]);
    store.poussins.extend([1, 2]);
    store
}

fn store_with_unit() -> (GridStore, i64, i64) {
    let mut store = new_store();
    let bande = BandeRepository::create(&mut store, &CreateBande { date_entree: 19_723, ferme_id: 1, notes: None }).unwrap();
    let bande_id = bande.id.unwrap();
    let bat = BatimentRepository::create(
        &mut store,
        &CreateBatiment {
            bande_id,
            numero_batiment: "1".to_string(),
            poussin_id: 1,
            personnel_id: 1,
            quantite: 1000,
        },
    )
    .unwrap();
    (store, bande_id, bat.id.unwrap())
}

#[test]
fn empty_unit_grid_upserts_and_cascade() {
    let (mut store, bande_id, bat_id) = store_with_unit();
    let grid = SemaineService::get_full_semaines_by_batiment(&mut store, bat_id).unwrap();
    assert_eq!(grid.len(), 8);
    let days: usize = grid.iter().map(|w| w.suivi_quotidien.len()).sum();
    assert_eq!(days, 56);
    assert!(grid.iter().all(|w| w.suivi_quotidien.iter().all(|d| d.id.is_none())));
    assert_eq!(store.suivis.len(), 0);
    assert_eq!(SemaineRepository::get_by_batiment(&store, bat_id).len(), 8);

    let week1 = grid[0].id.unwrap();
    let start = AlimentationRepository::get_contour(&store, bande_id).unwrap();
    let d = upsert_suivi_quotidien_field(&mut store, week1, 3, "alimentation_par_jour", "2").unwrap();
    assert!(d.id.is_some());
    assert_eq!(d.alimentation_par_jour, Some(2000));
    assert_eq!(store.suivis.len(), 1);
    let after_two = AlimentationRepository::get_contour(&store, bande_id).unwrap();
    assert_eq!(after_two, start - 2 * 50_000);

    let d2 = upsert_suivi_quotidien_field(&mut store, week1, 3, "alimentation_par_jour", "5").unwrap();
    assert_eq!(d2.id, d.id);
    assert_eq!(store.suivis.len(), 1);
    let after_five = AlimentationRepository::get_contour(&store, bande_id).unwrap();
    assert_eq!(after_five, after_two - 3 * 50_000);

    BatimentRepository::delete(&mut store, bat_id).unwrap();
    assert_eq!(SuiviQuotidienRepository::get_by_semaine(&store, week1).len(), 0);
    assert_eq!(SemaineRepository::get_by_batiment(&store, bat_id).len(), 0);
    assert!(BatimentRepository::get_by_id(&store, bat_id).is_none());
    // the removed consumption goes back to the ledger
    assert_eq!(AlimentationRepository::get_contour(&store, bande_id).unwrap(), start);
}

#[test]
fn full_grid_is_eight_by_seven_with_stored_and_virtual_days() {
    let (mut store, _bande_id, bat_id) = store_with_unit();
    let first = SemaineService::get_full_semaines_by_batiment(&mut store, bat_id).unwrap();
    let week3 = first[2].id.unwrap();
    upsert_suivi_quotidien_field(&mut store, week3, 15, "deces_par_jour", "4").unwrap();
    upsert_suivi_quotidien_field(&mut store, week3, 21, "remarques", "toux").unwrap();
    let grid = SemaineService::get_full_semaines_by_batiment(&mut store, bat_id).unwrap();
    assert_eq!(grid.len(), 8);
    for (k, week) in grid.iter().enumerate() {
        assert_eq!(week.numero_semaine, k as i32 + 1);
        assert_eq!(week.suivi_quotidien.len(), 7);
        for (j, day) in week.suivi_quotidien.iter().enumerate() {
            assert_eq!(day.age, (k as i32) * 7 + j as i32 + 1);
            assert_eq!(day.semaine_id, week.id.unwrap());
        }
    }
    let stored: Vec<_> = grid
        .iter()
        .flat_map(|w| w.suivi_quotidien.iter())
        .filter(|d| d.id.is_some())
        .collect();
    assert_eq!(stored.len(), 2);
    assert_eq!(grid[2].suivi_quotidien[0].deces_par_jour, Some(4));
    assert_eq!(grid[2].suivi_quotidien[6].remarques, Some("toux".to_string()));
    assert!(grid[2].suivi_quotidien[1].id.is_none());
}

#[test]
fn reading_the_grid_twice_creates_no_period() {
    let (mut store, _bande_id, bat_id) = store_with_unit();
    let first = SemaineService::get_full_semaines_by_batiment(&mut store, bat_id).unwrap();
    let periods_after_first = store.semaines.len();
    let next_after_first = store.next_id;
    let second = SemaineService::get_full_semaines_by_batiment(&mut store, bat_id).unwrap();
    assert_eq!(store.semaines.len(), periods_after_first);
    assert_eq!(periods_after_first, 8);
    assert_eq!(store.next_id, next_after_first);
    let ids1: Vec<_> = first.iter().map(|w| w.id).collect();
    let ids2: Vec<_> = second.iter().map(|w| w.id).collect();
    assert_eq!(ids1, ids2);
}

#[test]
fn grid_keeps_existing_periods_and_fills_the_rest() {
    let (mut store, _bande_id, bat_id) = store_with_unit();
    let w5 = SemaineRepository::create(
        &mut store,
        CreateSemaine { batiment_id: bat_id, numero_semaine: 5, poids: Some(850_000) },
    )
    .unwrap();
    let grid = SemaineService::get_full_semaines_by_batiment(&mut store, bat_id).unwrap();
    assert_eq!(grid[4].id, w5.id);
    assert_eq!(grid[4].poids, Some(850_000));
    assert_eq!(store.semaines.len(), 8);
}

#[test]
fn grid_of_missing_unit_is_not_found() {
    let (mut store, _bande_id, _bat_id) = store_with_unit();
    let r = SemaineService::get_full_semaines_by_batiment(&mut store, 999);
    assert!(matches!(r, Err(AppError::NotFound { id: 999, .. })));
    assert_eq!(store.semaines.len(), 0);
}

#[test]
fn initialize_returns_periods_in_order() {
    let (mut store, _bande_id, bat_id) = store_with_unit();
    SemaineRepository::create(
        &mut store,
        CreateSemaine { batiment_id: bat_id, numero_semaine: 3, poids: None },
    )
    .unwrap();
    let ws = SemaineService::initialize_batiment_semaines(&mut store, bat_id).unwrap();
    let numbers: Vec<i32> = ws.iter().map(|w| w.numero_semaine).collect();
    assert_eq!(numbers, vec![1, 2, 3, 4, 5, 6, 7, 8]);
    assert_eq!(store.semaines.len(), 8);
}

#[test]
fn period_creation_errors() {
    let (mut store, _bande_id, bat_id) = store_with_unit();
    SemaineRepository::create(&mut store, CreateSemaine { batiment_id: bat_id, numero_semaine: 1, poids: None })
        .unwrap();
    let dup = SemaineRepository::create(&mut store, CreateSemaine { batiment_id: bat_id, numero_semaine: 1, poids: None });
    assert!(matches!(dup, Err(AppError::ConstraintViolation { .. })));
    let bad = SemaineRepository::create(&mut store, CreateSemaine { batiment_id: bat_id, numero_semaine: 9, poids: None });
    assert!(matches!(bad, Err(AppError::ValidationError { .. })));
    let missing = SemaineRepository::create(&mut store, CreateSemaine { batiment_id: 77, numero_semaine: 2, poids: None });
    assert!(matches!(missing, Err(AppError::NotFound { id: 77, .. })));
    assert_eq!(store.semaines.len(), 1);
}

#[test]
fn weight_is_set_without_touching_the_ledger() {
    let (mut store, bande_id, bat_id) = store_with_unit();
    let grid = SemaineService::get_full_semaines_by_batiment(&mut store, bat_id).unwrap();
    let w = SemaineService::update_semaine_poids(&mut store, grid[1].id.unwrap(), Some(420_500)).unwrap();
    assert_eq!(w.poids, Some(420_500));
    assert_eq!(SemaineRepository::get_by_id(&store, grid[1].id.unwrap()).unwrap().poids, Some(420_500));
    assert_eq!(AlimentationRepository::get_contour(&store, bande_id).unwrap(), 0);
    assert!(matches!(
        SemaineService::update_semaine_poids(&mut store, 4242, None),
        Err(AppError::NotFound { .. })
    ));
}

#[test]
fn unit_number_must_be_free_in_its_cycle() {
    let (mut store, bande_id, _bat_id) = store_with_unit();
    let again = BatimentRepository::create(
        &mut store,
        &CreateBatiment {
            bande_id,
            numero_batiment: "1".to_string(),
            poussin_id: 2,
            personnel_id: 2,
            quantite: 500,
        },
    );
    assert!(matches!(again, Err(AppError::ValidationError { .. })));
    let no_cycle = BatimentRepository::create(
        &mut store,
        &CreateBatiment {
            bande_id: 555,
            numero_batiment: "2".to_string(),
            poussin_id: 2,
            personnel_id: 2,
            quantite: 500,
        },
    );
    assert!(matches!(no_cycle, Err(AppError::ValidationError { .. })));
    assert_eq!(store.batiments.len(), 1);
}

#[test]
fn deleting_a_missing_unit_changes_nothing() {
    let (mut store, _bande_id, bat_id) = store_with_unit();
    SemaineService::get_full_semaines_by_batiment(&mut store, bat_id).unwrap();
    let r = BatimentRepository::delete(&mut store, 12345);
    assert!(matches!(r, Err(AppError::NotFound { id: 12345, .. })));
    assert_eq!(store.semaines.len(), 8);
    assert_eq!(store.batiments.len(), 1);
}

#[test]
fn deleting_a_unit_keeps_other_units_and_removes_its_links() {
    let (mut store, bande_id, bat_id) = store_with_unit();
    let other = BatimentRepository::create(
        &mut store,
        &CreateBatiment {
            bande_id,
            numero_batiment: "2".to_string(),
            poussin_id: 1,
            personnel_id: 1,
            quantite: 800,
        },
    )
    .unwrap()
    .id
    .unwrap();
    let g1 = SemaineService::get_full_semaines_by_batiment(&mut store, bat_id).unwrap();
    let g2 = SemaineService::get_full_semaines_by_batiment(&mut store, other).unwrap();
    upsert_suivi_quotidien_field(&mut store, g1[0].id.unwrap(), 1, "alimentation_par_jour", "1").unwrap();
    upsert_suivi_quotidien_field(&mut store, g2[0].id.unwrap(), 1, "alimentation_par_jour", "2").unwrap();
    store.batiment_maladies.push((bat_id, 9));
    store.batiment_maladies.push((other, 9));
    BatimentRepository::delete(&mut store, bat_id).unwrap();
    assert_eq!(store.semaines.len(), 8);
    assert_eq!(store.suivis.len(), 1);
    assert_eq!(store.batiment_maladies, vec![(other, 9)]);
    // only the other unit's 2 bags stay taken off the ledger
    assert_eq!(AlimentationRepository::get_contour(&store, bande_id).unwrap(), -100_000);
}

#[test]
fn inconsistent_stored_addresses_are_reported() {
    let (mut store, _bande_id, bat_id) = store_with_unit();
    let grid = SemaineService::get_full_semaines_by_batiment(&mut store, bat_id).unwrap();
    let week1 = grid[0].id.unwrap();
    let id = store.next_id;
    store.next_id += 1;
    store.suivis.push(farm_grid::models::SuiviQuotidien::blank(Some(id), week1, 30));
    let before = store.semaines.len();
    let r = SemaineService::get_full_semaines_by_batiment(&mut store, bat_id);
    assert!(matches!(r, Err(AppError::DataCorruption { .. })));
    assert_eq!(store.semaines.len(), before);
}

#[test]
fn reads_by_id_and_by_parent() {
    let (mut store, bande_id, bat_id) = store_with_unit();
    let grid = SemaineService::get_full_semaines_by_batiment(&mut store, bat_id).unwrap();
    let d = upsert_suivi_quotidien_field(&mut store, grid[0].id.unwrap(), 2, "analyses", "ok").unwrap();
    assert_eq!(SuiviQuotidienRepository::get_by_id(&store, d.id.unwrap()).unwrap(), d);
    assert!(matches!(SuiviQuotidienRepository::get_by_id(&store, 4040), Err(AppError::NotFound { .. })));
    let units = BatimentRepository::get_by_bande(&store, bande_id);
    assert_eq!(units.len(), 1);
    assert_eq!(units[0].id, Some(bat_id));
    assert!(BatimentRepository::get_by_bande(&store, 777).is_empty());
    assert_eq!(BandeRepository::get_by_id(&store, bande_id).unwrap().alimentation_contour, 0);
    assert!(BandeRepository::get_by_id(&store, 777).is_none());
}

#[test]
fn listings_come_back_sorted() {
    let (mut store, _bande_id, bat_id) = store_with_unit();
    SemaineRepository::create(&mut store, CreateSemaine { batiment_id: bat_id, numero_semaine: 5, poids: None }).unwrap();
    let grid = SemaineService::get_full_semaines_by_batiment(&mut store, bat_id).unwrap();
    let numbers: Vec<i32> = SemaineRepository::get_by_batiment(&store, bat_id).iter().map(|w| w.numero_semaine).collect();
    assert_eq!(numbers, vec![1, 2, 3, 4, 5, 6, 7, 8]);
    let week1 = grid[0].id.unwrap();
    upsert_suivi_quotidien_field(&mut store, week1, 5, "deces_par_jour", "1").unwrap();
    upsert_suivi_quotidien_field(&mut store, week1, 3, "deces_par_jour", "2").unwrap();
    upsert_suivi_quotidien_field(&mut store, week1, 7, "deces_par_jour", "3").unwrap();
    let ages: Vec<i32> = SuiviQuotidienRepository::get_by_semaine(&store, week1).iter().map(|d| d.age).collect();
    assert_eq!(ages, vec![3, 5, 7]);
}
