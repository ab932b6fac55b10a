use farm_grid::bande_service::BandeService;
use farm_grid::batiment_repository::BatimentRepository;
use farm_grid::error::AppError;
use farm_grid::ledger::AlimentationRepository;
use farm_grid::models::{CreateAlimentationHistory, CreateBatiment, UpdateAlimentationHistory};
use farm_grid::repositories::{BandeRepository, CreateBande, SemaineRepository, SuiviQuotidienRepository};
use farm_grid::semaine_service::SemaineService;
use farm_grid::store::GridStore;
use farm_grid::upsert::{parse_field_update, upsert_day_entry, upsert_suivi_quotidien_field, FieldUpdate};

/// An empty store with farms 1, 2 and 4, staff 1 to 3 and hatchling types
/// 1 and 2 in its catalogs.
fn new_store() -> GridStore {
    let mut store = GridStore::new();
    store.fermes.extend([1, 2, 4]);
    store.personnel.extend([1, 2, 3]);
    store.poussins.extend([1, 2]);
    store
}

fn unit(store: &mut GridStore, bande_id: i64, numero: &str) -> i64 {
    BatimentRepository::create(
        store,
        &CreateBatiment {
            bande_id,
            numero_batiment: numero.to_string(),
            poussin_id: 1,
            personnel_id: 1,
            quantite: 1000,
        },
    )
    .unwrap()
    .id
    .unwrap()
}

/// A store with one cycle, one unit and its eight periods; returns the
/// cycle id and the period ids.
fn grid_store() -> (GridStore, i64, Vec<i64>) {
    let mut store = new_store();
    let bande_id = BandeRepository::create(&mut store, &CreateBande { date_entree: 19_723, ferme_id: 1, notes: None }).unwrap().id.unwrap();
    let bat = unit(&mut store, bande_id, "1");
    let grid = SemaineService::get_full_semaines_by_batiment(&mut store, bat).unwrap();
    (store, bande_id, grid.iter().map(|w| w.id.unwrap()).collect())
}

#[test]
fn consumption_upserts_sum_into_the_ledger() {
    let (mut store, bande_id, weeks) = grid_store();
    let start = AlimentationRepository::get_contour(&store, bande_id).unwrap();
    // (week, age, value, previous value in thousandths)
    let steps = [
        (0usize, 1, "1.5", 0i64),
        (0, 2, "2", 0),
        (0, 1, "0.25", 1500),
        (1, 8, "3.125", 0),
        (0, 2, "", 2000),
    ];
    let mut delta_sum: i64 = 0;
    for (w, age, v, prev) in steps {
        let d = upsert_suivi_quotidien_field(&mut store, weeks[w], age, "alimentation_par_jour", v).unwrap();
        delta_sum += d.alimentation_par_jour.unwrap_or(0) - prev;
    }
    assert_eq!(delta_sum, 250 + 3125);
    assert_eq!(
        AlimentationRepository::get_contour(&store, bande_id).unwrap(),
        start - 50 * delta_sum
    );
    assert_eq!(store.suivis.len(), 3);
}

#[test]
fn same_upsert_twice_is_the_same_as_once() {
    let (mut store, bande_id, weeks) = grid_store();
    let d1 = upsert_suivi_quotidien_field(&mut store, weeks[0], 4, "alimentation_par_jour", "2.5").unwrap();
    let once = AlimentationRepository::get_contour(&store, bande_id).unwrap();
    let rows_once = store.suivis.clone();
    let d2 = upsert_suivi_quotidien_field(&mut store, weeks[0], 4, "alimentation_par_jour", "2.5").unwrap();
    assert_eq!(d1, d2);
    assert_eq!(store.suivis, rows_once);
    assert_eq!(AlimentationRepository::get_contour(&store, bande_id).unwrap(), once);
    assert_eq!(once, -125_000);
}

#[test]
fn empty_value_clears_and_gives_the_consumption_back() {
    let (mut store, bande_id, weeks) = grid_store();
    upsert_suivi_quotidien_field(&mut store, weeks[0], 3, "alimentation_par_jour", "4").unwrap();
    let d = upsert_suivi_quotidien_field(&mut store, weeks[0], 3, "alimentation_par_jour", "").unwrap();
    assert_eq!(d.alimentation_par_jour, None);
    assert_eq!(AlimentationRepository::get_contour(&store, bande_id).unwrap(), 0);
    assert_eq!(store.suivis.len(), 1);
}

#[test]
fn unparsable_number_keeps_the_prior_value() {
    let (mut store, bande_id, weeks) = grid_store();
    upsert_suivi_quotidien_field(&mut store, weeks[0], 5, "deces_par_jour", "3").unwrap();
    upsert_suivi_quotidien_field(&mut store, weeks[0], 5, "alimentation_par_jour", "1").unwrap();
    let d = upsert_suivi_quotidien_field(&mut store, weeks[0], 5, "deces_par_jour", "trois").unwrap();
    assert_eq!(d.deces_par_jour, Some(3));
    let d = upsert_suivi_quotidien_field(&mut store, weeks[0], 5, "alimentation_par_jour", "1,5").unwrap();
    assert_eq!(d.alimentation_par_jour, Some(1000));
    assert_eq!(AlimentationRepository::get_contour(&store, bande_id).unwrap(), -50_000);
    // a first write of an unparsable number still stores the entry, empty
    let e = upsert_suivi_quotidien_field(&mut store, weeks[0], 6, "deces_par_jour", "x").unwrap();
    assert!(e.id.is_some());
    assert_eq!(e.deces_par_jour, None);
    assert_eq!(store.suivis.len(), 2);
}

#[test]
fn text_fields_are_set_and_cleared() {
    let (mut store, _bande_id, weeks) = grid_store();
    let d = upsert_suivi_quotidien_field(&mut store, weeks[7], 50, "soins_quantite", "5l").unwrap();
    assert_eq!(d.soins_quantite, Some("5l".to_string()));
    let d = upsert_suivi_quotidien_field(&mut store, weeks[7], 50, "analyses", "RAS").unwrap();
    assert_eq!(d.analyses, Some("RAS".to_string()));
    assert_eq!(d.soins_quantite, Some("5l".to_string()));
    let d = upsert_suivi_quotidien_field(&mut store, weeks[7], 50, "soins_quantite", "").unwrap();
    assert_eq!(d.soins_quantite, None);
    let found = SuiviQuotidienRepository::find(&store, weeks[7], 50).unwrap();
    assert_eq!(found, d);
}

#[test]
fn care_reference_must_exist() {
    let (mut store, _bande_id, weeks) = grid_store();
    store.soins.push(42);
    let d = upsert_suivi_quotidien_field(&mut store, weeks[0], 1, "soins_id", "42").unwrap();
    assert_eq!(d.soins_id, Some(42));
    let r = upsert_suivi_quotidien_field(&mut store, weeks[0], 1, "soins_id", "43");
    assert!(matches!(r, Err(AppError::ValidationError { .. })));
    let r = upsert_suivi_quotidien_field(&mut store, weeks[0], 1, "soins_id", "abc");
    assert!(matches!(r, Err(AppError::ValidationError { .. })));
    assert_eq!(SuiviQuotidienRepository::find(&store, weeks[0], 1).unwrap().soins_id, Some(42));
    let d = upsert_suivi_quotidien_field(&mut store, weeks[0], 1, "soins_id", "").unwrap();
    assert_eq!(d.soins_id, None);
}

#[test]
fn upsert_errors_leave_the_store_alone() {
    let (mut store, _bande_id, weeks) = grid_store();
    let r = upsert_suivi_quotidien_field(&mut store, 9999, 1, "deces_par_jour", "1");
    assert!(matches!(r, Err(AppError::NotFound { id: 9999, .. })));
    let r = upsert_suivi_quotidien_field(&mut store, weeks[0], 8, "deces_par_jour", "1");
    assert!(matches!(r, Err(AppError::ValidationError { .. })));
    let r = upsert_suivi_quotidien_field(&mut store, weeks[0], 1, "poids", "1");
    assert!(matches!(r, Err(AppError::ValidationError { .. })));
    assert_eq!(store.suivis.len(), 0);
}

#[test]
fn ledger_out_of_range_is_refused() {
    let (mut store, _bande_id, weeks) = grid_store();
    store.bandes[0].alimentation_contour = i64::MIN + 10;
    let r = upsert_suivi_quotidien_field(&mut store, weeks[0], 1, "alimentation_par_jour", "1");
    assert!(matches!(r, Err(AppError::ResourceUnavailable { .. })));
    assert_eq!(store.suivis.len(), 0);
    assert_eq!(store.bandes[0].alimentation_contour, i64::MIN + 10);
}

#[test]
fn typed_updates_apply_one_field() {
    let (mut store, bande_id, weeks) = grid_store();
    let d = upsert_day_entry(&mut store, weeks[2], 16, Some(FieldUpdate::DecesParJour(Some(7)))).unwrap();
    assert_eq!(d.deces_par_jour, Some(7));
    assert_eq!(d.age, 16);
    let d = upsert_day_entry(&mut store, weeks[2], 16, Some(FieldUpdate::AlimentationParJour(Some(10)))).unwrap();
    assert_eq!(d.deces_par_jour, Some(7));
    assert_eq!(AlimentationRepository::get_contour(&store, bande_id).unwrap(), -500);
    let d = upsert_day_entry(&mut store, weeks[2], 17, None).unwrap();
    assert!(d.id.is_some());
    assert_eq!(d.alimentation_par_jour, None);
}

#[test]
fn field_names_and_values_are_read() {
    assert_eq!(parse_field_update("deces_par_jour", "12"), Ok(Some(FieldUpdate::DecesParJour(Some(12)))));
    assert_eq!(parse_field_update("deces_par_jour", ""), Ok(Some(FieldUpdate::DecesParJour(None))));
    assert_eq!(parse_field_update("deces_par_jour", "1.5"), Ok(None));
    assert_eq!(
        parse_field_update("alimentation_par_jour", "0.05"),
        Ok(Some(FieldUpdate::AlimentationParJour(Some(50))))
    );
    assert_eq!(parse_field_update("soins_id", "7"), Ok(Some(FieldUpdate::SoinsId(Some(7)))));
    assert_eq!(
        parse_field_update("remarques", "ok"),
        Ok(Some(FieldUpdate::Remarques(Some("ok".to_string()))))
    );
    assert!(matches!(parse_field_update("soins_id", "7a"), Err(AppError::ValidationError { .. })));
    assert!(matches!(parse_field_update("inconnu", "1"), Err(AppError::ValidationError { .. })));
}

#[test]
fn adjustment_records_move_the_ledger() {
    let mut store = new_store();
    let a = BandeRepository::create(&mut store, &CreateBande { date_entree: 19_723, ferme_id: 1, notes: None }).unwrap().id.unwrap();
    let h = AlimentationRepository::create(
        &mut store,
        &CreateAlimentationHistory { bande_id: a, quantite: 500_000, created_at: "2024-03-01T08:00:00Z".to_string() },
    )
    .unwrap();
    assert_eq!(AlimentationRepository::get_contour(&store, a).unwrap(), 500_000);
    let hid = h.id.unwrap();
    AlimentationRepository::update(&mut store, hid, &UpdateAlimentationHistory { bande_id: a, quantite: 200_000 })
        .unwrap();
    assert_eq!(AlimentationRepository::get_contour(&store, a).unwrap(), 200_000);
    assert_eq!(AlimentationRepository::get_by_id(&store, hid).unwrap().quantite, 200_000);
    AlimentationRepository::create(
        &mut store,
        &CreateAlimentationHistory { bande_id: a, quantite: -50_000, created_at: "2024-03-02T08:00:00Z".to_string() },
    )
    .unwrap();
    assert_eq!(AlimentationRepository::get_by_bande(&store, a).len(), 2);
    AlimentationRepository::delete(&mut store, hid).unwrap();
    assert_eq!(AlimentationRepository::get_contour(&store, a).unwrap(), -50_000);
    assert_eq!(AlimentationRepository::delete_by_bande(&mut store, a), Ok(1));
    assert_eq!(AlimentationRepository::get_contour(&store, a).unwrap(), 0);
    assert_eq!(store.historique.len(), 0);
}

#[test]
fn moving_a_record_between_cycles_conserves_the_sum() {
    let mut store = new_store();
    let a = BandeRepository::create(&mut store, &CreateBande { date_entree: 19_723, ferme_id: 1, notes: None }).unwrap().id.unwrap();
    let b = BandeRepository::create(&mut store, &CreateBande { date_entree: 19_723, ferme_id: 1, notes: None }).unwrap().id.unwrap();
    AlimentationRepository::create(
        &mut store,
        &CreateAlimentationHistory { bande_id: b, quantite: 70_000, created_at: "t0".to_string() },
    )
    .unwrap();
    let h = AlimentationRepository::create(
        &mut store,
        &CreateAlimentationHistory { bande_id: a, quantite: 300_000, created_at: "t1".to_string() },
    )
    .unwrap();
    let before_a = AlimentationRepository::get_contour(&store, a).unwrap();
    let before_b = AlimentationRepository::get_contour(&store, b).unwrap();
    AlimentationRepository::update(&mut store, h.id.unwrap(), &UpdateAlimentationHistory { bande_id: b, quantite: 300_000 })
        .unwrap();
    let after_a = AlimentationRepository::get_contour(&store, a).unwrap();
    let after_b = AlimentationRepository::get_contour(&store, b).unwrap();
    assert_eq!(after_a, before_a - 300_000);
    assert_eq!(after_b, before_b + 300_000);
    assert_eq!(after_a + after_b, before_a + before_b);
    assert_eq!(after_b, 370_000);
}

#[test]
fn adjustment_record_errors() {
    let mut store = new_store();
    let a = BandeRepository::create(&mut store, &CreateBande { date_entree: 19_723, ferme_id: 1, notes: None }).unwrap().id.unwrap();
    let r = AlimentationRepository::create(
        &mut store,
        &CreateAlimentationHistory { bande_id: 404, quantite: 1, created_at: "t".to_string() },
    );
    assert!(matches!(r, Err(AppError::ValidationError { .. })));
    let r = AlimentationRepository::update(&mut store, 77, &UpdateAlimentationHistory { bande_id: a, quantite: 1 });
    assert!(matches!(r, Err(AppError::NotFound { .. })));
    let r = AlimentationRepository::update(&mut store, 77, &UpdateAlimentationHistory { bande_id: 404, quantite: 1 });
    assert!(matches!(r, Err(AppError::ValidationError { .. })));
    assert!(matches!(AlimentationRepository::delete(&mut store, 77), Err(AppError::NotFound { .. })));
    assert!(matches!(AlimentationRepository::get_contour(&store, 404), Err(AppError::NotFound { .. })));
    store.bandes[0].alimentation_contour = i64::MAX - 5;
    let r = AlimentationRepository::create(
        &mut store,
        &CreateAlimentationHistory { bande_id: a, quantite: 6, created_at: "t".to_string() },
    );
    assert!(matches!(r, Err(AppError::ResourceUnavailable { .. })));
    assert_eq!(store.historique.len(), 0);
}

#[test]
fn cycle_is_created_with_units_and_first_weeks() {
    let mut store = new_store();
    let req = |n: &str, q: i32| CreateBatiment {
        bande_id: 0,
        numero_batiment: n.to_string(),
        poussin_id: 1,
        personnel_id: 3,
        quantite: q,
    };
    let bande = BandeService::create_bande_with_batiments_and_first_week(
        &mut store,
        CreateBande { date_entree: 19_800, ferme_id: 4, notes: Some("printemps".to_string()) },
        vec![req("1", 1000), req("2", 1200)],
    )
    .unwrap();
    let id = bande.id.unwrap();
    assert_eq!(bande.alimentation_contour, 0);
    assert_eq!(store.batiments.len(), 2);
    assert!(store.batiments.iter().all(|b| b.bande_id == id));
    assert_eq!(store.semaines.len(), 2);
    assert!(store.semaines.iter().all(|s| s.numero_semaine == 1));
    assert_eq!(store.suivis.len(), 0);

    let empty = BandeService::create_bande_with_batiments_and_first_week(&mut store, CreateBande { date_entree: 19_800, ferme_id: 4, notes: Some("printemps".to_string()) }, vec![]);
    assert!(matches!(empty, Err(AppError::ValidationError { .. })));
    let zero = BandeService::create_bande_with_batiments_and_first_week(
        &mut store,
        CreateBande { date_entree: 19_800, ferme_id: 4, notes: Some("printemps".to_string()) },
        vec![req("1", 0)],
    );
    assert!(matches!(zero, Err(AppError::ValidationError { .. })));
    let blank = BandeService::create_bande_with_batiments_and_first_week(
        &mut store,
        CreateBande { date_entree: 19_800, ferme_id: 4, notes: Some("printemps".to_string()) },
        vec![req("  ", 10)],
    );
    assert!(matches!(blank, Err(AppError::ValidationError { .. })));
    let twice = BandeService::create_bande_with_batiments_and_first_week(
        &mut store,
        CreateBande { date_entree: 19_800, ferme_id: 4, notes: Some("printemps".to_string()) },
        vec![req("3", 10), req("3", 10)],
    );
    assert!(matches!(twice, Err(AppError::ValidationError { .. })));
    assert_eq!(store.bandes.len(), 1);
}

#[test]
fn deleting_a_cycle_removes_everything_under_it() {
    let mut store = new_store();
    let a = BandeRepository::create(&mut store, &CreateBande { date_entree: 19_723, ferme_id: 1, notes: None }).unwrap().id.unwrap();
    let b = BandeRepository::create(&mut store, &CreateBande { date_entree: 19_723, ferme_id: 1, notes: None }).unwrap().id.unwrap();
    let ua = unit(&mut store, a, "1");
    let ub = unit(&mut store, b, "1");
    let ga = SemaineService::get_full_semaines_by_batiment(&mut store, ua).unwrap();
    let gb = SemaineService::get_full_semaines_by_batiment(&mut store, ub).unwrap();
    upsert_suivi_quotidien_field(&mut store, ga[0].id.unwrap(), 1, "deces_par_jour", "1").unwrap();
    upsert_suivi_quotidien_field(&mut store, gb[0].id.unwrap(), 1, "deces_par_jour", "2").unwrap();
    AlimentationRepository::create(
        &mut store,
        &CreateAlimentationHistory { bande_id: a, quantite: 10, created_at: "t".to_string() },
    )
    .unwrap();
    store.batiment_maladies.push((ua, 1));
    BandeService::delete_bande(&mut store, a).unwrap();
    assert_eq!(store.bandes.len(), 1);
    assert_eq!(store.batiments.len(), 1);
    assert_eq!(store.semaines.len(), 8);
    assert_eq!(store.suivis.len(), 1);
    assert_eq!(store.suivis[0].deces_par_jour, Some(2));
    assert!(store.historique.is_empty());
    assert!(store.batiment_maladies.is_empty());
    assert!(matches!(BandeService::delete_bande(&mut store, a), Err(AppError::NotFound { .. })));
    assert!(matches!(BandeService::delete_bande(&mut store, 0), Err(AppError::ValidationError { .. })));
}

#[test]
fn deleting_a_period_removes_its_days_and_gives_back_feed() {
    let (mut store, bande_id, weeks) = grid_store();
    upsert_suivi_quotidien_field(&mut store, weeks[0], 1, "alimentation_par_jour", "1").unwrap();
    upsert_suivi_quotidien_field(&mut store, weeks[0], 2, "alimentation_par_jour", "2").unwrap();
    upsert_suivi_quotidien_field(&mut store, weeks[1], 8, "alimentation_par_jour", "4").unwrap();
    assert_eq!(AlimentationRepository::get_contour(&store, bande_id).unwrap(), -350_000);
    SemaineRepository::delete(&mut store, weeks[0]).unwrap();
    assert_eq!(store.semaines.len(), 7);
    assert_eq!(store.suivis.len(), 1);
    assert_eq!(AlimentationRepository::get_contour(&store, bande_id).unwrap(), -200_000);
    assert!(matches!(SemaineRepository::delete(&mut store, weeks[0]), Err(AppError::NotFound { .. })));
}

#[test]
fn deleting_a_day_gives_back_its_feed() {
    let (mut store, bande_id, weeks) = grid_store();
    let d = upsert_suivi_quotidien_field(&mut store, weeks[2], 20, "alimentation_par_jour", "0.5").unwrap();
    upsert_suivi_quotidien_field(&mut store, weeks[2], 21, "alimentation_par_jour", "1").unwrap();
    SuiviQuotidienRepository::delete(&mut store, d.id.unwrap()).unwrap();
    assert_eq!(store.suivis.len(), 1);
    assert_eq!(AlimentationRepository::get_contour(&store, bande_id).unwrap(), -50_000);
    assert!(matches!(SuiviQuotidienRepository::delete(&mut store, d.id.unwrap()), Err(AppError::NotFound { .. })));
    let bat = store.batiments[0].id.unwrap();
    let grid = SemaineService::get_full_semaines_by_batiment(&mut store, bat).unwrap();
    assert!(grid[2].suivi_quotidien[5].id.is_none());
}

#[test]
fn stores_are_checked_for_well_formedness() {
    let (mut store, _bande_id, weeks) = grid_store();
    assert!(store.is_well_formed());
    let copy = store.semaines[0];
    store.semaines.push(farm_grid::models::Semaine { id: Some(store.next_id - 1), ..copy });
    assert!(!store.is_well_formed());
    store.semaines.pop();
    store.suivis.push(farm_grid::models::SuiviQuotidien::blank(Some(store.next_id), weeks[0], 1));
    assert!(!store.is_well_formed());
}

#[test]
fn day_entries_are_created_once_per_address() {
    let (mut store, bande_id, weeks) = grid_store();
    let req = |age: i32, feed: Option<i64>, soin: Option<i64>| farm_grid::models::CreateSuiviQuotidien {
        semaine_id: weeks[0],
        age,
        deces_par_jour: Some(1),
        alimentation_par_jour: feed,
        soins_id: soin,
        soins_quantite: None,
        analyses: None,
        remarques: Some("ras".to_string()),
    };
    let d = SuiviQuotidienRepository::create(&mut store, req(2, Some(1500), None)).unwrap();
    assert_eq!(d.age, 2);
    assert_eq!(d.remarques, Some("ras".to_string()));
    assert_eq!(AlimentationRepository::get_contour(&store, bande_id).unwrap(), -75_000);
    let dup = SuiviQuotidienRepository::create(&mut store, req(2, None, None));
    assert!(matches!(dup, Err(AppError::ConstraintViolation { .. })));
    let far = SuiviQuotidienRepository::create(&mut store, req(9, None, None));
    assert!(matches!(far, Err(AppError::ValidationError { .. })));
    let soin = SuiviQuotidienRepository::create(&mut store, req(3, None, Some(5)));
    assert!(matches!(soin, Err(AppError::ValidationError { .. })));
    let mut orphan = req(3, None, None);
    orphan.semaine_id = 31337;
    assert!(matches!(SuiviQuotidienRepository::create(&mut store, orphan), Err(AppError::NotFound { .. })));
    assert_eq!(store.suivis.len(), 1);
    assert_eq!(SuiviQuotidienRepository::get_by_semaine(&store, weeks[0]).len(), 1);
}

#[test]
fn recomputed_ledger_matches_the_records() {
    let (mut store, bande_id, weeks) = grid_store();
    AlimentationRepository::create(
        &mut store,
        &CreateAlimentationHistory { bande_id, quantite: 1_000_000, created_at: "t".to_string() },
    )
    .unwrap();
    upsert_suivi_quotidien_field(&mut store, weeks[0], 1, "alimentation_par_jour", "2").unwrap();
    upsert_suivi_quotidien_field(&mut store, weeks[3], 22, "alimentation_par_jour", "0.5").unwrap();
    let kept = AlimentationRepository::get_contour(&store, bande_id).unwrap();
    assert_eq!(kept, 1_000_000 - 125_000);
    store.bandes[0].alimentation_contour = 7;
    let v = farm_grid::consistency::recompute_contour(&mut store, bande_id).unwrap();
    assert_eq!(v, kept);
    assert_eq!(AlimentationRepository::get_contour(&store, bande_id).unwrap(), kept);
    assert!(matches!(
        farm_grid::consistency::recompute_contour(&mut store, 999),
        Err(AppError::NotFound { .. })
    ));
}

#[test]
fn moving_a_unit_moves_its_consumption() {
    let mut store = new_store();
    let a = BandeRepository::create(&mut store, &CreateBande { date_entree: 19_723, ferme_id: 1, notes: None }).unwrap().id.unwrap();
    let b = BandeRepository::create(&mut store, &CreateBande { date_entree: 19_723, ferme_id: 1, notes: None }).unwrap().id.unwrap();
    let u = unit(&mut store, a, "1");
    let g = SemaineService::get_full_semaines_by_batiment(&mut store, u).unwrap();
    upsert_suivi_quotidien_field(&mut store, g[0].id.unwrap(), 2, "alimentation_par_jour", "3").unwrap();
    assert_eq!(AlimentationRepository::get_contour(&store, a).unwrap(), -150_000);
    let upd = |bande_id: i64, q: i32| farm_grid::models::UpdateBatiment {
        id: u,
        bande_id,
        numero_batiment: "7".to_string(),
        poussin_id: 2,
        personnel_id: 2,
        quantite: q,
    };
    BatimentRepository::update(&mut store, u, &upd(a, 900)).unwrap();
    assert_eq!(AlimentationRepository::get_contour(&store, a).unwrap(), -150_000);
    assert_eq!(BatimentRepository::get_by_id(&store, u).unwrap().quantite, 900);
    BatimentRepository::update(&mut store, u, &upd(b, 900)).unwrap();
    assert_eq!(AlimentationRepository::get_contour(&store, a).unwrap(), 0);
    assert_eq!(AlimentationRepository::get_contour(&store, b).unwrap(), -150_000);
    assert_eq!(BatimentRepository::get_by_id(&store, u).unwrap().bande_id, b);
    assert!(matches!(BatimentRepository::update(&mut store, u, &upd(99, 1)), Err(AppError::ValidationError { .. })));
    assert!(matches!(BatimentRepository::update(&mut store, 98, &upd(a, 1)), Err(AppError::NotFound { .. })));
}

#[test]
fn stored_ledger_follows_the_records_through_mixed_writes() {
    let mut store = new_store();
    let a = BandeRepository::create(&mut store, &CreateBande { date_entree: 19_723, ferme_id: 1, notes: None }).unwrap().id.unwrap();
    let b = BandeRepository::create(&mut store, &CreateBande { date_entree: 19_723, ferme_id: 1, notes: None }).unwrap().id.unwrap();
    let u1 = unit(&mut store, a, "1");
    let u2 = unit(&mut store, a, "2");
    let g1 = SemaineService::get_full_semaines_by_batiment(&mut store, u1).unwrap();
    let g2 = SemaineService::get_full_semaines_by_batiment(&mut store, u2).unwrap();
    let h = AlimentationRepository::create(
        &mut store,
        &CreateAlimentationHistory { bande_id: a, quantite: 2_000_000, created_at: "t".to_string() },
    )
    .unwrap();
    upsert_suivi_quotidien_field(&mut store, g1[0].id.unwrap(), 1, "alimentation_par_jour", "2.5").unwrap();
    upsert_suivi_quotidien_field(&mut store, g1[1].id.unwrap(), 9, "alimentation_par_jour", "1").unwrap();
    upsert_suivi_quotidien_field(&mut store, g2[4].id.unwrap(), 30, "alimentation_par_jour", "4").unwrap();
    AlimentationRepository::update(&mut store, h.id.unwrap(), &UpdateAlimentationHistory { bande_id: b, quantite: 1_500_000 })
        .unwrap();
    SemaineRepository::delete(&mut store, g1[1].id.unwrap()).unwrap();
    BatimentRepository::update(
        &mut store,
        u2,
        &farm_grid::models::UpdateBatiment {
            id: u2,
            bande_id: b,
            numero_batiment: "2".to_string(),
            poussin_id: 1,
            personnel_id: 1,
            quantite: 1000,
        },
    )
    .unwrap();
    for c in [a, b] {
        let stored = AlimentationRepository::get_contour(&store, c).unwrap();
        let from_records = farm_grid::consistency::recompute_contour(&mut store, c).unwrap();
        assert_eq!(stored, from_records);
    }
    assert_eq!(AlimentationRepository::get_contour(&store, a).unwrap(), -125_000);
    assert_eq!(AlimentationRepository::get_contour(&store, b).unwrap(), 1_500_000 - 200_000);
}

#[test]
fn unknown_care_error_names_the_id() {
    let (mut store, _bande_id, weeks) = grid_store();
    match upsert_suivi_quotidien_field(&mut store, weeks[0], 1, "soins_id", "-43") {
        Err(AppError::ValidationError { message, .. }) => assert!(message.contains("-43")),
        other => panic!("unexpected {:?}", other),
    }
}

#[test]
fn cycle_keeps_its_date_and_notes() {
    let mut store = new_store();
    let b = BandeRepository::create(
        &mut store,
        &CreateBande { date_entree: 19_900, ferme_id: 2, notes: Some("lot A".to_string()) },
    )
    .unwrap();
    let stored = BandeRepository::get_by_id(&store, b.id.unwrap()).unwrap();
    assert_eq!(stored.date_entree, 19_900);
    assert_eq!(stored.notes, Some("lot A".to_string()));
}

#[test]
fn whitespace_only_unit_number_is_blank() {
    let mut store = new_store();
    let req = CreateBatiment {
        bande_id: 0,
        numero_batiment: "\t \u{a0}".to_string(),
        poussin_id: 1,
        personnel_id: 1,
        quantite: 5,
    };
    let r = BandeService::create_bande_with_batiments_and_first_week(
        &mut store,
        CreateBande { date_entree: 1, ferme_id: 1, notes: None },
        vec![req],
    );
    assert!(matches!(r, Err(AppError::ValidationError { .. })));
}

#[test]
fn complete_grid_reads_without_id_room() {
    let (mut store, _bande_id, weeks) = grid_store();
    let bat = store.batiments[0].id.unwrap();
    store.next_id = i64::MAX;
    let grid = SemaineService::get_full_semaines_by_batiment(&mut store, bat).unwrap();
    assert_eq!(grid[0].id, Some(weeks[0]));
    let ws = SemaineService::initialize_batiment_semaines(&mut store, bat).unwrap();
    assert_eq!(ws.len(), 8);
}

#[test]
fn initialize_reports_a_corrupt_period() {
    let (mut store, _bande_id, _weeks) = grid_store();
    let bat = store.batiments[0].id.unwrap();
    store.semaines[0].numero_semaine = 9;
    let r = SemaineService::initialize_batiment_semaines(&mut store, bat);
    assert!(matches!(r, Err(AppError::DataCorruption { .. })));
}

#[test]
fn cycles_are_numbered_per_farm() {
    let mut store = new_store();
    let mk = |f: i64| CreateBande { date_entree: 20_000, ferme_id: f, notes: None };
    assert_eq!(BandeRepository::create(&mut store, &mk(1)).unwrap().numero_bande, 1);
    assert_eq!(BandeRepository::create(&mut store, &mk(1)).unwrap().numero_bande, 2);
    assert_eq!(BandeRepository::create(&mut store, &mk(2)).unwrap().numero_bande, 1);
    assert_eq!(BandeRepository::create(&mut store, &mk(1)).unwrap().numero_bande, 3);
    assert!(matches!(BandeRepository::create(&mut store, &mk(9)), Err(AppError::ValidationError { .. })));
    assert_eq!(store.bandes.len(), 4);
}

#[test]
fn units_need_known_staff_and_hatchling_type() {
    let mut store = new_store();
    let a = BandeRepository::create(&mut store, &CreateBande { date_entree: 1, ferme_id: 1, notes: None })
        .unwrap()
        .id
        .unwrap();
    let req = |personnel_id: i64, poussin_id: i64| CreateBatiment {
        bande_id: a,
        numero_batiment: "1".to_string(),
        poussin_id,
        personnel_id,
        quantite: 10,
    };
    assert!(matches!(BatimentRepository::create(&mut store, &req(99, 1)), Err(AppError::ValidationError { .. })));
    assert!(matches!(BatimentRepository::create(&mut store, &req(1, 99)), Err(AppError::ValidationError { .. })));
    let u = BatimentRepository::create(&mut store, &req(1, 1)).unwrap().id.unwrap();
    let upd = farm_grid::models::UpdateBatiment {
        id: u,
        bande_id: a,
        numero_batiment: "1".to_string(),
        poussin_id: 99,
        personnel_id: 1,
        quantite: 10,
    };
    assert!(matches!(BatimentRepository::update(&mut store, u, &upd), Err(AppError::ValidationError { .. })));
    let r = BandeService::create_bande_with_batiments_and_first_week(
        &mut store,
        CreateBande { date_entree: 1, ferme_id: 1, notes: None },
        vec![req(1, -1)],
    );
    assert!(matches!(r, Err(AppError::ValidationError { .. })));
    let r = BandeService::create_bande_with_batiments_and_first_week(
        &mut store,
        CreateBande { date_entree: 1, ferme_id: 7, notes: None },
        vec![req(1, 1)],
    );
    assert!(matches!(r, Err(AppError::ValidationError { .. })));
    assert_eq!(store.bandes.len(), 1);
    assert_eq!(store.batiments.len(), 1);
}

#[test]
fn units_and_records_are_listed_in_order() {
    let mut store = new_store();
    let a = BandeRepository::create(&mut store, &CreateBande { date_entree: 1, ferme_id: 1, notes: None })
        .unwrap()
        .id
        .unwrap();
    for n in ["3", "10", "2"] {
        unit(&mut store, a, n);
    }
    let numbers: Vec<String> =
        BatimentRepository::get_by_bande(&store, a).into_iter().map(|b| b.numero_batiment).collect();
    assert_eq!(numbers, vec!["10".to_string(), "2".to_string(), "3".to_string()]);
    let mk = |q: i64, t: &str| CreateAlimentationHistory { bande_id: a, quantite: q, created_at: t.to_string() };
    let h1 = AlimentationRepository::create(&mut store, &mk(1, "2024-03-01T08:00:00Z")).unwrap().id.unwrap();
    let h2 = AlimentationRepository::create(&mut store, &mk(2, "2024-03-05T08:00:00Z")).unwrap().id.unwrap();
    let h3 = AlimentationRepository::create(&mut store, &mk(3, "2024-03-01T08:00:00Z")).unwrap().id.unwrap();
    let ids: Vec<i64> = AlimentationRepository::get_by_bande(&store, a).into_iter().map(|h| h.id.unwrap()).collect();
    assert_eq!(ids, vec![h2, h3, h1]);
}
