use sinan_backend::archaeo::{load_archaeomagnetic_data, ArchaeologyMagneticData};
use sinan_backend::epochs::{CALS10KModel, EPOCH_COUNT, FIRST_EPOCH_YEAR, LAST_EPOCH_YEAR};
use sinan_backend::grid::{clamp_grid_size, vector_field_cells};

#[test]
fn available_years_span_3000_bce_to_2000_ce_every_50_years() {
    let model = CALS10KModel::new();
    let years = model.get_available_years();
    assert_eq!(years.len(), 101);
    assert_eq!(years.len(), EPOCH_COUNT);
    assert_eq!(years[0], -3000);
    assert_eq!(years[0], FIRST_EPOCH_YEAR);
    assert_eq!(*years.last().unwrap(), 2000);
    assert_eq!(*years.last().unwrap(), LAST_EPOCH_YEAR);
    for pair in years.windows(2) {
        assert_eq!(pair[1] - pair[0], 50);
    }
    assert!(years.contains(&0));
    assert!(years.contains(&-100));
    assert!(!years.contains(&2024));
}

#[test]
fn every_entry_is_found_by_its_own_year() {
    let model = CALS10KModel::new();
    let years = model.get_available_years();
    for (k, year) in years.iter().enumerate() {
        assert_eq!(model.slot_of(*year), Some(k));
        assert_eq!(model.slot_or_first(*year), k);
    }
}

#[test]
fn years_off_the_grid_have_no_entry() {
    let model = CALS10KModel::new();
    assert_eq!(model.slot_of(-100), Some(58));
    assert_eq!(model.slot_of(-50), Some(59));
    assert_eq!(model.slot_of(2000), Some(100));
    assert_eq!(model.slot_of(2024), None);
    assert_eq!(model.slot_of(2050), None);
    assert_eq!(model.slot_of(-3050), None);
    assert_eq!(model.slot_of(-165), None);
    assert_eq!(model.slot_of(i64::MIN), None);
    assert_eq!(model.slot_of(i64::MAX), None);
}

#[test]
fn a_year_without_entry_falls_back_to_the_first_entry() {
    let model = CALS10KModel::new();
    assert_eq!(model.slot_or_first(2050), 0);
    assert_eq!(model.slot_or_first(-3001), 0);
    assert_eq!(model.slot_or_first(1999), 0);
    assert_eq!(model.slot_or_first(1950), 99);
}

#[test]
fn interpolation_brackets_are_neighbouring_entries() {
    let model = CALS10KModel::new();
    // 2010 lies between the floor epoch 2000 and the ceiling 2050; the latter has no entry.
    assert_eq!(model.slot_or_first(2000), 100);
    assert_eq!(model.slot_or_first(2050), 0);
    // -120 lies between -150 and -100.
    let floor = model.slot_or_first(-150);
    let ceil = model.slot_or_first(-100);
    assert_eq!(ceil, floor + 1);
}

#[test]
fn bundled_sites_hold_their_measurements() {
    let sites = load_archaeomagnetic_data();
    assert_eq!(sites.len(), 5);
    let first = &sites[0];
    assert_eq!(first.site_name, "汉长安城遗址");
    assert_eq!(first.location_lat, 34265);
    assert_eq!(first.location_lon, 108955);
    assert_eq!(first.sample_age, -1000);
    assert_eq!(first.sample_age_error, 500);
    assert_eq!(first.declination, -25);
    assert_eq!(first.declination_error, 8);
    assert_eq!(first.inclination, 562);
    assert_eq!(first.inclination_error, 12);
    assert_eq!(first.intensity, 55000);
    assert_eq!(first.intensity_error, 3000);
    assert_eq!(first.sample_material, "brick");
    assert_eq!(first.reference, "考古地磁学报2022");
    assert_eq!(sites[1].site_name, "洛阳汉魏故城");
    assert_eq!(sites[2].site_name, "长沙马王堆汉墓");
    assert_eq!(sites[2].sample_material, "soil");
    assert_eq!(sites[3].site_name, "西安未央宫遗址");
    assert_eq!(sites[4].site_name, "徐州狮子山汉墓");
    assert_eq!(sites[4].reference, "华夏考古2022");
    for site in &sites {
        assert!(site.location_lat.abs() <= 90_000);
        assert!(site.location_lon.abs() <= 180_000);
        assert!(site.sample_age < 0);
    }
}

#[test]
fn bundled_site_ages_round_to_whole_years() {
    let sites = load_archaeomagnetic_data();
    let years: Vec<i64> = sites.iter().map(|s| s.rounded_age()).collect();
    assert_eq!(years, vec![-100, -50, -165, -80, -154]);
}

fn site_aged(tenths: i32) -> ArchaeologyMagneticData {
    let mut site = load_archaeomagnetic_data().remove(0);
    site.sample_age = tenths;
    site
}

#[test]
fn ages_round_half_away_from_zero() {
    assert_eq!(site_aged(15).rounded_age(), 2);
    assert_eq!(site_aged(14).rounded_age(), 1);
    assert_eq!(site_aged(-15).rounded_age(), -2);
    assert_eq!(site_aged(-14).rounded_age(), -1);
    assert_eq!(site_aged(0).rounded_age(), 0);
    assert_eq!(site_aged(-4).rounded_age(), 0);
    assert_eq!(site_aged(i32::MIN).rounded_age(), -214748365);
    assert_eq!(site_aged(i32::MAX).rounded_age(), 214748365);
    for tenths in -40i32..=40 {
        let expected = (tenths as f64 / 10.0).round() as i64;
        assert_eq!(site_aged(tenths).rounded_age(), expected);
    }
}

#[test]
fn only_sites_dated_to_a_table_year_calibrate_the_model() {
    let model = CALS10KModel::new();
    let sites = load_archaeomagnetic_data();
    let plan = model.calibration_targets(&sites);
    assert_eq!(plan, vec![(0, 58), (1, 59)]);
}

#[test]
fn calibration_follows_site_order_and_repeats_an_epoch_per_site() {
    let model = CALS10KModel::new();
    let sites = vec![site_aged(-1004), site_aged(7), site_aged(-996), site_aged(19999), site_aged(20000)];
    let plan = model.calibration_targets(&sites);
    assert_eq!(plan, vec![(0, 58), (2, 58), (3, 100), (4, 100)]);
    assert!(model.calibration_targets(&Vec::new()).is_empty());
}

#[test]
fn grid_size_is_held_between_3_and_50() {
    assert_eq!(clamp_grid_size(0), 3);
    assert_eq!(clamp_grid_size(2), 3);
    assert_eq!(clamp_grid_size(3), 3);
    assert_eq!(clamp_grid_size(20), 20);
    assert_eq!(clamp_grid_size(50), 50);
    assert_eq!(clamp_grid_size(51), 50);
    assert_eq!(clamp_grid_size(usize::MAX), 50);
    for n in 0..200usize {
        let size = clamp_grid_size(n);
        assert_eq!(clamp_grid_size(size), size);
    }
}

#[test]
fn a_20_by_20_field_visits_400_cells_row_by_row() {
    let cells = vector_field_cells(20);
    assert_eq!(cells.len(), 400);
    assert_eq!(cells[0], (0, 0));
    assert_eq!(cells[1], (0, 1));
    assert_eq!(cells[19], (0, 19));
    assert_eq!(cells[20], (1, 0));
    assert_eq!(cells[21], (1, 1));
    assert_eq!(cells[399], (19, 19));
}

#[test]
fn out_of_bounds_requests_draw_the_clamped_grid() {
    assert_eq!(vector_field_cells(1).len(), 9);
    assert_eq!(vector_field_cells(1000).len(), 2500);
    assert_eq!(vector_field_cells(1000)[2499], (49, 49));
}
