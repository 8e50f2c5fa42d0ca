use co2_sensor::version;

#[test]
fn version_string_spells_out_all_three_numbers() {
    assert_eq!(version::string(), "v2.1.0");
}

#[test]
fn app_version_decodes_to_major_and_minor() {
    assert_eq!(version::APP_VERSION, 21);
    assert_eq!(version::APP_VERSION / 10, version::MAJOR);
    assert_eq!(version::APP_VERSION % 10, version::MINOR);
}

#[test]
fn date_code_is_a_calendar_date() {
    assert_eq!(version::DATE_CODE, "20260705");
}
