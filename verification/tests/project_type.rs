use dprint::project_type::get_project_type_infos;
use dprint::project_type::has_project_type_config;

#[test]
fn it_should_handle_when_project_type_exists() {
    assert!(has_project_type_config(Some("openSource")));
}

#[test]
fn it_should_be_case_insensitive() {
    assert!(has_project_type_config(Some("opensource")));
    assert!(has_project_type_config(Some("COMMERCIALSPONSORED")));
}

#[test]
fn it_should_handle_when_project_type_not_exists() {
    assert!(!has_project_type_config(None));
}

#[test]
fn it_should_handle_when_project_type_not_valid_option() {
    assert!(!has_project_type_config(Some("test")));
}

#[test]
fn should_list_project_types_in_order() {
    let names: Vec<String> = get_project_type_infos().into_iter().map(|i| i.name).collect();
    assert_eq!(names, vec!["commercialEvaluation", "commercialSponsored", "openSource", "educational", "nonProfit"]);
    assert_eq!(
        get_project_type_infos()[2].description,
        "Dprint is formatting an open source project whose primary maintainer is not a for-profit company (no sponsorship requirement)."
    );
}
