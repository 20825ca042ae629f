use http_server::dataset::{
    delete_team, patch_driver, post_team, put_team, Dataset, DatasetError, Driver, Field, Team,
};

fn field(key: &str, value: &str) -> Field {
    Field { key: key.to_string(), value: value.to_string() }
}

fn driver(name: &str, fields: Vec<Field>) -> Driver {
    Driver { name: name.to_string(), fields }
}

fn team(name: &str, drivers: Vec<Driver>) -> Team {
    Team { name: name.to_string(), drivers }
}

fn with_teams(teams: Vec<Team>) -> Dataset {
    let mut d = Dataset::new();
    for t in teams {
        post_team(t, &mut d).unwrap();
    }
    d
}

#[test]
fn test_post_team() {
    let mut f1_data = Dataset::new();
    let result = post_team(team("Team A", vec![]), &mut f1_data);
    assert!(result.is_ok());
    let result = post_team(team("Team A", vec![]), &mut f1_data);
    assert!(result.is_err());
}

#[test]
fn test_put_team() {
    let mut f1_data = with_teams(vec![team("Team A", vec![])]);
    let updated_team = team("Team A", vec![]);
    let result = put_team("Team A", updated_team, &mut f1_data);
    assert!(result.is_ok());
    let result = put_team("Team B", team("Team B", vec![]), &mut f1_data);
    assert!(result.is_err());
}

#[test]
fn test_delete_team() {
    let mut f1_data = with_teams(vec![team("Team A", vec![])]);
    let result = delete_team("Team A", &mut f1_data);
    assert!(result.is_ok());
    let result = delete_team("Team B", &mut f1_data);
    assert!(result.is_err());
}

#[test]
fn test_patch_driver() {
    let mut f1_data =
        with_teams(vec![team("Team A", vec![driver("Driver 1", vec![field("points", "0")])])]);
    let result = patch_driver("Team A", "Driver 1", vec![field("points", "10")], &mut f1_data);
    assert!(result.is_ok());
    let result = patch_driver("Team A", "Driver 2", vec![field("points", "10")], &mut f1_data);
    assert!(result.is_err());
    let result = patch_driver("Team B", "Driver 1", vec![field("points", "10")], &mut f1_data);
    assert!(result.is_err());
}

#[test]
fn main_test_crud_operations_in_order() {
    let mut data = with_teams(vec![team(
        "Mercedes",
        vec![driver(
            "Lewis Hamilton",
            vec![field("age", "39"), field("nacionality", "\"British\"")],
        )],
    )]);
    let new_team = team(
        "Example Team",
        vec![
            driver("Nombre Apellido", vec![field("age", "23"), field("nacionality", "\"British\"")]),
            driver(
                "Nombre Apellido2",
                vec![field("age", "22"), field("nacionality", "\"Australian\"")],
            ),
        ],
    );
    assert!(post_team(new_team, &mut data).is_ok(), "El equipo debería añadirse correctamente");
    let updated_team = team(
        "Example Team",
        vec![
            driver("Max Verstappen5", vec![field("age", "26"), field("nacionality", "\"Dutch5\"")]),
            driver("Sergio Perez5", vec![field("age", "34"), field("nacionality", "\"Mexican5\"")]),
        ],
    );
    assert!(
        put_team("Example Team", updated_team, &mut data).is_ok(),
        "El equipo debería actualizarse correctamente"
    );
    let updated_driver = vec![field("age", "35"), field("nacionality", "\"British\"")];
    assert!(
        patch_driver("Mercedes", "Lewis Hamilton", updated_driver, &mut data).is_ok(),
        "Los datos del conductor deberían actualizarse correctamente"
    );
    assert!(
        delete_team("Example Team", &mut data).is_ok(),
        "El equipo debería eliminarse correctamente"
    );
}

#[test]
fn two_distinct_teams_grow_by_two() {
    let mut d = Dataset::new();
    assert!(post_team(team("A", vec![]), &mut d).is_ok());
    assert!(post_team(team("B", vec![]), &mut d).is_ok());
    assert_eq!(d.len(), 2);
}

#[test]
fn same_name_twice_is_refused_once() {
    let mut d = Dataset::new();
    assert!(post_team(team("A", vec![]), &mut d).is_ok());
    match post_team(team("A", vec![]), &mut d) {
        Err(DatasetError::DuplicateTeam(n)) => assert_eq!(n, "A"),
        _ => panic!("expected a duplicate team"),
    }
    assert_eq!(d.len(), 1);
}

#[test]
fn team_with_repeated_driver_is_refused() {
    let mut d = Dataset::new();
    let t = team("A", vec![driver("X", vec![]), driver("X", vec![])]);
    match post_team(t, &mut d) {
        Err(DatasetError::DuplicateDriver(n)) => assert_eq!(n, "A"),
        _ => panic!("expected a duplicate driver"),
    }
    assert_eq!(d.len(), 0);
}

#[test]
fn put_replaces_in_place_and_keeps_size() {
    let mut d = with_teams(vec![team("A", vec![]), team("B", vec![]), team("C", vec![])]);
    assert!(put_team("B", team("B2", vec![driver("D", vec![])]), &mut d).is_ok());
    assert_eq!(d.len(), 3);
    assert_eq!(d.team(1).name, "B2");
    assert_eq!(d.team(1).drivers[0].name, "D");
    assert_eq!(d.team(0).name, "A");
    assert_eq!(d.team(2).name, "C");
}

#[test]
fn put_on_absent_name_changes_nothing() {
    let mut d = with_teams(vec![team("A", vec![])]);
    match put_team("Z", team("Z", vec![]), &mut d) {
        Err(DatasetError::TeamNotFound(n)) => assert_eq!(n, "Z"),
        _ => panic!("expected a missing team"),
    }
    assert_eq!(d.len(), 1);
    assert_eq!(d.to_json(), "{\"teams\":[{\"name\":\"A\",\"drivers\":[]}]}");
}

#[test]
fn put_may_not_take_another_teams_name() {
    let mut d = with_teams(vec![team("A", vec![]), team("B", vec![])]);
    match put_team("A", team("B", vec![]), &mut d) {
        Err(DatasetError::DuplicateTeam(n)) => assert_eq!(n, "B"),
        _ => panic!("expected a duplicate team"),
    }
    assert_eq!(d.team(0).name, "A");
}

#[test]
fn delete_twice_fails_the_second_time() {
    let mut d = with_teams(vec![team("A", vec![]), team("B", vec![])]);
    assert!(delete_team("A", &mut d).is_ok());
    assert_eq!(d.len(), 1);
    match delete_team("A", &mut d) {
        Err(DatasetError::TeamNotFound(n)) => assert_eq!(n, "A"),
        _ => panic!("expected a missing team"),
    }
    assert_eq!(d.len(), 1);
    assert_eq!(d.team(0).name, "B");
}

#[test]
fn patch_changes_only_given_fields() {
    let mut d = with_teams(vec![team(
        "T",
        vec![
            driver("D", vec![field("age", "30"), field("nationality", "\"Dutch\"")]),
            driver("E", vec![field("age", "40")]),
        ],
    )]);
    let updates = vec![field("age", "31"), field("number", "1"), field("name", "\"Other\"")];
    assert!(patch_driver("T", "D", updates, &mut d).is_ok());
    assert_eq!(
        d.to_json(),
        "{\"teams\":[{\"name\":\"T\",\"drivers\":[{\"name\":\"D\",\"age\":31,\"nationality\":\"Dutch\",\"number\":1},{\"name\":\"E\",\"age\":40}]}]}"
    );
}

#[test]
fn patch_of_missing_driver_or_team_changes_nothing() {
    let mut d = with_teams(vec![team("T", vec![driver("D", vec![field("age", "30")])])]);
    let before = d.to_json();
    match patch_driver("T", "X", vec![field("age", "1")], &mut d) {
        Err(DatasetError::DriverNotFound { team, driver }) => {
            assert_eq!(team, "T");
            assert_eq!(driver, "X");
        }
        _ => panic!("expected a missing driver"),
    }
    match patch_driver("U", "D", vec![field("age", "1")], &mut d) {
        Err(DatasetError::TeamNotFound(n)) => assert_eq!(n, "U"),
        _ => panic!("expected a missing team"),
    }
    assert_eq!(d.to_json(), before);
}

#[test]
fn many_distinct_creates_all_succeed() {
    let mut d = Dataset::new();
    let n = 50;
    for i in 0..n {
        assert!(post_team(team(&format!("Team {}", i), vec![]), &mut d).is_ok());
    }
    assert_eq!(d.len(), n);
}

#[test]
fn document_escapes_names() {
    let d = with_teams(vec![team("Quote\"d", vec![driver("Back\\slash", vec![])])]);
    assert_eq!(
        d.to_json(),
        "{\"teams\":[{\"name\":\"Quote\\\"d\",\"drivers\":[{\"name\":\"Back\\\\slash\"}]}]}"
    );
}

#[test]
fn empty_document() {
    assert_eq!(Dataset::new().to_json(), "{\"teams\":[]}");
}
