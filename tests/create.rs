use std::str::FromStr;
use wql::{Error, Wql};

#[test]
fn empty_wql() {
    let wql = Wql::from_str("");

    assert_eq!(wql.err(), Some(String::from("Empty WQL")));
}

#[test]
fn create_shit() {
    let wql = Wql::from_str("CREATE SHIT oh_yeah");

    assert_eq!(wql.err(), Some(String::from("Keyword ENTITY is required for CREATE")));
}

#[test]
fn create_mispelled() {
    let wql = Wql::from_str("KREATE ENTITY mispelled");

    assert_eq!(wql.err(), Some(String::from("Symbol `KREATE` not implemented")));
}

#[test]
fn create_entity() {
    let wql = Wql::from_str("CREATE ENTITY entity");

    assert_eq!(wql.unwrap(), Wql::CreateEntity(String::from("entity")));
}

#[test]
fn blank_query_is_empty() {
    assert_eq!(Wql::from_str(" \n\t ").err(), Some(String::from("Empty WQL")));
}

#[test]
fn create_in_lower_case_with_leading_space() {
    let wql = Wql::from_str("  create entity my_Entity_2");
    assert_eq!(wql.unwrap(), Wql::CreateEntity(String::from("my_Entity_2")));
}

#[test]
fn create_name_stops_at_first_other_character() {
    let wql = Wql::from_str("CREATE ENTITY users-log");
    assert_eq!(wql.unwrap(), Wql::CreateEntity(String::from("users")));
}

#[test]
fn create_with_two_spaces_before_entity_keyword() {
    let wql = Wql::from_str("CREATE  ENTITY entity");
    assert_eq!(wql.err(), Some(String::from("Keyword ENTITY is required for CREATE")));
}

#[test]
fn create_without_name_gives_empty_name() {
    let wql = Wql::from_str("CREATE ENTITY");
    assert_eq!(wql.unwrap(), Wql::CreateEntity(String::new()));
}

#[test]
fn unknown_symbol_keeps_its_case() {
    let wql = Wql::from_str("select * from x");
    assert_eq!(wql.err(), Some(String::from("Symbol `select` not implemented")));
}

#[test]
fn create_prefix_is_not_create() {
    let wql = Wql::from_str("CREATED ENTITY x");
    assert_eq!(wql.err(), Some(String::from("Symbol `CREATED` not implemented")));
}

#[test]
fn error_text_of_entity_already_created() {
    let e = Error::EntityAlreadyCreated(String::from("users"));
    assert_eq!(e.to_text(), String::from("Entity `users` already created"));
}

#[test]
fn error_text_of_query_format_is_quoted() {
    let e = Error::QueryFormat(String::from("bad \"q\""));
    assert_eq!(e.to_text(), String::from("\"bad \\\"q\\\"\""));
}

#[test]
fn error_from_io_error() {
    let e = Error::from(std::io::Error::new(std::io::ErrorKind::Other, "disk"));
    assert!(matches!(e, Error::Io(_)));
}

#[test]
fn create_with_unicode_name() {
    let wql = Wql::from_str("CREATE ENTITY café_2 rest");
    assert_eq!(wql.unwrap(), Wql::CreateEntity(String::from("café_2")));
}

#[test]
fn create_with_other_keyword_at_end() {
    let wql = Wql::from_str("CREATE TABLE");
    assert_eq!(wql.err(), Some(String::from("Keyword ENTITY is required for CREATE")));
}

#[test]
fn keywords_are_compared_by_their_upper_case() {
    let wql = Wql::from_str("create ent\u{131}ty e");
    assert_eq!(wql.unwrap(), Wql::CreateEntity(String::from("e")));
    let wql = wql::parse_wql("in\u{17f}ert {} \u{131}nto e");
    assert_eq!(wql.unwrap(), Wql::Insert(String::from("e"), wql::Entity::new()));
}
