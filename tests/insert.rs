use std::str::FromStr;
use wql::cursor::tokenize;
use wql::literal::infer_value;
use wql::parser::{parse_key, parse_value, read_map};
use wql::{parse_wql, Entity, Types, Wql};

fn hashmap() -> Entity {
    let mut hm = Entity::new();
    hm.insert("a".to_string(), Types::Integer(123));
    hm.insert("b".to_string(), Types::Float("12.3".to_string()));
    hm.insert("c".to_string(), Types::Char('d'));
    hm.insert("d".to_string(), Types::Boolean(true));
    hm.insert("e".to_string(), Types::Boolean(false));
    hm.insert("f".to_string(), Types::String("hello".to_string()));
    hm.insert("g".to_string(), Types::Nil);
    hm
}

#[test]
fn insert_entity() {
    let wql = Wql::from_str("INSERT {
            a: 123,
            b: 12.3,
            c: 'd' ,
            d: true ,
            e: false,
            f: \"hello\",
            g: NiL
        } INTO my_entity");

    assert_eq!(wql.unwrap(), Wql::Insert("my_entity".to_string(), hashmap()));
}

#[test]
fn insert_missing_into() {
    let wql = Wql::from_str("INSERT {
            a: 123,
        } INTRO my_entity");

    assert_eq!(wql.err(), Some(String::from("Keyword INTO is required for INSERT")));
}

#[test]
fn insert_missing_entity_name() {
    let wql = Wql::from_str("INSERT {
            a: 123,
        } INTO ");

    assert_eq!(wql.err(), Some(String::from("Entity name is required after INTO")));
}

#[test]
fn insert_on_one_line() {
    let wql = parse_wql("INSERT { a: 123, b: 12.3, c: 'd', d: true, e: false, f: \"hello\", g: NiL } INTO my_entity");
    assert_eq!(wql.unwrap(), Wql::Insert("my_entity".to_string(), hashmap()));
}

#[test]
fn insert_empty_map() {
    let wql = parse_wql("insert {} into things");
    assert_eq!(wql.unwrap(), Wql::Insert("things".to_string(), Entity::new()));
}

#[test]
fn insert_string_with_every_escape() {
    let wql = parse_wql("INSERT { s: \"\\t\\r\\n\\\\\\\"\" } INTO e");
    let mut m = Entity::new();
    m.insert("s".to_string(), Types::String("\t\r\n\\\"".to_string()));
    assert_eq!(wql.unwrap(), Wql::Insert("e".to_string(), m));
}

#[test]
fn insert_invalid_escape() {
    let wql = parse_wql("INSERT { s: \"a\\qb\" } INTO e");
    assert_eq!(wql.err(), Some(String::from("Invalid escape sequence \\q")));
}

#[test]
fn insert_unterminated_string() {
    let wql = parse_wql("INSERT { s: \"abc");
    assert_eq!(wql.err(), Some(String::from("Unterminated string")));
}

#[test]
fn insert_value_not_inferred() {
    let wql = parse_wql("INSERT { a: hello } INTO e");
    assert_eq!(wql.err(), Some(String::from("Value Type could not be created from hello")));
}

#[test]
fn insert_map_without_open_brace() {
    let wql = parse_wql("INSERT a: 1 } INTO e");
    assert_eq!(wql.err(), Some(String::from("Entity map should start with `{` and end with `}`")));
}

#[test]
fn insert_map_without_close_brace() {
    let wql = parse_wql("INSERT { a: 1");
    assert_eq!(wql.err(), Some(String::from("Entity HashMap could not be created")));
}

#[test]
fn insert_repeated_key_keeps_last_value() {
    let wql = parse_wql("INSERT { a: 1, b: 2, a: 3 } INTO e");
    let mut m = Entity::new();
    m.insert("a".to_string(), Types::Integer(3));
    m.insert("b".to_string(), Types::Integer(2));
    let got = wql.unwrap();
    assert_eq!(got, Wql::Insert("e".to_string(), m));
    if let Wql::Insert(_, e) = got {
        assert_eq!(e.len(), 2);
    }
}

#[test]
fn insert_key_waiting_at_close_is_dropped() {
    let wql = parse_wql("INSERT { a: 1, b } INTO e");
    let mut m = Entity::new();
    m.insert("a".to_string(), Types::Integer(1));
    assert_eq!(wql.unwrap(), Wql::Insert("e".to_string(), m));
}

#[test]
fn insert_uuid_value() {
    let wql = parse_wql("INSERT { id: 550e8400-e29b-41d4-a716-446655440000 } INTO e");
    let mut m = Entity::new();
    m.insert("id".to_string(), Types::Uuid(0x550e8400_e29b_41d4_a716_446655440000));
    assert_eq!(wql.unwrap(), Wql::Insert("e".to_string(), m));
}

fn value_of(token: &str) -> Types {
    let mut cursor = tokenize(&token[1..]);
    parse_value(token.chars().next().unwrap(), &mut cursor).unwrap()
}

#[test]
fn integers_with_signs() {
    assert_eq!(value_of("-42"), Types::Integer(-42));
    assert_eq!(value_of("+7"), Types::Integer(7));
    assert_eq!(value_of("0"), Types::Integer(0));
    assert_eq!(value_of("-9223372036854775808"), Types::Integer(isize::MIN));
}

#[test]
fn integer_out_of_range_is_a_float() {
    assert_eq!(value_of("99999999999999999999"), Types::Float("99999999999999999999".to_string()));
}

#[test]
fn float_forms() {
    for t in ["1.5", "-0.25", "1e5", "2.5E-3", ".5", "3.", "inf", "-Infinity", "NaN"] {
        assert_eq!(value_of(t), Types::Float(t.to_string()));
        assert!(t.parse::<f64>().is_ok());
    }
}

#[test]
fn booleans_are_lower_case_only() {
    assert_eq!(value_of("true"), Types::Boolean(true));
    assert_eq!(value_of("false"), Types::Boolean(false));
    let mut cursor = tokenize("rue");
    assert_eq!(
        parse_value('T', &mut cursor).err(),
        Some(String::from("Value Type could not be created from True"))
    );
}

#[test]
fn nil_in_any_case_and_chars() {
    assert_eq!(value_of("nil"), Types::Nil);
    assert_eq!(value_of("NIL"), Types::Nil);
    assert_eq!(value_of("'x'"), Types::Char('x'));
    assert_eq!(value_of("'''"), Types::Char('\''));
}

#[test]
fn value_token_stops_at_comma() {
    let mut cursor = tokenize("23,b");
    assert_eq!(parse_value('1', &mut cursor).unwrap(), Types::Integer(123));
    assert_eq!(cursor.next(), Some('b'));
}

#[test]
fn inference_order_with_given_uuid() {
    let abc: Vec<char> = "abc".chars().collect();
    assert_eq!(infer_value(&abc, Some(5)).unwrap(), Types::Uuid(5));
    let num: Vec<char> = "12".chars().collect();
    assert_eq!(infer_value(&num, Some(5)).unwrap(), Types::Integer(12));
    let fl: Vec<char> = "1.0".chars().collect();
    assert_eq!(infer_value(&fl, Some(5)).unwrap(), Types::Float("1.0".to_string()));
    assert_eq!(
        infer_value(&abc, None).err(),
        Some(String::from("Value Type could not be created from abc"))
    );
}

#[test]
fn key_reads_name_and_drops_separator() {
    let mut cursor = tokenize("ey_1: 5");
    assert_eq!(parse_key('k', &mut cursor), String::from("key_1"));
    assert_eq!(cursor.next(), Some(' '));
}

#[test]
fn read_map_stops_after_brace() {
    let mut cursor = tokenize("{ x: 1 } rest");
    let m = read_map(&mut cursor).unwrap();
    assert_eq!(m.len(), 1);
    assert_eq!(cursor.next(), Some(' '));
    assert_eq!(cursor.next(), Some('r'));
}

#[test]
fn entity_fields_come_out_in_order() {
    let mut cursor = tokenize("{ b: 1, a: 2 }");
    let e = read_map(&mut cursor).unwrap().into_entries();
    assert_eq!(e[0], ("b".to_string(), Types::Integer(1)));
    assert_eq!(e[1], ("a".to_string(), Types::Integer(2)));
}
