use people_api::router::{route, Method, Route};
use people_api::service::{apply, classify_name, decode_payload, handle, has_room, list_json, Outcome, Payload};
use people_api::store::{Person, Store};
use people_api::text::{is_blank, parse_u32_from, write_decimal};

fn send(store: &mut Store, method: Method, path: &str, body: &str) -> Outcome {
    handle(store, method, path, body.as_bytes())
}

fn names(store: &Store) -> Vec<(u32, String)> {
    store.people().iter().map(|p: &Person| (p.id, p.name.clone())).collect()
}

#[test]
fn fresh_store_lists_seed_records() {
    let mut store = Store::seeded();
    let out = send(&mut store, Method::Get, "/people", "");
    assert_eq!(out.status, 200);
    assert_eq!(
        out.body,
        r#"[{"id":1,"name":"Alice"},{"id":2,"name":"Bob"},{"id":3,"name":"Charlie"}]"#
    );
}

#[test]
fn post_adds_person_with_next_id() {
    let mut store = Store::seeded();
    let out = send(&mut store, Method::Post, "/people", r#"{"name":"Dana"}"#);
    assert_eq!(out.status, 200);
    assert_eq!(out.body, "Person added");
    let list = send(&mut store, Method::Get, "/people", "");
    assert_eq!(list.status, 200);
    assert!(list.body.contains(r#"{"id":4,"name":"Dana"}"#));
}

#[test]
fn post_blank_name_is_rejected() {
    let mut store = Store::seeded();
    let out = send(&mut store, Method::Post, "/people", r#"{"name":"  "}"#);
    assert_eq!(out.status, 400);
    assert_eq!(out.body, "'name' cannot be empty");
    assert_eq!(store.len(), 3);
}

#[test]
fn put_renames_existing_person() {
    let mut store = Store::seeded();
    let out = send(&mut store, Method::Put, "/people/2", r#"{"name":"Bobby"}"#);
    assert_eq!(out.status, 200);
    assert_eq!(out.body, "Person updated");
    assert_eq!(names(&store)[1], (2, "Bobby".to_string()));
}

#[test]
fn put_unknown_id_is_not_found() {
    let mut store = Store::seeded();
    let out = send(&mut store, Method::Put, "/people/99", r#"{"name":"X"}"#);
    assert_eq!(out.status, 404);
    assert_eq!(out.body, "Person not found");
}

#[test]
fn delete_removes_person() {
    let mut store = Store::seeded();
    let out = send(&mut store, Method::Delete, "/people/1", "");
    assert_eq!(out.status, 200);
    assert_eq!(out.body, "Person deleted");
    let list = send(&mut store, Method::Get, "/people", "");
    assert_eq!(list.body, r#"[{"id":2,"name":"Bob"},{"id":3,"name":"Charlie"}]"#);
}

#[test]
fn delete_twice_finds_nothing_second_time() {
    let mut store = Store::seeded();
    assert_eq!(send(&mut store, Method::Delete, "/people/2", "").status, 200);
    let again = send(&mut store, Method::Delete, "/people/2", "");
    assert_eq!(again.status, 404);
    assert_eq!(again.body, "Person not found");
}

#[test]
fn list_is_idempotent() {
    let mut store = Store::seeded();
    let a = send(&mut store, Method::Get, "/people", "");
    let b = send(&mut store, Method::Get, "/people", "");
    assert_eq!(a.status, b.status);
    assert_eq!(a.body, b.body);
    assert_eq!(store.len(), 3);
}

#[test]
fn creates_on_empty_store_number_from_one() {
    let mut store = Store::new();
    for name in ["a", "b", "c", "d", "e"] {
        let body = format!("{{\"name\":\"{}\"}}", name);
        assert_eq!(send(&mut store, Method::Post, "/people", &body).status, 200);
    }
    let got = names(&store);
    let want: Vec<(u32, String)> = ["a", "b", "c", "d", "e"]
        .iter()
        .enumerate()
        .map(|(i, n)| (i as u32 + 1, n.to_string()))
        .collect();
    assert_eq!(got, want);
}

#[test]
fn ids_keep_increasing_after_deletes() {
    let mut store = Store::seeded();
    assert_eq!(send(&mut store, Method::Delete, "/people/2", "").status, 200);
    assert_eq!(store.create("Eve".to_string()), 4);
    assert_eq!(send(&mut store, Method::Delete, "/people/4", "").status, 200);
    assert_eq!(store.next_id(), 4);
    assert_eq!(send(&mut store, Method::Delete, "/people/1", "").status, 200);
    assert_eq!(send(&mut store, Method::Delete, "/people/3", "").status, 200);
    assert_eq!(store.next_id(), 1);
}

#[test]
fn invalid_json_is_rejected() {
    let mut store = Store::seeded();
    let out = send(&mut store, Method::Post, "/people", "{name: Dana");
    assert_eq!(out.status, 400);
    assert_eq!(out.body, "Invalid JSON format");
}

#[test]
fn invalid_utf8_counts_as_invalid_json() {
    let mut store = Store::seeded();
    let out = handle(&mut store, Method::Post, "/people", &[0x7b, 0xff, 0xfe, 0x7d]);
    assert_eq!(out.status, 400);
    assert_eq!(out.body, "Invalid JSON format");
    assert!(matches!(decode_payload(&[0xff]), Payload::Malformed));
    match decode_payload(br#"{"age":3,"name":"Dana"}"#) {
        Payload::Name(n) => assert_eq!(n, "Dana"),
        _ => panic!("expected a name"),
    }
}

#[test]
fn missing_or_non_string_name_is_rejected() {
    let mut store = Store::seeded();
    for body in [r#"{"nom":"Dana"}"#, r#"{"name":5}"#, "[1,2]", "7"] {
        let out = send(&mut store, Method::Post, "/people", body);
        assert_eq!(out.status, 400);
        assert_eq!(out.body, "Missing 'name' field");
    }
    assert_eq!(store.len(), 3);
}

#[test]
fn invalid_id_is_rejected_before_body() {
    let mut store = Store::seeded();
    let out = send(&mut store, Method::Put, "/people/abc", "not json");
    assert_eq!(out.status, 400);
    assert_eq!(out.body, "Invalid ID format");
    let out = send(&mut store, Method::Delete, "/people/", "");
    assert_eq!(out.status, 400);
    assert_eq!(out.body, "Invalid ID format");
    let out = send(&mut store, Method::Delete, "/people/4294967296", "");
    assert_eq!(out.body, "Invalid ID format");
    let out = send(&mut store, Method::Delete, "/people//people/3", "");
    assert_eq!(out.status, 400);
    assert_eq!(out.body, "Invalid ID format");
    assert_eq!(store.len(), 3);
}

#[test]
fn unmatched_route_is_not_found_with_empty_body() {
    let mut store = Store::seeded();
    for (m, p) in [
        (Method::Get, "/people/1"),
        (Method::Post, "/people/"),
        (Method::Other, "/people"),
        (Method::Get, "/persons"),
        (Method::Delete, "/people"),
    ] {
        let out = send(&mut store, m, p, "");
        assert_eq!(out.status, 404);
        assert_eq!(out.body, "");
    }
}

#[test]
fn update_payload_errors() {
    let mut store = Store::seeded();
    let out = send(&mut store, Method::Put, "/people/1", "");
    assert_eq!(out.body, "Invalid JSON format");
    let out = send(&mut store, Method::Put, "/people/1", "{}");
    assert_eq!(out.body, "Missing 'name' field");
    let out = send(&mut store, Method::Put, "/people/1", r#"{"name":"\t\n"}"#);
    assert_eq!(out.body, "'name' cannot be empty");
    assert_eq!(names(&store)[0], (1, "Alice".to_string()));
}

#[test]
fn names_are_escaped_in_listing() {
    let mut store = Store::new();
    store.create("Zoe \"Z\" \\ O".to_string());
    assert_eq!(list_json(&store), r#"[{"id":1,"name":"Zoe \"Z\" \\ O"}]"#);
    assert_eq!(list_json(&Store::new()), "[]");
    let mut ctl = Store::new();
    ctl.create("a\u{1}b\n\u{7f}".to_string());
    assert_eq!(list_json(&ctl), "[{\"id\":1,\"name\":\"a\\u0001b\\n\u{7f}\"}]");
}

#[test]
fn name_is_stored_as_sent() {
    let mut store = Store::new();
    let out = send(&mut store, Method::Post, "/people", r#"{"name":" Dana "}"#);
    assert_eq!(out.status, 200);
    assert_eq!(names(&store), vec![(1, " Dana ".to_string())]);
}

#[test]
fn routes_and_ids() {
    assert!(matches!(route(Method::Get, "/people"), Route::List));
    assert!(matches!(route(Method::Post, "/people"), Route::Create));
    assert!(matches!(route(Method::Put, "/people/12"), Route::Update(Some(12))));
    assert!(matches!(route(Method::Delete, "/people/+7"), Route::Delete(Some(7))));
    assert!(matches!(route(Method::Delete, "/people//people/3"), Route::Delete(None)));
    assert!(matches!(route(Method::Put, "/people//people/3"), Route::Update(None)));
    assert!(matches!(route(Method::Delete, "/people/-1"), Route::Delete(None)));
    assert!(matches!(route(Method::Put, "/people/1/2"), Route::Update(None)));
    assert!(matches!(route(Method::Get, "/peoplex"), Route::NotFound));
}

#[test]
fn parse_u32_edges() {
    assert_eq!(parse_u32_from("4294967295", 0), Some(4294967295));
    assert_eq!(parse_u32_from("4294967296", 0), None);
    assert_eq!(parse_u32_from("99999999999999999999", 0), None);
    assert_eq!(parse_u32_from("+", 0), None);
    assert_eq!(parse_u32_from("", 0), None);
    assert_eq!(parse_u32_from("x007", 1), Some(7));
    assert_eq!(parse_u32_from("1 ", 0), None);
}

#[test]
fn decimal_numerals() {
    let mut s = String::from("n=");
    write_decimal(&mut s, 0);
    write_decimal(&mut s, 4294967295);
    assert_eq!(s, "n=04294967295");
}

#[test]
fn blank_detection_and_classification() {
    assert!(is_blank(""));
    assert!(is_blank(" \t\n\u{3000}"));
    assert!(!is_blank(" a "));
    assert!(is_blank("\u{85}\u{a0}\u{2028}\u{202f}\r"));
    assert!(!is_blank("\u{200b}"));
    assert!(matches!(classify_name(None), Payload::MissingName));
    assert!(matches!(classify_name(Some("  ".to_string())), Payload::BlankName));
    match classify_name(Some("Bo".to_string())) {
        Payload::Name(n) => assert_eq!(n, "Bo"),
        _ => panic!("expected a name"),
    }
}

#[test]
fn apply_takes_decoded_payload() {
    let mut store = Store::seeded();
    let out = apply(&mut store, Route::Create, Payload::Name("Fay".to_string()));
    assert_eq!(out.status, 200);
    assert_eq!(names(&store)[3], (4, "Fay".to_string()));
    let out = apply(&mut store, Route::Create, Payload::BlankName);
    assert_eq!(out.body, "'name' cannot be empty");
    let out = apply(&mut store, Route::Update(Some(4)), Payload::Malformed);
    assert_eq!(out.body, "Invalid JSON format");
    assert!(has_room(&store, Route::Create));
}

#[test]
fn full_store_has_no_room_for_create() {
    let mut store = Store::new();
    store.insert(Person { id: u32::MAX, name: "Max".to_string() });
    assert!(!has_room(&store, Route::Create));
    assert!(has_room(&store, Route::List));
    assert_eq!(store.position(u32::MAX), Some(0));
    assert!(store.rename(u32::MAX, "Maxi".to_string()));
    assert!(store.remove(u32::MAX));
    assert!(!store.remove(u32::MAX));
}
