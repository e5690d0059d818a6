use ptero_links::inventory::{
    last_page, node_id, node_lookup_request, read_entity, read_page, server_page_request, Entity,
    Field, InventoryError, Listing,
};
use serde_json::Value;

fn doc(text: &str) -> Value {
    serde_json::from_str(text).unwrap()
}

fn entity(id: &str, name: &str) -> Entity {
    Entity { id: id.to_string(), display_name: name.to_string() }
}

fn field(name: &str, value: &str) -> Field {
    Field { name: name.to_string(), value: value.to_string() }
}

#[test]
fn node_lookup_request_filters_by_uuid() {
    let r = node_lookup_request("https://panel.example", "KEY", "1234-uuid");
    assert_eq!(r.url, "https://panel.example/api/application/nodes");
    assert_eq!(
        r.headers,
        vec![
            field("Authorization", "Bearer KEY"),
            field("Accept", "application/vnd.pterodactyl.v1+json"),
        ]
    );
    assert_eq!(r.query, vec![field("filter[uuid]", "1234-uuid"), field("per_page", "1")]);
}

#[test]
fn server_page_request_names_page_and_size() {
    let r = server_page_request("http://p", "K", 3);
    assert_eq!(r.url, "http://p/api/application/servers");
    assert_eq!(
        r.headers,
        vec![field("Authorization", "Bearer K"), field("Accept", "application/vnd.pterodactyl.v1+json")]
    );
    assert_eq!(r.query, vec![field("per_page", "100"), field("page", "3")]);
}

#[test]
fn node_id_reads_the_first_match() {
    let d = doc(r#"{"data":[{"attributes":{"id":7,"uuid":"u"}},{"attributes":{"id":9}}]}"#);
    assert_eq!(node_id(&d), Ok(7));
}

#[test]
fn node_id_of_an_empty_listing_is_not_found() {
    assert_eq!(node_id(&doc(r#"{"data":[]}"#)), Err(InventoryError::NodeNotFound));
    assert_eq!(node_id(&doc(r#"{}"#)), Err(InventoryError::NodeNotFound));
    assert_eq!(node_id(&doc(r#"[1,2]"#)), Err(InventoryError::NodeNotFound));
}

#[test]
fn node_id_must_be_an_unsigned_integer() {
    assert_eq!(
        node_id(&doc(r#"{"data":[{"attributes":{"id":"7"}}]}"#)),
        Err(InventoryError::NodeNotFound)
    );
    assert_eq!(
        node_id(&doc(r#"{"data":[{"attributes":{"id":-7}}]}"#)),
        Err(InventoryError::NodeNotFound)
    );
    assert_eq!(
        node_id(&doc(r#"{"data":[{"attributes":{"id":7.5}}]}"#)),
        Err(InventoryError::NodeNotFound)
    );
    assert_eq!(
        node_id(&doc(r#"{"data":[{"attributes":{"id":18446744073709551615}}]}"#)),
        Ok(u64::MAX)
    );
}

#[test]
fn read_entity_takes_id_and_name_of_this_node() {
    let item = doc(r#"{"attributes":{"id":"abcdefgh1234","name":"My Server!","node":3}}"#);
    assert_eq!(read_entity(&item, 3), Some(entity("abcdefgh1234", "My Server!")));
    assert_eq!(read_entity(&item, 4), None);
}

#[test]
fn read_entity_drops_what_is_incomplete() {
    assert_eq!(read_entity(&doc(r#"{"attributes":{"name":"n","node":3}}"#), 3), None);
    assert_eq!(read_entity(&doc(r#"{"attributes":{"id":"i","node":3}}"#), 3), None);
    assert_eq!(read_entity(&doc(r#"{"attributes":{"id":5,"name":"n","node":3}}"#), 3), None);
    assert_eq!(read_entity(&doc(r#"{"attributes":{"id":"i","name":null,"node":3}}"#), 3), None);
    assert_eq!(read_entity(&doc(r#"{"attributes":{"id":"i","name":"n"}}"#), 3), None);
    assert_eq!(read_entity(&doc(r#"{"attributes":{"id":"i","name":"n","node":"3"}}"#), 3), None);
    assert_eq!(read_entity(&doc(r#"{"id":"i","name":"n","node":3}"#), 3), None);
    assert_eq!(read_entity(&doc(r#"null"#), 3), None);
}

#[test]
fn read_page_appends_in_order() {
    let page = doc(
        r#"{"data":[
            {"attributes":{"id":"aaaaaaaa1","name":"A","node":1}},
            {"attributes":{"id":"bbbbbbbb1","name":"B","node":2}},
            {"attributes":{"id":"cccccccc1","node":1}},
            {"attributes":{"id":"dddddddd1","name":"D","node":1}}
        ]}"#,
    );
    let mut found = vec![entity("earlier", "E")];
    read_page(&mut found, &page, 1);
    assert_eq!(
        found,
        vec![entity("earlier", "E"), entity("aaaaaaaa1", "A"), entity("dddddddd1", "D")]
    );
}

#[test]
fn read_page_without_data_array_adds_nothing() {
    let mut found = vec![entity("earlier", "E")];
    read_page(&mut found, &doc(r#"{"data":{"x":1}}"#), 1);
    read_page(&mut found, &doc(r#"{}"#), 1);
    assert_eq!(found, vec![entity("earlier", "E")]);
}

#[test]
fn last_page_compares_current_and_total() {
    let p = |c: u64, t: u64| {
        doc(&format!(
            r#"{{"meta":{{"pagination":{{"current_page":{},"total_pages":{}}}}}}}"#,
            c, t
        ))
    };
    assert!(!last_page(&p(1, 2), 1));
    assert!(last_page(&p(2, 2), 2));
    assert!(last_page(&p(3, 2), 3));
    assert!(last_page(&p(1, 0), 1));
}

#[test]
fn last_page_falls_back_on_what_was_asked() {
    assert!(last_page(&doc(r#"{}"#), 5));
    let only_total = doc(r#"{"meta":{"pagination":{"total_pages":3}}}"#);
    assert!(!last_page(&only_total, 2));
    assert!(last_page(&only_total, 3));
    let only_current = doc(r#"{"meta":{"pagination":{"current_page":1}}}"#);
    assert!(last_page(&only_current, 9));
}

fn page_of(ids: &[(&str, u64)], current: u64, total: u64) -> Value {
    let items: Vec<String> = ids
        .iter()
        .map(|(id, node)| {
            format!(r#"{{"attributes":{{"id":"{}","name":"n-{}","node":{}}}}}"#, id, id, node)
        })
        .collect();
    doc(&format!(
        r#"{{"data":[{}],"meta":{{"pagination":{{"current_page":{},"total_pages":{}}}}}}}"#,
        items.join(","),
        current,
        total
    ))
}

#[test]
fn listing_gathers_every_page_and_stops_at_the_last() {
    let pages = vec![
        page_of(&[("id-1", 1), ("id-2", 2)], 1, 3),
        page_of(&[("id-3", 1), ("id-4", 1)], 2, 3),
        page_of(&[("id-5", 2), ("id-6", 1)], 3, 3),
    ];
    let mut listing = Listing::start(1);
    assert_eq!(listing.page, 1);
    assert!(!listing.complete);
    let mut asked: Vec<u32> = Vec::new();
    for page in &pages {
        assert!(!listing.complete);
        asked.push(listing.page);
        assert_eq!(listing.accept(page), Ok(()));
    }
    assert_eq!(asked, vec![1, 2, 3]);
    assert!(listing.complete);
    assert_eq!(
        listing.found,
        vec![
            entity("id-1", "n-id-1"),
            entity("id-3", "n-id-3"),
            entity("id-4", "n-id-4"),
            entity("id-6", "n-id-6"),
        ]
    );
}

#[test]
fn listing_of_a_single_page_is_complete_at_once() {
    let mut listing = Listing::start(2);
    assert_eq!(listing.accept(&page_of(&[("only", 2)], 1, 1)), Ok(()));
    assert!(listing.complete);
    assert_eq!(listing.page, 1);
    assert_eq!(listing.found, vec![entity("only", "n-only")]);
}

#[test]
fn complete_listing_takes_no_further_page() {
    let mut listing = Listing::start(2);
    assert_eq!(listing.accept(&page_of(&[("only", 2)], 1, 1)), Ok(()));
    assert_eq!(listing.accept(&page_of(&[("more", 2)], 1, 5)), Ok(()));
    assert!(listing.complete);
    assert_eq!(listing.page, 1);
    assert_eq!(listing.found, vec![entity("only", "n-only")]);
}

#[test]
fn listing_fails_when_page_numbers_run_out() {
    let mut listing =
        Listing { node_id: 1, page: u32::MAX, found: vec![entity("kept", "K")], complete: false };
    assert_eq!(
        listing.accept(&page_of(&[("x", 1)], 1, 2)),
        Err(InventoryError::PageLimit)
    );
    assert_eq!(listing.page, u32::MAX);
    assert!(!listing.complete);
    assert_eq!(listing.found, vec![entity("kept", "K")]);
}
