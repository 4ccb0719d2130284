use powerstatus_api::customer::Customer;
use powerstatus_api::handlers::{
    add_customer, add_new, created, delete_one, deleted, get_all, invalid_payload, listed, parse_identifier,
    Response, CUSTOMERS_ROUTE, CUSTOMER_ROUTE,
};
use powerstatus_api::payload::read_customer;
use powerstatus_api::store::{
    StoreError, Table, DELETE_STATEMENT, INSERT_STATEMENT, SELECT_STATEMENT,
};

fn person(first: &str) -> Customer {
    Customer {
        id: 0,
        firstName: first.to_string(),
        lastName: "L".to_string(),
        street: "S".to_string(),
        city: "C".to_string(),
        zip: "Z".to_string(),
        country: "N".to_string(),
        accessKey: "K".to_string(),
    }
}

fn with_id(id: i64, first: &str) -> Customer {
    let mut c = person(first);
    c.id = id;
    c
}

fn ids(table: &Table) -> Vec<i64> {
    table.select_all().iter().map(|c| c.id).collect()
}

fn seeded(names: &[&str]) -> Table {
    let mut table = Table::new();
    for name in names {
        table.insert(&person(name)).unwrap();
    }
    table
}

#[test]
fn new_table_is_empty() {
    let table = Table::new();
    assert_eq!(table.len(), 0);
    assert!(table.select_all().is_empty());
}

#[test]
fn insert_assigns_rising_identifiers_and_lists_newest_first() {
    let mut table = Table::new();
    assert_eq!(table.insert(&with_id(500, "a")), Ok(1));
    assert_eq!(table.insert(&with_id(-3, "b")), Ok(2));
    assert_eq!(table.insert(&person("c")), Ok(3));
    assert_eq!(ids(&table), vec![3, 2, 1]);
    let rows = table.select_all();
    assert_eq!(rows[0].firstName, "c");
    assert_eq!(rows[1].firstName, "b");
    assert_eq!(rows[2].firstName, "a");
    assert_eq!(rows[2].accessKey, "K");
}

#[test]
fn insert_after_deleting_the_newest_reuses_its_identifier() {
    let mut table = seeded(&["a", "b"]);
    assert_eq!(table.delete(2), 1);
    assert_eq!(table.insert(&person("c")), Ok(2));
    assert_eq!(ids(&table), vec![2, 1]);
}

#[test]
fn insert_fails_when_no_identifier_is_left() {
    let mut table = Table::from_rows(vec![with_id(i64::MAX, "last"), with_id(4, "x")]).unwrap();
    assert_eq!(table.insert(&person("more")), Err(StoreError::Full));
    assert_eq!(ids(&table), vec![i64::MAX, 4]);
}

#[test]
fn from_rows_takes_falling_identifiers_only() {
    assert!(Table::from_rows(Vec::new()).is_some());
    assert!(Table::from_rows(vec![with_id(7, "a")]).is_some());
    let table = Table::from_rows(vec![with_id(9, "a"), with_id(3, "b"), with_id(-2, "c")]).unwrap();
    assert_eq!(ids(&table), vec![9, 3, -2]);
    assert!(Table::from_rows(vec![with_id(3, "a"), with_id(3, "b")]).is_none());
    assert!(Table::from_rows(vec![with_id(1, "a"), with_id(2, "b")]).is_none());
    assert!(Table::from_rows(vec![with_id(5, "a"), with_id(4, "b"), with_id(4, "c")]).is_none());
}

#[test]
fn delete_removes_the_one_row_with_the_identifier() {
    let mut table = seeded(&["a", "b", "c"]);
    assert_eq!(table.delete(2), 1);
    assert_eq!(ids(&table), vec![3, 1]);
    assert_eq!(table.delete(2), 0);
    assert_eq!(table.delete(99), 0);
    assert_eq!(ids(&table), vec![3, 1]);
    assert_eq!(table.delete(3), 1);
    assert_eq!(table.delete(1), 1);
    assert_eq!(table.len(), 0);
}

fn header(name: &str, value: &str) -> (String, String) {
    (name.to_string(), value.to_string())
}

#[test]
fn responses_carry_status_headers_and_body() {
    let r = Response::new(418, "tea");
    assert_eq!(r.status, 418);
    assert!(r.headers.is_empty());
    assert_eq!(r.body, "tea");
    let r = r.with_header("A", "1").with_header("B", "2");
    assert_eq!(r.status, 418);
    assert_eq!(r.headers, vec![header("A", "1"), header("B", "2")]);
    assert_eq!(r.body, "tea");
}

#[test]
fn create_stores_the_fields_and_signals_a_new_item() {
    let mut table = seeded(&["old"]);
    let response = add_customer(&mut table, Some(with_id(999, "new"))).unwrap();
    assert_eq!(response.status, 200);
    assert_eq!(response.headers, vec![header("HX-Trigger", "newItem")]);
    assert_eq!(response.body, "");
    assert_eq!(table.len(), 2);
    let rows = table.select_all();
    assert_eq!(rows[0].id, 2);
    assert_eq!(rows[0].firstName, "new");
    let listing = get_all(&table).body;
    assert!(listing.starts_with(&rows[0].to_html_string()));
    assert!(listing.starts_with("<div class=\"item\" id=\"item-2\"><div class=\"FirstName\">new</div>"));
}

#[test]
fn create_accepts_empty_text() {
    let mut table = Table::new();
    let response = add_customer(&mut table, Some(person(""))).unwrap();
    assert_eq!(response.status, 200);
    assert_eq!(table.len(), 1);
}

#[test]
fn create_without_a_readable_payload_is_turned_down() {
    let mut table = seeded(&["a", "b"]);
    let response = add_customer(&mut table, None).unwrap();
    assert_eq!(response.status, 400);
    assert!(response.headers.is_empty());
    assert_eq!(response.body, "Invalid payload received");
    assert_eq!(ids(&table), vec![2, 1]);
    let again = add_customer(&mut table, None).unwrap();
    assert_eq!(again.status, 400);
    assert_eq!(ids(&table), vec![2, 1]);
}

#[test]
fn create_hands_on_a_failure_of_the_table() {
    let mut table = Table::from_rows(vec![with_id(i64::MAX, "last")]).unwrap();
    let outcome = add_customer(&mut table, Some(person("more")));
    assert!(matches!(outcome, Err(StoreError::Full)));
    assert_eq!(table.len(), 1);
}

#[test]
fn list_of_an_empty_table_is_an_empty_html_body() {
    let response = get_all(&Table::new());
    assert_eq!(response.status, 200);
    assert_eq!(response.headers, vec![header("Content-Type", "text/html")]);
    assert_eq!(response.body, "");
}

#[test]
fn list_shows_rows_newest_first() {
    let table = seeded(&["a", "b", "c"]);
    let rows = table.select_all();
    let response = get_all(&table);
    assert_eq!(response.status, 200);
    assert_eq!(response.headers, vec![header("Content-Type", "text/html")]);
    assert_eq!(
        response.body,
        format!(
            "{} {} {}",
            with_id(3, "c").to_html_string(),
            with_id(2, "b").to_html_string(),
            with_id(1, "a").to_html_string()
        )
    );
    assert_eq!(listed(&rows).body, response.body);
}

#[test]
fn delete_of_an_existing_row_removes_it_from_the_list() {
    let mut table = seeded(&["a", "b", "c"]);
    let gone = with_id(2, "b").to_html_string();
    assert!(get_all(&table).body.contains(&gone));
    let response = delete_one(&mut table, Some("2"));
    assert_eq!(response.status, 200);
    assert!(response.headers.is_empty());
    assert_eq!(response.body, "");
    assert_eq!(ids(&table), vec![3, 1]);
    assert!(!get_all(&table).body.contains(&gone));
}

#[test]
fn delete_of_an_unknown_identifier_succeeds_and_changes_nothing() {
    let mut table = seeded(&["a", "b"]);
    let response = delete_one(&mut table, Some("17"));
    assert_eq!(response.status, 200);
    assert_eq!(response.body, "");
    assert_eq!(ids(&table), vec![2, 1]);
    let response = delete_one(&mut table, Some("-1"));
    assert_eq!(response.status, 200);
    assert_eq!(ids(&table), vec![2, 1]);
}

#[test]
fn delete_without_an_identifier_is_not_found() {
    let mut table = seeded(&["a"]);
    let response = delete_one(&mut table, None);
    assert_eq!(response.status, 404);
    assert_eq!(response.body, "Missing identifier");
    assert!(response.headers.is_empty());
    assert_eq!(table.len(), 1);
}

#[test]
fn delete_with_a_malformed_identifier_is_turned_down() {
    let mut table = seeded(&["a"]);
    for text in ["abc", "", "1.0", " 1", "1 ", "-", "+", "1_0", "0x1", "९"] {
        let response = delete_one(&mut table, Some(text));
        assert_eq!(response.status, 400);
        assert_eq!(response.body, "Unexpected identifier format");
        assert!(response.headers.is_empty());
        assert_eq!(table.len(), 1);
    }
}

#[test]
fn identifiers_are_signed_decimal_integers_of_64_bits() {
    assert_eq!(parse_identifier(Some("0")).ok(), Some(0));
    assert_eq!(parse_identifier(Some("42")).ok(), Some(42));
    assert_eq!(parse_identifier(Some("+42")).ok(), Some(42));
    assert_eq!(parse_identifier(Some("-42")).ok(), Some(-42));
    assert_eq!(parse_identifier(Some("007")).ok(), Some(7));
    assert_eq!(parse_identifier(Some("9223372036854775807")).ok(), Some(i64::MAX));
    assert_eq!(parse_identifier(Some("-9223372036854775808")).ok(), Some(i64::MIN));
    assert_eq!(parse_identifier(Some("9223372036854775808")).unwrap_err().status, 400);
    assert_eq!(parse_identifier(Some("-9223372036854775809")).unwrap_err().status, 400);
    assert_eq!(parse_identifier(Some("+-1")).unwrap_err().status, 400);
    assert_eq!(parse_identifier(None).unwrap_err().status, 404);
}

#[test]
fn delete_failure_of_the_store_is_a_server_error() {
    let response = deleted(Err(StoreError::Failed));
    assert_eq!(response.status, 500);
    assert_eq!(response.body, "Error while deleting item");
    assert!(response.headers.is_empty());
    let response = deleted(Err(StoreError::Full));
    assert_eq!(response.status, 500);
    let response = deleted(Ok(()));
    assert_eq!(response.status, 200);
    assert_eq!(response.body, "");
}

#[test]
fn fixed_responses() {
    let r = invalid_payload();
    assert_eq!((r.status, r.body.as_str()), (400, "Invalid payload received"));
    let r = created();
    assert_eq!(r.status, 200);
    assert_eq!(r.headers, vec![header("HX-Trigger", "newItem")]);
    assert_eq!(r.body, "");
}

#[test]
fn created_values_come_back_in_the_listing() {
    let mut table = Table::new();
    let c = Customer {
        id: 0,
        firstName: "Ada & Co".to_string(),
        lastName: "O'Neil".to_string(),
        street: "5 <Gate>".to_string(),
        city: "York".to_string(),
        zip: "Y1".to_string(),
        country: "\"UK\"".to_string(),
        accessKey: "abc123".to_string(),
    };
    let text = "{\"firstName\":\"Ada & Co\",\"lastName\":\"O'Neil\",\"street\":\"5 <Gate>\",\"city\":\"York\",\"zip\":\"Y1\",\"country\":\"\\\"UK\\\"\",\"accessKey\":\"abc123\"}";
    assert_eq!(read_customer(text.as_bytes()).unwrap().insert_parameters(), c.insert_parameters());
    add_new(&mut table, text.as_bytes()).unwrap();
    let body = get_all(&table).body;
    assert_eq!(
        body,
        "<div class=\"item\" id=\"item-1\"><div class=\"FirstName\">Ada &amp; Co</div><div class=\"LastName\">O&#39;Neil</div><div class=\"Street\">5 &lt;Gate&gt;</div><div class=\"City\">York</div><div class=\"Zip\">Y1</div><div class=\"Country\">&quot;UK&quot;</div><div class=\"AccessKey\">abc123</div><div class=\"delete-item\" hx-delete=\"/powerstatusapi/customers/1\">❌</div></div>"
    );
}

#[test]
fn statements_and_routes() {
    assert_eq!(
        INSERT_STATEMENT,
        "INSERT INTO CUSTOMERS (FirstName,LastName, Street, City, Zip, Country, AccessKey) VALUES (?,?,?,?,?,?,?)"
    );
    assert_eq!(INSERT_STATEMENT.matches('?').count(), 7);
    assert_eq!(
        SELECT_STATEMENT,
        "SELECT ID, FirstName,LastName, Street, City, Zip, Country, AccessKey FROM CUSTOMERS ORDER BY ID DESC"
    );
    assert_eq!(DELETE_STATEMENT, "DELETE FROM CUSTOMERS WHERE ID = ?");
    assert_eq!(CUSTOMERS_ROUTE, "/powerstatusapi/customers");
    assert_eq!(CUSTOMER_ROUTE, "/powerstatusapi/customers/:id");
}

const FULL_BODY: &str = r#"{"firstName":"Ada","lastName":"Lovelace","street":"1 Main St","city":"London","zip":"N1","country":"UK","accessKey":"k-1"}"#;

#[test]
fn body_with_seven_text_members_is_a_customer() {
    let c = read_customer(FULL_BODY.as_bytes()).unwrap();
    assert_eq!(c.id, 0);
    assert_eq!(c.firstName, "Ada");
    assert_eq!(c.lastName, "Lovelace");
    assert_eq!(c.street, "1 Main St");
    assert_eq!(c.city, "London");
    assert_eq!(c.zip, "N1");
    assert_eq!(c.country, "UK");
    assert_eq!(c.accessKey, "k-1");
}

#[test]
fn body_may_hold_more_than_the_seven_members() {
    let body = r#" { "id": 55, "note": [1, 2], "firstName": "a", "lastName": "b", "street": "c",
        "city": "d", "zip": "e", "country": "f", "accessKey": "g" } "#;
    let c = read_customer(body.as_bytes()).unwrap();
    assert_eq!(c.id, 0);
    assert_eq!(c.insert_parameters(), vec!["a", "b", "c", "d", "e", "f", "g"]);
}

#[test]
fn body_with_empty_and_escaped_text_is_a_customer() {
    let body = r#"{"firstName":"","lastName":"a\"b","street":"\u00e9","city":"x\ny","zip":"","country":"","accessKey":""}"#;
    let c = read_customer(body.as_bytes()).unwrap();
    assert_eq!(c.firstName, "");
    assert_eq!(c.lastName, "a\"b");
    assert_eq!(c.street, "é");
    assert_eq!(c.city, "x\ny");
}

#[test]
fn body_without_the_shape_of_a_customer_is_none() {
    let missing = r#"{"firstName":"Ada","lastName":"Lovelace","street":"1 Main St","city":"London","zip":"N1","country":"UK"}"#;
    let number = r#"{"firstName":"Ada","lastName":"Lovelace","street":"1 Main St","city":"London","zip":12345,"country":"UK","accessKey":"k-1"}"#;
    let null = r#"{"firstName":null,"lastName":"Lovelace","street":"1 Main St","city":"London","zip":"N1","country":"UK","accessKey":"k-1"}"#;
    let case = r#"{"FirstName":"Ada","lastName":"Lovelace","street":"1 Main St","city":"London","zip":"N1","country":"UK","accessKey":"k-1"}"#;
    let array = r#"["Ada","Lovelace","1 Main St","London","N1","UK","k-1"]"#;
    let cut = &FULL_BODY[..FULL_BODY.len() - 1];
    for body in [missing, number, null, case, array, cut, "", "{}", "null", "\"Ada\"", "not json"] {
        assert!(read_customer(body.as_bytes()).is_none());
    }
    assert!(read_customer(&[0xff, 0xfe]).is_none());
}

#[test]
fn create_from_a_body_stores_one_row_that_is_listed_first() {
    let mut table = seeded(&["old1", "old2"]);
    let response = add_new(&mut table, FULL_BODY.as_bytes()).unwrap();
    assert_eq!(response.status, 200);
    assert_eq!(response.headers, vec![header("HX-Trigger", "newItem")]);
    assert_eq!(response.body, "");
    assert_eq!(ids(&table), vec![3, 2, 1]);
    let body = get_all(&table).body;
    assert!(body.starts_with(
        "<div class=\"item\" id=\"item-3\"><div class=\"FirstName\">Ada</div><div class=\"LastName\">Lovelace</div><div class=\"Street\">1 Main St</div><div class=\"City\">London</div><div class=\"Zip\">N1</div><div class=\"Country\">UK</div><div class=\"AccessKey\">k-1</div><div class=\"delete-item\" hx-delete=\"/powerstatusapi/customers/3\">❌</div></div> <div class=\"item\" id=\"item-2\">"
    ));
}

#[test]
fn create_from_a_malformed_body_is_turned_down_and_stores_nothing() {
    let mut table = seeded(&["a"]);
    for body in ["", "{", "{}", "[]", r#"{"firstName":"only"}"#] {
        let response = add_new(&mut table, body.as_bytes()).unwrap();
        assert_eq!(response.status, 400);
        assert_eq!(response.body, "Invalid payload received");
        assert!(response.headers.is_empty());
        assert_eq!(ids(&table), vec![1]);
    }
}

#[test]
fn create_from_a_body_hands_on_a_failure_of_the_table() {
    let mut table = Table::from_rows(vec![with_id(i64::MAX, "last")]).unwrap();
    let outcome = add_new(&mut table, FULL_BODY.as_bytes());
    assert!(matches!(outcome, Err(StoreError::Full)));
    assert_eq!(table.len(), 1);
}

#[test]
fn delete_trigger_of_a_fragment_deletes_its_row() {
    let mut table = seeded(&["a", "b", "c"]);
    let rows = table.select_all();
    let html = rows[1].to_html_string();
    let marker = "hx-delete=\"/powerstatusapi/customers/";
    let start = html.find(marker).unwrap() + marker.len();
    let end = start + html[start..].find('"').unwrap();
    let segment = &html[start..end];
    assert_eq!(segment, "2");
    let response = delete_one(&mut table, Some(segment));
    assert_eq!(response.status, 200);
    assert_eq!(ids(&table), vec![3, 1]);
}
