//! Customers as they arrive in request bodies: a JSON object with one text
//! member per field.

use crate::customer::{Customer, CustomerView};
use vstd::prelude::*;

verus! {

/// The text of the member `name` of the JSON object that the bytes `body`
/// hold: none where the bytes are no JSON document, the document is no
/// object, the object has no such member, or the member is no string.
pub uninterp spec fn json_text_member(body: Seq<u8>, name: Seq<char>) -> Option<Seq<char>>;

/// `serde_json::from_slice` to a `serde_json::Value`, then `Value::get` with
/// the member's name and `Value::as_str`. Trusted: what comes back depends
/// on the bytes and the name alone, and is the text that bears the name
/// above.
#[verifier::external_body]
pub(crate) fn text_member(body: &[u8], name: &str) -> (text: Option<String>)
    ensures
        match json_text_member(body@, name@) {
            Some(expected) => text is Some && text->Some_0@ == expected,
            None => text is None,
        },
{
    match serde_json::from_slice::<serde_json::Value>(body) {
        Ok(document) => document.get(name).and_then(|member| member.as_str()).map(
            |text| text.to_owned(),
        ),
        Err(_) => None,
    }
}

/// The customer that a request body describes: all seven text members must
/// be there. Other members are not read, an identifier among them neither:
/// the customer's identifier is 0 until the store assigns one.
pub open spec fn payload_of(body: Seq<u8>) -> Option<CustomerView> {
    match (
        json_text_member(body, "firstName"@),
        json_text_member(body, "lastName"@),
        json_text_member(body, "street"@),
        json_text_member(body, "city"@),
        json_text_member(body, "zip"@),
        json_text_member(body, "country"@),
        json_text_member(body, "accessKey"@),
    ) {
        (
            Some(first_name),
            Some(last_name),
            Some(street),
            Some(city),
            Some(zip),
            Some(country),
            Some(access_key),
        ) => Some(
            CustomerView {
                id: 0,
                first_name,
                last_name,
                street,
                city,
                zip,
                country,
                access_key,
            },
        ),
        _ => None,
    }
}

/// Reads a customer from a request body; none where the body lacks the
/// shape of a customer.
pub fn read_customer(body: &[u8]) -> (payload: Option<Customer>)
    ensures
        match payload_of(body@) {
            Some(expected) => payload is Some && payload->Some_0@ == expected,
            None => payload is None,
        },
{
    let first_name = match text_member(body, "firstName") {
        Some(text) => text,
        None => return None,
    };
    let last_name = match text_member(body, "lastName") {
        Some(text) => text,
        None => return None,
    };
    let street = match text_member(body, "street") {
        Some(text) => text,
        None => return None,
    };
    let city = match text_member(body, "city") {
        Some(text) => text,
        None => return None,
    };
    let zip = match text_member(body, "zip") {
        Some(text) => text,
        None => return None,
    };
    let country = match text_member(body, "country") {
        Some(text) => text,
        None => return None,
    };
    let access_key = match text_member(body, "accessKey") {
        Some(text) => text,
        None => return None,
    };
    Some(
        Customer {
            id: 0,
            firstName: first_name,
            lastName: last_name,
            street,
            city,
            zip,
            country,
            accessKey: access_key,
        },
    )
}

} // verus!
