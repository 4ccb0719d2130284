//! The three request handlers and the responses they give.

use crate::customer::{
    field_block, fragment, fragment_content, delete_block, lemma_listing_front, listing,
    render_all, views, Customer, CustomerView,
};
use crate::decimal::{decimal, integer_of, lemma_decimal_is_read_back, parse_integer};
use crate::markup::pairs;
use crate::payload::{payload_of, read_customer};
use crate::store::{
    descending, has_id, inserted, lemma_without_absent, lemma_without_descending,
    lemma_without_present, lemma_without_rows, next_id, stored, without, StoreError, Table,
};
use vstd::prelude::*;

verus! {

/// The path that creates a customer, and lists them all.
pub const CUSTOMERS_ROUTE: &'static str = "/powerstatusapi/customers";

/// The path that deletes one customer, with its identifier as the last
/// segment.
pub const CUSTOMER_ROUTE: &'static str = "/powerstatusapi/customers/:id";

/// An HTTP response: status, headers in order, and a text body.
#[derive(Debug)]
pub struct Response {
    pub status: u16,
    pub headers: Vec<(String, String)>,
    pub body: String,
}

/// A response as mathematics.
pub struct ResponseView {
    pub status: int,
    pub headers: Seq<(Seq<char>, Seq<char>)>,
    pub body: Seq<char>,
}

impl View for Response {
    type V = ResponseView;

    open spec fn view(&self) -> ResponseView {
        ResponseView {
            status: self.status as int,
            headers: pairs(self.headers@),
            body: self.body@,
        }
    }
}

/// A response without headers.
pub open spec fn plain(status: int, body: Seq<char>) -> ResponseView {
    ResponseView { status, headers: Seq::empty(), body }
}

/// The answer to a request body that is no customer.
pub open spec fn invalid_payload_reply() -> ResponseView {
    plain(400, "Invalid payload received"@)
}

/// The answer to a creation: success, an empty body, and the header that
/// tells the page that a new item exists.
pub open spec fn created_reply() -> ResponseView {
    ResponseView {
        status: 200,
        headers: seq![("HX-Trigger"@, "newItem"@)],
        body: Seq::empty(),
    }
}

/// The answer to a listing of `rows`: success, marked as HTML, with the
/// rows' fragments as the body.
pub open spec fn listing_reply(rows: Seq<CustomerView>) -> ResponseView {
    ResponseView {
        status: 200,
        headers: seq![("Content-Type"@, "text/html"@)],
        body: listing(rows),
    }
}

/// The answer to a deletion without an identifier.
pub open spec fn missing_identifier_reply() -> ResponseView {
    plain(404, "Missing identifier"@)
}

/// The answer to a deletion whose identifier is no integer.
pub open spec fn bad_identifier_reply() -> ResponseView {
    plain(400, "Unexpected identifier format"@)
}

/// The answer to a deletion that the store carried out. It is a plain
/// success with an empty body, which the page treats as a completed update.
pub open spec fn deleted_reply() -> ResponseView {
    plain(200, Seq::empty())
}

/// The answer to a deletion that the store failed to carry out.
pub open spec fn delete_failed_reply() -> ResponseView {
    plain(500, "Error while deleting item"@)
}

/// What a deletion request asks for, given its identifier segment: a reply
/// at once where the segment is missing or no integer, else the identifier.
pub open spec fn requested_identifier(segment: Option<Seq<char>>) -> Result<i64, ResponseView> {
    match segment {
        None => Err(missing_identifier_reply()),
        Some(text) => match integer_of(text) {
            None => Err(bad_identifier_reply()),
            Some(id) => Ok(id),
        },
    }
}

/// The rows after a deletion request with the given identifier segment.
pub open spec fn rows_after_delete(rows: Seq<CustomerView>, segment: Option<Seq<char>>) -> Seq<
    CustomerView,
> {
    match requested_identifier(segment) {
        Ok(id) => without(rows, id as int),
        Err(_) => rows,
    }
}

/// The view of an optional customer.
pub open spec fn payload_view(payload: Option<Customer>) -> Option<CustomerView> {
    match payload {
        None => None,
        Some(customer) => Some(customer@),
    }
}

/// What a creation does, given the rows before it and the customer that the
/// request held, if any: whether `outcome` and the rows `after` are what it
/// gives.
pub open spec fn outcome_of_add(
    before: Seq<CustomerView>,
    payload: Option<CustomerView>,
    outcome: Result<Response, StoreError>,
    after: Seq<CustomerView>,
) -> bool {
    match payload {
        None => outcome is Ok && outcome->Ok_0@ == invalid_payload_reply() && after == before,
        Some(customer) => if next_id(before) <= i64::MAX {
            outcome is Ok && outcome->Ok_0@ == created_reply() && after == inserted(
                before,
                customer,
            )
        } else {
            outcome is Err && outcome->Err_0 == StoreError::Full && after == before
        },
    }
}

/// The characters of an optional text.
pub open spec fn segment_text(segment: Option<&str>) -> Option<Seq<char>> {
    match segment {
        None => None,
        Some(text) => Some(text@),
    }
}

impl Response {
    /// A response with the given status and body, and no headers.
    pub fn new(status: u16, body: &str) -> (response: Response)
        ensures
            response@ == plain(status as int, body@),
    {
        let response = Response { status, headers: Vec::new(), body: body.to_owned() };
        proof {
            assert(response@.headers =~= Seq::empty());
        }
        response
    }

    /// The same response with one more header at the end.
    pub fn with_header(self, name: &str, value: &str) -> (response: Response)
        ensures
            response@ == (ResponseView {
                headers: self@.headers.push((name@, value@)),
                ..self@
            }),
    {
        let mut headers = self.headers;
        headers.push((name.to_owned(), value.to_owned()));
        let response = Response { status: self.status, headers, body: self.body };
        proof {
            assert(response@.headers =~= self@.headers.push((name@, value@)));
        }
        response
    }
}

/// The response to a request body that could not be read as a customer.
pub fn invalid_payload() -> (response: Response)
    ensures
        response@ == invalid_payload_reply(),
{
    Response::new(400, "Invalid payload received")
}

/// The response to a creation that the store carried out.
pub fn created() -> (response: Response)
    ensures
        response@ == created_reply(),
{
    let response = Response::new(200, "").with_header("HX-Trigger", "newItem");
    proof {
        reveal_strlit("");
        assert(response@.body =~= Seq::empty());
        assert(response@.headers =~= seq![("HX-Trigger"@, "newItem"@)]);
    }
    response
}

/// The response that lists `rows` in the order given.
pub fn listed(rows: &Vec<Customer>) -> (response: Response)
    ensures
        response@ == listing_reply(views(rows@)),
{
    let body = render_all(rows);
    let response = Response { status: 200, headers: Vec::new(), body }.with_header(
        "Content-Type",
        "text/html",
    );
    proof {
        assert(response@.headers =~= seq![("Content-Type"@, "text/html"@)]);
    }
    response
}

/// Reads the identifier segment of a deletion request: the identifier, or
/// the response that turns the request down.
pub fn parse_identifier(segment: Option<&str>) -> (parsed: Result<i64, Response>)
    ensures
        match requested_identifier(segment_text(segment)) {
            Ok(id) => parsed == Ok::<i64, Response>(id),
            Err(reply) => parsed is Err && parsed->Err_0@ == reply,
        },
{
    match segment {
        None => Err(Response::new(404, "Missing identifier")),
        Some(text) => match parse_integer(text) {
            None => Err(Response::new(400, "Unexpected identifier format")),
            Some(id) => Ok(id),
        },
    }
}

/// The response to a deletion, given what the store said of it. A deletion
/// that found no row is a success like any other.
pub fn deleted(outcome: Result<(), StoreError>) -> (response: Response)
    ensures
        response@ == if outcome is Ok {
            deleted_reply()
        } else {
            delete_failed_reply()
        },
{
    match outcome {
        Ok(_) => {
            let response = Response::new(200, "");
            proof {
                reveal_strlit("");
                assert(response@.body =~= Seq::empty());
            }
            response
        },
        Err(_) => Response::new(500, "Error while deleting item"),
    }
}

/// Stores a customer that was read from a request, `None` standing for a
/// request that held none. A missing customer is turned down and the table
/// stays as it was. Otherwise the seven text fields are stored in a new
/// first row, under the next identifier; a failure of the table is handed on
/// and changes nothing.
pub fn add_customer(store: &mut Table, payload: Option<Customer>) -> (outcome: Result<
    Response,
    StoreError,
>)
    requires
        old(store).wf(),
    ensures
        final(store).wf(),
        outcome_of_add(old(store)@, payload_view(payload), outcome, final(store)@),
{
    match payload {
        None => Ok(invalid_payload()),
        Some(customer) => match store.insert(&customer) {
            Ok(_) => Ok(created()),
            Err(error) => Err(error),
        },
    }
}

/// Creates a customer from a request body. A body that lacks the shape of
/// a customer is turned down with a client error and the table stays as it
/// was; any other body is stored as `add_customer` says.
pub fn add_new(store: &mut Table, body: &[u8]) -> (outcome: Result<Response, StoreError>)
    requires
        old(store).wf(),
    ensures
        final(store).wf(),
        outcome_of_add(old(store)@, payload_of(body@), outcome, final(store)@),
{
    add_customer(store, read_customer(body))
}

/// Lists every customer, the highest identifier first: the fragments of
/// the rows with one space between neighbours, and an empty body for an
/// empty table.
pub fn get_all(store: &Table) -> (response: Response)
    requires
        store.wf(),
    ensures
        response@ == listing_reply(store@),
        descending(store@),
        store@.len() == 0 ==> response@.body == Seq::<char>::empty(),
{
    let rows = store.select_all();
    listed(&rows)
}

/// Deletes the customer named by the identifier segment of the request
/// path. A missing segment and one that is no integer are turned down, and
/// the table stays as it was. Otherwise the row with that identifier leaves
/// the table, if there is one, and the request succeeds either way.
pub fn delete_one(store: &mut Table, segment: Option<&str>) -> (response: Response)
    requires
        old(store).wf(),
    ensures
        final(store).wf(),
        final(store)@ == rows_after_delete(old(store)@, segment_text(segment)),
        response@ == match requested_identifier(segment_text(segment)) {
            Ok(_) => deleted_reply(),
            Err(reply) => reply,
        },
{
    match parse_identifier(segment) {
        Err(response) => response,
        Ok(id) => {
            store.delete(id);
            deleted(Ok(()))
        },
    }
}

/// After a creation the table holds exactly one row more, identifiers still
/// fall from row to row, the new row is the first, and a listing begins with
/// the new row's fragment.
pub proof fn lemma_created_is_listed_first(rows: Seq<CustomerView>, customer: CustomerView)
    requires
        descending(rows),
    ensures
        inserted(rows, customer).len() == rows.len() + 1,
        inserted(rows, customer)[0] == stored(customer, next_id(rows)),
        inserted(rows, customer).skip(1) == rows,
        descending(inserted(rows, customer)),
        listing_reply(inserted(rows, customer)).body == if rows.len() == 0 {
            fragment(stored(customer, next_id(rows)))
        } else {
            fragment(stored(customer, next_id(rows))) + seq![' '] + listing(rows)
        },
{
    let after = inserted(rows, customer);
    assert(after.skip(1) =~= rows);
    lemma_listing_front(stored(customer, next_id(rows)), rows);
    assert forall|i: int, j: int| 0 <= i < j < after.len() implies after[i].id > after[j].id by {
        if i > 0 {
            assert(rows[i - 1].id > rows[j - 1].id);
        } else if j > 1 {
            assert(rows[0].id > rows[j - 1].id);
        }
    }
}

/// A deletion by an integer identifier removes exactly one row where a row
/// has that identifier and none where no row has it; afterwards no row has
/// it, every other row is still there, and identifiers still fall from row
/// to row.
pub proof fn lemma_delete_removes_the_row(rows: Seq<CustomerView>, id: int)
    requires
        descending(rows),
    ensures
        has_id(rows, id) ==> without(rows, id).len() == rows.len() - 1,
        !has_id(rows, id) ==> without(rows, id) == rows,
        !has_id(without(rows, id), id),
        forall|i: int|
            0 <= i < rows.len() && rows[i].id != id ==> without(rows, id).contains(
                #[trigger] rows[i],
            ),
        forall|i: int|
            0 <= i < without(rows, id).len() ==> rows.contains(#[trigger] without(rows, id)[i]),
        descending(without(rows, id)),
{
    lemma_without_rows(rows, id);
    lemma_without_descending(rows, id);
    if has_id(rows, id) {
        lemma_without_present(rows, id);
    } else {
        lemma_without_absent(rows, id);
    }
}

/// A deletion request without an identifier, or with one that is no integer,
/// leaves every row in place.
pub proof fn lemma_rejected_delete_changes_nothing(
    rows: Seq<CustomerView>,
    segment: Option<Seq<char>>,
)
    requires
        segment is None || integer_of(segment->Some_0) is None,
    ensures
        rows_after_delete(rows, segment) == rows,
        segment is None ==> requested_identifier(segment) == Err::<i64, ResponseView>(
            missing_identifier_reply(),
        ),
        segment is Some ==> requested_identifier(segment) == Err::<i64, ResponseView>(
            bad_identifier_reply(),
        ),
{
}

/// The delete trigger of a row names that row: a deletion request whose
/// identifier segment is the decimal text of `id`, as a fragment writes it
/// at the end of its delete path, removes the row with the identifier `id`.
pub proof fn lemma_delete_trigger_names_its_row(rows: Seq<CustomerView>, id: i64)
    ensures
        requested_identifier(Some(decimal(id as int))) == Ok::<i64, ResponseView>(id),
        rows_after_delete(rows, Some(decimal(id as int))) == without(rows, id as int),
{
    lemma_decimal_is_read_back(id);
}

/// What was handed to a creation is what the listing shows: the fragment of
/// the new row holds one block per text field, in the stored order, each
/// with the value that was handed in, escaped, and the delete trigger of the
/// identifier that the row was given.
pub proof fn lemma_created_fields_are_rendered(rows: Seq<CustomerView>, customer: CustomerView)
    ensures
        fragment_content(inserted(rows, customer)[0]) == field_block(
            "FirstName"@,
            customer.first_name,
        ) + field_block("LastName"@, customer.last_name) + field_block("Street"@, customer.street)
            + field_block("City"@, customer.city) + field_block("Zip"@, customer.zip)
            + field_block("Country"@, customer.country) + field_block(
            "AccessKey"@,
            customer.access_key,
        ) + delete_block(next_id(rows)),
{
}

} // verus!
