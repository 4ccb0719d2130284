//! The customer record and its HTML fragment.

use crate::decimal::{decimal, decimal_string};
use crate::markup::{div, div_text, escape, escaped, pairs};
use vstd::prelude::*;
use vstd::string::*;

verus! {

/// One customer. The identifier is assigned by the record store; the seven
/// text fields are free-form.
#[allow(non_snake_case)]
#[derive(Debug)]
pub struct Customer {
    pub id: i64,
    pub firstName: String,
    pub lastName: String,
    pub street: String,
    pub city: String,
    pub zip: String,
    pub country: String,
    pub accessKey: String,
}

/// A customer as mathematics: an integer and seven sequences of characters.
pub struct CustomerView {
    pub id: int,
    pub first_name: Seq<char>,
    pub last_name: Seq<char>,
    pub street: Seq<char>,
    pub city: Seq<char>,
    pub zip: Seq<char>,
    pub country: Seq<char>,
    pub access_key: Seq<char>,
}

impl View for Customer {
    type V = CustomerView;

    open spec fn view(&self) -> CustomerView {
        CustomerView {
            id: self.id as int,
            first_name: self.firstName@,
            last_name: self.lastName@,
            street: self.street@,
            city: self.city@,
            zip: self.zip@,
            country: self.country@,
            access_key: self.accessKey@,
        }
    }
}

/// The views of a sequence of customers, in the same order.
pub open spec fn views(rows: Seq<Customer>) -> Seq<CustomerView> {
    Seq::new(rows.len(), |i: int| rows[i]@)
}

/// The seven text fields in the order in which they are stored: first name,
/// last name, street, city, zip, country, access key.
pub open spec fn field_values(customer: CustomerView) -> Seq<Seq<char>> {
    seq![
        customer.first_name,
        customer.last_name,
        customer.street,
        customer.city,
        customer.zip,
        customer.country,
        customer.access_key,
    ]
}

/// The inner block of one text field: a `div` whose class names the field and
/// whose content is the field's value, escaped.
pub open spec fn field_block(class: Seq<char>, value: Seq<char>) -> Seq<char> {
    div_text(seq![("class"@, class)], escaped(value))
}

/// The path of the endpoint that deletes the customer `id`.
pub open spec fn delete_path(id: int) -> Seq<char> {
    "/powerstatusapi/customers/"@ + decimal(id)
}

/// The inner block that triggers the deletion of the customer `id`.
pub open spec fn delete_block(id: int) -> Seq<char> {
    div_text(seq![("class"@, "delete-item"@), ("hx-delete"@, delete_path(id))], "❌"@)
}

/// What the outer block of a customer holds: one block per text field, in
/// the stored order, then the delete trigger.
pub open spec fn fragment_content(customer: CustomerView) -> Seq<char> {
    field_block("FirstName"@, customer.first_name) + field_block("LastName"@, customer.last_name)
        + field_block("Street"@, customer.street) + field_block("City"@, customer.city)
        + field_block("Zip"@, customer.zip) + field_block("Country"@, customer.country)
        + field_block("AccessKey"@, customer.access_key) + delete_block(customer.id)
}

/// The HTML fragment of one customer: an outer `div` of class `item`, with
/// the element identifier `item-` followed by the customer's identifier.
pub open spec fn fragment(customer: CustomerView) -> Seq<char> {
    div_text(
        seq![("class"@, "item"@), ("id"@, "item-"@ + decimal(customer.id))],
        fragment_content(customer),
    )
}

/// The fragments of `rows` in order, one space between neighbours; the empty
/// text for no rows.
pub open spec fn listing(rows: Seq<CustomerView>) -> Seq<char>
    decreases rows.len(),
{
    if rows.len() == 0 {
        Seq::empty()
    } else if rows.len() == 1 {
        fragment(rows[0])
    } else {
        listing(rows.drop_last()) + seq![' '] + fragment(rows.last())
    }
}

/// A listing begins with the fragment of its first row; the rest follows
/// after one space.
pub proof fn lemma_listing_front(first: CustomerView, rest: Seq<CustomerView>)
    ensures
        listing(seq![first] + rest) == if rest.len() == 0 {
            fragment(first)
        } else {
            fragment(first) + seq![' '] + listing(rest)
        },
    decreases rest.len(),
{
    let all = seq![first] + rest;
    if rest.len() == 0 {
        assert(all[0] == first);
    } else if rest.len() == 1 {
        assert(all.drop_last() =~= seq![first] + rest.drop_last());
        lemma_listing_front(first, rest.drop_last());
        assert(all.last() == rest[0]);
    } else {
        assert(all.drop_last() =~= seq![first] + rest.drop_last());
        lemma_listing_front(first, rest.drop_last());
        assert(all.last() == rest.last());
        assert(fragment(first) + seq![' '] + listing(rest.drop_last()) + seq![' '] + fragment(
            rest.last(),
        ) =~= fragment(first) + seq![' '] + (listing(rest.drop_last()) + seq![' '] + fragment(
            rest.last(),
        )));
    }
}

fn attribute(name: &str, value: &str) -> (pair: (String, String))
    ensures
        pair.0@ == name@,
        pair.1@ == value@,
{
    (name.to_owned(), value.to_owned())
}

fn field_html(class: &str, value: &str) -> (html: String)
    ensures
        html@ == field_block(class@, value@),
{
    let mut attributes: Vec<(String, String)> = Vec::new();
    attributes.push(attribute("class", class));
    let safe = escape(value);
    proof {
        assert(pairs(attributes@) =~= seq![("class"@, class@)]);
    }
    div(&attributes, safe.as_str())
}

fn delete_html(id: i64) -> (html: String)
    ensures
        html@ == delete_block(id as int),
{
    let mut path = "/powerstatusapi/customers/".to_owned();
    path.append(decimal_string(id).as_str());
    let mut attributes: Vec<(String, String)> = Vec::new();
    attributes.push(attribute("class", "delete-item"));
    attributes.push(attribute("hx-delete", path.as_str()));
    proof {
        assert(pairs(attributes@) =~= seq![
            ("class"@, "delete-item"@),
            ("hx-delete"@, delete_path(id as int)),
        ]);
    }
    div(&attributes, "❌")
}

impl Customer {
    /// The seven text fields as statement parameters, in the stored order.
    pub fn insert_parameters(&self) -> (parameters: Vec<String>)
        ensures
            parameters@.len() == 7,
            forall|i: int| 0 <= i < 7 ==> (#[trigger] parameters@[i])@ == field_values(self@)[i],
    {
        let mut parameters: Vec<String> = Vec::new();
        parameters.push(self.firstName.clone());
        parameters.push(self.lastName.clone());
        parameters.push(self.street.clone());
        parameters.push(self.city.clone());
        parameters.push(self.zip.clone());
        parameters.push(self.country.clone());
        parameters.push(self.accessKey.clone());
        parameters
    }

    /// A copy with the same identifier and the same text in every field.
    pub fn duplicate(&self) -> (copy: Customer)
        ensures
            copy@ == self@,
    {
        Customer {
            id: self.id,
            firstName: self.firstName.clone(),
            lastName: self.lastName.clone(),
            street: self.street.clone(),
            city: self.city.clone(),
            zip: self.zip.clone(),
            country: self.country.clone(),
            accessKey: self.accessKey.clone(),
        }
    }

    /// Renders the customer as a self-contained HTML block. Every field value
    /// stands escaped in a block of its own, so no value is read as markup.
    pub fn to_html_string(&self) -> (html: String)
        ensures
            html@ == fragment(self@),
    {
        let mut content = field_html("FirstName", self.firstName.as_str());
        content.append(field_html("LastName", self.lastName.as_str()).as_str());
        content.append(field_html("Street", self.street.as_str()).as_str());
        content.append(field_html("City", self.city.as_str()).as_str());
        content.append(field_html("Zip", self.zip.as_str()).as_str());
        content.append(field_html("Country", self.country.as_str()).as_str());
        content.append(field_html("AccessKey", self.accessKey.as_str()).as_str());
        content.append(delete_html(self.id).as_str());
        let mut element_id = "item-".to_owned();
        element_id.append(decimal_string(self.id).as_str());
        let mut attributes: Vec<(String, String)> = Vec::new();
        attributes.push(attribute("class", "item"));
        attributes.push(attribute("id", element_id.as_str()));
        proof {
            assert(pairs(attributes@) =~= seq![
                ("class"@, "item"@),
                ("id"@, "item-"@ + decimal(self.id as int)),
            ]);
        }
        div(&attributes, content.as_str())
    }
}

/// Renders rows in the order given, one space between neighbours.
pub fn render_all(rows: &Vec<Customer>) -> (body: String)
    ensures
        body@ == listing(views(rows@)),
{
    let mut body = String::new();
    let mut i: usize = 0;
    while i < rows.len()
        invariant
            0 <= i <= rows.len(),
            body@ == listing(views(rows@).take(i as int)),
        decreases rows.len() - i,
    {
        let html = rows[i].to_html_string();
        proof {
            let next = views(rows@).take(i + 1);
            assert(next.drop_last() =~= views(rows@).take(i as int));
            assert(next.last() == rows[i as int]@);
            if i == 0 {
                assert(next[0] == next.last());
                assert(body@ + html@ =~= html@);
            }
        }
        if i > 0 {
            body.append(" ");
            proof {
                reveal_strlit(" ");
                assert(" "@ =~= seq![' ']);
            }
        }
        body.append(html.as_str());
        i = i + 1;
    }
    proof {
        assert(views(rows@).take(rows.len() as int) =~= views(rows@));
    }
    body
}

} // verus!
