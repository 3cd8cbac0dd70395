//! Payload validation and the operation handlers: each request becomes an
//! outcome, a status code and a body, and a new store state.

use vstd::prelude::*;
use crate::json::{
    json_string, json_string_member, json_valid, parse_string_member, quote, utf8_decoded, utf8_text,
};
use crate::router::{route, route_of, Method, Route};
use crate::store::{
    created, has_id, ids_increasing, ids_unique, lemma_created_increasing, lemma_ids_unique,
    lemma_removed_gone, lemma_removed_increasing, lemma_renamed_increasing, index_of, names_filled,
    next_id_of, removed, renamed, PersonView, Store,
};
use crate::text::{blank, decimal, is_blank, write_decimal};

verus! {

/// A request body as the handlers see it.
pub enum Payload {
    /// Not a JSON document.
    Malformed,
    /// No string member `name`.
    MissingName,
    /// A `name` that is empty once trimmed.
    BlankName,
    /// A usable name, kept as it was sent.
    Name(String),
}

pub enum PayloadView {
    Malformed,
    MissingName,
    BlankName,
    Name(Seq<char>),
}

impl View for Payload {
    type V = PayloadView;

    open spec fn view(&self) -> PayloadView {
        match self {
            Payload::Malformed => PayloadView::Malformed,
            Payload::MissingName => PayloadView::MissingName,
            Payload::BlankName => PayloadView::BlankName,
            Payload::Name(n) => PayloadView::Name(n@),
        }
    }
}

/// The status code and body of a response.
pub struct Outcome {
    pub status: u16,
    pub body: String,
}

impl View for Outcome {
    type V = (u16, Seq<char>);

    open spec fn view(&self) -> (u16, Seq<char>) {
        (self.status, self.body@)
    }
}

/// What the `name` member, if it is a string, makes of a JSON payload.
pub open spec fn classified(member: Option<Seq<char>>) -> PayloadView {
    match member {
        None => PayloadView::MissingName,
        Some(n) => if blank(n) {
            PayloadView::BlankName
        } else {
            PayloadView::Name(n)
        },
    }
}

/// A body read as text: invalid UTF-8 counts as empty text.
pub open spec fn body_text(b: Seq<u8>) -> Seq<char> {
    match utf8_decoded(b) {
        Some(t) => t,
        None => Seq::empty(),
    }
}

/// The payload a body decodes to: malformed when its text is not JSON, and
/// otherwise what its `name` member makes of it.
pub open spec fn payload_of(b: Seq<u8>) -> PayloadView {
    if json_valid(body_text(b)) {
        classified(json_string_member(body_text(b), "name"@))
    } else {
        PayloadView::Malformed
    }
}

/// One record in JSON: `{"id":<id>,"name":<name>}`.
pub open spec fn record_json(p: PersonView) -> Seq<char> {
    "{\"id\":"@ + decimal(p.0 as nat) + ",\"name\":"@ + json_string(p.1) + "}"@
}

/// The records in JSON, separated by commas.
pub open spec fn records_json(s: Seq<PersonView>) -> Seq<char>
    decreases s.len(),
{
    if s.len() == 0 {
        Seq::empty()
    } else if s.len() == 1 {
        record_json(s[0])
    } else {
        records_json(s.drop_last()) + ","@ + record_json(s.last())
    }
}

/// The whole store as a JSON array, in store order.
pub open spec fn listing(s: Seq<PersonView>) -> Seq<char> {
    "["@ + records_json(s) + "]"@
}

/// The 400 answer to a payload that is not a usable name.
pub open spec fn rejection(p: PayloadView) -> (u16, Seq<char>) {
    match p {
        PayloadView::Malformed => (400, "Invalid JSON format"@),
        PayloadView::MissingName => (400, "Missing 'name' field"@),
        _ => (400, "'name' cannot be empty"@),
    }
}

/// The store after a request and the outcome it gets.
pub open spec fn step(s: Seq<PersonView>, r: Route, p: PayloadView) -> (
    Seq<PersonView>,
    (u16, Seq<char>),
) {
    match r {
        Route::List => (s, (200, listing(s))),
        Route::Create => match p {
            PayloadView::Name(n) => (created(s, n), (200, "Person added"@)),
            _ => (s, rejection(p)),
        },
        Route::Update(None) => (s, (400, "Invalid ID format"@)),
        Route::Update(Some(id)) => match p {
            PayloadView::Name(n) => if has_id(s, id) {
                (renamed(s, id, n), (200, "Person updated"@))
            } else {
                (s, (404, "Person not found"@))
            },
            _ => (s, rejection(p)),
        },
        Route::Delete(None) => (s, (400, "Invalid ID format"@)),
        Route::Delete(Some(id)) => if has_id(s, id) {
            (removed(s, id), (200, "Person deleted"@))
        } else {
            (s, (404, "Person not found"@))
        },
        Route::NotFound => (s, (404, Seq::empty())),
    }
}

/// Whether the store has an id left for a request on route `r`.
pub open spec fn room_for(s: Seq<PersonView>, r: Route) -> bool {
    r is Create ==> next_id_of(s) <= u32::MAX
}

/// No request, whatever its route and payload, leaves two records with one
/// id: ids keep increasing in store order.
pub proof fn lemma_step_keeps_ids_unique(s: Seq<PersonView>, r: Route, p: PayloadView)
    requires
        ids_increasing(s),
        room_for(s, r),
    ensures
        ids_increasing(step(s, r, p).0),
        ids_unique(step(s, r, p).0),
{
    match r {
        Route::Create => if let PayloadView::Name(n) = p {
            lemma_created_increasing(s, n);
        },
        Route::Update(Some(id)) => if let PayloadView::Name(n) = p {
            lemma_renamed_increasing(s, id, n);
        },
        Route::Delete(Some(id)) => lemma_removed_increasing(s, id),
        _ => {},
    }
    lemma_ids_unique(step(s, r, p).0);
}

/// A request whose payload came from decoding a body never stores a name that
/// is empty or whitespace alone.
pub proof fn lemma_step_keeps_names_filled(s: Seq<PersonView>, r: Route, b: Seq<u8>)
    requires
        names_filled(s),
    ensures
        names_filled(step(s, r, payload_of(b)).0),
{
    let p = payload_of(b);
    let t = step(s, r, p).0;
    match r {
        Route::Create => {
            assert forall|i: int| 0 <= i < t.len() implies !blank(#[trigger] t[i].1) by {
                if i < s.len() {
                    assert(t[i] == s[i]);
                }
            }
        },
        Route::Update(Some(id)) => if has_id(s, id) {
            assert forall|i: int| 0 <= i < t.len() implies !blank(#[trigger] t[i].1) by {
                if i != index_of(s, id) {
                    assert(t[i] == s[i]);
                }
            }
        },
        Route::Delete(Some(id)) => if has_id(s, id) {
            let k = index_of(s, id);
            assert forall|i: int| 0 <= i < t.len() implies !blank(#[trigger] t[i].1) by {
                if i < k {
                    assert(t[i] == s[i]);
                } else {
                    assert(t[i] == s[i + 1]);
                }
            }
        },
        _ => {},
    }
}

/// Listing leaves the store as it is, so listing again gives the same JSON.
pub proof fn lemma_list_idempotent(s: Seq<PersonView>, p: PayloadView, q: PayloadView)
    ensures
        step(s, Route::List, p).0 == s,
        step(step(s, Route::List, p).0, Route::List, q) == step(s, Route::List, p),
{
}

/// Deleting an existing id succeeds once; deleting it again finds nothing.
pub proof fn lemma_delete_twice(s: Seq<PersonView>, id: u32, p: PayloadView, q: PayloadView)
    requires
        ids_increasing(s),
        has_id(s, id),
    ensures
        step(s, Route::Delete(Some(id)), p).1 == (200u16, "Person deleted"@),
        step(step(s, Route::Delete(Some(id)), p).0, Route::Delete(Some(id)), q).1 == (
            404u16,
            "Person not found"@,
        ),
{
    lemma_removed_gone(s, id);
}

/// Judges the `name` member of a JSON payload, `None` when it is absent or
/// not a string.
pub fn classify_name(member: Option<String>) -> (r: Payload)
    ensures
        r@ == classified(
            match member {
                Some(n) => Some(n@),
                None => None,
            },
        ),
{
    match member {
        None => Payload::MissingName,
        Some(n) => if is_blank(n.as_str()) {
            Payload::BlankName
        } else {
            Payload::Name(n)
        },
    }
}

/// Decodes and validates a request body.
pub fn decode_payload(body: &[u8]) -> (r: Payload)
    ensures
        r@ == payload_of(body@),
{
    let text = match utf8_text(body) {
        Some(t) => t,
        None => String::new(),
    };
    assert(text@ == body_text(body@));
    match parse_string_member(text.as_str(), "name") {
        Err(_) => Payload::Malformed,
        Ok(member) => classify_name(member),
    }
}

proof fn lemma_records_json_step(s: Seq<PersonView>, i: int)
    requires
        0 < i < s.len(),
    ensures
        records_json(s.subrange(0, i + 1)) == records_json(s.subrange(0, i)) + ","@ + record_json(
            s[i],
        ),
{
    assert(s.subrange(0, i + 1).drop_last() =~= s.subrange(0, i));
}

/// Appends the JSON of one record to `out`.
fn write_record(out: &mut String, id: u32, name: &String)
    ensures
        final(out)@ == old(out)@ + record_json((id, name@)),
{
    proof {
        reveal_strlit("{\"id\":");
        reveal_strlit(",\"name\":");
        reveal_strlit("}");
    }
    out.append("{\"id\":");
    write_decimal(out, id);
    out.append(",\"name\":");
    let q = quote(name.as_str());
    match q {
        Ok(q) => out.append(q.as_str()),
        Err(_) => {},
    }
    out.append("}");
    assert(final(out)@ =~= old(out)@ + record_json((id, name@)));
}

/// The store as a JSON array of `{"id":..,"name":..}` objects, in order.
pub fn list_json(store: &Store) -> (r: String)
    ensures
        r@ == listing(store@),
{
    let people = store.people();
    let ghost s = store@;
    let n = people.len();
    let mut out = String::from_str("[");
    proof {
        reveal_strlit("[");
        reveal_strlit(",");
        reveal_strlit("]");
        assert(s.subrange(0, 0) =~= Seq::<PersonView>::empty());
    }
    let mut i: usize = 0;
    while i < n
        invariant
            n == s.len(),
            people@.map_values(|p: crate::store::Person| p@) == s,
            i <= n,
            out@ == "["@ + records_json(s.subrange(0, i as int)),
        decreases n - i,
    {
        proof {
            assert(people@[i as int]@ == s[i as int]);
        }
        if i > 0 {
            out.append(",");
            proof {
                lemma_records_json_step(s, i as int);
            }
        } else {
            assert(s.subrange(0, 1).drop_last() =~= s.subrange(0, 0));
        }
        write_record(&mut out, people[i].id, &people[i].name);
        i = i + 1;
        assert(out@ =~= "["@ + records_json(s.subrange(0, i as int)));
    }
    assert(s.subrange(0, n as int) =~= s);
    out.append("]");
    out
}

fn reply(status: u16, body: &str) -> (r: Outcome)
    ensures
        r@ == (status, body@),
{
    Outcome { status, body: String::from_str(body) }
}

fn reject(p: &Payload) -> (r: Outcome)
    ensures
        r@ == rejection(p@),
{
    match p {
        Payload::Malformed => reply(400, "Invalid JSON format"),
        Payload::MissingName => reply(400, "Missing 'name' field"),
        _ => reply(400, "'name' cannot be empty"),
    }
}

/// Carries out the operation of `route` with `payload` on the store.
pub fn apply(store: &mut Store, route: Route, payload: Payload) -> (r: Outcome)
    requires
        old(store).wf(),
        room_for(old(store)@, route),
    ensures
        final(store)@ == step(old(store)@, route, payload@).0,
        r@ == step(old(store)@, route, payload@).1,
        final(store).wf(),
{
    match route {
        Route::List => {
            let body = list_json(store);
            Outcome { status: 200, body }
        },
        Route::Create => match payload {
            Payload::Name(n) => {
                store.create(n);
                reply(200, "Person added")
            },
            _ => reject(&payload),
        },
        Route::Update(None) => reply(400, "Invalid ID format"),
        Route::Delete(None) => reply(400, "Invalid ID format"),
        Route::Update(Some(id)) => match payload {
            Payload::Name(n) => {
                if store.rename(id, n) {
                    reply(200, "Person updated")
                } else {
                    reply(404, "Person not found")
                }
            },
            _ => reject(&payload),
        },
        Route::Delete(Some(id)) => {
            if store.remove(id) {
                reply(200, "Person deleted")
            } else {
                reply(404, "Person not found")
            }
        },
        Route::NotFound => Outcome { status: 404, body: String::new() },
    }
}

/// Whether the store can take a request for `route`: every route but
/// `Create` always can; `Create` needs an id left below `u32::MAX`.
pub fn has_room(store: &Store, route: Route) -> (r: bool)
    ensures
        r == room_for(store@, route),
{
    match route {
        Route::Create => store.next_id() <= u32::MAX as u64,
        _ => true,
    }
}

/// Serves one request: routes it, decodes the body, and applies the
/// operation to the store.
pub fn handle(store: &mut Store, method: Method, path: &str, body: &[u8]) -> (r: Outcome)
    requires
        old(store).wf(),
        room_for(old(store)@, route_of(method, path@)),
    ensures
        final(store).wf(),
        (final(store)@, r@) == step(old(store)@, route_of(method, path@), payload_of(body@)),
{
    let rt = route(method, path);
    let payload = decode_payload(body);
    apply(store, rt, payload)
}

} // verus!
