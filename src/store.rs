//! The record store: an ordered list of people whose ids increase along the
//! list, so that no two records share an id.

use vstd::prelude::*;
use crate::text::{blank, white_space};

verus! {

/// A record as the contracts see it: its id and its name.
pub type PersonView = (u32, Seq<char>);

pub struct Person {
    pub id: u32,
    pub name: String,
}

impl View for Person {
    type V = PersonView;

    open spec fn view(&self) -> PersonView {
        (self.id, self.name@)
    }
}

pub struct Store {
    people: Vec<Person>,
}

impl View for Store {
    type V = Seq<PersonView>;

    closed spec fn view(&self) -> Seq<PersonView> {
        self.people@.map_values(|p: Person| p@)
    }
}

/// Ids strictly increase in store order.
pub open spec fn ids_increasing(s: Seq<PersonView>) -> bool {
    forall|i: int, j: int| 0 <= i < j < s.len() ==> s[i].0 < s[j].0
}

/// No two records share an id.
pub open spec fn ids_unique(s: Seq<PersonView>) -> bool {
    forall|i: int, j: int|
        0 <= i < s.len() && 0 <= j < s.len() && i != j ==> s[i].0 != s[j].0
}

/// The id the next record gets: one more than the largest id, or 1 when the
/// store is empty. Under `ids_increasing` the largest id is the last one.
pub open spec fn next_id_of(s: Seq<PersonView>) -> nat {
    if s.len() == 0 {
        1
    } else {
        s.last().0 as nat + 1
    }
}

/// No name is empty or whitespace alone.
pub open spec fn names_filled(s: Seq<PersonView>) -> bool {
    forall|i: int| 0 <= i < s.len() ==> !blank(#[trigger] s[i].1)
}

pub open spec fn has_id(s: Seq<PersonView>, id: u32) -> bool {
    exists|i: int| 0 <= i < s.len() && s[i].0 == id
}

/// The position of the record with id `id`, when there is one.
pub open spec fn index_of(s: Seq<PersonView>, id: u32) -> int {
    choose|i: int| 0 <= i < s.len() && s[i].0 == id
}

/// The store after a record named `name` is created.
pub open spec fn created(s: Seq<PersonView>, name: Seq<char>) -> Seq<PersonView> {
    s.push((next_id_of(s) as u32, name))
}

/// The store after record `id` is renamed to `name`, if it exists.
pub open spec fn renamed(s: Seq<PersonView>, id: u32, name: Seq<char>) -> Seq<PersonView> {
    if has_id(s, id) {
        s.update(index_of(s, id), (id, name))
    } else {
        s
    }
}

/// The store after record `id` is removed, if it exists.
pub open spec fn removed(s: Seq<PersonView>, id: u32) -> Seq<PersonView> {
    if has_id(s, id) {
        s.remove(index_of(s, id))
    } else {
        s
    }
}

/// The store after records named `names` are created one after the other.
pub open spec fn created_all(s: Seq<PersonView>, names: Seq<Seq<char>>) -> Seq<PersonView>
    decreases names.len(),
{
    if names.len() == 0 {
        s
    } else {
        created(created_all(s, names.drop_last()), names.last())
    }
}

/// The three records a fresh store starts with.
pub open spec fn seed_people() -> Seq<PersonView> {
    seq![
        (1u32, seq!['A', 'l', 'i', 'c', 'e']),
        (2u32, seq!['B', 'o', 'b']),
        (3u32, seq!['C', 'h', 'a', 'r', 'l', 'i', 'e']),
    ]
}

/// Increasing ids are unique ids.
pub proof fn lemma_ids_unique(s: Seq<PersonView>)
    requires
        ids_increasing(s),
    ensures
        ids_unique(s),
{
    assert forall|i: int, j: int|
        0 <= i < s.len() && 0 <= j < s.len() && i != j implies s[i].0 != s[j].0 by {
        if i < j {
            assert(s[i].0 < s[j].0);
        } else {
            assert(s[j].0 < s[i].0);
        }
    }
}

/// A new id is larger than every id already in the store.
pub proof fn lemma_next_id_fresh(s: Seq<PersonView>)
    requires
        ids_increasing(s),
    ensures
        forall|i: int| 0 <= i < s.len() ==> (#[trigger] s[i]).0 < next_id_of(s),
{
    assert forall|i: int| 0 <= i < s.len() implies (#[trigger] s[i]).0 < next_id_of(s) by {
        if i < s.len() - 1 {
            assert(s[i].0 < s[s.len() - 1].0);
        }
    }
}

proof fn lemma_index_of(s: Seq<PersonView>, id: u32, i: int)
    requires
        ids_increasing(s),
        0 <= i < s.len(),
        s[i].0 == id,
    ensures
        has_id(s, id),
        index_of(s, id) == i,
{
    lemma_ids_unique(s);
    assert(has_id(s, id));
}

pub proof fn lemma_created_increasing(s: Seq<PersonView>, name: Seq<char>)
    requires
        ids_increasing(s),
        next_id_of(s) <= u32::MAX,
    ensures
        ids_increasing(created(s, name)),
{
    lemma_next_id_fresh(s);
    let t = created(s, name);
    assert forall|i: int, j: int| 0 <= i < j < t.len() implies t[i].0 < t[j].0 by {
        if j == s.len() {
            assert(t[i] == s[i]);
        }
    }
}

pub proof fn lemma_renamed_increasing(s: Seq<PersonView>, id: u32, name: Seq<char>)
    requires
        ids_increasing(s),
    ensures
        ids_increasing(renamed(s, id, name)),
{
    if has_id(s, id) {
        let k = index_of(s, id);
        let t = renamed(s, id, name);
        assert forall|i: int, j: int| 0 <= i < j < t.len() implies t[i].0 < t[j].0 by {
            assert(t[i].0 == s[i].0 && t[j].0 == s[j].0);
        }
    }
}

pub proof fn lemma_removed_increasing(s: Seq<PersonView>, id: u32)
    requires
        ids_increasing(s),
    ensures
        ids_increasing(removed(s, id)),
{
    if has_id(s, id) {
        let k = index_of(s, id);
        let t = s.remove(k);
        assert forall|i: int, j: int| 0 <= i < j < t.len() implies t[i].0 < t[j].0 by {
            let si = if i < k { i } else { i + 1 };
            let sj = if j < k { j } else { j + 1 };
            assert(t[i] == s[si] && t[j] == s[sj]);
        }
    }
}

/// Once record `id` is removed, no record with that id is left.
pub proof fn lemma_removed_gone(s: Seq<PersonView>, id: u32)
    requires
        ids_increasing(s),
    ensures
        !has_id(removed(s, id), id),
{
    if has_id(s, id) {
        let k = index_of(s, id);
        let t = s.remove(k);
        lemma_ids_unique(s);
        if has_id(t, id) {
            let i = choose|i: int| 0 <= i < t.len() && t[i].0 == id;
            let si = if i < k { i } else { i + 1 };
            assert(t[i] == s[si]);
        }
    }
}

/// Creating records one after the other appends them in order, numbered on
/// from the next id, and keeps ids increasing.
pub proof fn lemma_created_all(s: Seq<PersonView>, names: Seq<Seq<char>>)
    requires
        ids_increasing(s),
        next_id_of(s) + names.len() <= u32::MAX + 1,
    ensures
        ids_increasing(created_all(s, names)),
        created_all(s, names).len() == s.len() + names.len(),
        created_all(s, names).subrange(0, s.len() as int) == s,
        forall|k: int|
            0 <= k < names.len() ==> #[trigger] created_all(s, names)[s.len() + k] == (
                (next_id_of(s) + k) as u32,
                names[k],
            ),
    decreases names.len(),
{
    if names.len() > 0 {
        let init = names.drop_last();
        lemma_created_all(s, init);
        let p = created_all(s, init);
        if init.len() > 0 {
            let k = init.len() - 1;
            assert(p[s.len() + k] == ((next_id_of(s) + k) as u32, init[k]));
        } else {
            assert(p =~= s);
        }
        assert(next_id_of(p) == next_id_of(s) + init.len());
        lemma_created_increasing(p, names.last());
        let t = created_all(s, names);
        assert(t.subrange(0, s.len() as int) =~= p.subrange(0, s.len() as int));
        assert forall|k: int| 0 <= k < names.len() implies #[trigger] t[s.len() + k] == (
            (next_id_of(s) + k) as u32,
            names[k],
        ) by {
            if k < init.len() {
                assert(t[s.len() + k] == p[s.len() + k]);
                assert(init[k] == names[k]);
            }
        }
    }
}

/// Creating records one after the other in an empty store numbers them
/// 1, 2, 3 and so on, in the order the creations ran: each name is stored
/// once, under its own id, and nothing is lost. Under the store's lock any
/// set of concurrent creations runs in some such order.
pub proof fn lemma_created_from_empty(names: Seq<Seq<char>>)
    requires
        names.len() <= u32::MAX,
    ensures
        created_all(Seq::empty(), names) == Seq::new(
            names.len(),
            |k: int| ((k + 1) as u32, names[k]),
        ),
{
    let e = Seq::<PersonView>::empty();
    lemma_created_all(e, names);
    let t = created_all(e, names);
    assert forall|k: int| 0 <= k < names.len() implies t[k] == ((k + 1) as u32, names[k]) by {
        assert(t[e.len() + k] == ((next_id_of(e) + k) as u32, names[k]));
    }
    assert(t =~= Seq::new(names.len(), |k: int| ((k + 1) as u32, names[k])));
}

impl Store {
    /// Well-formed: ids increase in store order.
    pub open spec fn wf(&self) -> bool {
        ids_increasing(self@)
    }

    /// An empty store.
    pub fn new() -> (r: Store)
        ensures
            r@ == Seq::<PersonView>::empty(),
            r.wf(),
    {
        let r = Store { people: Vec::new() };
        assert(r@ =~= Seq::<PersonView>::empty());
        r
    }

    /// The store a fresh service starts with: Alice, Bob and Charlie, ids 1 to 3.
    pub fn seeded() -> (r: Store)
        ensures
            r@ == seed_people(),
            r.wf(),
            names_filled(r@),
    {
        proof {
            reveal_strlit("Alice");
            reveal_strlit("Bob");
            reveal_strlit("Charlie");
        }
        let mut people: Vec<Person> = Vec::new();
        people.push(Person { id: 1, name: String::from_str("Alice") });
        people.push(Person { id: 2, name: String::from_str("Bob") });
        people.push(Person { id: 3, name: String::from_str("Charlie") });
        let r = Store { people };
        assert(r@[0].1 =~= seed_people()[0].1);
        assert(r@[1].1 =~= seed_people()[1].1);
        assert(r@[2].1 =~= seed_people()[2].1);
        assert(r@ =~= seed_people());
        assert(!white_space('A') && r@[0].1[0] == 'A' && !blank(r@[0].1));
        assert(!white_space('B') && r@[1].1[0] == 'B' && !blank(r@[1].1));
        assert(!white_space('C') && r@[2].1[0] == 'C' && !blank(r@[2].1));
        r
    }

    /// The records, in store order.
    pub fn people(&self) -> (r: &[Person])
        ensures
            r@.map_values(|p: Person| p@) == self@,
    {
        self.people.as_slice()
    }

    pub fn len(&self) -> (r: usize)
        ensures
            r == self@.len(),
    {
        self.people.len()
    }

    /// The id to give a new record: the last (and largest) id plus one, or 1.
    pub fn next_id(&self) -> (r: u64)
        ensures
            r == next_id_of(self@),
    {
        let n = self.people.len();
        if n == 0 {
            1
        } else {
            self.people[n - 1].id as u64 + 1
        }
    }

    /// Where the record with id `id` stands, if anywhere.
    pub fn position(&self, id: u32) -> (r: Option<usize>)
        ensures
            match r {
                Some(i) => i < self@.len() && self@[i as int].0 == id,
                None => !has_id(self@, id),
            },
    {
        let n = self.people.len();
        let mut i: usize = 0;
        while i < n
            invariant
                n == self@.len(),
                i <= n,
                forall|j: int| 0 <= j < i ==> (#[trigger] self@[j]).0 != id,
            decreases n - i,
        {
            if self.people[i].id == id {
                return Some(i);
            }
            i = i + 1;
        }
        None
    }

    /// Appends `p`, whose id is above every id in the store.
    pub fn insert(&mut self, p: Person)
        requires
            old(self).wf(),
            next_id_of(old(self)@) <= p.id,
        ensures
            final(self)@ == old(self)@.push(p@),
            final(self).wf(),
    {
        let ghost pv = p@;
        proof {
            lemma_next_id_fresh(self@);
        }
        self.people.push(p);
        assert(self@ =~= old(self)@.push(pv));
    }

    /// Adds a record named `name` under the next id, which it returns.
    pub fn create(&mut self, name: String) -> (id: u32)
        requires
            old(self).wf(),
            next_id_of(old(self)@) <= u32::MAX,
        ensures
            id == next_id_of(old(self)@),
            final(self)@ == created(old(self)@, name@),
            final(self).wf(),
    {
        let id = self.next_id() as u32;
        self.insert(Person { id, name });
        id
    }

    /// Gives record `id` the name `name`; false when there is no such record.
    pub fn rename(&mut self, id: u32, name: String) -> (r: bool)
        requires
            old(self).wf(),
        ensures
            r == has_id(old(self)@, id),
            final(self)@ == renamed(old(self)@, id, name@),
            final(self).wf(),
    {
        match self.position(id) {
            Some(i) => {
                proof {
                    lemma_index_of(self@, id, i as int);
                }
                proof {
                    lemma_renamed_increasing(self@, id, name@);
                }
                let ghost nv = name@;
                self.people[i].name = name;
                assert(self@ =~= old(self)@.update(i as int, (id, nv)));
                true
            },
            None => false,
        }
    }

    /// Removes record `id`; false when there is no such record.
    pub fn remove(&mut self, id: u32) -> (r: bool)
        requires
            old(self).wf(),
        ensures
            r == has_id(old(self)@, id),
            final(self)@ == removed(old(self)@, id),
            final(self).wf(),
    {
        proof {
            lemma_removed_increasing(self@, id);
        }
        match self.position(id) {
            Some(i) => {
                proof {
                    lemma_index_of(self@, id, i as int);
                }
                self.people.remove(i);
                assert(self@ =~= old(self)@.remove(i as int));
                true
            },
            None => false,
        }
    }
}

} // verus!
