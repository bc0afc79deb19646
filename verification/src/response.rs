//! A response's status and header fields.

use crate::text::same_text;
use vstd::prelude::*;

verus! {

/// Whether some field of `entries` is called `name`.
spec fn has_field(entries: Seq<(String, String)>, name: Seq<char>) -> bool {
    exists|i: int| 0 <= i < entries.len() && (#[trigger] entries[i]).0@ == name
}

/// The value of a field of `entries` that is called `name`.
spec fn field_value(entries: Seq<(String, String)>, name: Seq<char>) -> Seq<char> {
    entries[choose|i: int| 0 <= i < entries.len() && (#[trigger] entries[i]).0@ == name].1@
}

/// Header fields by name. A name is matched letter for letter, and each name
/// occurs once: a field that is set again takes the new value.
#[derive(Debug)]
pub struct Headers {
    entries: Vec<(String, String)>,
}

impl View for Headers {
    type V = Map<Seq<char>, Seq<char>>;

    closed spec fn view(&self) -> Map<Seq<char>, Seq<char>> {
        Map::new(
            |name: Seq<char>| has_field(self.entries@, name),
            |name: Seq<char>| field_value(self.entries@, name),
        )
    }
}

impl Headers {
    #[verifier::type_invariant]
    spec fn names_distinct(self) -> bool {
        forall|i: int, j: int|
            0 <= i < j < self.entries@.len() ==> (#[trigger] self.entries@[i]).0@ != (
            #[trigger] self.entries@[j]).0@
    }

    /// No fields.
    pub fn new() -> (res: Self)
        ensures
            res@ == Map::<Seq<char>, Seq<char>>::empty(),
    {
        let res = Headers { entries: Vec::new() };
        assert(res@ =~= Map::<Seq<char>, Seq<char>>::empty());
        res
    }

    /// Sets the field `name` to `value`.
    pub fn insert(&mut self, name: String, value: String)
        ensures
            final(self)@ == old(self)@.insert(name@, value@),
    {
        proof {
            use_type_invariant(&*self);
        }
        let mut entries: Vec<(String, String)> = Vec::new();
        std::mem::swap(&mut entries, &mut self.entries);
        let ghost before = entries@;
        let mut i: usize = 0;
        while i < entries.len() && !same_text(entries[i].0.as_str(), name.as_str())
            invariant
                entries@ == before,
                0 <= i <= before.len(),
                forall|j: int| 0 <= j < i ==> (#[trigger] before[j]).0@ != name@,
            decreases before.len() - i,
        {
            i = i + 1;
        }
        if i < entries.len() {
            entries.set(i, (name, value));
        } else {
            entries.push((name, value));
        }
        let ghost after = entries@;
        self.entries = entries;
        proof {
            assert(self@.dom() =~= old(self)@.dom().insert(name@)) by {
                assert forall|k: Seq<char>| has_field(after, k) == (has_field(before, k) || k
                    == name@) by {
                    if has_field(before, k) {
                        let j = choose|j: int|
                            0 <= j < before.len() && (#[trigger] before[j]).0@ == k;
                        assert(after[j].0@ == k);
                    }
                    assert(after[i as int].0@ == name@);
                    if has_field(after, k) && k != name@ {
                        let j = choose|j: int|
                            0 <= j < after.len() && (#[trigger] after[j]).0@ == k;
                        assert(before[j].0@ == k);
                    }
                }
            }
            assert forall|k: Seq<char>| has_field(after, k) implies field_value(after, k) == (
            if k == name@ {
                value@
            } else {
                field_value(before, k)
            }) by {
                let j = choose|j: int| 0 <= j < after.len() && (#[trigger] after[j]).0@ == k;
                if k == name@ {
                    assert(after[i as int].0@ == name@);
                    assert(j == i);
                } else {
                    assert(before[j].0@ == k);
                    let j2 = choose|j2: int|
                        0 <= j2 < before.len() && (#[trigger] before[j2]).0@ == k;
                    assert(j == j2);
                }
            }
            assert(self@ =~= old(self)@.insert(name@, value@));
        }
    }

    /// The value of the field `name`, where there is one.
    pub fn get(&self, name: &str) -> (res: Option<&str>)
        ensures
            res is Some <==> self@.contains_key(name@),
            res matches Some(value) ==> value@ == self@[name@],
    {
        proof {
            use_type_invariant(self);
        }
        let mut i: usize = 0;
        while i < self.entries.len()
            invariant
                self.names_distinct(),
                0 <= i <= self.entries@.len(),
                forall|j: int| 0 <= j < i ==> (#[trigger] self.entries@[j]).0@ != name@,
            decreases self.entries@.len() - i,
        {
            if same_text(self.entries[i].0.as_str(), name) {
                assert(self.entries@[i as int].0@ == name@);
                return Some(self.entries[i].1.as_str());
            }
            i = i + 1;
        }
        None
    }
}

/// What a response's header says.
pub struct ResponseModel {
    pub status: u16,
    pub headers: Map<Seq<char>, Seq<char>>,
}

/// A response: its status code and its header fields.
#[derive(Debug)]
pub struct Response {
    pub status: u16,
    pub headers: Headers,
}

impl View for Response {
    type V = ResponseModel;

    open spec fn view(&self) -> ResponseModel {
        ResponseModel { status: self.status, headers: self.headers@ }
    }
}

impl ResponseModel {
    /// Whether the status sends the client to another address.
    pub open spec fn is_redirect(self) -> bool {
        300 <= self.status <= 400
    }
}

impl Response {
    /// Whether the status sends the client to another address.
    pub fn is_redirect(&self) -> (res: bool)
        ensures
            res == self@.is_redirect(),
            res <==> 300 <= self.status && self.status <= 400,
    {
        self.status >= 300 && self.status <= 400
    }
}

/// The statuses from 300 to 400 send the client to another address, among them
/// 301, 302, 303, 307 and 308, and no other status does, whatever the header
/// fields are.
pub proof fn law_redirecting_statuses(response: ResponseModel)
    ensures
        response.is_redirect() <==> 300 <= response.status && response.status <= 400,
{
}

/// A response is modelled by its status and by all of its header fields.
pub proof fn law_response_is_its_fields(response: Response)
    ensures
        response@.status == response.status,
        response@.headers == response.headers@,
{
}

} // verus!
