//! The head of a response as the HTTP parser reports it.

use crate::response::Headers;
use crate::text::utf8_text;
use vstd::prelude::*;
use vstd::utf8::*;

verus! {

/// What the HTTP parser makes of some bytes.
pub enum HeadModel {
    /// They are not the start of a response.
    Invalid,
    /// They may be the start of a response, and its head goes on.
    Partial,
    /// They start with a whole head.
    Complete { consumed: int, code: Option<u16>, fields: Seq<(Seq<char>, Seq<u8>)> },
}

/// What the HTTP parser makes of some bytes.
#[derive(Debug)]
pub enum Head {
    /// They are not the start of a response.
    Invalid,
    /// They may be the start of a response, and its head goes on.
    Partial,
    /// They start with a whole head, `consumed` bytes long. `fields` has one
    /// entry for each field that there was room for; an entry that was not
    /// needed has neither a name nor a value.
    Complete { consumed: usize, code: Option<u16>, fields: Vec<(String, Vec<u8>)> },
}

/// A field's name and value.
pub open spec fn field_view(field: (String, Vec<u8>)) -> (Seq<char>, Seq<u8>) {
    (field.0@, field.1@)
}

/// The names and values of some fields.
pub open spec fn field_views(fields: Seq<(String, Vec<u8>)>) -> Seq<(Seq<char>, Seq<u8>)> {
    fields.map_values(|field: (String, Vec<u8>)| field_view(field))
}

impl View for Head {
    type V = HeadModel;

    open spec fn view(&self) -> HeadModel {
        match *self {
            Head::Invalid => HeadModel::Invalid,
            Head::Partial => HeadModel::Partial,
            Head::Complete { consumed, code, fields } => HeadModel::Complete {
                consumed: consumed as int,
                code,
                fields: field_views(fields@),
            },
        }
    }
}

/// Why the HTTP parser refused some bytes.
#[verifier::external_type_specification]
#[verifier::external_body]
pub struct ExHttpError(httparse::Error);

/// What `httparse::Response::parse` makes of `bytes` with room for `limit`
/// header fields, every one of them empty before the call.
pub uninterp spec fn parsed_head(bytes: Seq<u8>, limit: nat) -> HeadModel;

/// Whether `head` is exactly one head, with a status code. Then what is made of
/// it does not depend on what follows it, and less of it is a head that goes on.
pub open spec fn is_head(head: Seq<u8>, limit: nat) -> bool {
    &&& parsed_head(head, limit) matches HeadModel::Complete { consumed, code, fields } && consumed
        == head.len() && consumed > 0 && code is Some
    &&& forall|rest: Seq<u8>| parsed_head(#[trigger] (head + rest), limit) == parsed_head(head, limit)
    &&& forall|n: int|
        0 <= n < head.len() ==> parsed_head(#[trigger] head.take(n), limit) == HeadModel::Partial
}

/// `httparse::Response::parse` on a response without a version, code or reason
/// and with `limit` empty header fields. The outcome is named by
/// `parsed_head`. Of a whole head it is also said that the parser found a
/// status code in it and that it lies within the bytes; that nothing behind it
/// counts, since the parser takes the bytes one after the other and stops at the
/// end of the head; and that less of it is partial, since incomplete data is not
/// considered invalid.
#[verifier::external_body]
pub(crate) fn parse_head(bytes: &[u8], limit: usize) -> (res: Result<Head, httparse::Error>)
    requires
        limit <= u16::MAX,
    ensures
        match res {
            Ok(head) => parsed_head(bytes@, limit as nat) == head@,
            Err(_) => parsed_head(bytes@, limit as nat) == HeadModel::Invalid,
        },
        res matches Ok(head) ==> head@.within(bytes@.len() as int),
        res matches Ok(head) ==> (head@ matches HeadModel::Complete { consumed, code, fields }
            ==> is_head(bytes@.take(consumed), limit as nat)),
{
    let mut fields = vec![httparse::EMPTY_HEADER; limit];
    let mut response = httparse::Response::new(&mut fields);
    let status = response.parse(bytes)?;
    let code = response.code;
    Ok(match status {
        httparse::Status::Partial => Head::Partial,
        httparse::Status::Complete(consumed) => Head::Complete {
            consumed,
            code,
            fields: fields.iter().map(|f| (f.name.to_string(), f.value.to_vec())).collect(),
        },
    })
}

impl HeadModel {
    /// Whether a whole head has a status code and lies within `len` bytes.
    pub open spec fn within(self, len: int) -> bool {
        self matches HeadModel::Complete { consumed, code, fields } ==> {
            &&& 0 <= consumed <= len
            &&& code is Some
        }
    }

    /// Whether the value of every field is text.
    pub open spec fn is_text(self) -> bool {
        self matches HeadModel::Complete { consumed, code, fields } ==> fields_are_text(fields)
    }
}

/// Whether the value of every field is text.
pub open spec fn fields_are_text(fields: Seq<(Seq<char>, Seq<u8>)>) -> bool {
    forall|i: int| 0 <= i < fields.len() ==> valid_utf8((#[trigger] fields[i]).1)
}

/// The header fields by name: an entry with neither name nor value is left
/// out, and of several fields with one name the last counts.
pub open spec fn field_map(fields: Seq<(Seq<char>, Seq<u8>)>) -> Map<Seq<char>, Seq<char>>
    decreases fields.len(),
{
    if fields.len() == 0 {
        Map::empty()
    } else {
        let before = field_map(fields.drop_last());
        let (name, value) = fields.last();
        if name.len() == 0 && value.len() == 0 {
            before
        } else {
            before.insert(name, decode_utf8(value))
        }
    }
}

/// A field is kept with its value, whatever that is, unless a later field has
/// its name.
pub proof fn law_fields_are_kept(fields: Seq<(Seq<char>, Seq<u8>)>, i: int)
    requires
        0 <= i < fields.len(),
        fields[i].0.len() > 0 || fields[i].1.len() > 0,
        forall|j: int|
            i < j < fields.len() ==> (#[trigger] fields[j]).0 != fields[i].0 || (fields[j].0.len()
                == 0 && fields[j].1.len() == 0),
    ensures
        field_map(fields).contains_key(fields[i].0),
        field_map(fields)[fields[i].0] == decode_utf8(fields[i].1),
    decreases fields.len(),
{
    let before = fields.drop_last();
    if i < before.len() {
        assert(before[i] == fields[i]);
        assert forall|j: int| i < j < before.len() implies (#[trigger] before[j]).0 != before[i].0
            || (before[j].0.len() == 0 && before[j].1.len() == 0) by {
            assert(before[j] == fields[j]);
        }
        law_fields_are_kept(before, i);
        assert(fields[fields.len() - 1] == fields.last());
    }
}

/// Nothing is kept under a name that no field has.
pub proof fn law_no_field_is_made_up(fields: Seq<(Seq<char>, Seq<u8>)>, name: Seq<char>)
    requires
        field_map(fields).contains_key(name),
    ensures
        exists|i: int|
            0 <= i < fields.len() && (#[trigger] fields[i]).0 == name && (fields[i].0.len() > 0
                || fields[i].1.len() > 0),
    decreases fields.len(),
{
    if fields.len() > 0 {
        let before = fields.drop_last();
        if field_map(before).contains_key(name) {
            law_no_field_is_made_up(before, name);
            let i = choose|i: int|
                0 <= i < before.len() && (#[trigger] before[i]).0 == name && (before[i].0.len() > 0
                    || before[i].1.len() > 0);
            assert(fields[i] == before[i]);
        } else {
            assert(fields[fields.len() - 1].0 == name);
        }
    }
}

/// A head is text unless it is whole and the value of one of its fields is not.
pub proof fn law_text_is_told(head: HeadModel)
    ensures
        match head {
            HeadModel::Complete { consumed, code, fields } => {
                &&& head.is_text() ==> forall|i: int|
                    0 <= i < fields.len() ==> valid_utf8((#[trigger] fields[i]).1)
                &&& !head.is_text() ==> exists|i: int|
                    0 <= i < fields.len() && !valid_utf8((#[trigger] fields[i]).1)
            },
            _ => head.is_text(),
        },
{
}

impl Head {
    /// Whether the value of every field is text.
    pub fn is_text(&self) -> (res: bool)
        ensures
            res == self@.is_text(),
    {
        match self {
            Head::Complete { consumed: _, code: _, fields } => {
                let ghost views = field_views(fields@);
                let mut i: usize = 0;
                while i < fields.len()
                    invariant
                        0 <= i <= fields@.len(),
                        views == field_views(fields@),
                        self@.is_text() == fields_are_text(views),
                        forall|j: int| 0 <= j < i ==> valid_utf8((#[trigger] views[j]).1),
                    decreases fields@.len() - i,
                {
                    if utf8_text(fields[i].1.as_slice()).is_none() {
                        assert(!valid_utf8(views[i as int].1));
                        return false;
                    }
                    i = i + 1;
                }
                true
            },
            _ => true,
        }
    }
}

/// Collects the header fields by name.
pub fn collect_fields(fields: &Vec<(String, Vec<u8>)>) -> (res: Headers)
    requires
        fields_are_text(field_views(fields@)),
    ensures
        res@ == field_map(field_views(fields@)),
        forall|i: int|
            0 <= i < fields@.len() && (#[trigger] fields@[i]).0@.len() > 0 && (forall|j: int|
                i < j < fields@.len() ==> (#[trigger] fields@[j]).0@ != fields@[i].0@)
                ==> res@.contains_key(fields@[i].0@) && res@[fields@[i].0@] == decode_utf8(
                fields@[i].1@,
            ),
        forall|name: Seq<char>| #[trigger]
            res@.contains_key(name) ==> exists|i: int|
                0 <= i < fields@.len() && (#[trigger] fields@[i]).0@ == name,
{
    let ghost views = field_views(fields@);
    let mut res = Headers::new();
    let mut i: usize = 0;
    assert(views.take(0) =~= Seq::empty());
    while i < fields.len()
        invariant
            0 <= i <= fields@.len(),
            views == field_views(fields@),
            fields_are_text(views),
            res@ == field_map(views.take(i as int)),
        decreases fields@.len() - i,
    {
        proof {
            assert(views.take(i + 1).drop_last() =~= views.take(i as int));
            assert(views.take(i + 1).last() == views[i as int]);
            assert(views[i as int] == field_view(fields@[i as int]));
        }
        if !(fields[i].0.as_str().is_empty() && fields[i].1.is_empty()) {
            if let Some(value) = utf8_text(fields[i].1.as_slice()) {
                res.insert(fields[i].0.clone(), value.to_owned());
            }
        }
        i = i + 1;
    }
    assert(views.take(i as int) =~= views);
    proof {
        assert forall|i: int|
            0 <= i < fields@.len() && (#[trigger] fields@[i]).0@.len() > 0 && (forall|j: int|
                i < j < fields@.len() ==> (#[trigger] fields@[j]).0@
                    != fields@[i].0@) implies res@.contains_key(fields@[i].0@)
            && res@[fields@[i].0@] == decode_utf8(fields@[i].1@) by {
            assert(views[i] == field_view(fields@[i]));
            assert forall|j: int| i < j < views.len() implies (#[trigger] views[j]).0
                != views[i].0 by {
                assert(views[j] == field_view(fields@[j]));
            }
            law_fields_are_kept(views, i);
        }
        assert forall|name: Seq<char>| #[trigger] res@.contains_key(name) implies exists|i: int|
            0 <= i < fields@.len() && (#[trigger] fields@[i]).0@ == name by {
            law_no_field_is_made_up(views, name);
            let i = choose|i: int|
                0 <= i < views.len() && (#[trigger] views[i]).0 == name && (views[i].0.len() > 0
                    || views[i].1.len() > 0);
            assert(fields@[i].0@ == name);
        }
    }
    res
}

} // verus!
