//! The document: an identifier, an optional revision marker, and named
//! fields with string values.

use vstd::prelude::*;
use vstd::string::*;
use crate::error::StoreError;
use crate::json::{
    all_scalar, has_member, is_last_member, lemma_last_member, members_view, object_of, JsonValue,
    JsonValueView, Member, MemberView,
};

verus! {

/// The name under which a record carries the identifier.
pub open spec fn id_name() -> Seq<char> {
    seq!['i', 'd']
}

/// The name under which a record carries the revision marker.
pub open spec fn rev_name() -> Seq<char> {
    seq!['r', 'e', 'v']
}

/// A name that no field can have, because the identifier or the revision
/// marker stands under it in a record.
pub open spec fn is_reserved(name: Seq<char>) -> bool {
    name == id_name() || name == rev_name()
}

/// One named field of a document.
#[derive(Debug)]
pub struct Field {
    pub name: String,
    pub value: String,
}

/// A document as a mathematical value.
pub struct DocumentView {
    pub id: Seq<char>,
    pub rev: Option<Seq<char>>,
    pub fields: Map<Seq<char>, Seq<char>>,
}

/// No name has two fields.
pub open spec fn distinct_names(fields: Seq<Field>) -> bool {
    forall|i: int, j: int|
        0 <= i < fields.len() && 0 <= j < fields.len() && fields[i].name@ == fields[j].name@
            ==> i == j
}

/// Some field carries the name `name`.
pub open spec fn has_field(fields: Seq<Field>, name: Seq<char>) -> bool {
    exists|i: int| 0 <= i < fields.len() && #[trigger] fields[i].name@ == name
}

/// The position of a field that carries `name`.
pub open spec fn field_position(fields: Seq<Field>, name: Seq<char>) -> int {
    choose|i: int| 0 <= i < fields.len() && #[trigger] fields[i].name@ == name
}

/// The mapping from names to values that a list of fields stands for.
pub open spec fn fields_map(fields: Seq<Field>) -> Map<Seq<char>, Seq<char>> {
    Map::new(
        |name: Seq<char>| has_field(fields, name),
        |name: Seq<char>| fields[field_position(fields, name)].value@,
    )
}

/// Whether a JSON object spells a document: a string under `id`, a string,
/// null or nothing under `rev`, and a string under every other name.
pub open spec fn is_document(object: Map<Seq<char>, JsonValueView>) -> bool {
    &&& object.contains_key(id_name())
    &&& object[id_name()] is Text
    &&& object.contains_key(rev_name()) ==> !(object[rev_name()] is Other)
    &&& forall|name: Seq<char>|
        object.contains_key(name) && !is_reserved(name) ==> #[trigger] object[name] is Text
}

/// The string that a JSON value holds.
pub open spec fn text_of(value: JsonValueView) -> Seq<char> {
    match value {
        JsonValueView::Text(text) => text,
        _ => Seq::empty(),
    }
}

/// The document that a JSON object spells, if it spells one. The members
/// other than `id` and `rev` are its fields; null under `rev` means the same
/// as no `rev` at all.
pub open spec fn document_of(object: Map<Seq<char>, JsonValueView>) -> Option<DocumentView> {
    if is_document(object) {
        Some(
            DocumentView {
                id: text_of(object[id_name()]),
                rev: if object.contains_key(rev_name()) && object[rev_name()] is Text {
                    Some(text_of(object[rev_name()]))
                } else {
                    None
                },
                fields: Map::new(
                    |name: Seq<char>| object.contains_key(name) && !is_reserved(name),
                    |name: Seq<char>| text_of(object[name]),
                ),
            },
        )
    } else {
        None
    }
}

/// The JSON object under which a record carries a document: the identifier
/// under `id`, the revision marker under `rev` (null where there is none),
/// and each field under its own name, all flat in one object.
pub open spec fn object_of_document(document: DocumentView) -> Map<Seq<char>, JsonValueView> {
    Map::new(
        |name: Seq<char>| is_reserved(name) || document.fields.contains_key(name),
        |name: Seq<char>|
            if name == id_name() {
                JsonValueView::Text(document.id)
            } else if name == rev_name() {
                rev_value(document.rev)
            } else {
                JsonValueView::Text(document.fields[name])
            },
    )
}

/// Whether the fields of a document leave the names `id` and `rev` alone, as
/// those of every stored document do.
pub open spec fn is_valid(document: DocumentView) -> bool {
    !document.fields.contains_key(id_name()) && !document.fields.contains_key(rev_name())
}

/// The object of a valid document spells that document again.
pub proof fn lemma_object_spells_document(document: DocumentView)
    requires
        is_valid(document),
    ensures
        document_of(object_of_document(document)) == Some(document),
{
    let object = object_of_document(document);
    assert(id_name().len() == 2 && rev_name().len() == 3);
    assert(object.contains_key(id_name()));
    assert(object.contains_key(rev_name()));
    assert(is_document(object));
    let spelled = document_of(object)->Some_0;
    assert(spelled.fields =~= document.fields);
    assert(spelled.rev == document.rev);
}

/// The JSON value under which a record carries a revision marker.
pub open spec fn rev_value(rev: Option<Seq<char>>) -> JsonValueView {
    match rev {
        Some(rev) => JsonValueView::Text(rev),
        None => JsonValueView::Null,
    }
}

/// The members under which a record carries a document: `id`, then `rev`,
/// then the fields in their order, all flat in one object.
pub open spec fn record_members(
    id: Seq<char>,
    rev: Option<Seq<char>>,
    fields: Seq<Field>,
) -> Seq<MemberView> {
    seq![
        MemberView { name: id_name(), value: JsonValueView::Text(id) },
        MemberView { name: rev_name(), value: rev_value(rev) },
    ] + Seq::new(
        fields.len(),
        |i: int| MemberView { name: fields[i].name@, value: JsonValueView::Text(fields[i].value@) },
    )
}

/// No field of the list is called `id` or `rev`.
pub open spec fn no_reserved_names(fields: Seq<Field>) -> bool {
    forall|i: int| 0 <= i < fields.len() ==> !is_reserved(#[trigger] fields[i].name@)
}

/// The members under which a record carries a document spell that document
/// again, and hold strings and null alone.
pub proof fn lemma_record_spells_document(
    id: Seq<char>,
    rev: Option<Seq<char>>,
    fields: Seq<Field>,
)
    requires
        distinct_names(fields),
        no_reserved_names(fields),
    ensures
        all_scalar(record_members(id, rev, fields)),
        is_valid(DocumentView { id, rev, fields: fields_map(fields) }),
        object_of(record_members(id, rev, fields)) == object_of_document(
            DocumentView { id, rev, fields: fields_map(fields) },
        ),
        document_of(object_of(record_members(id, rev, fields))) == Some(
            DocumentView { id, rev, fields: fields_map(fields) },
        ),
{
    let members = record_members(id, rev, fields);
    let object = object_of(members);
    assert(id_name().len() == 2 && rev_name().len() == 3);
    assert(members[0].name == id_name());
    assert(members[1].name == rev_name());
    assert forall|i: int| 0 <= i < fields.len() implies (#[trigger] members[2 + i]).name
        == fields[i].name@ && members[2 + i].value == JsonValueView::Text(fields[i].value@) by {}
    assert(is_last_member(members, id_name(), 0)) by {
        assert forall|j: int| 0 < j < members.len() implies #[trigger] members[j].name
            != id_name() by {
            if j >= 2 {
                assert(members[2 + (j - 2)].name == fields[j - 2].name@);
            }
        }
    }
    assert(is_last_member(members, rev_name(), 1)) by {
        assert forall|j: int| 1 < j < members.len() implies #[trigger] members[j].name
            != rev_name() by {
            assert(members[2 + (j - 2)].name == fields[j - 2].name@);
        }
    }
    lemma_last_member(members, id_name(), 0);
    lemma_last_member(members, rev_name(), 1);
    assert forall|i: int| 0 <= i < fields.len() implies object.contains_key(
        #[trigger] fields[i].name@,
    ) && object[fields[i].name@] == JsonValueView::Text(fields[i].value@) by {
        let name = fields[i].name@;
        assert(is_last_member(members, name, 2 + i)) by {
            assert forall|j: int| 2 + i < j < members.len() implies #[trigger] members[j].name
                != name by {
                assert(members[2 + (j - 2)].name == fields[j - 2].name@);
            }
        }
        lemma_last_member(members, name, 2 + i);
    }
    assert forall|name: Seq<char>| object.contains_key(name) && !is_reserved(name) implies has_field(
        fields,
        name,
    ) by {
        let j: int = choose|j: int| 0 <= j < members.len() && #[trigger] members[j].name == name;
        assert(members[2 + (j - 2)].name == fields[j - 2].name@);
    }
    assert forall|name: Seq<char>|
        object.contains_key(name) && !is_reserved(name) implies #[trigger] object[name]
        == JsonValueView::Text(fields_map(fields)[name]) by {
        let i: int = field_position(fields, name);
        assert(object[fields[i].name@] == JsonValueView::Text(fields[i].value@));
    }
    assert(is_document(object));
    let spelled = document_of(object)->Some_0;
    assert(spelled.fields =~= fields_map(fields)) by {
        assert forall|name: Seq<char>| has_field(fields, name) implies object.contains_key(name)
            && !is_reserved(name) by {
            let i: int = field_position(fields, name);
            assert(object.contains_key(fields[i].name@));
        }
    }
    assert(all_scalar(members)) by {
        assert forall|j: int| 0 <= j < members.len() implies !(#[trigger] members[j].value
            is Other) by {
            if j >= 2 {
                assert(members[2 + (j - 2)].value == JsonValueView::Text(fields[j - 2].value@));
            }
        }
    }
    let document = DocumentView { id, rev, fields: fields_map(fields) };
    assert(is_valid(document)) by {
        if has_field(fields, id_name()) {
            let i: int = field_position(fields, id_name());
            assert(is_reserved(fields[i].name@));
        }
        if has_field(fields, rev_name()) {
            let i: int = field_position(fields, rev_name());
            assert(is_reserved(fields[i].name@));
        }
    }
    assert(object =~= object_of_document(document)) by {
        assert forall|name: Seq<char>| object.contains_key(name) implies is_reserved(name)
            || document.fields.contains_key(name) by {}
        assert forall|name: Seq<char>| document.fields.contains_key(name) implies object.contains_key(
            name,
        ) by {
            let i: int = field_position(fields, name);
            assert(object.contains_key(fields[i].name@));
        }
        assert forall|name: Seq<char>| object.contains_key(name) implies object[name]
            == object_of_document(document)[name] by {
            if !is_reserved(name) {
                assert(object[name] == JsonValueView::Text(fields_map(fields)[name]));
            }
        }
    }
}

/// A document. Its fields form a mapping: no name occurs twice, and none is
/// `id` or `rev`.
#[derive(Debug)]
pub struct Document {
    id: String,
    rev: Option<String>,
    fields: Vec<Field>,
}

impl View for Document {
    type V = DocumentView;

    closed spec fn view(&self) -> DocumentView {
        DocumentView {
            id: self.id@,
            rev: match self.rev {
                Some(rev) => Some(rev@),
                None => None,
            },
            fields: fields_map(self.fields@),
        }
    }
}

/// Whether `name` is `id` or `rev`.
pub fn is_reserved_name(name: &str) -> (reserved: bool)
    ensures
        reserved == is_reserved(name@),
{
    proof {
        reveal_strlit("id");
        reveal_strlit("rev");
        assert("id"@ =~= id_name());
        assert("rev"@ =~= rev_name());
    }
    let owned: String = name.to_owned();
    owned == "id".to_owned() || owned == "rev".to_owned()
}

/// Some member at or behind position `from` carries the name `name`.
spec fn seen_from(members: Seq<MemberView>, from: int, name: Seq<char>) -> bool {
    exists|j: int| from <= j < members.len() && #[trigger] members[j].name == name
}

/// Whether `name` is `id`.
fn is_id_name(name: &String) -> (yes: bool)
    ensures
        yes == (name@ == id_name()),
{
    proof {
        reveal_strlit("id");
        assert("id"@ =~= id_name());
    }
    *name == "id".to_owned()
}

/// Whether `name` is `rev`.
fn is_rev_name(name: &String) -> (yes: bool)
    ensures
        yes == (name@ == rev_name()),
{
    proof {
        reveal_strlit("rev");
        assert("rev"@ =~= rev_name());
    }
    *name == "rev".to_owned()
}

/// The position of the field called `name` in `fields`, or `None` when no
/// field carries that name.
fn find_field(fields: &Vec<Field>, name: &String) -> (found: Option<usize>)
    ensures
        match found {
            Some(i) => i < fields@.len() && fields@[i as int].name@ == name@,
            None => !has_field(fields@, name@),
        },
{
    let mut i: usize = 0;
    while i < fields.len()
        invariant
            i <= fields@.len(),
            forall|j: int| 0 <= j < i ==> fields@[j].name@ != name@,
        decreases fields@.len() - i,
    {
        if fields[i].name == *name {
            return Some(i);
        }
        i = i + 1;
    }
    None
}

impl Document {
    #[verifier::type_invariant]
    spec fn fields_form_a_mapping(self) -> bool {
        &&& distinct_names(self.fields@)
        &&& no_reserved_names(self.fields@)
    }

    /// Whether the document carries an identifier, as a document that is
    /// stored must.
    pub open spec fn has_id(&self) -> bool {
        self@.id.len() > 0
    }

    /// The document with the given identifier and revision marker, and
    /// without fields.
    pub fn new(id: &str, rev: Option<&str>) -> (document: Self)
        ensures
            document@.id == id@,
            document@.rev == (match rev {
                Some(rev) => Some(rev@),
                None => None,
            }),
            document@.fields == Map::<Seq<char>, Seq<char>>::empty(),
    {
        let rev: Option<String> = match rev {
            Some(rev) => Some(rev.to_owned()),
            None => None,
        };
        let document = Document { id: id.to_owned(), rev, fields: Vec::new() };
        assert(document@.fields =~= Map::<Seq<char>, Seq<char>>::empty());
        document
    }

    /// The identifier.
    pub fn id(&self) -> (id: &str)
        ensures
            id@ == self@.id,
    {
        self.id.as_str()
    }

    /// The revision marker, if the document has one.
    pub fn rev(&self) -> (rev: Option<&str>)
        ensures
            rev is Some == self@.rev is Some,
            rev matches Some(found) ==> self@.rev == Some(found@),
    {
        match &self.rev {
            Some(rev) => Some(rev.as_str()),
            None => None,
        }
    }

    /// The value of the field called `name`, or `None` when the document has
    /// no such field.
    pub fn field(&self, name: &str) -> (value: Option<&str>)
        ensures
            value is Some == self@.fields.contains_key(name@),
            value matches Some(found) ==> self@.fields[name@] == found@,
    {
        proof {
            use_type_invariant(self);
        }
        let key: String = name.to_owned();
        match find_field(&self.fields, &key) {
            Some(i) => Some(self.fields[i].value.as_str()),
            None => None,
        }
    }

    /// Gives the field called `name` the value `value`, whether or not the
    /// document had such a field. The names `id` and `rev` are refused, and
    /// the document then stays as it was.
    pub fn set_field(&mut self, name: &str, value: &str) -> (r: Result<(), StoreError>)
        ensures
            is_reserved(name@) ==> r == Err::<(), StoreError>(StoreError::MalformedInput)
                && final(self)@ == old(self)@,
            !is_reserved(name@) ==> r == Ok::<(), StoreError>(()) && final(self)@ == (DocumentView {
                fields: old(self)@.fields.insert(name@, value@),
                ..old(self)@
            }),
    {
        proof {
            use_type_invariant(&*self);
        }
        if is_reserved_name(name) {
            return Err(StoreError::MalformedInput);
        }
        let key: String = name.to_owned();
        let mut fields: Vec<Field> = Vec::new();
        std::mem::swap(&mut fields, &mut self.fields);
        let ghost before = fields@;
        match find_field(&fields, &key) {
            Some(i) => {
                fields.set(i, Field { name: key, value: value.to_owned() });
                proof {
                    lemma_field_replaced(before, fields@, i as int);
                }
            },
            None => {
                fields.push(Field { name: key, value: value.to_owned() });
                proof {
                    assert(fields@.drop_last() =~= before);
                    lemma_field_added(before, fields@);
                }
            },
        }
        self.fields = fields;
        Ok(())
    }

    /// The members under which a record carries this document.
    pub closed spec fn members(&self) -> Seq<MemberView> {
        record_members(self@.id, self@.rev, self.fields@)
    }

    /// The members under which a record carries this document: `id`, then
    /// `rev` (null where the document has no revision marker), then one
    /// member for each field. Together they are the object of the document,
    /// which is valid.
    pub fn to_members(&self) -> (members: Vec<Member>)
        ensures
            members_view(members@) == self.members(),
            all_scalar(self.members()),
            object_of(self.members()) == object_of_document(self@),
            is_valid(self@),
    {
        proof {
            use_type_invariant(self);
            lemma_record_spells_document(self@.id, self@.rev, self.fields@);
            reveal_strlit("id");
            reveal_strlit("rev");
            assert("id"@ =~= id_name());
            assert("rev"@ =~= rev_name());
        }
        let rev: JsonValue = match &self.rev {
            Some(rev) => JsonValue::Text(rev.clone()),
            None => JsonValue::Null,
        };
        let mut members: Vec<Member> = Vec::new();
        members.push(Member { name: "id".to_owned(), value: JsonValue::Text(self.id.clone()) });
        members.push(Member { name: "rev".to_owned(), value: rev });
        let mut i: usize = 0;
        while i < self.fields.len()
            invariant
                i <= self.fields@.len(),
                members@.len() == 2 + i,
                members@[0]@ == self.members()[0],
                members@[1]@ == self.members()[1],
                forall|j: int| 0 <= j < i ==> (#[trigger] members@[2 + j])@ == self.members()[2 + j],
            decreases self.fields@.len() - i,
        {
            members.push(
                Member {
                    name: self.fields[i].name.clone(),
                    value: JsonValue::Text(self.fields[i].value.clone()),
                },
            );
            i = i + 1;
        }
        proof {
            assert forall|j: int| 0 <= j < members@.len() implies members_view(members@)[j]
                == self.members()[j] by {
                if j >= 2 {
                    assert(members@[2 + (j - 2)]@ == self.members()[2 + (j - 2)]);
                }
            }
            assert(members_view(members@) =~= self.members());
        }
        members
    }

    /// The document that the members spell when they are read as one JSON
    /// object, in which the last member of a name counts: its identifier is
    /// the string under `id`, its revision marker the string under `rev`
    /// (none where `rev` holds null or is missing), its fields the other
    /// members. `None` where `id` is missing or holds no string, where `rev`
    /// holds anything but a string or null, or where another member holds
    /// anything but a string.
    pub fn from_members(members: Vec<Member>) -> (r: Option<Document>)
        ensures
            match document_of(object_of(members_view(members@))) {
                Some(spelled) => r matches Some(document) && document@ == spelled,
                None => r is None,
            },
    {
        let ghost all = members_view(members@);
        let ghost object = object_of(all);
        let mut rest: Vec<Member> = members;
        let mut id: Option<String> = None;
        let mut rev: Option<String> = None;
        let mut rev_seen: bool = false;
        let mut fields: Vec<Field> = Vec::new();
        while rest.len() > 0
            invariant
                rest@.len() <= all.len(),
                all == members_view(members@),
                members_view(rest@) == all.subrange(0, rest@.len() as int),
                object == object_of(all),
                id is Some <==> seen_from(all, rest@.len() as int, id_name()),
                id matches Some(text) ==> object[id_name()] == JsonValueView::Text(text@),
                rev_seen <==> seen_from(all, rest@.len() as int, rev_name()),
                rev_seen ==> object[rev_name()] == rev_value(
                    match rev {
                        Some(text) => Some(text@),
                        None => None,
                    },
                ),
                !rev_seen ==> rev is None,
                distinct_names(fields@),
                no_reserved_names(fields@),
                forall|name: Seq<char>|
                    has_field(fields@, name) <==> !is_reserved(name) && seen_from(
                        all,
                        rest@.len() as int,
                        name,
                    ),
                forall|i: int|
                    0 <= i < fields@.len() ==> object[#[trigger] fields@[i].name@]
                        == JsonValueView::Text(fields@[i].value@),
            decreases rest@.len(),
        {
            let ghost n: int = rest@.len() as int;
            let ghost before = rest@;
            let member: Member = rest.pop().unwrap();
            proof {
                assert(member@ == all[n - 1]) by {
                    assert(members_view(before)[n - 1] == before[n - 1]@);
                }
                assert(members_view(rest@) =~= all.subrange(0, n - 1));
                assert forall|name: Seq<char>|
                    seen_from(all, n - 1, name) <==> (name == member@.name || seen_from(
                        all,
                        n,
                        name,
                    )) by {
                    if seen_from(all, n - 1, name) {
                        let j: int = choose|j: int|
                            n - 1 <= j < all.len() && #[trigger] all[j].name == name;
                        if j >= n {
                            assert(seen_from(all, n, name));
                        }
                    }
                    if name == member@.name {
                        assert(all[n - 1].name == name);
                    }
                    if seen_from(all, n, name) {
                        let j: int = choose|j: int|
                            n <= j < all.len() && #[trigger] all[j].name == name;
                        assert(all[j].name == name);
                    }
                }
                if !seen_from(all, n, member@.name) {
                    assert(is_last_member(all, member@.name, n - 1));
                    lemma_last_member(all, member@.name, n - 1);
                }
            }
            let Member { name, value } = member;
            if is_id_name(&name) {
                if id.is_none() {
                    match value {
                        JsonValue::Text(text) => {
                            id = Some(text);
                        },
                        _ => {
                            return None;
                        },
                    }
                }
            } else if is_rev_name(&name) {
                if !rev_seen {
                    match value {
                        JsonValue::Text(text) => {
                            rev = Some(text);
                        },
                        JsonValue::Null => {},
                        JsonValue::Other => {
                            return None;
                        },
                    }
                    rev_seen = true;
                }
            } else {
                if find_field(&fields, &name).is_none() {
                    match value {
                        JsonValue::Text(text) => {
                            let ghost held = fields@;
                            assert(!has_field(fields@, name@) && !is_reserved(name@));
                            assert(!seen_from(all, n, name@));
                            fields.push(Field { name, value: text });
                            proof {
                                assert(fields@.drop_last() =~= held);
                                lemma_field_added(held, fields@);
                                assert forall|k: Seq<char>| has_field(fields@, k) <==> (k
                                    == name@ || has_field(held, k)) by {
                                    assert(fields_map(fields@).contains_key(k) <==> fields_map(
                                        held,
                                    ).insert(name@, text@).contains_key(k));
                                }
                                assert forall|i: int| 0 <= i < fields@.len() implies object[
                                    #[trigger] fields@[i].name@
                                ] == JsonValueView::Text(fields@[i].value@) by {
                                    if i < held.len() {
                                        assert(fields@[i] == held[i]);
                                    } else {
                                        assert(fields@[i] == fields@.last());
                                    }
                                }
                            }
                        },
                        _ => {
                            assert(!has_field(fields@, name@) && !is_reserved(name@));
                            assert(!seen_from(all, n, name@));
                            return None;
                        },
                    }
                }
            }
        }
        proof {
            assert forall|name: Seq<char>| has_member(all, name) <==> seen_from(all, 0, name) by {
                if has_member(all, name) {
                    let j: int = choose|j: int|
                        0 <= j < all.len() && #[trigger] all[j].name == name;
                    assert(all[j].name == name);
                }
            }
        }
        match id {
            None => None,
            Some(id) => {
                proof {
                    assert(is_document(object)) by {
                        assert forall|name: Seq<char>|
                            object.contains_key(name) && !is_reserved(
                                name,
                            ) implies #[trigger] object[name] is Text by {
                            let i: int = field_position(fields@, name);
                            assert(object[fields@[i].name@] == JsonValueView::Text(
                                fields@[i].value@,
                            ));
                        }
                    }
                }
                let document = Document { id, rev, fields };
                proof {
                    let spelled = document_of(object)->Some_0;
                    assert(document@.fields =~= spelled.fields) by {
                        assert forall|name: Seq<char>| has_field(fields@, name) implies fields_map(
                            fields@,
                        )[name] == text_of(object[name]) by {
                            let i: int = field_position(fields@, name);
                            assert(object[fields@[i].name@] == JsonValueView::Text(
                                fields@[i].value@,
                            ));
                        }
                    }
                }
                Some(document)
            },
        }
    }

    /// Whether the two documents are the same value: the same identifier, the
    /// same revision marker and the same fields.
    pub fn equals(&self, other: &Document) -> (same: bool)
        ensures
            same == (self@ == other@),
    {
        proof {
            use_type_invariant(self);
            use_type_invariant(other);
        }
        let same_rev: bool = match (&self.rev, &other.rev) {
            (Some(a), Some(b)) => *a == *b,
            (None, None) => true,
            _ => false,
        };
        let same: bool = self.id == other.id && same_rev && covers(&other.fields, &self.fields)
            && covers(&self.fields, &other.fields);
        proof {
            if same {
                assert(self@.fields =~= other@.fields);
            }
        }
        same
    }
}

impl Clone for Document {
    /// A copy of the document: the same value, carried by the same members.
    fn clone(&self) -> (copy: Self)
        ensures
            copy@ == self@,
            copy.members() == self.members(),
    {
        proof {
            use_type_invariant(self);
        }
        let mut fields: Vec<Field> = Vec::new();
        let mut i: usize = 0;
        while i < self.fields.len()
            invariant
                i <= self.fields@.len(),
                fields@ == self.fields@.subrange(0, i as int),
            decreases self.fields@.len() - i,
        {
            fields.push(
                Field { name: self.fields[i].name.clone(), value: self.fields[i].value.clone() },
            );
            i = i + 1;
            assert(fields@ =~= self.fields@.subrange(0, i as int));
        }
        assert(fields@ =~= self.fields@);
        let rev: Option<String> = match &self.rev {
            Some(rev) => Some(rev.clone()),
            None => None,
        };
        Document { id: self.id.clone(), rev, fields }
    }
}

/// Whether every field of `part` stands in `whole` with the same value.
pub open spec fn covered(whole: Seq<Field>, part: Seq<Field>) -> bool {
    forall|i: int|
        0 <= i < part.len() ==> has_field(whole, #[trigger] part[i].name@) && fields_map(
            whole,
        )[part[i].name@] == part[i].value@
}

fn covers(whole: &Vec<Field>, part: &Vec<Field>) -> (all: bool)
    requires
        distinct_names(whole@),
        distinct_names(part@),
    ensures
        all == covered(whole@, part@),
        fields_map(whole@) == fields_map(part@) ==> all,
{
    let mut i: usize = 0;
    while i < part.len()
        invariant
            i <= part@.len(),
            distinct_names(whole@),
            distinct_names(part@),
            forall|j: int|
                0 <= j < i ==> has_field(whole@, #[trigger] part@[j].name@) && fields_map(
                    whole@,
                )[part@[j].name@] == part@[j].value@,
        decreases part@.len() - i,
    {
        let ghost name = part@[i as int].name@;
        proof {
            assert(has_field(part@, name));
            assert(field_position(part@, name) == i);
        }
        match find_field(whole, &part[i].name) {
            Some(at) => {
                assert(has_field(whole@, name));
                assert(field_position(whole@, name) == at);
                if !(whole[at].value == part[i].value) {
                    assert(fields_map(whole@)[name] != fields_map(part@)[name]);
                    return false;
                }
            },
            None => {
                assert(fields_map(part@).contains_key(name));
                assert(!fields_map(whole@).contains_key(name));
                return false;
            },
        }
        i = i + 1;
    }
    true
}

/// Replacing the field at `at` by one of the same name keeps the names
/// distinct and changes the mapping at that name alone.
proof fn lemma_field_replaced(before: Seq<Field>, after: Seq<Field>, at: int)
    requires
        distinct_names(before),
        0 <= at < before.len(),
        after == before.update(at, after[at]),
        after[at].name@ == before[at].name@,
    ensures
        distinct_names(after),
        forall|i: int| 0 <= i < after.len() ==> #[trigger] after[i].name@ == before[i].name@,
        fields_map(after) == fields_map(before).insert(after[at].name@, after[at].value@),
{
    let name = after[at].name@;
    assert forall|i: int| 0 <= i < after.len() implies #[trigger] after[i].name@
        == before[i].name@ by {}
    assert forall|k: Seq<char>| has_field(after, k) <==> has_field(before, k) by {
        if has_field(after, k) {
            let j: int = field_position(after, k);
            assert(before[j].name@ == k);
        }
        if has_field(before, k) {
            let j: int = field_position(before, k);
            assert(after[j].name@ == k);
        }
    }
    assert(has_field(before, name));
    assert forall|k: Seq<char>| has_field(after, k) implies fields_map(after)[k] == fields_map(
        before,
    ).insert(name, after[at].value@)[k] by {
        let j: int = field_position(after, k);
        let j0: int = field_position(before, k);
        assert(after[j0].name@ == k);
        assert(j == j0);
    }
    assert(fields_map(after) =~= fields_map(before).insert(name, after[at].value@));
}

/// Adding a field whose name has none keeps the names distinct and extends
/// the mapping by that field.
proof fn lemma_field_added(before: Seq<Field>, after: Seq<Field>)
    requires
        distinct_names(before),
        after.len() == before.len() + 1,
        after.drop_last() == before,
        !has_field(before, after.last().name@),
    ensures
        distinct_names(after),
        fields_map(after) == fields_map(before).insert(after.last().name@, after.last().value@),
{
    let name = after.last().name@;
    let last: int = after.len() - 1;
    assert forall|i: int| 0 <= i < before.len() implies #[trigger] after[i] == before[i] by {
        assert(after.drop_last()[i] == after[i]);
    }
    assert forall|i: int| 0 <= i < before.len() implies #[trigger] before[i].name@ != name by {}
    assert forall|k: Seq<char>| has_field(after, k) <==> (k == name || has_field(before, k)) by {
        if has_field(after, k) {
            let j: int = field_position(after, k);
            if j < last {
                assert(before[j].name@ == k);
            }
        }
        if has_field(before, k) {
            let j: int = field_position(before, k);
            assert(after[j].name@ == k);
        }
        if k == name {
            assert(after[last].name@ == name);
        }
    }
    assert forall|k: Seq<char>| has_field(after, k) implies fields_map(after)[k] == fields_map(
        before,
    ).insert(name, after.last().value@)[k] by {
        let j: int = field_position(after, k);
        if k != name {
            let j0: int = field_position(before, k);
            assert(after[j0].name@ == k);
            assert(j == j0);
        } else {
            assert(j == last);
        }
    }
    assert(fields_map(after) =~= fields_map(before).insert(name, after.last().value@));
}

} // verus!
