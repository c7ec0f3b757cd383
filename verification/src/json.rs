//! JSON texts, as far as the library reads and writes them.

use crate::text::same_text;
use vstd::prelude::*;

verus! {

/// What a member of a JSON object is read as: its text where it is a string, its flag where it
/// is a boolean, and its items where it is an array; an item that is no string is `None`.
#[derive(Debug)]
pub struct Field {
    pub text: Option<String>,
    pub flag: Option<bool>,
    pub items: Option<Vec<Option<String>>>,
}

/// The model of a member.
#[verifier::ext_equal]
pub struct FieldView {
    pub text: Option<Seq<char>>,
    pub flag: Option<bool>,
    pub items: Option<Seq<Option<Seq<char>>>>,
}

pub open spec fn text_view(t: Option<String>) -> Option<Seq<char>> {
    match t {
        Some(s) => Some(s@),
        None => None,
    }
}

pub open spec fn item_views(items: Seq<Option<String>>) -> Seq<Option<Seq<char>>> {
    items.map_values(|t: Option<String>| text_view(t))
}

impl View for Field {
    type V = FieldView;

    open spec fn view(&self) -> FieldView {
        FieldView {
            text: text_view(self.text),
            flag: self.flag,
            items: match self.items {
                Some(items) => Some(item_views(items@)),
                None => None,
            },
        }
    }
}

/// A JSON value, seen as its members; `None` where it is no object.
#[derive(Debug)]
pub struct Document {
    pub fields: Option<Vec<(String, Field)>>,
}

pub open spec fn field_views(fields: Seq<(String, Field)>) -> Seq<(Seq<char>, FieldView)> {
    fields.map_values(|f: (String, Field)| (f.0@, f.1@))
}

impl View for Document {
    type V = Option<Seq<(Seq<char>, FieldView)>>;

    open spec fn view(&self) -> Option<Seq<(Seq<char>, FieldView)>> {
        match self.fields {
            Some(fields) => Some(field_views(fields@)),
            None => None,
        }
    }
}

/// The first member with the given key.
pub open spec fn member(fields: Seq<(Seq<char>, FieldView)>, key: Seq<char>) -> Option<FieldView>
    decreases fields.len(),
{
    if fields.len() == 0 {
        None
    } else if fields[0].0 == key {
        Some(fields[0].1)
    } else {
        member(fields.drop_first(), key)
    }
}

/// The member of a document with the given key; a document that is no object has none.
pub open spec fn lookup(
    document: Option<Seq<(Seq<char>, FieldView)>>,
    key: Seq<char>,
) -> Option<FieldView> {
    match document {
        Some(fields) => member(fields, key),
        None => None,
    }
}

/// No key occurs twice.
pub open spec fn distinct_keys<T>(fields: Seq<(Seq<char>, T)>) -> bool {
    forall|i: int, j: int| 0 <= i < j < fields.len() ==> #[trigger] fields[i].0 != #[trigger] fields[j].0
}

impl Document {
    /// The member with the given key.
    pub fn get(&self, key: &str) -> (r: Option<&Field>)
        ensures
            r is Some <==> lookup(self@, key@) is Some,
            r matches Some(field) ==> lookup(self@, key@) == Some(field@),
    {
        match &self.fields {
            None => None,
            Some(fields) => {
                let ghost all = field_views(fields@);
                let mut i: usize = 0;
                assert(all.skip(0) == all);
                while i < fields.len()
                    invariant
                        i <= fields.len(),
                        all == field_views(fields@),
                        self@ == Some(all),
                        lookup(self@, key@) == member(all.skip(i as int), key@),
                    decreases fields.len() - i,
                {
                    assert(all.skip(i as int)[0] == (fields@[i as int].0@, fields@[i as int].1@));
                    if same_text(fields[i].0.as_str(), key) {
                        return Some(&fields[i].1);
                    }
                    assert(all.skip(i as int).drop_first() == all.skip(i + 1));
                    i = i + 1;
                }
                None
            },
        }
    }
}

/// How `serde_json` reads a text: the members of the value it holds, or the message that says
/// why it holds none.
pub uninterp spec fn json_document(text: Seq<char>) -> Result<
    Option<Seq<(Seq<char>, FieldView)>>,
    Seq<char>,
>;

pub open spec fn parsed_view(r: Result<Document, String>) -> Result<
    Option<Seq<(Seq<char>, FieldView)>>,
    Seq<char>,
> {
    match r {
        Ok(document) => Ok(document@),
        Err(e) => Err(e@),
    }
}

/// `serde_json::from_str` to a `Value`, seen through `Value::as_object`, `as_str`, `as_bool` and
/// `as_array`. The result depends on the text alone; which texts parse, and to what, is left to
/// the crate. Its objects hold each key once.
#[verifier::external_body]
pub(crate) fn parse_document(text: &str) -> (r: Result<Document, String>)
    ensures
        parsed_view(r) == json_document(text@),
        r matches Ok(document) ==> (document@ matches Some(fields) ==> distinct_keys(fields)),
{
    let value = match serde_json::from_str::<serde_json::Value>(text) {
        Ok(value) => value,
        Err(e) => return Err(e.to_string()),
    };
    let fields = value.as_object().map(|members| members.iter().map(|(key, v)| (key.clone(), Field {
        text: v.as_str().map(|s| s.to_string()),
        flag: v.as_bool(),
        items: v.as_array().map(|a| a.iter().map(|x| x.as_str().map(|s| s.to_string())).collect()),
    })).collect());
    Ok(Document { fields })
}

/// A plain value of a member that is written.
#[derive(Debug)]
pub enum Scalar {
    Flag(bool),
    Text(String),
}

/// The model of a written value.
pub enum ScalarView {
    Flag(bool),
    Text(Seq<char>),
}

impl View for Scalar {
    type V = ScalarView;

    open spec fn view(&self) -> ScalarView {
        match self {
            Scalar::Flag(b) => ScalarView::Flag(*b),
            Scalar::Text(t) => ScalarView::Text(t@),
        }
    }
}

pub open spec fn scalar_views(fields: Seq<(String, Scalar)>) -> Seq<(Seq<char>, ScalarView)> {
    fields.map_values(|f: (String, Scalar)| (f.0@, f.1@))
}

/// What a written value is read as.
pub open spec fn read_as(s: ScalarView) -> FieldView {
    match s {
        ScalarView::Flag(b) => FieldView { text: None, flag: Some(b), items: None },
        ScalarView::Text(t) => FieldView { text: Some(t), flag: None, items: None },
    }
}

/// The members as they are read.
pub open spec fn members_read(fields: Seq<(Seq<char>, ScalarView)>) -> Seq<(Seq<char>, FieldView)> {
    fields.map_values(|f: (Seq<char>, ScalarView)| (f.0, read_as(f.1)))
}

/// The text that `serde_json` writes for an object with the given members.
pub uninterp spec fn json_object_text(fields: Seq<(Seq<char>, ScalarView)>) -> Seq<char>;

/// `serde_json::Value::to_string` of an object with the given members. The text depends on the
/// members alone; its layout is left to the crate. Where no key occurs twice, the text is one
/// that `serde_json` reads back as an object with those members.
#[verifier::external_body]
pub(crate) fn render_object(fields: Vec<(String, Scalar)>) -> (r: String)
    ensures
        r@ == json_object_text(scalar_views(fields@)),
        distinct_keys(scalar_views(fields@)) ==> {
            &&& json_document(r@) is Ok
            &&& forall|key: Seq<char>| #[trigger]
                lookup(json_document(r@)->Ok_0, key) == member(
                    members_read(scalar_views(fields@)),
                    key,
                )
        },
{
    let members: serde_json::Map<String, serde_json::Value> = fields.into_iter().map(|f| (f.0, match f.1 {
        Scalar::Flag(b) => serde_json::Value::Bool(b),
        Scalar::Text(t) => serde_json::Value::String(t),
    })).collect();
    serde_json::Value::Object(members).to_string()
}

// ---------- What is read where ----------

/// A text is seen as its characters, and none as none.
pub proof fn text_is_its_characters(t: String)
    ensures
        text_view(Some(t)) == Some(t@),
        text_view(None) == None::<Seq<char>>,
{
}

/// A member is seen as it is: its text, its flag, and its items, each at its place.
pub proof fn member_is_seen_as_it_is(f: Field)
    ensures
        f@.text == text_view(f.text),
        f@.flag == f.flag,
        f@.items is Some <==> f.items is Some,
        f.items matches Some(items) ==> {
            &&& f@.items->Some_0.len() == items@.len()
            &&& forall|i: int|
                0 <= i < items@.len() ==> #[trigger] f@.items->Some_0[i] == text_view(items@[i])
        },
{
}

/// A document is seen as its members, each at its place; one that is no object has none.
pub proof fn document_is_its_members(d: Document)
    ensures
        d@ is Some <==> d.fields is Some,
        d.fields matches Some(fields) ==> {
            &&& d@->Some_0.len() == fields@.len()
            &&& forall|i: int|
                0 <= i < fields@.len() ==> (#[trigger] d@->Some_0[i]).0 == fields@[i].0@
                    && d@->Some_0[i].1 == fields@[i].1@
        },
{
}

/// Looking a key up finds the first member of that key and nothing else: the member at `i` where
/// `i` is the first place with the key, and none where no place has it, or there is no object.
pub proof fn lookup_finds_the_first(fields: Seq<(Seq<char>, FieldView)>, key: Seq<char>, i: int)
    ensures
        0 <= i < fields.len() && fields[i].0 == key && (forall|j: int|
            0 <= j < i ==> (#[trigger] fields[j]).0 != key) ==> lookup(Some(fields), key) == Some(
            fields[i].1,
        ),
        (forall|j: int| 0 <= j < fields.len() ==> (#[trigger] fields[j]).0 != key) ==> lookup(
            Some(fields),
            key,
        ) is None,
        lookup(None, key) is None,
    decreases fields.len(),
{
    if fields.len() > 0 && fields[0].0 != key {
        let rest = fields.drop_first();
        lookup_finds_the_first(rest, key, i - 1);
        assert forall|j: int| 0 <= j < rest.len() implies #[trigger] rest[j] == fields[j + 1] by {}
        if 0 <= i < fields.len() && fields[i].0 == key && (forall|j: int|
            0 <= j < i ==> (#[trigger] fields[j]).0 != key) {
            assert(rest[i - 1] == fields[i]);
        }
    }
}

/// What was parsed is seen by its document or its error.
pub proof fn outcome_is_seen_as_it_is(d: Document, e: String)
    ensures
        parsed_view(Ok(d)) == Ok::<Option<Seq<(Seq<char>, FieldView)>>, Seq<char>>(d@),
        parsed_view(Err(e)) == Err::<Option<Seq<(Seq<char>, FieldView)>>, Seq<char>>(e@),
{
}

/// A value that is written is read as what it is: a flag as that flag, a text as that text; and the
/// members as they stand.
pub proof fn written_values_are_read_as_they_are(
    b: bool,
    t: String,
    fields: Seq<(String, Scalar)>,
    members: Seq<(Seq<char>, ScalarView)>,
    i: int,
)
    ensures
        Scalar::Flag(b)@ == ScalarView::Flag(b),
        Scalar::Text(t)@ == ScalarView::Text(t@),
        read_as(ScalarView::Flag(b)) == (FieldView { text: None, flag: Some(b), items: None }),
        read_as(ScalarView::Text(t@)) == (FieldView { text: Some(t@), flag: None, items: None }),
        scalar_views(fields).len() == fields.len(),
        0 <= i < fields.len() ==> scalar_views(fields)[i].0 == fields[i].0@ && scalar_views(
            fields,
        )[i].1 == fields[i].1@,
        members_read(members).len() == members.len(),
        0 <= i < members.len() ==> members_read(members)[i].0 == members[i].0 && members_read(
            members,
        )[i].1 == read_as(members[i].1),
{
}

/// Keys are distinct where no two places have the same one.
pub proof fn distinct_keys_never_repeat(fields: Seq<(Seq<char>, FieldView)>, i: int, j: int)
    requires
        distinct_keys(fields),
        0 <= i < fields.len(),
        0 <= j < fields.len(),
        i != j,
    ensures
        fields[i].0 != fields[j].0,
{
    if j < i {
        assert(fields[j].0 != fields[i].0);
    }
}

} // verus!
