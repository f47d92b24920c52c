//! JSON values, as requests and replies carry them.

use crate::ordered::models;
use crate::text::same_text;
use vstd::prelude::*;

verus! {

/// A JSON value.
#[derive(Debug, PartialEq, Eq)]
pub enum Json {
    /// The null value.
    Null,
    /// A truth value.
    Bool(bool),
    /// A whole number that is not negative.
    Number(u64),
    /// A number of any other form, as it is written.
    OtherNumber(String),
    /// The quotient of two whole numbers, the second of which is not zero.
    Ratio(u64, u64),
    /// A text.
    Text(String),
    /// A list.
    List(Vec<Json>),
    /// Named fields.
    Object(Vec<(String, Json)>),
}

/// What a JSON value stands for.
#[verifier::ext_equal]
pub enum JsonModel {
    Null,
    Bool(bool),
    Number(u64),
    OtherNumber(Seq<char>),
    Ratio(u64, u64),
    Text(Seq<char>),
    List(Seq<JsonModel>),
    Object(Seq<(Seq<char>, JsonModel)>),
}

/// The model of a value.
pub open spec fn json_model(j: Json) -> JsonModel
    decreases j,
{
    match j {
        Json::Null => JsonModel::Null,
        Json::Bool(b) => JsonModel::Bool(b),
        Json::Number(n) => JsonModel::Number(n),
        Json::OtherNumber(s) => JsonModel::OtherNumber(s@),
        Json::Ratio(n, d) => JsonModel::Ratio(n, d),
        Json::Text(s) => JsonModel::Text(s@),
        Json::List(items) => JsonModel::List(list_model(items@)),
        Json::Object(fields) => JsonModel::Object(fields_model(fields@)),
    }
}

/// The model of the items of a list.
pub open spec fn list_model(items: Seq<Json>) -> Seq<JsonModel>
    decreases items,
{
    Seq::new(
        items.len(),
        |i: int|
            if 0 <= i < items.len() {
                json_model(items[i])
            } else {
                JsonModel::Null
            },
    )
}

/// The model of named fields.
pub open spec fn fields_model(fields: Seq<(String, Json)>) -> Seq<(Seq<char>, JsonModel)>
    decreases fields,
{
    Seq::new(
        fields.len(),
        |i: int|
            if 0 <= i < fields.len() {
                (fields[i].0@, json_model(fields[i].1))
            } else {
                (Seq::empty(), JsonModel::Null)
            },
    )
}

impl View for Json {
    type V = JsonModel;

    open spec fn view(&self) -> JsonModel {
        json_model(*self)
    }
}

/// The value of the first field of a name.
pub open spec fn named_field(
    fields: Seq<(Seq<char>, JsonModel)>,
    name: Seq<char>,
) -> Option<JsonModel>
    decreases fields.len(),
{
    if fields.len() == 0 {
        None
    } else if fields[0].0 == name {
        Some(fields[0].1)
    } else {
        named_field(fields.drop_first(), name)
    }
}

/// A field is found by its name where none before it has that name.
pub proof fn named_field_at(fields: Seq<(Seq<char>, JsonModel)>, i: int)
    requires
        0 <= i < fields.len(),
        forall|j: int| 0 <= j < i ==> (#[trigger] fields[j]).0 != fields[i].0,
    ensures
        named_field(fields, fields[i].0) == Some(fields[i].1),
    decreases fields.len(),
{
    if i > 0 {
        assert(fields[0].0 != fields[i].0);
        let rest = fields.drop_first();
        assert forall|j: int| 0 <= j < i - 1 implies (#[trigger] rest[j]).0 != rest[i - 1].0 by {
            assert(rest[j] == fields[j + 1]);
        }
        named_field_at(rest, i - 1);
    }
}

impl JsonModel {
    /// The field of a name, where the value is an object that has it.
    pub open spec fn field(self, name: Seq<char>) -> Option<JsonModel> {
        match self {
            JsonModel::Object(fields) => named_field(fields, name),
            _ => None,
        }
    }

    /// The text, where the value is one.
    pub open spec fn text(self) -> Option<Seq<char>> {
        match self {
            JsonModel::Text(s) => Some(s),
            _ => None,
        }
    }

    /// The number, where the value is a whole one that is not negative.
    pub open spec fn number(self) -> Option<u64> {
        match self {
            JsonModel::Number(n) => Some(n),
            _ => None,
        }
    }

    /// The items, where the value is a list.
    pub open spec fn items(self) -> Option<Seq<JsonModel>> {
        match self {
            JsonModel::List(items) => Some(items),
            _ => None,
        }
    }

    /// The text in the field of a name, where there is one.
    pub open spec fn text_field(self, name: Seq<char>) -> Option<Seq<char>> {
        match self.field(name) {
            Some(value) => value.text(),
            None => None,
        }
    }

    /// The number in the field of a name, where there is one.
    pub open spec fn number_field(self, name: Seq<char>) -> Option<u64> {
        match self.field(name) {
            Some(value) => value.number(),
            None => None,
        }
    }

    /// The list in the field of a name, where there is one.
    pub open spec fn list_field(self, name: Seq<char>) -> Option<Seq<JsonModel>> {
        match self.field(name) {
            Some(value) => value.items(),
            None => None,
        }
    }
}

/// The items of a list stand for the items of its model.
pub proof fn list_items(items: Seq<Json>)
    ensures
        list_model(items) == models(items),
        list_model(items).len() == items.len(),
        forall|i: int| 0 <= i < items.len() ==> #[trigger] list_model(items)[i] == items[i]@,
{
    assert(list_model(items) =~= models(items));
}

impl Json {
    /// A text.
    pub fn of_text(text: &str) -> (r: Json)
        ensures
            r@ == JsonModel::Text(text@),
    {
        Json::Text(text.to_owned())
    }

    /// A list.
    pub fn of_list(items: Vec<Json>) -> (r: Json)
        ensures
            r@ == JsonModel::List(models(items@)),
    {
        proof {
            list_items(items@);
        }
        Json::List(items)
    }

    /// A number, or null where there is none.
    pub fn of_number(number: Option<u64>) -> (r: Json)
        ensures
            r@ == number_or_null(number),
    {
        match number {
            Some(n) => Json::Number(n),
            None => Json::Null,
        }
    }

    /// A text, or null where there is none.
    pub fn of_optional_text(text: &Option<String>) -> (r: Json)
        ensures
            r@ == text_or_null(opt_text(*text)),
    {
        match text {
            Some(s) => Json::Text(s.clone()),
            None => Json::Null,
        }
    }

    /// The field of a name.
    pub fn get(&self, name: &str) -> (r: Option<&Json>)
        ensures
            opt_model(r) == self@.field(name@),
    {
        match self {
            Json::Object(fields) => {
                let mut i: usize = 0;
                let ghost all = fields_model(fields@);
                assert(all.skip(0) =~= all);
                while i < fields.len()
                    invariant
                        i <= fields.len(),
                        *self == Json::Object(*fields),
                        all == fields_model(fields@),
                        named_field(all, name@) == named_field(all.skip(i as int), name@),
                    decreases fields.len() - i,
                {
                    let entry = &fields[i];
                    assert(all.skip(i as int)[0] == (entry.0@, entry.1@));
                    if same_text(entry.0.as_str(), name) {
                        return Some(&entry.1);
                    }
                    assert(all.skip(i as int).drop_first() =~= all.skip(i + 1));
                    i = i + 1;
                }
                None
            },
            _ => None,
        }
    }

    /// The text of a value.
    pub fn as_str(&self) -> (r: Option<&String>)
        ensures
            opt_model(r) == self@.text(),
    {
        match self {
            Json::Text(s) => Some(s),
            _ => None,
        }
    }

    /// The number of a value.
    pub fn as_u64(&self) -> (r: Option<u64>)
        ensures
            r == self@.number(),
    {
        match self {
            Json::Number(n) => Some(*n),
            _ => None,
        }
    }

    /// The items of a value.
    pub fn as_list(&self) -> (r: Option<&Vec<Json>>)
        ensures
            match r {
                Some(items) => self@.items() == Some(models(items@)),
                None => self@.items() is None,
            },
    {
        match self {
            Json::List(items) => {
                proof {
                    list_items(items@);
                }
                Some(items)
            },
            _ => None,
        }
    }

    /// The text in the field of a name.
    pub fn get_str(&self, name: &str) -> (r: Option<&String>)
        ensures
            opt_model(r) == self@.text_field(name@),
    {
        match self.get(name) {
            Some(value) => value.as_str(),
            None => None,
        }
    }

    /// The number in the field of a name.
    pub fn get_u64(&self, name: &str) -> (r: Option<u64>)
        ensures
            r == self@.number_field(name@),
    {
        match self.get(name) {
            Some(value) => value.as_u64(),
            None => None,
        }
    }

    /// The list in the field of a name.
    pub fn get_list(&self, name: &str) -> (r: Option<&Vec<Json>>)
        ensures
            match r {
                Some(items) => self@.list_field(name@) == Some(models(items@)),
                None => self@.list_field(name@) is None,
            },
    {
        match self.get(name) {
            Some(value) => value.as_list(),
            None => None,
        }
    }

    /// A second value that stands for the same.
    pub fn duplicate(&self) -> (r: Json)
        ensures
            r@ == self@,
        decreases self,
    {
        match self {
            Json::Null => Json::Null,
            Json::Bool(b) => Json::Bool(*b),
            Json::Number(n) => Json::Number(*n),
            Json::OtherNumber(s) => Json::OtherNumber(s.clone()),
            Json::Ratio(n, d) => Json::Ratio(*n, *d),
            Json::Text(s) => Json::Text(s.clone()),
            Json::List(items) => {
                let mut copies: Vec<Json> = Vec::new();
                let mut i: usize = 0;
                while i < items.len()
                    invariant
                        i <= items.len(),
                        *self == Json::List(*items),
                        copies.len() == i,
                        forall|j: int| 0 <= j < i ==> #[trigger] copies[j]@ == items[j]@,
                    decreases items.len() - i,
                {
                    assert(decreases_to!(*self => self->List_0));
                    assert(decreases_to!(self->List_0 => items@));
                    assert(decreases_to!(items@ => items@[i as int]));
                    copies.push(items[i].duplicate());
                    i = i + 1;
                }
                proof {
                    list_items(copies@);
                    list_items(items@);
                }
                assert(list_model(copies@) =~= list_model(items@));
                Json::List(copies)
            },
            Json::Object(fields) => {
                let mut copies: Vec<(String, Json)> = Vec::new();
                let mut i: usize = 0;
                while i < fields.len()
                    invariant
                        i <= fields.len(),
                        *self == Json::Object(*fields),
                        copies.len() == i,
                        forall|j: int|
                            0 <= j < i ==> (#[trigger] copies[j]).0@ == fields[j].0@
                                && copies[j].1@ == fields[j].1@,
                    decreases fields.len() - i,
                {
                    let entry = &fields[i];
                    assert(decreases_to!(*self => self->Object_0));
                    assert(decreases_to!(self->Object_0 => fields@));
                    assert(decreases_to!(fields@ => fields@[i as int]));
                    assert(decreases_to!(fields@[i as int] => fields@[i as int].1));
                    copies.push((entry.0.clone(), entry.1.duplicate()));
                    i = i + 1;
                }
                assert(fields_model(copies@) =~= fields_model(fields@));
                Json::Object(copies)
            },
        }
    }
}

/// What an optional value stands for.
pub open spec fn opt_model<T: View>(value: Option<T>) -> Option<T::V> {
    match value {
        Some(v) => Some(v@),
        None => None,
    }
}

/// What an optional text stands for.
pub open spec fn opt_text(value: Option<String>) -> Option<Seq<char>> {
    match value {
        Some(s) => Some(s@),
        None => None,
    }
}

/// A number, or null.
pub open spec fn number_or_null(number: Option<u64>) -> JsonModel {
    match number {
        Some(n) => JsonModel::Number(n),
        None => JsonModel::Null,
    }
}

/// A text, or null.
pub open spec fn text_or_null(text: Option<Seq<char>>) -> JsonModel {
    match text {
        Some(s) => JsonModel::Text(s),
        None => JsonModel::Null,
    }
}

/// The fields of an object that has none.
pub open spec fn no_fields() -> Seq<(Seq<char>, JsonModel)> {
    Seq::empty()
}

/// An object under construction.
pub struct Fields {
    fields: Vec<(String, Json)>,
}

impl View for Fields {
    type V = Seq<(Seq<char>, JsonModel)>;

    closed spec fn view(&self) -> Seq<(Seq<char>, JsonModel)> {
        fields_model(self.fields@)
    }
}

impl Fields {
    /// No fields yet.
    pub fn new() -> (r: Fields)
        ensures
            r@ == no_fields(),
    {
        let r = Fields { fields: Vec::new() };
        assert(r@ =~= no_fields());
        r
    }

    /// Adds a field after the others.
    pub fn put(&mut self, name: &str, value: Json)
        ensures
            final(self)@ == old(self)@.push((name@, value@)),
    {
        let ghost before = self.fields@;
        self.fields.push((name.to_owned(), value));
        assert(fields_model(self.fields@) =~= fields_model(before).push((name@, value@)));
    }

    /// Adds a text field after the others.
    pub fn put_text(&mut self, name: &str, value: &str)
        ensures
            final(self)@ == old(self)@.push((name@, JsonModel::Text(value@))),
    {
        self.put(name, Json::of_text(value));
    }

    /// Adds a number field after the others.
    pub fn put_number(&mut self, name: &str, value: u64)
        ensures
            final(self)@ == old(self)@.push((name@, JsonModel::Number(value))),
    {
        self.put(name, Json::Number(value));
    }

    /// The object.
    pub fn done(self) -> (r: Json)
        ensures
            r@ == JsonModel::Object(self@),
    {
        Json::Object(self.fields)
    }
}

/// No field is found by a name that none has.
pub proof fn no_field_of_a_name(fields: Seq<(Seq<char>, JsonModel)>, name: Seq<char>)
    requires
        forall|i: int| 0 <= i < fields.len() ==> (#[trigger] fields[i]).0 != name,
    ensures
        named_field(fields, name) is None,
    decreases fields.len(),
{
    if fields.len() > 0 {
        let rest = fields.drop_first();
        assert(fields[0].0 != name);
        assert forall|i: int| 0 <= i < rest.len() implies (#[trigger] rest[i]).0 != name by {
            assert(rest[i] == fields[i + 1]);
        }
        no_field_of_a_name(rest, name);
    }
}

/// A number and a text are shown as such, and as null where there is none.
pub proof fn missing_values_are_null(number: Option<u64>, text: Option<Seq<char>>)
    ensures
        number matches Some(n) ==> number_or_null(number) == JsonModel::Number(n),
        number is None ==> number_or_null(number) == JsonModel::Null,
        text matches Some(s) ==> text_or_null(text) == JsonModel::Text(s),
        text is None ==> text_or_null(text) == JsonModel::Null,
{
}

/// A value is read as what it is, and a field of an object by its name.
pub proof fn values_are_read_as_they_are(
    n: u64,
    s: Seq<char>,
    items: Seq<JsonModel>,
    value: JsonModel,
    name: Seq<char>,
)
    ensures
        JsonModel::Number(n).number() == Some(n),
        JsonModel::Text(s).text() == Some(s),
        JsonModel::List(items).items() == Some(items),
        JsonModel::Text(s).number() is None,
        JsonModel::Number(n).text() is None,
        JsonModel::Null.number() is None,
        JsonModel::Null.text() is None,
        JsonModel::Null.items() is None,
        value.field(name) is None ==> value.text_field(name) is None && value.number_field(
            name,
        ) is None && value.list_field(name) is None,
        value.field(name) matches Some(found) ==> value.text_field(name) == found.text()
            && value.number_field(name) == found.number() && value.list_field(name)
            == found.items(),
        JsonModel::Object(seq![(name, value)]).field(name) == Some(value),
        !(value is Object) ==> value.field(name) is None,
{
    let fields = seq![(name, value)];
    assert(fields[0].0 == name);
    named_field_at(fields, 0);
}

} // verus!
