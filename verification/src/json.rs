//! JSON objects with plain fields and values of another kind inside.
use vstd::prelude::*;

verus! {

/// The value of a field.
pub enum JsonLeaf<T> {
    Text(String),
    Number(u64),
    Flag(bool),
    Null,
    Inner(T),
}

/// The value of a field, over models.
pub enum LeafModel<T> {
    Text(Seq<char>),
    Number(u64),
    Flag(bool),
    Null,
    Inner(T),
}

impl<T> View for JsonLeaf<T> {
    type V = LeafModel<T>;

    open spec fn view(&self) -> LeafModel<T> {
        match self {
            JsonLeaf::Text(s) => LeafModel::Text(s@),
            JsonLeaf::Number(n) => LeafModel::Number(*n),
            JsonLeaf::Flag(b) => LeafModel::Flag(*b),
            JsonLeaf::Null => LeafModel::Null,
            JsonLeaf::Inner(t) => LeafModel::Inner(*t),
        }
    }
}

/// An object: fields with their values.
pub struct JsonObject<T> {
    pub fields: Vec<(String, JsonLeaf<T>)>,
}

impl<T> View for JsonObject<T> {
    type V = Seq<(Seq<char>, LeafModel<T>)>;

    open spec fn view(&self) -> Seq<(Seq<char>, LeafModel<T>)> {
        Seq::new(self.fields@.len(), |i: int| (self.fields@[i].0@, self.fields@[i].1@))
    }
}

impl<T> JsonObject<T> {
    /// An object without fields.
    pub fn new() -> (r: JsonObject<T>)
        ensures
            r@ == Seq::<(Seq<char>, LeafModel<T>)>::empty(),
    {
        let r = JsonObject { fields: Vec::new() };
        assert(r@ =~= Seq::<(Seq<char>, LeafModel<T>)>::empty());
        r
    }

    /// The object with one more field.
    pub fn with(self, name: &str, value: JsonLeaf<T>) -> (r: JsonObject<T>)
        ensures
            r@ == self@.push((name@, value@)),
    {
        let ghost before = self@;
        let mut fields = self.fields;
        fields.push((name.to_owned(), value));
        let r = JsonObject { fields };
        assert(r@ =~= before.push((name@, value@)));
        r
    }
}

/// A text value.
pub fn text<T>(s: &str) -> (r: JsonLeaf<T>)
    ensures
        r@ == LeafModel::<T>::Text(s@),
{
    JsonLeaf::Text(s.to_owned())
}

} // verus!
