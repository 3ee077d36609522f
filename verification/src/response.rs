use vstd::prelude::*;
use vstd::string::*;

verus! {

/// A key and a value that annotate a response.
#[derive(Clone, Debug, PartialEq, Eq)]
pub struct Attribute {
    pub key: String,
    pub value: String,
}

/// What an operation hands back on success: its attributes, in order.
#[derive(Clone, Debug, PartialEq, Eq)]
pub struct Response {
    pub attributes: Vec<Attribute>,
}

impl View for Response {
    type V = Seq<(Seq<char>, Seq<char>)>;

    /// The attributes as pairs of texts.
    open spec fn view(&self) -> Seq<(Seq<char>, Seq<char>)> {
        Seq::new(
            self.attributes@.len(),
            |i: int| (self.attributes@[i].key@, self.attributes@[i].value@),
        )
    }
}

impl Response {
    /// A response without attributes.
    pub fn new() -> (response: Response)
        ensures
            response@ == Seq::<(Seq<char>, Seq<char>)>::empty(),
    {
        let response = Response { attributes: Vec::new() };
        assert(response@ =~= Seq::<(Seq<char>, Seq<char>)>::empty());
        response
    }

    /// The response with one more attribute behind those it has.
    pub fn add_attribute(self, key: &str, value: &str) -> (response: Response)
        ensures
            response@ == self@.push((key@, value@)),
    {
        let mut attributes = self.attributes;
        attributes.push(Attribute { key: String::from_str(key), value: String::from_str(value) });
        let response = Response { attributes };
        assert(response@ =~= self@.push((key@, value@)));
        response
    }
}

} // verus!
