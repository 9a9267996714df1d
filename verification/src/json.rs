//! Structured values.
use crate::text::same_text;
use vstd::prelude::*;

verus! {

/// A structured value. The members of an object stand in the order in which
/// they are gone through.
#[derive(Debug, PartialEq, Eq)]
pub enum Json {
    Null,
    Bool(bool),
    /// A number as it is written
    Number(String),
    Text(String),
    List(Vec<Json>),
    Object(Vec<(String, Json)>),
}

/// A model of a structured value.
pub ghost enum Js {
    Null,
    Bool(bool),
    Number(Seq<char>),
    Text(Seq<char>),
    List(Seq<Js>),
    Object(Seq<(Seq<char>, Js)>),
}

impl Json {
    pub open spec fn model(self) -> Js
        decreases self,
    {
        match self {
            Json::Null => Js::Null,
            Json::Bool(b) => Js::Bool(b),
            Json::Number(n) => Js::Number(n@),
            Json::Text(t) => Js::Text(t@),
            Json::List(items) => Js::List(
                Seq::new(
                    items@.len(),
                    |i: int|
                        if 0 <= i < items@.len() {
                            items@[i].model()
                        } else {
                            Js::Null
                        },
                ),
            ),
            Json::Object(fields) => Js::Object(
                Seq::new(
                    fields@.len(),
                    |i: int|
                        if 0 <= i < fields@.len() {
                            (fields@[i].0@, fields@[i].1.model())
                        } else {
                            (Seq::empty(), Js::Null)
                        },
                ),
            ),
        }
    }

    /// A copy of the value.
    pub fn copy(&self) -> (v: Json)
        ensures
            v.model() == self.model(),
        decreases *self,
    {
        match self {
            Json::Null => Json::Null,
            Json::Bool(b) => Json::Bool(*b),
            Json::Number(n) => Json::Number(n.clone()),
            Json::Text(t) => Json::Text(t.clone()),
            Json::List(items) => {
                let mut out: Vec<Json> = Vec::new();
                let mut k: usize = 0;
                while k < items.len()
                    invariant
                        k <= items.len(),
                        out.len() == k,
                        *self == Json::List(*items),
                        forall|i: int|
                            0 <= i < k ==> (#[trigger] out@[i]).model() == items@[i].model(),
                    decreases items.len() - k,
                {
                    let item = &items[k];
                    proof {
                        item_is_smaller(*self, k as int);
                    }
                    out.push(item.copy());
                    k += 1;
                }
                let v = Json::List(out);
                proof {
                    assert(v.model()->List_0 =~= self.model()->List_0);
                }
                v
            },
            Json::Object(fields) => {
                let mut out: Vec<(String, Json)> = Vec::new();
                let mut k: usize = 0;
                while k < fields.len()
                    invariant
                        k <= fields.len(),
                        out.len() == k,
                        *self == Json::Object(*fields),
                        forall|i: int|
                            0 <= i < k ==> (#[trigger] out@[i]).0@ == fields@[i].0@
                                && out@[i].1.model() == fields@[i].1.model(),
                    decreases fields.len() - k,
                {
                    let field = &fields[k];
                    proof {
                        field_is_smaller(*self, k as int);
                    }
                    out.push((field.0.clone(), field.1.copy()));
                    k += 1;
                }
                let v = Json::Object(out);
                proof {
                    assert(v.model()->Object_0 =~= self.model()->Object_0);
                }
                v
            },
        }
    }

    /// The member of an object under a key.
    pub fn get(&self, key: &str) -> (res: Option<&Json>)
        ensures
            match (res, self.model().member(key@)) {
                (Some(v), Some(m)) => v.model() == m,
                (None, None) => true,
                _ => false,
            },
            res matches Some(v) ==> decreases_to!(*self => *v),
    {
        if let Json::Object(fields) = self {
            let ghost all = self.model()->Object_0;
            let mut k: usize = 0;
            while k < fields.len()
                invariant
                    k <= fields.len(),
                    *self == Json::Object(*fields),
                    all == self.model()->Object_0,
                    member_from(all, key@, k as int) == member_from(all, key@, 0),
                decreases fields.len() - k,
            {
                let field = &fields[k];
                proof {
                    assert(all[k as int] == (field.0@, field.1.model()));
                }
                if same_text(field.0.as_str(), key) {
                    return Some(&field.1);
                }
                k += 1;
            }
        }
        None
    }

    /// The text of a value that is one.
    pub fn as_text(&self) -> (res: Option<&str>)
        ensures
            match res {
                Some(s) => self.model() == Js::Text(s@),
                None => !(self.model() is Text),
            },
    {
        match self {
            Json::Text(t) => Some(t.as_str()),
            _ => None,
        }
    }
}

/// An item of a list is smaller than the list.
pub proof fn item_is_smaller(v: Json, k: int)
    requires
        v is List,
        0 <= k < v->List_0@.len(),
    ensures
        decreases_to!(v => v->List_0@[k]),
{
    let items = v->List_0;
    assert(decreases_to!(v => items));
    assert(decreases_to!(items => items@));
    assert(decreases_to!(items@ => items@[k]));
}

/// A member of an object is smaller than the object.
pub proof fn field_is_smaller(v: Json, k: int)
    requires
        v is Object,
        0 <= k < v->Object_0@.len(),
    ensures
        decreases_to!(v => v->Object_0@[k].1),
{
    let fields = v->Object_0;
    assert(decreases_to!(v => fields));
    assert(decreases_to!(fields => fields@));
    assert(decreases_to!(fields@ => fields@[k]));
    assert(decreases_to!(fields@[k] => fields@[k].1));
}

/// The member under a key, from the `k`th on.
pub open spec fn member_from(fields: Seq<(Seq<char>, Js)>, key: Seq<char>, k: int) -> Option<Js>
    decreases fields.len() - k,
{
    if k < 0 || k >= fields.len() {
        None
    } else if fields[k].0 == key {
        Some(fields[k].1)
    } else {
        member_from(fields, key, k + 1)
    }
}

impl Js {
    /// The member of an object under a key.
    pub open spec fn member(self, key: Seq<char>) -> Option<Js> {
        match self {
            Js::Object(fields) => member_from(fields, key, 0),
            _ => None,
        }
    }
}

} // verus!
