//! JSON values as the library reads them.
use crate::text::same;
use vstd::prelude::*;

verus! {

/// `serde_json::Value`, which only `shape_of` looks into.
#[verifier::external_type_specification]
#[verifier::external_body]
pub struct ExValue(serde_json::Value);

/// A JSON value as contracts speak of it. What a number holds is not read.
pub ghost enum Tree {
    Null,
    Bool(bool),
    Number,
    Text(Seq<char>),
    Array(Seq<Tree>),
    /// The members in the order in which they are walked.
    Object(Seq<(Seq<char>, Tree)>),
}

/// A JSON value.
pub enum Json {
    Null,
    Bool(bool),
    Number,
    Text(String),
    Array(Vec<Json>),
    Object(Vec<(String, Json)>),
}

impl Json {
    pub open spec fn tree(self) -> Tree
        decreases self,
    {
        match self {
            Json::Null => Tree::Null,
            Json::Bool(b) => Tree::Bool(b),
            Json::Number => Tree::Number,
            Json::Text(s) => Tree::Text(s@),
            Json::Array(a) => Tree::Array(
                Seq::new(
                    a@.len(),
                    |i: int|
                        if 0 <= i < a@.len() {
                            a@[i].tree()
                        } else {
                            Tree::Null
                        },
                ),
            ),
            Json::Object(a) => Tree::Object(
                Seq::new(
                    a@.len(),
                    |i: int|
                        if 0 <= i < a@.len() {
                            (a@[i].0@, a@[i].1.tree())
                        } else {
                            (seq![], Tree::Null)
                        },
                ),
            ),
        }
    }
}

/// What a `serde_json::Value` holds.
pub uninterp spec fn value_tree(v: serde_json::Value) -> Tree;

/// What `serde_json` makes of a text: the value it holds, or what is wrong
/// with it.
pub uninterp spec fn document(text: Seq<u8>) -> Result<Tree, Seq<char>>;

/// `serde_json::from_slice` into a `serde_json::Value`: the value that the
/// text holds, or the message of the error.
#[verifier::external_body]
fn value_from_slice(text: &[u8]) -> (res: Result<serde_json::Value, String>)
    ensures
        match res {
            Ok(v) => document(text@) == Ok::<Tree, Seq<char>>(value_tree(v)),
            Err(e) => document(text@) == Err::<Tree, Seq<char>>(e@),
        },
{
    serde_json::from_slice::<serde_json::Value>(text).map_err(|e| e.to_string())
}

/// A value, opened one level deep.
enum Shape {
    Null,
    Bool(bool),
    Number,
    Text(String),
    Array(Vec<serde_json::Value>),
    Object(Vec<(String, serde_json::Value)>),
}

spec fn shape_tree(s: Shape) -> Tree {
    match s {
        Shape::Null => Tree::Null,
        Shape::Bool(b) => Tree::Bool(b),
        Shape::Number => Tree::Number,
        Shape::Text(s) => Tree::Text(s@),
        Shape::Array(a) => Tree::Array(a@.map_values(|v: serde_json::Value| value_tree(v))),
        Shape::Object(a) => Tree::Object(
            a@.map_values(|m: (String, serde_json::Value)| (m.0@, value_tree(m.1))),
        ),
    }
}

/// The variants of `serde_json::Value`, told apart: what a value holds is
/// what its variant says, and what its items or members hold, in the order
/// in which `serde_json::Map` hands them out.
#[verifier::external_body]
fn shape_of(v: serde_json::Value) -> (s: Shape)
    ensures
        shape_tree(s) == value_tree(v),
{
    match v {
        serde_json::Value::Null => Shape::Null,
        serde_json::Value::Bool(b) => Shape::Bool(b),
        serde_json::Value::Number(_) => Shape::Number,
        serde_json::Value::String(s) => Shape::Text(s),
        serde_json::Value::Array(a) => Shape::Array(a),
        serde_json::Value::Object(m) => Shape::Object(m.into_iter().collect()),
    }
}

fn json_of(v: serde_json::Value) -> (res: Json)
    ensures
        res.tree() == value_tree(v),
    decreases value_tree(v),
{
    let ghost whole = value_tree(v);
    match shape_of(v) {
        Shape::Null => Json::Null,
        Shape::Bool(b) => Json::Bool(b),
        Shape::Number => Json::Number,
        Shape::Text(s) => Json::Text(s),
        Shape::Array(items) => {
            let ghost all = items@;
            let mut rest = items;
            let mut back: Vec<Json> = Vec::new();
            while rest.len() > 0
                invariant
                    whole == value_tree(v),
                    whole == Tree::Array(all.map_values(|v: serde_json::Value| value_tree(v))),
                    rest@ == all.take(rest@.len() as int),
                    rest@.len() + back@.len() == all.len(),
                    forall|k: int|
                        0 <= k < back@.len() ==> (#[trigger] back@[k]).tree() == value_tree(
                            all[all.len() - 1 - k],
                        ),
                decreases rest@.len(),
            {
                let ghost at = rest@.len() - 1;
                let item = rest.pop().unwrap();
                proof {
                    assert(item == all[at]);
                    assert(whole->Array_0[at] == value_tree(item));
                    assert(decreases_to!(whole => whole->Array_0[at]));
                }
                back.push(json_of(item));
            }
            let ghost made = back@;
            let mut out: Vec<Json> = Vec::new();
            while back.len() > 0
                invariant
                    made.len() == all.len(),
                    back@ == made.take(back@.len() as int),
                    back@.len() + out@.len() == made.len(),
                    forall|k: int|
                        0 <= k < out@.len() ==> #[trigger] out@[k] == made[made.len() - 1 - k],
                decreases back@.len(),
            {
                let item = back.pop().unwrap();
                out.push(item);
            }
            let res = Json::Array(out);
            proof {
                assert forall|k: int| 0 <= k < out@.len() implies (#[trigger] out@[k]).tree()
                    == value_tree(all[k]) by {
                    assert(made[made.len() - 1 - k].tree() == value_tree(all[k]));
                }
                assert(res.tree()->Array_0 =~= whole->Array_0);
            }
            res
        },
        Shape::Object(members) => {
            let ghost all = members@;
            let mut rest = members;
            let mut back: Vec<(String, Json)> = Vec::new();
            while rest.len() > 0
                invariant
                    whole == value_tree(v),
                    whole == Tree::Object(
                        all.map_values(|m: (String, serde_json::Value)| (m.0@, value_tree(m.1))),
                    ),
                    rest@ == all.take(rest@.len() as int),
                    rest@.len() + back@.len() == all.len(),
                    forall|k: int|
                        0 <= k < back@.len() ==> (#[trigger] back@[k]).1.tree() == value_tree(
                            all[all.len() - 1 - k].1,
                        ) && back@[k].0@ == all[all.len() - 1 - k].0@,
                decreases rest@.len(),
            {
                let ghost at = rest@.len() - 1;
                let (name, item) = rest.pop().unwrap();
                proof {
                    assert(all[at] == (name, item));
                    assert(whole->Object_0[at] == (name@, value_tree(item)));
                    assert(decreases_to!(whole => whole->Object_0[at]));
                    assert(decreases_to!(whole->Object_0[at] => whole->Object_0[at].1));
                }
                back.push((name, json_of(item)));
            }
            let ghost made = back@;
            let mut out: Vec<(String, Json)> = Vec::new();
            while back.len() > 0
                invariant
                    made.len() == all.len(),
                    back@ == made.take(back@.len() as int),
                    back@.len() + out@.len() == made.len(),
                    forall|k: int|
                        0 <= k < out@.len() ==> #[trigger] out@[k] == made[made.len() - 1 - k],
                decreases back@.len(),
            {
                let item = back.pop().unwrap();
                out.push(item);
            }
            let res = Json::Object(out);
            proof {
                assert forall|k: int| 0 <= k < out@.len() implies (#[trigger] out@[k]).1.tree()
                    == value_tree(all[k].1) && out@[k].0@ == all[k].0@ by {
                    assert(made[made.len() - 1 - k].1.tree() == value_tree(all[k].1));
                }
                assert(res.tree()->Object_0 =~= whole->Object_0);
            }
            res
        },
    }
}

/// Reads a JSON text.
pub fn parse(text: &[u8]) -> (res: Result<Json, String>)
    ensures
        match res {
            Ok(j) => document(text@) == Ok::<Tree, Seq<char>>(j.tree()),
            Err(e) => document(text@) == Err::<Tree, Seq<char>>(e@),
        },
{
    match value_from_slice(text) {
        Ok(v) => Ok(json_of(v)),
        Err(e) => Err(e),
    }
}

// -------------------------------------------------------------- looking --

/// The value of the first of `members` that is named `key`.
pub open spec fn lookup(members: Seq<(Seq<char>, Tree)>, key: Seq<char>) -> Option<Tree>
    decreases members.len(),
{
    if members.len() == 0 {
        None
    } else if members[0].0 == key {
        Some(members[0].1)
    } else {
        lookup(members.drop_first(), key)
    }
}

impl Tree {
    /// The member `key` of an object.
    pub open spec fn member(self, key: Seq<char>) -> Option<Tree> {
        match self {
            Tree::Object(members) => lookup(members, key),
            _ => None,
        }
    }

    /// The string in the member `key` of an object; empty where there is none.
    pub open spec fn text(self, key: Seq<char>) -> Seq<char> {
        match self.member(key) {
            Some(Tree::Text(s)) => s,
            _ => seq![],
        }
    }

    /// Whether the member `key` of an object is `true`.
    pub open spec fn flag(self, key: Seq<char>) -> bool {
        self.member(key) == Some(Tree::Bool(true))
    }

    /// The first string of the array in the member `key` of an object; empty
    /// where there is none.
    pub open spec fn first_text(self, key: Seq<char>) -> Seq<char> {
        match self.member(key) {
            Some(Tree::Array(items)) => if items.len() > 0 {
                match items[0] {
                    Tree::Text(s) => s,
                    _ => seq![],
                }
            } else {
                seq![]
            },
            _ => seq![],
        }
    }
}

impl Json {
    pub fn member(&self, key: &str) -> (res: Option<&Json>)
        ensures
            match res {
                Some(j) => self.tree().member(key@) == Some(j.tree()),
                None => self.tree().member(key@) is None,
            },
    {
        match self {
            Json::Object(members) => {
                let ghost all = self.tree()->Object_0;
                let mut i: usize = 0;
                assert(all.skip(0) =~= all);
                while i < members.len()
                    invariant
                        i <= members@.len(),
                        *self == Json::Object(*members),
                        all == self.tree()->Object_0,
                        all.len() == members@.len(),
                        self.tree().member(key@) == lookup(all.skip(i as int), key@),
                    decreases members@.len() - i,
                {
                    assert(all.skip(i as int)[0] == (members@[i as int].0@, members@[i as int].1.tree()));
                    if same(members[i].0.as_str(), key) {
                        return Some(&members[i].1);
                    }
                    assert(all.skip(i as int).drop_first() =~= all.skip(i + 1));
                    i = i + 1;
                }
                None
            },
            _ => None,
        }
    }

    pub fn text(&self, key: &str) -> (res: String)
        ensures
            res@ == self.tree().text(key@),
    {
        match self.member(key) {
            Some(Json::Text(s)) => s.clone(),
            _ => String::new(),
        }
    }

    pub fn flag(&self, key: &str) -> (res: bool)
        ensures
            res == self.tree().flag(key@),
    {
        match self.member(key) {
            Some(Json::Bool(b)) => *b,
            _ => false,
        }
    }

    pub fn first_text(&self, key: &str) -> (res: String)
        ensures
            res@ == self.tree().first_text(key@),
    {
        let found = self.member(key);
        match found {
            Some(Json::Array(items)) => if items.len() > 0 {
                assert(Json::Array(*items).tree()->Array_0[0] == items@[0].tree());
                match &items[0] {
                    Json::Text(s) => s.clone(),
                    _ => String::new(),
                }
            } else {
                String::new()
            },
            _ => String::new(),
        }
    }
}

} // verus!
