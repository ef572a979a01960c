//! The JSON document model used on the wire and in the journal.
//!
//! A document is kept in a structured form whose scalar leaves hold the raw
//! bytes of their textual representation: a string holds the bytes between
//! its quotes (still in escaped form) and a number that is not a plain
//! unsigned integer holds its literal bytes.  Keeping the raw bytes means a
//! value travels through the node, the journal and the socket without ever
//! being re-encoded, so equality of documents is equality of their canonical
//! text.

use vstd::prelude::*;

verus! {

use vstd::string::StringSliceAdditionalSpecFns;

broadcast use vstd::std_specs::vec::group_vec_axioms;

/// One JSON value.  `Num` holds an unsigned integer; any other number shape
/// (negative, fractional, exponent, leading zeros) is carried verbatim in
/// `NumRaw`.  `Str` and object keys hold the escaped byte content between the
/// quotes, verbatim.
#[derive(Debug, PartialEq, Eq)]
pub enum Json {
    Null,
    Bool(bool),
    Num(u64),
    NumRaw(Vec<u8>),
    Str(Vec<u8>),
    Arr(Vec<Json>),
    Obj(Vec<(Vec<u8>, Json)>),
}

/// The mathematical form of a JSON value, used by every contract.
#[verifier::ext_equal]
pub enum JsonV {
    Null,
    Bool(bool),
    Num(u64),
    NumRaw(Seq<u8>),
    Str(Seq<u8>),
    Arr(Seq<JsonV>),
    Obj(Seq<(Seq<u8>, JsonV)>),
}

/// The mathematical form of one value.
pub open spec fn view_json(j: Json) -> JsonV
    decreases j,
{
    match j {
        Json::Null => JsonV::Null,
        Json::Bool(b) => JsonV::Bool(b),
        Json::Num(n) => JsonV::Num(n),
        Json::NumRaw(raw) => JsonV::NumRaw(raw@),
        Json::Str(raw) => JsonV::Str(raw@),
        Json::Arr(items) => {
            proof {
                assert(decreases_to!(j => items));
                assert(decreases_to!(items => items@));
            }
            JsonV::Arr(view_arr(items@))
        },
        Json::Obj(members) => {
            proof {
                assert(decreases_to!(j => members));
                assert(decreases_to!(members => members@));
            }
            JsonV::Obj(view_members(members@))
        },
    }
}

/// The mathematical form of a list of values.
pub open spec fn view_arr(s: Seq<Json>) -> Seq<JsonV>
    decreases s,
{
    if s.len() == 0 {
        Seq::empty()
    } else {
        proof {
            assert(decreases_to!(s => s[0]));
            assert(decreases_to!(s => s.subrange(1, s.len() as int)));
        }
        seq![view_json(s[0])] + view_arr(s.skip(1))
    }
}

/// The mathematical form of a list of members.
pub open spec fn view_members(s: Seq<(Vec<u8>, Json)>) -> Seq<(Seq<u8>, JsonV)>
    decreases s,
{
    if s.len() == 0 {
        Seq::empty()
    } else {
        proof {
            assert(decreases_to!(s => s[0]));
            assert(decreases_to!(s => s.subrange(1, s.len() as int)));
        }
        seq![(s[0].0@, view_json(s[0].1))] + view_members(s.skip(1))
    }
}

/// `view_arr` maps the elements one for one.
pub broadcast proof fn lemma_view_arr(s: Seq<Json>)
    ensures
        (#[trigger] view_arr(s)).len() == s.len(),
        forall|i: int| 0 <= i < s.len() ==> view_arr(s)[i] == view_json(s[i]),
    decreases s.len(),
{
    if s.len() > 0 {
        lemma_view_arr(s.skip(1));
        assert forall|i: int| 0 <= i < s.len() implies view_arr(s)[i] == view_json(s[i]) by {
            if i > 0 {
                assert(view_arr(s)[i] == view_arr(s.skip(1))[i - 1]);
                assert(s.skip(1)[i - 1] == s[i]);
            }
        }
    }
}

/// `view_members` maps the members one for one.
pub broadcast proof fn lemma_view_members(s: Seq<(Vec<u8>, Json)>)
    ensures
        (#[trigger] view_members(s)).len() == s.len(),
        forall|i: int|
            0 <= i < s.len() ==> view_members(s)[i] == (s[i].0@, view_json(s[i].1)),
    decreases s.len(),
{
    if s.len() > 0 {
        lemma_view_members(s.skip(1));
        assert forall|i: int|
            0 <= i < s.len() implies view_members(s)[i] == (s[i].0@, view_json(s[i].1)) by {
            if i > 0 {
                assert(view_members(s)[i] == view_members(s.skip(1))[i - 1]);
                assert(s.skip(1)[i - 1] == s[i]);
            }
        }
    }
}

impl View for Json {
    type V = JsonV;

    open spec fn view(&self) -> JsonV {
        view_json(*self)
    }
}

impl Json {
    /// A structural copy of this value.
    pub fn deep_clone(&self) -> (r: Json)
        ensures
            r@ == self@,
        decreases *self,
    {
        broadcast use lemma_view_arr, lemma_view_members;

        match self {
            Json::Null => Json::Null,
            Json::Bool(b) => Json::Bool(*b),
            Json::Num(n) => Json::Num(*n),
            Json::NumRaw(raw) => Json::NumRaw(clone_bytes(raw)),
            Json::Str(raw) => Json::Str(clone_bytes(raw)),
            Json::Arr(items) => {
                proof {
                    assert(*self is Arr);
                    assert(*items == (*self)->Arr_0);
                    assert(decreases_to!(*self => (*self)->Arr_0));
                }
                let mut out: Vec<Json> = Vec::new();
                let mut i: usize = 0;
                while i < items.len()
                    invariant
                        0 <= i <= items@.len(),
                        out@.len() == i,
                        forall|k: int| 0 <= k < i ==> out@[k]@ == items@[k]@,
                    decreases items@.len() - i,
                {
                    proof {
                        assert(decreases_to!(items@ => items@[i as int]));
                    }
                    out.push(items[i].deep_clone());
                    i += 1;
                }
                let result = Json::Arr(out);
                assert forall|k: int| 0 <= k < out@.len() implies view_arr(out@)[k] == view_arr(
                    items@,
                )[k] by {
                    assert(view_arr(out@)[k] == view_json(out@[k]));
                    assert(view_arr(items@)[k] == view_json(items@[k]));
                }
                assert(view_arr(out@) =~= view_arr(items@));
                result
            },
            Json::Obj(members) => {
                proof {
                    assert(decreases_to!(*self => (*self)->Obj_0));
                }
                let mut out: Vec<(Vec<u8>, Json)> = Vec::new();
                let mut i: usize = 0;
                while i < members.len()
                    invariant
                        0 <= i <= members@.len(),
                        out@.len() == i,
                        forall|k: int|
                            0 <= k < i ==> out@[k].0@ == members@[k].0@ && out@[k].1@
                                == members@[k].1@,
                    decreases members@.len() - i,
                {
                    proof {
                        assert(decreases_to!(members@ => members@[i as int]));
                        assert(decreases_to!(members@[i as int] => members@[i as int].1));
                    }
                    let key = clone_bytes(&members[i].0);
                    let value = members[i].1.deep_clone();
                    out.push((key, value));
                    i += 1;
                }
                let result = Json::Obj(out);
                assert forall|k: int| 0 <= k < out@.len() implies view_members(out@)[k]
                    == view_members(members@)[k] by {
                    assert(view_members(out@)[k] == (out@[k].0@, view_json(out@[k].1)));
                    assert(view_members(members@)[k] == (
                        members@[k].0@,
                        view_json(members@[k].1),
                    ));
                }
                assert(view_members(out@) =~= view_members(members@));
                result
            },
        }
    }
}

/// A copy of a byte vector.
pub fn clone_bytes(v: &Vec<u8>) -> (r: Vec<u8>)
    ensures
        r@ == v@,
{
    let mut out: Vec<u8> = Vec::new();
    let mut i: usize = 0;
    while i < v.len()
        invariant
            0 <= i <= v@.len(),
            out@ == v@.take(i as int),
        decreases v@.len() - i,
    {
        out.push(v[i]);
        assert(out@ =~= v@.take(i + 1));
        i += 1;
    }
    assert(v@.take(v@.len() as int) =~= v@);
    out
}

/// True iff the byte sequences `a` and `b` are equal.
pub fn bytes_eq(a: &[u8], b: &[u8]) -> (r: bool)
    ensures
        r == (a@ == b@),
{
    if a.len() != b.len() {
        assert(a@ != b@);
        return false;
    }
    let mut i: usize = 0;
    while i < a.len()
        invariant
            0 <= i <= a@.len(),
            a@.len() == b@.len(),
            forall|k: int| 0 <= k < i ==> a@[k] == b@[k],
        decreases a@.len() - i,
    {
        if a[i] != b[i] {
            assert(a@ != b@);
            return false;
        }
        i += 1;
    }
    assert(a@ =~= b@);
    true
}

/// The first member of `members` whose key is `key`, if any.
pub open spec fn spec_obj_get(members: Seq<(Seq<u8>, JsonV)>, key: Seq<u8>) -> Option<JsonV>
    decreases members.len(),
{
    if members.len() == 0 {
        None
    } else if members[0].0 == key {
        Some(members[0].1)
    } else {
        spec_obj_get(members.skip(1), key)
    }
}

/// The members of `j` when it is an object.
pub open spec fn spec_members(j: JsonV) -> Seq<(Seq<u8>, JsonV)> {
    j->Obj_0
}

/// The member of object `j` under `key`, if `j` is an object holding one.
pub open spec fn spec_get(j: JsonV, key: Seq<u8>) -> Option<JsonV> {
    if j is Obj {
        spec_obj_get(spec_members(j), key)
    } else {
        None
    }
}

/// Looks a member up by key; the first member with that key wins.
pub fn obj_get<'a>(members: &'a Vec<(Vec<u8>, Json)>, key: &str) -> (r: Option<&'a Json>)
    ensures
        match r {
            Some(v) => spec_obj_get(view_members(members@), key.spec_bytes()) == Some(v@),
            None => spec_obj_get(view_members(members@), key.spec_bytes()) is None,
        },
{
    broadcast use lemma_view_members;

    let ghost view = view_members(members@);
    let key_bytes = key.as_bytes();
    let mut i: usize = 0;
    assert(view.len() == members@.len());
    assert(view.skip(0) =~= view);
    while i < members.len()
        invariant
            0 <= i <= members@.len(),
            view == view_members(members@),
            key_bytes@ == key.spec_bytes(),
            spec_obj_get(view, key.spec_bytes()) == spec_obj_get(
                view.skip(i as int),
                key.spec_bytes(),
            ),
        decreases members@.len() - i,
    {
        let ghost pre = view.skip(i as int);
        assert(view.len() == members@.len());
        assert(pre[0] == view[i as int]);
        assert(view[i as int] == (members@[i as int].0@, view_json(members@[i as int].1)));
        if bytes_eq(members[i].0.as_slice(), key_bytes) {
            assert(spec_obj_get(pre, key.spec_bytes()) == Some(view[i as int].1));
            return Some(&members[i].1);
        }
        assert(pre.skip(1) =~= view.skip(i + 1));
        i += 1;
    }
    assert(view.skip(i as int) =~= Seq::<(Seq<u8>, JsonV)>::empty());
    None
}

impl Json {
    /// The member of this object under `key`, if this is an object holding
    /// one.
    pub fn get<'a>(&'a self, key: &str) -> (r: Option<&'a Json>)
        ensures
            match r {
                Some(v) => spec_get(self@, key.spec_bytes()) == Some(v@),
                None => spec_get(self@, key.spec_bytes()) is None,
            },
    {
        match self {
            Json::Obj(members) => obj_get(members, key),
            _ => None,
        }
    }

    /// The value of this number, when it is a plain unsigned integer.
    pub fn as_u64(&self) -> (r: Option<u64>)
        ensures
            match r {
                Some(n) => self@ == JsonV::Num(n),
                None => !(self@ is Num),
            },
    {
        match self {
            Json::Num(n) => Some(*n),
            _ => None,
        }
    }

    /// The truth value, when this is a boolean.
    pub fn as_bool(&self) -> (r: Option<bool>)
        ensures
            match r {
                Some(b) => self@ == JsonV::Bool(b),
                None => !(self@ is Bool),
            },
    {
        match self {
            Json::Bool(b) => Some(*b),
            _ => None,
        }
    }

    /// The raw content bytes, when this is a string.
    pub fn as_str_bytes<'a>(&'a self) -> (r: Option<&'a Vec<u8>>)
        ensures
            match r {
                Some(raw) => self@ == JsonV::Str(raw@),
                None => !(self@ is Str),
            },
    {
        match self {
            Json::Str(raw) => Some(raw),
            _ => None,
        }
    }

    /// True iff this is the given string.
    pub fn is_str(&self, expected: &str) -> (r: bool)
        ensures
            r == (self@ == JsonV::Str(expected.spec_bytes())),
    {
        match self {
            Json::Str(raw) => bytes_eq(raw.as_slice(), expected.as_bytes()),
            _ => false,
        }
    }

    /// A string value built from literal text.
    pub fn str_of(text: &str) -> (r: Json)
        ensures
            r@ == JsonV::Str(text.spec_bytes()),
    {
        Json::Str(text.as_bytes_vec())
    }

    /// The elements, when this is an array.
    pub fn as_arr<'a>(&'a self) -> (r: Option<&'a Vec<Json>>)
        ensures
            match r {
                Some(items) => self@ == JsonV::Arr(view_arr(items@)),
                None => !(self@ is Arr),
            },
    {
        match self {
            Json::Arr(items) => Some(items),
            _ => None,
        }
    }

    /// The members, when this is an object.
    pub fn as_obj<'a>(&'a self) -> (r: Option<&'a Vec<(Vec<u8>, Json)>>)
        ensures
            match r {
                Some(members) => self@ == JsonV::Obj(view_members(members@)),
                None => !(self@ is Obj),
            },
    {
        match self {
            Json::Obj(members) => Some(members),
            _ => None,
        }
    }
}

/// An object builder: members are appended in order.
pub struct ObjBuilder {
    pub members: Vec<(Vec<u8>, Json)>,
}

impl ObjBuilder {
    /// The members so far, in mathematical form.
    pub open spec fn view(&self) -> Seq<(Seq<u8>, JsonV)> {
        view_members(self.members@)
    }

    pub fn new() -> (r: ObjBuilder)
        ensures
            r@ == Seq::<(Seq<u8>, JsonV)>::empty(),
    {
        broadcast use lemma_view_members;

        let b = ObjBuilder { members: Vec::new() };
        proof {
            assert(b@ =~= Seq::<(Seq<u8>, JsonV)>::empty());
        }
        b
    }

    /// Appends one member.
    pub fn member(&mut self, key: &str, value: Json)
        ensures
            final(self)@ == old(self)@.push((key.spec_bytes(), value@)),
    {
        broadcast use lemma_view_members;

        self.members.push((key.as_bytes_vec(), value));
        proof {
            assert forall|k: int| 0 <= k < self@.len() implies self@[k] == old(self)@.push(
                (key.spec_bytes(), value@),
            )[k] by {
                assert(self@[k] == (self.members@[k].0@, view_json(self.members@[k].1)));
                if k < old(self).members@.len() {
                    assert(old(self)@[k] == (
                        old(self).members@[k].0@,
                        view_json(old(self).members@[k].1),
                    ));
                    assert(self.members@[k] == old(self).members@[k]);
                }
            }
            assert(self@ =~= old(self)@.push((key.spec_bytes(), value@)));
        }
    }

    /// Finishes the object.
    pub fn build(self) -> (r: Json)
        ensures
            r@ == JsonV::Obj(self@),
    {
        Json::Obj(self.members)
    }
}

} // verus!
