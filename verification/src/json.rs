//! A small JSON document model.
//!
//! Wire messages and persisted chunks are JSON documents.  The library
//! builds and reads them through this tree type; turning the tree into
//! text and back is left to the caller, outside the verified core.

use vstd::prelude::*;
use vstd::string::{StringExecFns, StringSliceAdditionalSpecFns};

verus! {

/// Mathematical model of a JSON document.
#[verifier::ext_equal]
pub enum JVal {
    Null,
    Bool(bool),
    /// A number that fits in `u64`: the only numbers the formats use.
    Num(u64),
    /// A number outside `u64`: readable documents may hold one, the
    /// library never writes one and treats it as no `u64`.
    NumOther,
    Str(Seq<char>),
    Arr(Seq<JVal>),
    Obj(Seq<(Seq<char>, JVal)>),
}

/// Why a document failed to decode into a value.
#[derive(Debug, Clone, Copy, PartialEq, Eq, Structural)]
pub enum JsonError {
    /// A required field is absent.
    MissingField,
    /// A field is present but holds the wrong kind of value.
    InvalidField,
    /// The document names a format version other than the known one.
    InvalidStandard(u64),
}

/// A JSON document.
pub enum JsonValue {
    Null,
    Bool(bool),
    Num(u64),
    NumOther,
    Str(String),
    Arr(Vec<JsonValue>),
    Obj(Vec<(String, JsonValue)>),
}

/// Model of one document node.
pub open spec fn jv_view(j: JsonValue) -> JVal
    decreases j,
{
    match j {
        JsonValue::Null => JVal::Null,
        JsonValue::Bool(b) => JVal::Bool(b),
        JsonValue::Num(n) => JVal::Num(n),
        JsonValue::NumOther => JVal::NumOther,
        JsonValue::Str(s) => JVal::Str(s@),
        JsonValue::Arr(items) => JVal::Arr(jv_views(items@)),
        JsonValue::Obj(fields) => JVal::Obj(jv_fields(fields@)),
    }
}

/// Models of the elements of an array.
pub open spec fn jv_views(s: Seq<JsonValue>) -> Seq<JVal>
    decreases s,
{
    if s.len() == 0 {
        Seq::empty()
    } else {
        jv_views(s.drop_last()).push(jv_view(s.last()))
    }
}

/// Models of the fields of an object.
pub open spec fn jv_fields(s: Seq<(String, JsonValue)>) -> Seq<(Seq<char>, JVal)>
    decreases s,
{
    if s.len() == 0 {
        Seq::empty()
    } else {
        jv_fields(s.drop_last()).push((s.last().0@, jv_view(s.last().1)))
    }
}

impl View for JsonValue {
    type V = JVal;

    open spec fn view(&self) -> JVal {
        jv_view(*self)
    }
}

/// First value bound to `key`, if any.
pub open spec fn spec_obj_get(fields: Seq<(Seq<char>, JVal)>, key: Seq<char>) -> Option<JVal>
    decreases fields.len(),
{
    if fields.len() == 0 {
        None
    } else if fields.first().0 == key {
        Some(fields.first().1)
    } else {
        spec_obj_get(fields.drop_first(), key)
    }
}

/// The field named `key` of a document, when the document is an object
/// that has one.
pub open spec fn jval_get(j: JVal, key: Seq<char>) -> Option<JVal> {
    match j {
        JVal::Obj(fields) => spec_obj_get(fields, key),
        _ => None,
    }
}

/// The value of a document that is a `u64` number.
pub open spec fn jval_as_u64(j: JVal) -> Option<u64> {
    match j {
        JVal::Num(n) => Some(n),
        _ => None,
    }
}

/// The text of a document that is a string.
pub open spec fn jval_as_str(j: JVal) -> Option<Seq<char>> {
    match j {
        JVal::Str(s) => Some(s),
        _ => None,
    }
}

pub broadcast proof fn lemma_jv_views_len(s: Seq<JsonValue>)
    ensures
        #[trigger] jv_views(s).len() == s.len(),
    decreases s,
{
    if s.len() > 0 {
        lemma_jv_views_len(s.drop_last());
    }
}

pub broadcast proof fn lemma_jv_views_index(s: Seq<JsonValue>, i: int)
    requires
        0 <= i < s.len(),
    ensures
        #[trigger] jv_views(s)[i] == jv_view(s[i]),
    decreases s,
{
    lemma_jv_views_len(s);
    if i == s.len() - 1 {
    } else {
        lemma_jv_views_len(s.drop_last());
        lemma_jv_views_index(s.drop_last(), i);
    }
}

pub broadcast proof fn lemma_jv_fields_len(s: Seq<(String, JsonValue)>)
    ensures
        #[trigger] jv_fields(s).len() == s.len(),
    decreases s,
{
    if s.len() > 0 {
        lemma_jv_fields_len(s.drop_last());
    }
}

pub broadcast proof fn lemma_jv_fields_index(s: Seq<(String, JsonValue)>, i: int)
    requires
        0 <= i < s.len(),
    ensures
        #[trigger] jv_fields(s)[i] == (s[i].0@, jv_view(s[i].1)),
    decreases s,
{
    lemma_jv_fields_len(s);
    if i == s.len() - 1 {
    } else {
        lemma_jv_fields_len(s.drop_last());
        lemma_jv_fields_index(s.drop_last(), i);
    }
}

pub proof fn lemma_jv_views_push(s: Seq<JsonValue>, x: JsonValue)
    ensures
        jv_views(s.push(x)) == jv_views(s).push(jv_view(x)),
{
    assert(s.push(x).drop_last() =~= s);
    assert(jv_views(s.push(x)) =~= jv_views(s).push(jv_view(x)));
}

pub proof fn lemma_jv_fields_push(s: Seq<(String, JsonValue)>, key: String, x: JsonValue)
    ensures
        jv_fields(s.push((key, x))) == jv_fields(s).push((key@, jv_view(x))),
{
    assert(s.push((key, x)).drop_last() =~= s);
    assert(jv_fields(s.push((key, x))) =~= jv_fields(s).push((key@, jv_view(x))));
}

/// `spec_obj_get` walks past a prefix without matches.
pub proof fn lemma_obj_get_skip(s: Seq<(Seq<char>, JVal)>, key: Seq<char>, i: int)
    requires
        0 <= i <= s.len(),
        forall|j: int| 0 <= j < i ==> s[j].0 != key,
    ensures
        spec_obj_get(s, key) == spec_obj_get(s.skip(i), key),
    decreases i,
{
    if i == 0 {
        assert(s.skip(0) =~= s);
    } else {
        lemma_obj_get_skip(s, key, i - 1);
        let t = s.skip(i - 1);
        assert(t.len() == s.len() - i + 1);
        assert(t.first() == s[i - 1]);
        assert(t.first().0 != key);
        assert(spec_obj_get(t, key) == spec_obj_get(t.drop_first(), key));
        assert(t.drop_first() =~= s.skip(i));
        assert(spec_obj_get(t.drop_first(), key) == spec_obj_get(s.skip(i), key));
    }
}

/// The first field bound to `key` decides what `spec_obj_get` finds.
pub proof fn lemma_obj_get_at(fields: Seq<(Seq<char>, JVal)>, key: Seq<char>, i: int)
    requires
        0 <= i < fields.len(),
        fields[i].0 == key,
        forall|j: int| 0 <= j < i ==> fields[j].0 != key,
    ensures
        spec_obj_get(fields, key) == Some(fields[i].1),
{
    lemma_obj_get_skip(fields, key, i);
    assert(fields.skip(i).len() > 0);
    assert(fields.skip(i).first() == fields[i]);
}

/// Without a field bound to `key`, `spec_obj_get` finds nothing.
pub proof fn lemma_obj_get_none(fields: Seq<(Seq<char>, JVal)>, key: Seq<char>)
    requires
        forall|j: int| 0 <= j < fields.len() ==> fields[j].0 != key,
    ensures
        spec_obj_get(fields, key) is None,
{
    lemma_obj_get_skip(fields, key, fields.len() as int);
    assert(fields.skip(fields.len() as int).len() == 0);
}

/// Whether two pieces of text are the same characters, compared in
/// time independent of where they first differ.
pub fn str_eq(a: &str, b: &str) -> (r: bool)
    ensures
        r == (a@ == b@),
{
    let r = crate::hash::cmp_slices(a.as_bytes(), b.as_bytes());
    proof {
        if a.spec_bytes() == b.spec_bytes() {
            vstd::utf8::encode_utf8_decode_utf8(a@);
            vstd::utf8::encode_utf8_decode_utf8(b@);
        }
    }
    r
}

impl JsonValue {
    /// A string document over owned text.
    pub fn of_string(s: String) -> (r: JsonValue)
        ensures
            r@ == JVal::Str(s@),
    {
        JsonValue::Str(s)
    }

    /// A string document over borrowed text.
    pub fn of_str(s: &str) -> (r: JsonValue)
        ensures
            r@ == JVal::Str(s@),
    {
        JsonValue::Str(String::from_str(s))
    }

    /// The field named `key`, when this document is an object that has
    /// one.
    pub fn get(&self, key: &str) -> (r: Option<&JsonValue>)
        ensures
            match r {
                Some(v) => jval_get(self@, key@) == Some(v@),
                None => jval_get(self@, key@) is None,
            },
    {
        match self {
            JsonValue::Obj(fields) => {
                let ghost gfields = jv_fields(fields@);
                proof {
                    lemma_jv_fields_len(fields@);
                }
                let n = fields.len();
                let mut i: usize = 0;
                while i < n
                    invariant
                        n == fields@.len(),
                        i <= n,
                        gfields == jv_fields(fields@),
                        gfields.len() == n,
                        self@ == JVal::Obj(gfields),
                        forall|j: int| 0 <= j < i ==> gfields[j].0 != key@,
                    decreases n - i,
                {
                    proof {
                        lemma_jv_fields_index(fields@, i as int);
                    }
                    if str_eq(fields[i].0.as_str(), key) {
                        proof {
                            lemma_obj_get_skip(gfields, key@, i as int);
                            assert(gfields.skip(i as int).first() == gfields[i as int]);
                            assert(gfields.skip(i as int).len() > 0);
                            assert(gfields.skip(i as int).first().0 == key@);
                            assert(spec_obj_get(gfields.skip(i as int), key@) == Some(
                                gfields[i as int].1,
                            ));
                            assert(jval_get(self@, key@) == spec_obj_get(gfields, key@));
                            assert(jv_view(fields@[i as int].1) == gfields[i as int].1);
                        }
                        return Some(&fields[i].1);
                    }
                    i = i + 1;
                }
                proof {
                    lemma_obj_get_skip(gfields, key@, n as int);
                    assert(gfields.skip(n as int).len() == 0);
                }
                None
            },
            _ => None,
        }
    }

    /// The value of this document, when it is a `u64` number.
    pub fn as_u64(&self) -> (r: Option<u64>)
        ensures
            r == jval_as_u64(self@),
    {
        match self {
            JsonValue::Num(n) => Some(*n),
            _ => None,
        }
    }

    /// The text of this document, when it is a string.
    pub fn as_str(&self) -> (r: Option<&str>)
        ensures
            match r {
                Some(s) => jval_as_str(self@) == Some(s@),
                None => jval_as_str(self@) is None,
            },
    {
        match self {
            JsonValue::Str(s) => Some(s.as_str()),
            _ => None,
        }
    }

    /// The elements of this document, when it is an array.
    pub fn as_array(&self) -> (r: Option<&Vec<JsonValue>>)
        ensures
            match r {
                Some(items) => self@ == JVal::Arr(jv_views(items@)),
                None => !(self@ is Arr),
            },
    {
        match self {
            JsonValue::Arr(items) => Some(items),
            _ => None,
        }
    }

    /// Whether this document is the null value.
    pub fn is_null(&self) -> (r: bool)
        ensures
            r == (self@ is Null),
    {
        match self {
            JsonValue::Null => true,
            _ => false,
        }
    }
}

/// Append a field to the fields of an object under construction.
pub fn obj_push(fields: &mut Vec<(String, JsonValue)>, key: &str, val: JsonValue)
    ensures
        jv_fields(final(fields)@) == jv_fields(old(fields)@).push((key@, jv_view(val))),
{
    let ghost gval = val;
    let ghost before = fields@;
    let owned_key = String::from_str(key);
    fields.push((owned_key, val));
    proof {
        lemma_jv_fields_push(before, owned_key, gval);
    }
}

/// Append an element to the elements of an array under construction.
pub fn arr_push(items: &mut Vec<JsonValue>, val: JsonValue)
    ensures
        jv_views(final(items)@) == jv_views(old(items)@).push(jv_view(val)),
{
    let ghost gval = val;
    let ghost before = items@;
    items.push(val);
    proof {
        lemma_jv_views_push(before, gval);
    }
}

} // verus!
