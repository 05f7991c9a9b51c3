use vstd::prelude::*;

use crate::error::{Error, ErrorModel};

verus! {

broadcast use vstd::std_specs::vec::axiom_vec_decreases_to_view,
    vstd::std_specs::vec::axiom_vec_index_decreases;

/// A JSON number in decimal form: `mantissa * 10^exponent` with a sign, or
/// the not-a-number value (whose other fields carry no meaning).
#[derive(Clone, Copy, Debug)]
pub struct Num {
    pub nan: bool,
    pub positive: bool,
    pub mantissa: u64,
    pub exponent: i16,
}

impl Num {
    /// A non-negative integer.
    pub fn from_u64(n: u64) -> (r: Num)
        ensures
            r == (Num { nan: false, positive: true, mantissa: n, exponent: 0 }),
    {
        Num { nan: false, positive: true, mantissa: n, exponent: 0 }
    }

    pub open spec fn spec_negate(self) -> Num {
        if self.nan {
            self
        } else {
            Num { positive: !self.positive, ..self }
        }
    }

    /// Negating twice gives the number back.
    pub proof fn law_double_negation(self)
        ensures
            self.spec_negate().spec_negate() == self,
    {
    }

    /// Arithmetic negation: the sign flips, and the not-a-number value stays
    /// what it is.
    pub fn negate(&self) -> (r: Num)
        ensures
            r == self.spec_negate(),
    {
        if self.nan {
            *self
        } else {
            Num { nan: false, positive: !self.positive, mantissa: self.mantissa, exponent: self.exponent }
        }
    }
}

/// A JSON value. Strings come in the two forms that the json crate keeps
/// apart: `Short` (what it builds from short borrowed strings) and `Str`.
#[derive(Debug)]
pub enum Value {
    Null,
    Boolean(bool),
    Number(Num),
    Short(String),
    Str(String),
    Array(Vec<Value>),
    Object(Vec<(String, Value)>),
}

/// The mathematical model of a JSON value.
pub enum Json {
    Null,
    Boolean(bool),
    Number(Num),
    Short(Seq<char>),
    Str(Seq<char>),
    Array(Seq<Json>),
    Object(Seq<(Seq<char>, Json)>),
}

pub open spec fn json_of(v: Value) -> Json
    decreases v, 0nat,
{
    match v {
        Value::Null => Json::Null,
        Value::Boolean(b) => Json::Boolean(b),
        Value::Number(n) => Json::Number(n),
        Value::Short(s) => Json::Short(s@),
        Value::Str(s) => Json::Str(s@),
        Value::Array(items) => Json::Array(jsons_of(items@)),
        Value::Object(entries) => Json::Object(entries_of(entries@)),
    }
}

pub open spec fn jsons_of(s: Seq<Value>) -> Seq<Json>
    decreases s, 1nat,
{
    if s.len() == 0 {
        Seq::empty()
    } else {
        jsons_of(s.subrange(0, s.len() - 1)).push(json_of(s[s.len() - 1]))
    }
}

pub open spec fn entries_of(s: Seq<(String, Value)>) -> Seq<(Seq<char>, Json)>
    decreases s, 1nat,
{
    if s.len() == 0 {
        Seq::empty()
    } else {
        entries_of(s.subrange(0, s.len() - 1)).push((s[s.len() - 1].0@, json_of(s[s.len() - 1].1)))
    }
}

impl View for Value {
    type V = Json;

    open spec fn view(&self) -> Json {
        json_of(*self)
    }
}

pub proof fn lemma_jsons_push(s: Seq<Value>, v: Value)
    ensures
        jsons_of(s.push(v)) == jsons_of(s).push(json_of(v)),
{
    assert(s.push(v).subrange(0, s.len() as int) =~= s);
}

pub proof fn lemma_entries_push(s: Seq<(String, Value)>, e: (String, Value))
    ensures
        entries_of(s.push(e)) == entries_of(s).push((e.0@, json_of(e.1))),
{
    assert(s.push(e).subrange(0, s.len() as int) =~= s);
}

pub proof fn lemma_jsons_len_index(s: Seq<Value>)
    ensures
        jsons_of(s).len() == s.len(),
        forall|i: int| 0 <= i < s.len() ==> #[trigger] jsons_of(s)[i] == json_of(s[i]),
    decreases s.len(),
{
    if s.len() > 0 {
        lemma_jsons_len_index(s.subrange(0, s.len() - 1));
    }
}

pub proof fn lemma_entries_len_index(s: Seq<(String, Value)>)
    ensures
        entries_of(s).len() == s.len(),
        forall|i: int|
            0 <= i < s.len() ==> #[trigger] entries_of(s)[i] == (s[i].0@, json_of(s[i].1)),
    decreases s.len(),
{
    if s.len() > 0 {
        lemma_entries_len_index(s.subrange(0, s.len() - 1));
    }
}

/// A copy of a value, element by element.
pub fn copy_value(v: &Value) -> (r: Value)
    ensures
        r@ == v@,
    decreases v,
{
    match v {
        Value::Null => Value::Null,
        Value::Boolean(b) => Value::Boolean(*b),
        Value::Number(n) => Value::Number(*n),
        Value::Short(s) => Value::Short(s.clone()),
        Value::Str(s) => Value::Str(s.clone()),
        Value::Array(items) => {
            let mut out: Vec<Value> = Vec::new();
            let mut i: usize = 0;
            while i < items.len()
                invariant
                    i <= items.len(),
                    *v == Value::Array(*items),
                    jsons_of(out@) == jsons_of(items@.subrange(0, i as int)),
                decreases items.len() - i,
            {
                assert(decreases_to!(*v => (*v)->Array_0));
                assert(decreases_to!(*items => items[i as int]));
                assert(decreases_to!(*v => items[i as int]));
                let c = copy_value(&items[i]);
                proof {
                    lemma_jsons_push(out@, c);
                    lemma_jsons_push(items@.subrange(0, i as int), items[i as int]);
                    assert(items@.subrange(0, i as int).push(items[i as int]) =~= items@.subrange(
                        0,
                        i + 1,
                    ));
                }
                out.push(c);
                i = i + 1;
            }
            assert(items@.subrange(0, items.len() as int) =~= items@);
            Value::Array(out)
        },
        Value::Object(entries) => {
            let mut out: Vec<(String, Value)> = Vec::new();
            let mut i: usize = 0;
            while i < entries.len()
                invariant
                    i <= entries.len(),
                    *v == Value::Object(*entries),
                    entries_of(out@) == entries_of(entries@.subrange(0, i as int)),
                decreases entries.len() - i,
            {
                assert(decreases_to!(*v => (*v)->Object_0));
                assert(decreases_to!(*entries => entries[i as int]));
                assert(decreases_to!(entries[i as int] => entries[i as int].1));
                assert(decreases_to!(*v => entries[i as int].1));
                let c = copy_value(&entries[i].1);
                let k = entries[i].0.clone();
                proof {
                    lemma_entries_push(out@, (k, c));
                    lemma_entries_push(entries@.subrange(0, i as int), entries[i as int]);
                    assert(entries@.subrange(0, i as int).push(entries[i as int])
                        =~= entries@.subrange(0, i + 1));
                }
                out.push((k, c));
                i = i + 1;
            }
            assert(entries@.subrange(0, entries.len() as int) =~= entries@);
            Value::Object(out)
        },
    }
}

} // verus!
