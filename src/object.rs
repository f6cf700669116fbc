use std::rc::Rc;
use vstd::prelude::*;

use crate::ast::{render_statements, share_block, BlockStatement, StmtM};
use crate::builtins::Builtin;
use crate::environment::Environment;
use crate::hash::keys_sorted;
use crate::text::{bool_text, int_text, push_bool_text, push_int_text};

verus! {

/// The mathematical model of a runtime value.
pub enum Value {
    Integer(int),
    Boolean(bool),
    Str(Seq<char>),
    Return(Box<Value>),
    Error(Seq<char>),
    Function { parameters: Seq<Seq<char>>, scope: Scope, body: Seq<StmtM> },
    Builtin(Builtin),
    Array(Seq<Value>),
    Hash(Seq<(Value, Value)>),
    Null,
}

/// The mathematical model of an environment: local bindings, searched from
/// the front, and an optional enclosing scope.
pub struct Scope {
    pub vars: Seq<(Seq<char>, Value)>,
    pub parent: Option<Box<Scope>>,
}

/// A runtime value.
#[derive(Debug, PartialEq, Eq)]
pub enum Object {
    Integer(isize),
    Boolean(bool),
    String(String),
    Return(Box<Object>),
    Error(String),
    Function { parameters: Vec<String>, environment: Environment, body: Rc<BlockStatement> },
    Builtin(Builtin),
    Array(Vec<Object>),
    Hash(HashEntries),
    Null,
}

pub open spec fn names_model(v: Seq<String>) -> Seq<Seq<char>> {
    Seq::new(v.len(), |i: int| v[i]@)
}

impl Object {
    pub open spec fn model(self) -> Value
        decreases self,
    {
        match self {
            Object::Integer(i) => Value::Integer(i as int),
            Object::Boolean(b) => Value::Boolean(b),
            Object::String(s) => Value::Str(s@),
            Object::Return(v) => Value::Return(Box::new((*v).model())),
            Object::Error(s) => Value::Error(s@),
            Object::Function { parameters, environment, body } => Value::Function {
                parameters: names_model(parameters@),
                scope: environment.model(),
                body: (*body).model(),
            },
            Object::Builtin(b) => Value::Builtin(b),
            Object::Array(v) => Value::Array(
                Seq::new(
                    v@.len(),
                    |i: int|
                        if 0 <= i < v@.len() {
                            v@[i].model()
                        } else {
                            Value::Null
                        },
                ),
            ),
            Object::Hash(h) => Value::Hash(h.model()),
            Object::Null => Value::Null,
        }
    }
}

pub open spec fn objects_model(v: Seq<Object>) -> Seq<Value> {
    Seq::new(v.len(), |i: int| v[i].model())
}

pub open spec fn pairs_model(v: Seq<(Object, Object)>) -> Seq<(Value, Value)> {
    Seq::new(v.len(), |i: int| (v[i].0.model(), v[i].1.model()))
}

pub proof fn lemma_array_model(v: Vec<Object>)
    ensures
        Object::Array(v).model() == Value::Array(objects_model(v@)),
{
    let m = Object::Array(v).model();
    assert(objects_model(v@) =~= m->Array_0);
}

/// The entries of a hash value: each key once, in key order.
#[derive(Debug, PartialEq, Eq)]
pub struct HashEntries {
    entries: Vec<(Object, Object)>,
}

impl HashEntries {
    /// The entries, in order.
    pub closed spec fn pairs(self) -> Seq<(Object, Object)> {
        self.entries@
    }

    pub closed spec fn model(self) -> Seq<(Value, Value)>
        decreases self,
    {
        Seq::new(
            self.entries@.len(),
            |i: int|
                if 0 <= i < self.entries@.len() {
                    (self.entries@[i].0.model(), self.entries@[i].1.model())
                } else {
                    (Value::Null, Value::Null)
                },
        )
    }

    #[verifier::type_invariant]
    closed spec fn keys_in_order(self) -> bool {
        keys_sorted(pairs_model(self.entries@))
    }

    pub proof fn lemma_model(self)
        ensures
            self.model() == pairs_model(self.pairs()),
    {
        assert(self.model() =~= pairs_model(self.pairs()));
    }

    /// Entries already in key order with each key once.
    pub fn from_sorted(entries: Vec<(Object, Object)>) -> (r: HashEntries)
        requires
            keys_sorted(pairs_model(entries@)),
        ensures
            r.pairs() == entries@,
    {
        HashEntries { entries }
    }

    /// The entries, in key order.
    pub fn entries(&self) -> (r: &Vec<(Object, Object)>)
        ensures
            r@ == self.pairs(),
            keys_sorted(pairs_model(r@)),
    {
        proof {
            use_type_invariant(self);
        }
        &self.entries
    }
}

pub proof fn lemma_hash_model(h: HashEntries)
    ensures
        Object::Hash(h).model() == Value::Hash(pairs_model(h.pairs())),
{
    h.lemma_model();
}

/// Only `false` and null are falsy.
pub open spec fn truthy(v: Value) -> bool {
    !(v == Value::Boolean(false) || v == Value::Null)
}

/// The name of a value's kind, as error messages show it.
pub open spec fn kind_text(v: Value) -> Seq<char> {
    match v {
        Value::Integer(_) => "INTEGER"@,
        Value::Boolean(_) => "BOOLEAN"@,
        Value::Str(_) => "STRING"@,
        Value::Return(_) => "RETURN"@,
        Value::Error(_) => "ERROR"@,
        Value::Function { .. } => "FUNCTION"@,
        Value::Builtin(_) => "BUILTIN"@,
        Value::Array(_) => "ARRAY"@,
        Value::Hash(_) => "HASH"@,
        Value::Null => "NULL"@,
    }
}

pub open spec fn names_text(s: Seq<Seq<char>>) -> Seq<char>
    decreases s.len(),
{
    if s.len() == 0 {
        Seq::empty()
    } else if s.len() == 1 {
        s[0]
    } else {
        names_text(s.drop_last()) + ", "@ + s.last()
    }
}

pub open spec fn inspect_list(s: Seq<Value>) -> Seq<char>
    decreases s,
{
    if s.len() == 0 {
        Seq::empty()
    } else if s.len() == 1 {
        inspect_text(s[0])
    } else {
        inspect_list(s.drop_last()) + ", "@ + inspect_text(s.last())
    }
}

pub open spec fn inspect_pairs(s: Seq<(Value, Value)>) -> Seq<char>
    decreases s,
{
    if s.len() == 0 {
        Seq::empty()
    } else if s.len() == 1 {
        inspect_text(s[0].0) + ": "@ + inspect_text(s[0].1)
    } else {
        inspect_pairs(s.drop_last()) + ", "@ + inspect_text(s.last().0) + ": "@ + inspect_text(
            s.last().1,
        )
    }
}

/// The display form of a value.
pub open spec fn inspect_text(v: Value) -> Seq<char>
    decreases v,
{
    match v {
        Value::Integer(i) => int_text(i),
        Value::Boolean(b) => bool_text(b),
        Value::Str(s) => s,
        Value::Return(inner) => inspect_text(*inner),
        Value::Error(m) => "Error: "@ + m,
        Value::Function { parameters, scope, body } => "fn("@ + names_text(parameters) + ") { "@
            + render_statements(body) + " }"@,
        Value::Builtin(_) => "builtin function"@,
        Value::Array(items) => "["@ + inspect_list(items) + "]"@,
        Value::Hash(pairs) => "{"@ + inspect_pairs(pairs) + "}"@,
        Value::Null => "null"@,
    }
}

impl Object {
    /// A copy with the same model.
    pub fn duplicate(&self) -> (r: Object)
        ensures
            r.model() == self.model(),
        decreases self,
    {
        match self {
            Object::Integer(i) => Object::Integer(*i),
            Object::Boolean(b) => Object::Boolean(*b),
            Object::String(s) => Object::String(s.clone()),
            Object::Return(v) => Object::Return(Box::new((**v).duplicate())),
            Object::Error(s) => Object::Error(s.clone()),
            Object::Function { parameters, environment, body } => {
                let params = copy_names(parameters);
                let r = Object::Function {
                    parameters: params,
                    environment: environment.duplicate(),
                    body: share_block(body),
                };
                r
            },
            Object::Builtin(b) => Object::Builtin(*b),
            Object::Array(v) => {
                let out = duplicate_all(v);
                proof {
                    lemma_array_model(out);
                    lemma_array_model(*v);
                    assert(objects_model(out@) =~= objects_model(v@));
                }
                Object::Array(out)
            },
            Object::Hash(h) => {
                proof {
                    use_type_invariant(h);
                }
                let v = &h.entries;
                let out = duplicate_pairs(v);
                proof {
                    lemma_hash_model(*h);
                    assert(pairs_model(out@) =~= pairs_model(v@));
                }
                let r = HashEntries::from_sorted(out);
                proof {
                    lemma_hash_model(r);
                }
                Object::Hash(r)
            },
            Object::Null => Object::Null,
        }
    }
}

/// Copies each object of a list.
pub fn duplicate_all(v: &Vec<Object>) -> (out: Vec<Object>)
    ensures
        out@.len() == v@.len(),
        forall|j: int| 0 <= j < v@.len() ==> #[trigger] out@[j].model() == v@[j].model(),
    decreases v,
{
    let mut out: Vec<Object> = Vec::new();
    let mut i: usize = 0;
    while i < v.len()
        invariant
            i <= v@.len(),
            out@.len() == i,
            forall|j: int| 0 <= j < i ==> #[trigger] out@[j].model() == v@[j].model(),
        decreases v@.len() - i,
    {
        out.push(v[i].duplicate());
        i = i + 1;
    }
    out
}

/// Copies each entry of a list of pairs.
pub fn duplicate_pairs(v: &Vec<(Object, Object)>) -> (out: Vec<(Object, Object)>)
    ensures
        out@.len() == v@.len(),
        forall|j: int|
            0 <= j < v@.len() ==> #[trigger] out@[j].0.model() == v@[j].0.model()
                && out@[j].1.model() == v@[j].1.model(),
    decreases v,
{
    let mut out: Vec<(Object, Object)> = Vec::new();
    let mut i: usize = 0;
    while i < v.len()
        invariant
            i <= v@.len(),
            out@.len() == i,
            forall|j: int|
                0 <= j < i ==> #[trigger] out@[j].0.model() == v@[j].0.model()
                    && out@[j].1.model() == v@[j].1.model(),
        decreases v@.len() - i,
    {
        out.push((v[i].0.duplicate(), v[i].1.duplicate()));
        i = i + 1;
    }
    out
}

/// Copies a list of names.
pub fn copy_names(v: &Vec<String>) -> (r: Vec<String>)
    ensures
        r@ == v@,
{
    let mut out: Vec<String> = Vec::new();
    let mut i: usize = 0;
    while i < v.len()
        invariant
            i <= v@.len(),
            out@ == v@.subrange(0, i as int),
        decreases v@.len() - i,
    {
        out.push(v[i].clone());
        i = i + 1;
        assert(out@ =~= v@.subrange(0, i as int));
    }
    assert(v@.subrange(0, i as int) =~= v@);
    out
}

impl Clone for Object {
    fn clone(&self) -> (r: Self)
        ensures
            r.model() == self.model(),
    {
        self.duplicate()
    }
}

impl Object {
    /// Whether the value counts as true in a condition: everything but
    /// `false` and null does.
    pub fn is_truthy(&self) -> (r: bool)
        ensures
            r == truthy(self.model()),
    {
        match self {
            Object::Boolean(b) => *b,
            Object::Null => false,
            _ => true,
        }
    }

    /// The name of the value's kind.
    pub fn kind(&self) -> (r: &'static str)
        ensures
            r@ == kind_text(self.model()),
    {
        match self {
            Object::Integer(_) => "INTEGER",
            Object::Boolean(_) => "BOOLEAN",
            Object::String(_) => "STRING",
            Object::Return(_) => "RETURN",
            Object::Error(_) => "ERROR",
            Object::Function { .. } => "FUNCTION",
            Object::Builtin(_) => "BUILTIN",
            Object::Array(_) => "ARRAY",
            Object::Hash(_) => "HASH",
            Object::Null => "NULL",
        }
    }

    /// Appends the display form of the value.
    pub fn push_inspect(&self, out: &mut String)
        ensures
            final(out)@ == old(out)@ + inspect_text(self.model()),
        decreases self,
    {
        let ghost start = out@;
        match self {
            Object::Integer(i) => push_int_text(out, *i),
            Object::Boolean(b) => push_bool_text(out, *b),
            Object::String(s) => out.append(s.as_str()),
            Object::Return(v) => v.push_inspect(out),
            Object::Error(m) => {
                out.append("Error: ");
                out.append(m.as_str());
                assert(out@ =~= start + inspect_text(self.model()));
            },
            Object::Function { parameters, body, .. } => {
                out.append("fn(");
                push_names(parameters, out);
                out.append(") { ");
                body.push_text(out);
                out.append(" }");
                assert(out@ =~= start + inspect_text(self.model()));
            },
            Object::Builtin(_) => out.append("builtin function"),
            Object::Array(v) => {
                proof {
                    lemma_array_model(*v);
                }
                out.append("[");
                push_inspect_list(v, out);
                out.append("]");
                assert(out@ =~= start + inspect_text(self.model()));
            },
            Object::Hash(h) => {
                proof {
                    lemma_hash_model(*h);
                }
                out.append("{");
                push_inspect_pairs(&h.entries, out);
                out.append("}");
                assert(out@ =~= start + inspect_text(self.model()));
            },
            Object::Null => out.append("null"),
        }
    }

    /// The display form of the value.
    pub fn inspect(&self) -> (r: String)
        ensures
            r@ == inspect_text(self.model()),
    {
        let mut out = String::new();
        self.push_inspect(&mut out);
        assert(out@ =~= inspect_text(self.model()));
        out
    }
}

fn push_names(names: &Vec<String>, out: &mut String)
    ensures
        final(out)@ == old(out)@ + names_text(names_model(names@)),
{
    let ghost start = out@;
    let ghost all = names_model(names@);
    let mut i: usize = 0;
    while i < names.len()
        invariant
            i <= names@.len(),
            all == names_model(names@),
            out@ == start + names_text(all.subrange(0, i as int)),
        decreases names@.len() - i,
    {
        assert(all.subrange(0, i as int + 1).drop_last() =~= all.subrange(0, i as int));
        if i > 0 {
            out.append(", ");
        }
        out.append(names[i].as_str());
        i = i + 1;
        assert(out@ =~= start + names_text(all.subrange(0, i as int)));
    }
    assert(all.subrange(0, i as int) =~= all);
}

fn push_inspect_list(items: &Vec<Object>, out: &mut String)
    ensures
        final(out)@ == old(out)@ + inspect_list(objects_model(items@)),
    decreases items,
{
    let ghost start = out@;
    let ghost all = objects_model(items@);
    let mut i: usize = 0;
    while i < items.len()
        invariant
            i <= items@.len(),
            all == objects_model(items@),
            out@ == start + inspect_list(all.subrange(0, i as int)),
        decreases items@.len() - i,
    {
        assert(all.subrange(0, i as int + 1).drop_last() =~= all.subrange(0, i as int));
        if i > 0 {
            out.append(", ");
        }
        items[i].push_inspect(out);
        i = i + 1;
        assert(out@ =~= start + inspect_list(all.subrange(0, i as int)));
    }
    assert(all.subrange(0, i as int) =~= all);
}

fn push_inspect_pairs(items: &Vec<(Object, Object)>, out: &mut String)
    ensures
        final(out)@ == old(out)@ + inspect_pairs(pairs_model(items@)),
    decreases items,
{
    let ghost start = out@;
    let ghost all = pairs_model(items@);
    let mut i: usize = 0;
    while i < items.len()
        invariant
            i <= items@.len(),
            all == pairs_model(items@),
            out@ == start + inspect_pairs(all.subrange(0, i as int)),
        decreases items@.len() - i,
    {
        assert(all.subrange(0, i as int + 1).drop_last() =~= all.subrange(0, i as int));
        if i > 0 {
            out.append(", ");
        }
        items[i].0.push_inspect(out);
        out.append(": ");
        items[i].1.push_inspect(out);
        i = i + 1;
        assert(out@ =~= start + inspect_pairs(all.subrange(0, i as int)));
    }
    assert(all.subrange(0, i as int) =~= all);
}

impl From<isize> for Object {
    fn from(value: isize) -> Self {
        Object::Integer(value)
    }
}

impl vstd::std_specs::convert::FromSpecImpl<isize> for Object {
    open spec fn obeys_from_spec() -> bool {
        true
    }

    open spec fn from_spec(v: isize) -> Self {
        Object::Integer(v)
    }
}

impl From<bool> for Object {
    fn from(value: bool) -> Self {
        Object::Boolean(value)
    }
}

impl vstd::std_specs::convert::FromSpecImpl<bool> for Object {
    open spec fn obeys_from_spec() -> bool {
        true
    }

    open spec fn from_spec(v: bool) -> Self {
        Object::Boolean(v)
    }
}

impl From<String> for Object {
    fn from(value: String) -> Self {
        Object::String(value)
    }
}

impl vstd::std_specs::convert::FromSpecImpl<String> for Object {
    open spec fn obeys_from_spec() -> bool {
        true
    }

    open spec fn from_spec(v: String) -> Self {
        Object::String(v)
    }
}

impl From<Vec<Object>> for Object {
    fn from(value: Vec<Object>) -> Self {
        Object::Array(value)
    }
}

impl vstd::std_specs::convert::FromSpecImpl<Vec<Object>> for Object {
    open spec fn obeys_from_spec() -> bool {
        true
    }

    open spec fn from_spec(v: Vec<Object>) -> Self {
        Object::Array(v)
    }
}

impl Default for Object {
    fn default() -> (r: Self)
        ensures
            r == Object::Null,
    {
        Object::Null
    }
}

} // verus!
