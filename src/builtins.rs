use vstd::prelude::*;

use crate::object::{duplicate_all, inspect_text, kind_text, objects_model, lemma_array_model, Object, Value};
use crate::operators::int_result;
use crate::text::{int_text, push_int_text, push_nat_text, str_eq};

verus! {

/// The native functions that programs can call by name.
#[derive(Debug, PartialEq, Eq, Structural, Clone, Copy)]
pub enum Builtin {
    Len,
    Puts,
    Print,
    Exit,
    First,
    Last,
    Rest,
    Push,
}

pub open spec fn builtin_named(name: Seq<char>) -> Option<Builtin> {
    if name == "len"@ {
        Some(Builtin::Len)
    } else if name == "puts"@ {
        Some(Builtin::Puts)
    } else if name == "print"@ {
        Some(Builtin::Print)
    } else if name == "exit"@ {
        Some(Builtin::Exit)
    } else if name == "first"@ {
        Some(Builtin::First)
    } else if name == "last"@ {
        Some(Builtin::Last)
    } else if name == "rest"@ {
        Some(Builtin::Rest)
    } else if name == "push"@ {
        Some(Builtin::Push)
    } else {
        None
    }
}

impl Builtin {
    /// The builtin as a callable value.
    pub fn get(&self) -> (r: Object)
        ensures
            r == Object::Builtin(*self),
    {
        Object::Builtin(*self)
    }

    /// The builtin registered under `name`, if any.
    pub fn from_str(name: &str) -> (r: Option<Builtin>)
        ensures
            r == builtin_named(name@),
    {
        if str_eq(name, "len") {
            Some(Builtin::Len)
        } else if str_eq(name, "puts") {
            Some(Builtin::Puts)
        } else if str_eq(name, "print") {
            Some(Builtin::Print)
        } else if str_eq(name, "exit") {
            Some(Builtin::Exit)
        } else if str_eq(name, "first") {
            Some(Builtin::First)
        } else if str_eq(name, "last") {
            Some(Builtin::Last)
        } else if str_eq(name, "rest") {
            Some(Builtin::Rest)
        } else if str_eq(name, "push") {
            Some(Builtin::Push)
        } else {
            None
        }
    }
}

/// What builtins hand to the host: lines to print and a requested exit code.
#[derive(Debug, PartialEq, Eq)]
pub struct Output {
    pub lines: Vec<String>,
    pub exit_code: Option<isize>,
}

impl Output {
    pub open spec fn model(&self) -> Out {
        Out { lines: Seq::new(self.lines@.len(), |i: int| self.lines@[i]@), exit_code: self.exit_code }
    }

    pub fn new() -> (r: Output)
        ensures
            r.lines@.len() == 0,
            r.exit_code is None,
            r.model() == (Out { lines: Seq::empty(), exit_code: None }),
    {
        let r = Output { lines: Vec::new(), exit_code: None };
        assert(r.model().lines =~= Seq::<Seq<char>>::empty());
        r
    }
}

/// The error value by which `exit` stops evaluation: like any error it
/// ends every enclosing statement sequence and call.
pub open spec fn exit_message(code: int) -> Seq<char> {
    "exit with code "@ + int_text(code)
}

/// The number of bytes that a character takes in UTF-8.
pub open spec fn char_width(c: char) -> int {
    if (c as u32) < 0x80 {
        1
    } else if (c as u32) < 0x800 {
        2
    } else if (c as u32) < 0x10000 {
        3
    } else {
        4
    }
}

/// The length of a string in UTF-8 bytes.
pub open spec fn utf8_len(s: Seq<char>) -> int
    decreases s.len(),
{
    if s.len() == 0 {
        0
    } else {
        utf8_len(s.drop_last()) + char_width(s.last())
    }
}

pub open spec fn arity_message(got: int, expected: Seq<char>) -> Seq<char> {
    "wrong number of arguments. Got "@ + int_text(got) + ", expected "@ + expected
}

pub open spec fn unsupported_message(name: Seq<char>, v: Value) -> Seq<char> {
    "argument to \""@ + name + "\" not supported, got "@ + kind_text(v)
}

/// The result of calling a builtin on evaluated arguments.
pub open spec fn apply_builtin(b: Builtin, args: Seq<Value>) -> Value {
    match b {
        Builtin::Len => if args.len() != 1 {
            Value::Error(arity_message(args.len() as int, "1"@))
        } else {
            match args[0] {
                Value::Str(s) => int_result(utf8_len(s)),
                Value::Array(a) => int_result(a.len() as int),
                Value::Error(m) => Value::Error(m),
                v => Value::Error(unsupported_message("len"@, v)),
            }
        },
        Builtin::Puts | Builtin::Print => Value::Null,
        Builtin::Exit => if args.len() > 1 {
            Value::Error(arity_message(args.len() as int, "0 or 1"@))
        } else if args.len() == 0 {
            Value::Error(exit_message(0))
        } else {
            match args[0] {
                Value::Integer(c) => Value::Error(exit_message(c)),
                Value::Error(m) => Value::Error(m),
                v => Value::Error(unsupported_message("exit"@, v)),
            }
        },
        Builtin::First => if args.len() != 1 {
            Value::Error(arity_message(args.len() as int, "1"@))
        } else {
            match args[0] {
                Value::Array(a) => if a.len() == 0 { Value::Null } else { a[0] },
                Value::Error(m) => Value::Error(m),
                v => Value::Error(unsupported_message("first"@, v)),
            }
        },
        Builtin::Last => if args.len() != 1 {
            Value::Error(arity_message(args.len() as int, "1"@))
        } else {
            match args[0] {
                Value::Array(a) => if a.len() == 0 { Value::Null } else { a.last() },
                Value::Error(m) => Value::Error(m),
                v => Value::Error(unsupported_message("last"@, v)),
            }
        },
        Builtin::Rest => if args.len() != 1 {
            Value::Error(arity_message(args.len() as int, "1"@))
        } else {
            match args[0] {
                Value::Array(a) => if a.len() == 0 { Value::Null } else { Value::Array(a.drop_first()) },
                Value::Error(m) => Value::Error(m),
                v => Value::Error(unsupported_message("rest"@, v)),
            }
        },
        Builtin::Push => if args.len() != 2 {
            Value::Error(arity_message(args.len() as int, "2"@))
        } else {
            match (args[0], args[1]) {
                (Value::Array(a), x) => Value::Array(a.push(x)),
                (Value::Error(m), Value::Error(n)) => Value::Error(m + " "@ + n),
                (Value::Error(m), _) => Value::Error(m),
                (_, Value::Error(n)) => Value::Error(n),
                _ => Value::Error(unsupported_message("push"@, args[0])),
            }
        },
    }
}

/// The lines that a call prints: the display form of each argument, for
/// `puts` and `print`; none otherwise.
pub open spec fn printed_texts(b: Builtin, args: Seq<Value>) -> Seq<Seq<char>> {
    if b == Builtin::Puts || b == Builtin::Print {
        Seq::new(args.len(), |i: int| inspect_text(args[i]))
    } else {
        Seq::empty()
    }
}

/// The exit code after a call: `exit` with an integer argument, or with none
/// (code 0), requests an exit; every other call leaves the request as it was.
pub open spec fn exit_request(b: Builtin, args: Seq<Value>, before: Option<isize>) -> Option<isize> {
    if b == Builtin::Exit && args.len() == 0 {
        Some(0)
    } else if b == Builtin::Exit && args.len() == 1 && args[0] is Integer {
        Some(args[0]->Integer_0 as isize)
    } else {
        before
    }
}

/// The model of what builtins have handed to the host so far.
pub struct Out {
    pub lines: Seq<Seq<char>>,
    pub exit_code: Option<isize>,
}

/// The effects of a builtin call on the host output.
pub open spec fn builtin_effects(b: Builtin, args: Seq<Value>, o: Out) -> Out {
    Out { lines: o.lines + printed_texts(b, args), exit_code: exit_request(b, args, o.exit_code) }
}

fn arity_error(got: usize, expected: &str) -> (r: Object)
    ensures
        r.model() == Value::Error(arity_message(got as int, expected@)),
{
    let mut m = String::from_str("wrong number of arguments. Got ");
    push_nat_text(&mut m, got);
    m.append(", expected ");
    m.append(expected);
    Object::Error(m)
}

fn unsupported_error(name: &str, v: &Object) -> (r: Object)
    ensures
        r.model() == Value::Error(unsupported_message(name@, v.model())),
{
    let mut m = String::from_str("argument to \"");
    m.append(name);
    m.append("\" not supported, got ");
    m.append(v.kind());
    Object::Error(m)
}

fn exit_error(code: isize) -> (r: Object)
    ensures
        r.model() == Value::Error(exit_message(code as int)),
{
    let mut m = String::from_str("exit with code ");
    push_int_text(&mut m, code);
    Object::Error(m)
}

fn width(c: char) -> (r: usize)
    ensures
        r as int == char_width(c),
{
    let u = c as u32;
    if u < 0x80 {
        1
    } else if u < 0x800 {
        2
    } else if u < 0x10000 {
        3
    } else {
        4
    }
}

/// The length of `s` in UTF-8 bytes, as an integer value.
fn byte_length(s: &str) -> (r: Object)
    ensures
        r.model() == int_result(utf8_len(s@)),
{
    let mut n: usize = 0;
    let mut i: usize = 0;
    let len = s.unicode_len();
    while i < len
        invariant
            len == s@.len(),
            i <= len,
            n as int == utf8_len(s@.subrange(0, i as int)),
            n <= isize::MAX,
        decreases len - i,
    {
        let w = width(s.get_char(i));
        assert(s@.subrange(0, i as int + 1).drop_last() =~= s@.subrange(0, i as int));
        if n > isize::MAX as usize - w {
            proof {
                lemma_utf8_len_prefix(s@, i as int + 1);
            }
            return Object::Error(String::from_str("integer overflow"));
        }
        n = n + w;
        i = i + 1;
    }
    assert(s@.subrange(0, len as int) =~= s@);
    Object::Integer(n as isize)
}

/// A prefix is no longer in bytes than the whole.
proof fn lemma_utf8_len_prefix(s: Seq<char>, k: int)
    requires
        0 <= k <= s.len(),
    ensures
        utf8_len(s.subrange(0, k)) <= utf8_len(s),
    decreases s.len() - k,
{
    if k < s.len() {
        lemma_utf8_len_prefix(s, k + 1);
        assert(s.subrange(0, k + 1).drop_last() =~= s.subrange(0, k));
    } else {
        assert(s.subrange(0, k) =~= s);
    }
}

fn length_object(n: usize) -> (r: Object)
    ensures
        r.model() == int_result(n as int),
{
    if n <= isize::MAX as usize {
        Object::Integer(n as isize)
    } else {
        Object::Error(String::from_str("integer overflow"))
    }
}

impl Builtin {
    /// Calls the builtin on evaluated arguments. Printing builtins append the
    /// display form of each argument to `out.lines`; `exit` records its code.
    pub fn apply(&self, args: &Vec<Object>, out: &mut Output) -> (r: Object)
        ensures
            r.model() == apply_builtin(*self, objects_model(args@)),
            final(out).model() == builtin_effects(*self, objects_model(args@), old(out).model()),
    {
        let ghost a = objects_model(args@);
        assert(printed_texts(*self, a) =~= Seq::<Seq<char>>::empty() || *self == Builtin::Puts
            || *self == Builtin::Print);
        assert(old(out).model().lines + Seq::<Seq<char>>::empty() =~= old(out).model().lines);
        match self {
            Builtin::Len => {
                if args.len() != 1 {
                    return arity_error(args.len(), "1");
                }
                match &args[0] {
                    Object::String(s) => byte_length(s.as_str()),
                    Object::Array(v) => {
                        proof {
                            lemma_array_model(*v);
                        }
                        length_object(v.len())
                    },
                    Object::Error(m) => Object::Error(m.clone()),
                    other => unsupported_error("len", other),
                }
            },
            Builtin::Puts | Builtin::Print => {
                let ghost start = out.lines@;
                let mut i: usize = 0;
                while i < args.len()
                    invariant
                        i <= args@.len(),
                        out.exit_code == old(out).exit_code,
                        out.lines@.len() == start.len() + i,
                        forall|j: int| 0 <= j < start.len() ==> #[trigger] out.lines@[j] == start[j],
                        forall|j: int|
                            0 <= j < i ==> #[trigger] out.lines@[start.len() + j]@ == inspect_text(
                                args@[j].model(),
                            ),
                    decreases args@.len() - i,
                {
                    out.lines.push(args[i].inspect());
                    i = i + 1;
                }
                let ghost want = old(out).model().lines + printed_texts(*self, objects_model(args@));
                assert forall|j: int| 0 <= j < out.lines@.len() implies #[trigger] out.model().lines[j]
                    == want[j] by {
                    if j >= start.len() {
                        let k = j - start.len();
                        assert(out.lines@[start.len() + k]@ == inspect_text(args@[k].model()));
                        assert(objects_model(args@)[k] == args@[k].model());
                    }
                }
                assert(out.model().lines =~= want);
                Object::Null
            },
            Builtin::Exit => {
                if args.len() > 1 {
                    return arity_error(args.len(), "0 or 1");
                }
                if args.len() == 0 {
                    out.exit_code = Some(0);
                    return exit_error(0);
                }
                match &args[0] {
                    Object::Integer(code) => {
                        out.exit_code = Some(*code);
                        exit_error(*code)
                    },
                    Object::Error(m) => Object::Error(m.clone()),
                    other => unsupported_error("exit", other),
                }
            },
            Builtin::First => {
                if args.len() != 1 {
                    return arity_error(args.len(), "1");
                }
                match &args[0] {
                    Object::Array(v) => {
                        proof {
                            lemma_array_model(*v);
                        }
                        if v.len() == 0 {
                            Object::Null
                        } else {
                            v[0].duplicate()
                        }
                    },
                    Object::Error(m) => Object::Error(m.clone()),
                    other => unsupported_error("first", other),
                }
            },
            Builtin::Last => {
                if args.len() != 1 {
                    return arity_error(args.len(), "1");
                }
                match &args[0] {
                    Object::Array(v) => {
                        proof {
                            lemma_array_model(*v);
                        }
                        if v.len() == 0 {
                            Object::Null
                        } else {
                            v[v.len() - 1].duplicate()
                        }
                    },
                    Object::Error(m) => Object::Error(m.clone()),
                    other => unsupported_error("last", other),
                }
            },
            Builtin::Rest => {
                if args.len() != 1 {
                    return arity_error(args.len(), "1");
                }
                match &args[0] {
                    Object::Array(v) => {
                        proof {
                            lemma_array_model(*v);
                        }
                        if v.len() == 0 {
                            Object::Null
                        } else {
                            let mut rest: Vec<Object> = Vec::new();
                            let mut i: usize = 1;
                            while i < v.len()
                                invariant
                                    1 <= i <= v@.len(),
                                    rest@.len() == i - 1,
                                    forall|j: int|
                                        0 <= j < i - 1 ==> #[trigger] rest@[j].model()
                                            == v@[j + 1].model(),
                                decreases v@.len() - i,
                            {
                                rest.push(v[i].duplicate());
                                i = i + 1;
                            }
                            proof {
                                lemma_array_model(rest);
                                assert(objects_model(rest@) =~= objects_model(v@).drop_first());
                            }
                            Object::Array(rest)
                        }
                    },
                    Object::Error(m) => Object::Error(m.clone()),
                    other => unsupported_error("rest", other),
                }
            },
            Builtin::Push => {
                if args.len() != 2 {
                    return arity_error(args.len(), "2");
                }
                match (&args[0], &args[1]) {
                    (Object::Array(v), item) => {
                        proof {
                            lemma_array_model(*v);
                        }
                        let mut items = duplicate_all(v);
                        items.push(item.duplicate());
                        proof {
                            lemma_array_model(items);
                            assert(objects_model(items@) =~= objects_model(v@).push(item.model()));
                        }
                        Object::Array(items)
                    },
                    (Object::Error(m), Object::Error(n)) => {
                        let mut s = m.clone();
                        s.append(" ");
                        s.append(n.as_str());
                        Object::Error(s)
                    },
                    (Object::Error(m), _) => Object::Error(m.clone()),
                    (_, Object::Error(n)) => Object::Error(n.clone()),
                    _ => unsupported_error("push", &args[0]),
                }
            },
        }
    }
}

} // verus!
