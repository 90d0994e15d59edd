//! The parts of Rust syntax that the generators read, held as plain values.
//!
//! A front end turns the compiler's syntax tree into these values: an
//! identifier is its text (`to_string`, so a raw identifier keeps its `r#`),
//! an integer literal is its base-10 digits.
use vstd::prelude::*;

verus! {

/// The value part of an attribute argument.
pub enum Value {
    /// A string literal, by its contents.
    Str(String),
    /// An integer literal, by its base-10 digits (suffix left out).
    Int(String),
    /// Any other literal, or an expression that is no literal.
    Other,
}

/// One argument inside the parentheses of an attribute such as
/// `#[wgsl_gpu(location = 3, arguments)]`.
pub enum Arg {
    /// A bare name: `arguments`.
    Flag(String),
    /// A name with a value: `location = 3`.
    Expr(String, Value),
    /// A name with a nested list: `inner(...)`; its contents are never read.
    List(String),
    /// A literal with no name: `"text"`.
    Lit(Value),
}

/// An attribute on an item, a field or a parameter.
pub struct Attribute {
    /// The attribute's path when it is a single identifier (`wgsl_gpu`,
    /// `spirv`), else `None`.
    pub ident: Option<String>,
    /// The arguments in its parentheses, or the message of the syntax error
    /// met while reading them.
    pub args: Result<Vec<Arg>, String>,
}

/// The length expression of an array type.
pub enum ArrayLen {
    /// An integer literal, by its base-10 digits.
    Int(String),
    /// A literal that is no integer.
    OtherLit,
    /// An expression that is no literal.
    NotLit,
}

/// The shape of a type, as far as the generators read it.
pub enum TypeShape {
    /// A path type, by the identifiers of its segments.
    Path(Vec<String>),
    /// An array type: element type and length.
    Array(Box<TypeShape>, ArrayLen),
    /// A reference type, by the type it refers to.
    Reference(Box<TypeShape>),
    /// A macro in type position, such as `Image!(...)`.
    Macro,
    /// Any other type.
    Other,
}

/// A named field of a struct.
pub struct Field {
    pub ident: String,
    pub ty: TypeShape,
    pub attrs: Vec<Attribute>,
}

/// A typed parameter of a function.
pub struct Param {
    pub attrs: Vec<Attribute>,
    pub ty: TypeShape,
}

/// A parameter of a function.
pub enum FnInput {
    /// `self`, `&self` or `&mut self`.
    Receiver,
    Typed(Param),
}

/// A function item.
pub struct ItemFn {
    pub ident: String,
    pub attrs: Vec<Attribute>,
    pub inputs: Vec<FnInput>,
    /// The return type; `None` when the function returns `()` implicitly.
    pub output: Option<TypeShape>,
}

/// A copy of a value.
pub fn copy_value(v: &Value) -> (r: Value)
    ensures
        r == *v,
{
    match v {
        Value::Str(s) => Value::Str(s.clone()),
        Value::Int(d) => Value::Int(d.clone()),
        Value::Other => Value::Other,
    }
}

/// A copy of an argument.
pub fn copy_arg(a: &Arg) -> (r: Arg)
    ensures
        r == *a,
{
    match a {
        Arg::Flag(n) => Arg::Flag(n.clone()),
        Arg::Expr(n, v) => Arg::Expr(n.clone(), copy_value(v)),
        Arg::List(n) => Arg::List(n.clone()),
        Arg::Lit(v) => Arg::Lit(copy_value(v)),
    }
}

/// Appends copies of `more` to `args`.
pub fn append_args(args: &mut Vec<Arg>, more: &Vec<Arg>)
    ensures
        final(args)@ == old(args)@ + more@,
{
    let ghost a0 = old(args)@;
    let mut i: usize = 0;
    while i < more.len()
        invariant
            i <= more.len(),
            args@ == a0 + more@.subrange(0, i as int),
        decreases more.len() - i,
    {
        args.push(copy_arg(&more[i]));
        assert(more@.subrange(0, i + 1) =~= more@.subrange(0, i as int).push(more@[i as int]));
        i = i + 1;
    }
    assert(more@.subrange(0, i as int) =~= more@);
}

/// The name of an argument; a bare literal has none.
pub open spec fn arg_name(a: Arg) -> Option<Seq<char>> {
    match a {
        Arg::Flag(n) => Some(n@),
        Arg::Expr(n, _) => Some(n@),
        Arg::List(n) => Some(n@),
        Arg::Lit(_) => None,
    }
}

pub open spec fn arg_is(a: Arg, name: Seq<char>) -> bool {
    arg_name(a) == Some(name)
}

/// The attribute's path is the single identifier `name`.
pub open spec fn attr_is(a: Attribute, name: Seq<char>) -> bool {
    a.ident matches Some(i) && i@ == name
}

/// The index of the first element of `s` with property `p`.
pub open spec fn first_match<T>(s: Seq<T>, p: spec_fn(T) -> bool) -> Option<int>
    decreases s.len(),
{
    if s.len() == 0 {
        None
    } else if p(s[0]) {
        Some(0)
    } else {
        match first_match(s.drop_first(), p) {
            Some(i) => Some(i + 1),
            None => None,
        }
    }
}

/// `first_match` is the least index with the property.
pub proof fn lemma_first_match<T>(s: Seq<T>, p: spec_fn(T) -> bool)
    ensures
        first_match(s, p) matches Some(i) ==> 0 <= i < s.len() && p(s[i]) && forall|j: int|
            0 <= j < i ==> !p(#[trigger] s[j]),
        first_match(s, p) is None ==> forall|j: int| 0 <= j < s.len() ==> !p(#[trigger] s[j]),
    decreases s.len(),
{
    if s.len() > 0 && !p(s[0]) {
        lemma_first_match(s.drop_first(), p);
        assert forall|j: int| 1 <= j < s.len() implies s[j] == s.drop_first()[j - 1] by {}
    }
}

/// The converse: the least index with the property is `first_match`.
pub proof fn lemma_first_match_unique<T>(s: Seq<T>, p: spec_fn(T) -> bool, i: int)
    requires
        0 <= i < s.len(),
        p(s[i]),
        forall|j: int| 0 <= j < i ==> !p(#[trigger] s[j]),
    ensures
        first_match(s, p) == Some(i),
    decreases s.len(),
{
    if i > 0 {
        assert(!p(s[0]));
        assert forall|j: int| 0 <= j < i - 1 implies !p(#[trigger] s.drop_first()[j]) by {
            assert(s.drop_first()[j] == s[j + 1]);
        }
        lemma_first_match_unique(s.drop_first(), p, i - 1);
    }
}

pub proof fn lemma_first_match_none<T>(s: Seq<T>, p: spec_fn(T) -> bool)
    requires
        forall|j: int| 0 <= j < s.len() ==> !p(#[trigger] s[j]),
    ensures
        first_match(s, p) is None,
{
    lemma_first_match(s, p);
}

/// The property of being an argument named `name`.
pub open spec fn named(name: Seq<char>) -> spec_fn(Arg) -> bool {
    |a: Arg| arg_is(a, name)
}

/// The property of being an attribute whose path is `name`.
pub open spec fn attr_named(name: Seq<char>) -> spec_fn(Attribute) -> bool {
    |a: Attribute| attr_is(a, name)
}

/// The first match in `s + t` is the first in `s`, else the first in `t`.
pub proof fn lemma_first_match_concat<T>(s: Seq<T>, t: Seq<T>, p: spec_fn(T) -> bool)
    ensures
        first_match(s + t, p) == match first_match(s, p) {
            Some(i) => Some(i),
            None => match first_match(t, p) {
                Some(j) => Some(j + s.len()),
                None => None,
            },
        },
    decreases s.len(),
{
    if s.len() > 0 {
        assert((s + t).drop_first() =~= s.drop_first() + t);
        assert((s + t)[0] == s[0]);
        lemma_first_match_concat(s.drop_first(), t, p);
    } else {
        assert(s + t =~= t);
    }
}

/// The first argument named `name`.
pub open spec fn find_arg(args: Seq<Arg>, name: Seq<char>) -> Option<Arg> {
    match first_match(args, named(name)) {
        Some(i) => Some(args[i]),
        None => None,
    }
}

/// Some argument is named `name`.
pub open spec fn has_arg(args: Seq<Arg>, name: Seq<char>) -> bool {
    exists|i: int| 0 <= i < args.len() && arg_is(#[trigger] args[i], name)
}

/// Some argument is named `name` exactly when a first one is found.
pub proof fn lemma_has_find(args: Seq<Arg>, name: Seq<char>)
    ensures
        has_arg(args, name) <==> find_arg(args, name) is Some,
        find_arg(args, name) matches Some(a) ==> arg_is(a, name),
{
    lemma_first_match(args, named(name));
    if has_arg(args, name) {
        let i = choose|i: int| 0 <= i < args.len() && arg_is(#[trigger] args[i], name);
        assert(named(name)(args[i]));
    }
}

/// The index of the first attribute whose path is `name`.
pub open spec fn find_attr(attrs: Seq<Attribute>, name: Seq<char>) -> Option<int> {
    first_match(attrs, attr_named(name))
}

/// `s` has the contents of the literal `lit`.
pub fn text_is(s: &String, lit: &str) -> (b: bool)
    ensures
        b == (s@ == lit@),
{
    *s == lit.to_owned()
}

pub fn arg_named(a: &Arg, name: &str) -> (b: bool)
    ensures
        b == arg_is(*a, name@),
{
    match a {
        Arg::Flag(n) => text_is(n, name),
        Arg::Expr(n, _) => text_is(n, name),
        Arg::List(n) => text_is(n, name),
        Arg::Lit(_) => false,
    }
}

/// Whether the attribute's path is the single identifier `name`.
pub fn attribute_is(a: &Attribute, name: &str) -> (b: bool)
    ensures
        b == attr_is(*a, name@),
{
    match &a.ident {
        Some(i) => text_is(i, name),
        None => false,
    }
}

/// The position of the first argument named `name`.
pub fn position_of_arg(args: &Vec<Arg>, name: &str) -> (r: Option<usize>)
    ensures
        r matches Some(i) ==> first_match(args@, named(name@)) == Some(i as int),
        r is None ==> first_match(args@, named(name@)) is None && !has_arg(
            args@,
            name@,
        ),
{
    let ghost p = named(name@);
    let mut i: usize = 0;
    while i < args.len()
        invariant
            i <= args.len(),
            forall|j: int| 0 <= j < i ==> !named(name@)(#[trigger] args@[j]),
        decreases args.len() - i,
    {
        assert(named(name@)(args@[i as int]) == arg_is(args@[i as int], name@));
        if arg_named(&args[i], name) {
            proof {
                lemma_first_match_unique(args@, named(name@), i as int);
            }
            return Some(i);
        }
        i = i + 1;
    }
    proof {
        lemma_first_match_none(args@, p);
        assert forall|j: int| 0 <= j < args@.len() implies !arg_is(#[trigger] args@[j], name@) by {
            assert(!p(args@[j]));
        }
    }
    None
}

/// The first argument named `name`.
pub fn get_arg<'a>(args: &'a Vec<Arg>, name: &str) -> (r: Option<&'a Arg>)
    ensures
        r matches Some(a) ==> find_arg(args@, name@) == Some(*a),
        r is None ==> find_arg(args@, name@) is None,
        r is Some <==> has_arg(args@, name@),
{
    let ghost p = named(name@);
    proof {
        lemma_first_match(args@, p);
    }
    match position_of_arg(args, name) {
        Some(i) => Some(&args[i]),
        None => None,
    }
}

/// Whether some argument is named `name`.
pub fn contains_arg(args: &Vec<Arg>, name: &str) -> (b: bool)
    ensures
        b == has_arg(args@, name@),
{
    get_arg(args, name).is_some()
}

/// The position of the first attribute whose path is `name`.
pub fn position_of_attr(attrs: &Vec<Attribute>, name: &str) -> (r: Option<usize>)
    ensures
        r matches Some(i) ==> find_attr(attrs@, name@) == Some(i as int) && i < attrs@.len()
            && attr_is(attrs@[i as int], name@),
        r is None ==> find_attr(attrs@, name@) is None,
{
    let ghost p = attr_named(name@);
    let mut i: usize = 0;
    while i < attrs.len()
        invariant
            i <= attrs.len(),
            forall|j: int| 0 <= j < i ==> !attr_named(name@)(#[trigger] attrs@[j]),
        decreases attrs.len() - i,
    {
        assert(attr_named(name@)(attrs@[i as int]) == attr_is(attrs@[i as int], name@));
        if attribute_is(&attrs[i], name) {
            proof {
                lemma_first_match_unique(attrs@, attr_named(name@), i as int);
            }
            return Some(i);
        }
        i = i + 1;
    }
    proof {
        lemma_first_match_none(attrs@, p);
    }
    None
}

} // verus!
