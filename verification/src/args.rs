//! Reading attribute arguments into typed settings: a `bool` setting is set
//! when its name occurs, an optional or defaulted setting takes the value of
//! the first argument with its name, and every named argument that is no
//! setting is reported with the closest setting name as a suggestion.
use vstd::prelude::*;
use crate::syntax::{
    Arg, Value, arg_name, arg_is, find_arg, has_arg, get_arg, text_is, named, first_match,
    lemma_first_match_concat, lemma_has_find,
};
use crate::text::{IntParseFailure, parse_unsigned, parse_unsigned_text};

verus! {

/// A problem with one attribute argument.
pub enum ArgError {
    /// A named argument that is no setting; `suggestion` is the setting name
    /// closest to it, if one is close.
    UnknownArgument { key: String, suggestion: Option<String> },
    /// An integer setting whose value is no integer literal.
    ExpectedInteger,
    /// An integer literal that does not fit the setting.
    InvalidInteger(IntParseFailure),
    /// A text setting whose value is no string literal.
    ExpectedString,
}

/// `ArgError` with its texts as sequences of characters.
pub enum ArgErrorV {
    UnknownArgument { key: Seq<char>, suggestion: Option<Seq<char>> },
    ExpectedInteger,
    InvalidInteger(IntParseFailure),
    ExpectedString,
}

pub open spec fn opt_text(o: Option<String>) -> Option<Seq<char>> {
    match o {
        Some(s) => Some(s@),
        None => None,
    }
}

impl View for ArgError {
    type V = ArgErrorV;

    open spec fn view(&self) -> ArgErrorV {
        match self {
            ArgError::UnknownArgument { key, suggestion } => ArgErrorV::UnknownArgument {
                key: key@,
                suggestion: opt_text(*suggestion),
            },
            ArgError::ExpectedInteger => ArgErrorV::ExpectedInteger,
            ArgError::InvalidInteger(f) => ArgErrorV::InvalidInteger(*f),
            ArgError::ExpectedString => ArgErrorV::ExpectedString,
        }
    }
}

pub open spec fn errors_view(es: Seq<ArgError>) -> Seq<ArgErrorV> {
    es.map_values(|e: ArgError| e@)
}

/// The value of an integer setting of type `u32`.
pub open spec fn decode_u32(a: Arg) -> Result<u32, ArgErrorV> {
    let digits = match a {
        Arg::Expr(_, Value::Int(d)) => Some(d@),
        Arg::Lit(Value::Int(d)) => Some(d@),
        _ => None,
    };
    match digits {
        Some(d) => match parse_unsigned(d, u32::MAX as nat) {
            Ok(v) => Ok(v as u32),
            Err(f) => Err(ArgErrorV::InvalidInteger(f)),
        },
        None => Err(ArgErrorV::ExpectedInteger),
    }
}

/// The value of a text setting.
pub open spec fn decode_text(a: Arg) -> Result<Seq<char>, ArgErrorV> {
    match a {
        Arg::Expr(_, Value::Str(s)) => Ok(s@),
        Arg::Lit(Value::Str(s)) => Ok(s@),
        _ => Err(ArgErrorV::ExpectedString),
    }
}

/// An optional `u32` setting: absent, or the first argument with its name.
pub open spec fn optional_u32(args: Seq<Arg>, key: Seq<char>) -> Result<Option<u32>, ArgErrorV> {
    match find_arg(args, key) {
        None => Ok(None),
        Some(a) => match decode_u32(a) {
            Ok(v) => Ok(Some(v)),
            Err(e) => Err(e),
        },
    }
}

/// A `u32` setting that is 0 when absent.
pub open spec fn defaulted_u32(args: Seq<Arg>, key: Seq<char>) -> Result<u32, ArgErrorV> {
    match find_arg(args, key) {
        None => Ok(0),
        Some(a) => decode_u32(a),
    }
}

/// An optional text setting.
pub open spec fn optional_text(args: Seq<Arg>, key: Seq<char>) -> Result<
    Option<Seq<char>>,
    ArgErrorV,
> {
    match find_arg(args, key) {
        None => Ok(None),
        Some(a) => match decode_text(a) {
            Ok(v) => Ok(Some(v)),
            Err(e) => Err(e),
        },
    }
}

/// The error of a setting, as a sequence of zero or one errors.
pub open spec fn error_of<T>(r: Result<T, ArgErrorV>) -> Seq<ArgErrorV> {
    match r {
        Ok(_) => seq![],
        Err(e) => seq![e],
    }
}

/// The setting name closest to `key` among `known`, if one is close enough to
/// be suggested.
pub uninterp spec fn closest_known_key(key: Seq<char>, known: Seq<Seq<char>>) -> Option<Seq<char>>;

pub open spec fn known_view(known: Seq<&str>) -> Seq<Seq<char>> {
    known.map_values(|k: &str| k@)
}

/// The errors for the named arguments whose name is no setting, in order.
pub open spec fn unknown_errors(args: Seq<Arg>, known: Seq<Seq<char>>) -> Seq<ArgErrorV>
    decreases args.len(),
{
    if args.len() == 0 {
        seq![]
    } else {
        let rest = unknown_errors(args.drop_last(), known);
        match arg_name(args.last()) {
            Some(n) => if known.contains(n) {
                rest
            } else {
                rest.push(
                    ArgErrorV::UnknownArgument { key: n, suggestion: closest_known_key(n, known) },
                )
            },
            None => rest,
        }
    }
}

/// Calls `zyn::closest_match`, which picks among `known` the name with the
/// least edit distance to `key`, if that distance is at most 3. The contract
/// names the result and states that it is one of `known`; the distance itself
/// is not stated.
#[verifier::external_body]
fn closest_match(key: &String, known: &[&str]) -> (r: Option<String>)
    ensures
        opt_text(r) == closest_known_key(key@, known_view(known@)),
        r matches Some(s) ==> known_view(known@).contains(s@),
{
    zyn::closest_match(key.as_str(), known).map(|s| s.to_string())
}

pub fn decode_u32_arg(a: &Arg) -> (r: Result<u32, ArgError>)
    ensures
        match r {
            Ok(v) => decode_u32(*a) == Ok::<u32, ArgErrorV>(v),
            Err(e) => decode_u32(*a) == Err::<u32, ArgErrorV>(e@),
        },
{
    let digits = match a {
        Arg::Expr(_, Value::Int(d)) => Some(d),
        Arg::Lit(Value::Int(d)) => Some(d),
        _ => None,
    };
    match digits {
        Some(d) => match parse_unsigned_text(d.as_str(), 0xffff_ffffu64) {
            Ok(v) => Ok(v as u32),
            Err(f) => Err(ArgError::InvalidInteger(f)),
        },
        None => Err(ArgError::ExpectedInteger),
    }
}

pub fn decode_text_arg(a: &Arg) -> (r: Result<String, ArgError>)
    ensures
        match r {
            Ok(v) => decode_text(*a) == Ok::<Seq<char>, ArgErrorV>(v@),
            Err(e) => decode_text(*a) == Err::<Seq<char>, ArgErrorV>(e@),
        },
{
    match a {
        Arg::Expr(_, Value::Str(s)) => Ok(s.clone()),
        Arg::Lit(Value::Str(s)) => Ok(s.clone()),
        _ => Err(ArgError::ExpectedString),
    }
}

/// Reads an optional `u32` setting; an error is pushed onto `errors`.
pub fn read_optional_u32(args: &Vec<Arg>, key: &str, errors: &mut Vec<ArgError>) -> (r: Option<u32>)
    ensures
        errors_view(final(errors)@) == errors_view(old(errors)@) + error_of(optional_u32(args@, key@)),
        optional_u32(args@, key@) matches Ok(v) ==> r == v,
        optional_u32(args@, key@) is Err ==> r is None,
{
    let ghost e0 = old(errors)@;
    match get_arg(args, key) {
        None => {
            assert(errors_view(errors@) =~= errors_view(e0) + error_of(optional_u32(args@, key@)));
            None
        },
        Some(a) => match decode_u32_arg(a) {
            Ok(v) => {
                assert(errors_view(errors@) =~= errors_view(e0) + error_of(optional_u32(args@, key@)));
                Some(v)
            },
            Err(e) => {
                errors.push(e);
                assert(errors_view(errors@) =~= errors_view(e0) + error_of(optional_u32(args@, key@)));
                None
            },
        },
    }
}

/// Reads a `u32` setting that is 0 when absent; an error is pushed onto `errors`.
pub fn read_defaulted_u32(args: &Vec<Arg>, key: &str, errors: &mut Vec<ArgError>) -> (r: u32)
    ensures
        errors_view(final(errors)@) == errors_view(old(errors)@) + error_of(defaulted_u32(args@, key@)),
        defaulted_u32(args@, key@) matches Ok(v) ==> r == v,
        defaulted_u32(args@, key@) is Err ==> r == 0,
{
    let ghost e0 = old(errors)@;
    match get_arg(args, key) {
        None => {
            assert(errors_view(errors@) =~= errors_view(e0) + error_of(defaulted_u32(args@, key@)));
            0
        },
        Some(a) => match decode_u32_arg(a) {
            Ok(v) => {
                assert(errors_view(errors@) =~= errors_view(e0) + error_of(defaulted_u32(args@, key@)));
                v
            },
            Err(e) => {
                errors.push(e);
                assert(errors_view(errors@) =~= errors_view(e0) + error_of(defaulted_u32(args@, key@)));
                0
            },
        },
    }
}

/// Reads an optional text setting; an error is pushed onto `errors`.
pub fn read_optional_text(args: &Vec<Arg>, key: &str, errors: &mut Vec<ArgError>) -> (r: Option<String>)
    ensures
        errors_view(final(errors)@) == errors_view(old(errors)@) + error_of(optional_text(args@, key@)),
        optional_text(args@, key@) matches Ok(v) ==> opt_text(r) == v,
        optional_text(args@, key@) is Err ==> r is None,
{
    let ghost e0 = old(errors)@;
    match get_arg(args, key) {
        None => {
            assert(errors_view(errors@) =~= errors_view(e0) + error_of(optional_text(args@, key@)));
            None
        },
        Some(a) => match decode_text_arg(a) {
            Ok(v) => {
                assert(errors_view(errors@) =~= errors_view(e0) + error_of(optional_text(args@, key@)));
                Some(v)
            },
            Err(e) => {
                errors.push(e);
                assert(errors_view(errors@) =~= errors_view(e0) + error_of(optional_text(args@, key@)));
                None
            },
        },
    }
}

fn is_known(name: &String, known: &[&str]) -> (b: bool)
    ensures
        b == known_view(known@).contains(name@),
{
    let mut i: usize = 0;
    while i < known.len()
        invariant
            i <= known@.len(),
            forall|j: int| 0 <= j < i ==> known@[j]@ != name@,
        decreases known@.len() - i,
    {
        if text_is(name, known[i]) {
            assert(known_view(known@)[i as int] == name@);
            return true;
        }
        i = i + 1;
    }
    assert forall|j: int| 0 <= j < known_view(known@).len() implies known_view(known@)[j] != name@ by {
        assert(known_view(known@)[j] == known@[j]@);
    }
    false
}

/// Pushes onto `errors` one error for each named argument whose name is not
/// in `known`, in the order of the arguments.
pub fn push_unknown_errors(args: &Vec<Arg>, known: &[&str], errors: &mut Vec<ArgError>)
    ensures
        errors_view(final(errors)@) == errors_view(old(errors)@) + unknown_errors(
            args@,
            known_view(known@),
        ),
{
    let ghost e0 = old(errors)@;
    let mut i: usize = 0;
    while i < args.len()
        invariant
            i <= args.len(),
            errors_view(errors@) == errors_view(e0) + unknown_errors(
                args@.subrange(0, i as int),
                known_view(known@),
            ),
        decreases args.len() - i,
    {
        let ghost prefix = args@.subrange(0, i as int);
        let ghost next = args@.subrange(0, i + 1);
        assert(next.drop_last() =~= prefix);
        assert(next.last() == args@[i as int]);
        let name = match &args[i] {
            Arg::Flag(n) => Some(n),
            Arg::Expr(n, _) => Some(n),
            Arg::List(n) => Some(n),
            Arg::Lit(_) => None,
        };
        let ghost before = errors@;
        match name {
            Some(n) => {
                assert(arg_name(args@[i as int]) == Some(n@));
                if !is_known(n, known) {
                    let suggestion = closest_match(n, known);
                    let e = ArgError::UnknownArgument { key: n.clone(), suggestion };
                    errors.push(e);
                    assert(errors@ == before.push(e));
                    assert(errors_view(errors@) =~= errors_view(before).push(e@));
                }
            },
            None => {
                assert(arg_name(args@[i as int]) is None);
            },
        }
        assert(errors_view(errors@) =~= errors_view(e0) + unknown_errors(next, known_view(known@)));
        i = i + 1;
    }
    assert(args@.subrange(0, i as int) =~= args@);
}

/// `merge(a, b)`: the arguments of `a` whose name no argument of `b` has,
/// then all of `b`; so `b` takes precedence where names clash.
pub open spec fn merge_args(a: Seq<Arg>, b: Seq<Arg>) -> Seq<Arg> {
    a.filter(kept_by(b)) + b
}

/// The property of an argument of being kept when merging with `b`: no
/// argument of `b` has its name.
pub open spec fn kept_by(b: Seq<Arg>) -> spec_fn(Arg) -> bool {
    |x: Arg| !(arg_name(x) matches Some(n) && has_arg(b, n))
}

/// The first argument named `name` after appending `x`.
proof fn lemma_find_push(s: Seq<Arg>, x: Arg, name: Seq<char>)
    ensures
        find_arg(s.push(x), name) == match find_arg(s, name) {
            Some(a) => Some(a),
            None => if arg_is(x, name) {
                Some(x)
            } else {
                None
            },
        },
{
    lemma_first_match_concat(s, seq![x], named(name));
    assert(s + seq![x] =~= s.push(x));
    assert(first_match(seq![x], named(name)) == if arg_is(x, name) { Some(0int) } else { None::<int> }) by {
        assert(named(name)(x) == arg_is(x, name));
        assert(seq![x][0] == x);
        assert(seq![x].drop_first() =~= Seq::<Arg>::empty());
        assert(first_match(Seq::<Arg>::empty(), named(name)) is None);
    }
    if first_match(s, named(name)) is None {
        if arg_is(x, name) {
            assert(s.push(x)[s.len() as int] == x);
        }
    } else {
        let i = first_match(s, named(name))->Some_0;
        crate::syntax::lemma_first_match(s, named(name));
        assert(s.push(x)[i] == s[i]);
    }
}

/// What survives of `a` when merging with `b`: nothing named `name` if `b`
/// has such an argument, else the same first argument named `name`.
proof fn lemma_find_filtered(a: Seq<Arg>, b: Seq<Arg>, name: Seq<char>)
    ensures
        find_arg(a.filter(kept_by(b)), name) == if has_arg(b, name) {
            None
        } else {
            find_arg(a, name)
        },
    decreases a.len(),
{
    reveal(Seq::filter);
    if a.len() == 0 {
        assert(a.filter(kept_by(b)) =~= a);
    } else {
        let rest = a.drop_last();
        let x = a.last();
        lemma_find_filtered(rest, b, name);
        assert(a =~= rest.push(x));
        lemma_find_push(rest, x, name);
        if kept_by(b)(x) {
            lemma_find_push(rest.filter(kept_by(b)), x, name);
        }
        if arg_is(x, name) && has_arg(b, name) {
            assert(!kept_by(b)(x));
        }
    }
}

/// Merging argument lists: the first argument named `name` comes from the
/// later list whenever it has one, else from the earlier list.
pub proof fn lemma_merge_find(a: Seq<Arg>, b: Seq<Arg>, name: Seq<char>)
    ensures
        find_arg(merge_args(a, b), name) == if has_arg(b, name) {
            find_arg(b, name)
        } else {
            find_arg(a, name)
        },
{
    lemma_find_filtered(a, b, name);
    lemma_first_match_concat(a.filter(kept_by(b)), b, named(name));
    lemma_has_find(b, name);
    let f = a.filter(kept_by(b));
    if first_match(f, named(name)) is Some {
        crate::syntax::lemma_first_match(f, named(name));
        let i = first_match(f, named(name))->Some_0;
        assert((f + b)[i] == f[i]);
    } else if first_match(b, named(name)) is Some {
        crate::syntax::lemma_first_match(b, named(name));
        let j = first_match(b, named(name))->Some_0;
        assert((f + b)[j + f.len()] == b[j]);
    }
}

/// Merging argument lists: an argument name occurs in the merge exactly
/// when it occurs in either list.
pub proof fn lemma_merge_has(a: Seq<Arg>, b: Seq<Arg>, name: Seq<char>)
    ensures
        has_arg(merge_args(a, b), name) == (has_arg(a, name) || has_arg(b, name)),
{
    lemma_merge_find(a, b, name);
    lemma_has_find(merge_args(a, b), name);
    lemma_has_find(a, name);
    lemma_has_find(b, name);
}

/// Arguments are read without unknown-argument errors exactly when every
/// named argument is one of the known settings.
pub proof fn lemma_unknown_errors_empty(args: Seq<Arg>, known: Seq<Seq<char>>)
    ensures
        unknown_errors(args, known).len() == 0 <==> forall|i: int|
            0 <= i < args.len() ==> (arg_name(#[trigger] args[i]) matches Some(n) ==> known.contains(n)),
    decreases args.len(),
{
    if args.len() > 0 {
        let rest = args.drop_last();
        lemma_unknown_errors_empty(rest, known);
        assert forall|i: int| 0 <= i < rest.len() implies rest[i] == args[i] by {}
        if unknown_errors(args, known).len() == 0 {
            assert forall|i: int| 0 <= i < args.len() implies (arg_name(#[trigger] args[i]) matches Some(n) ==> known.contains(n)) by {
                if i < rest.len() {
                    assert(rest[i] == args[i]);
                }
            }
        } else {
            if unknown_errors(rest, known).len() == 0 {
                let i = args.len() - 1;
                assert(args[i] == args.last());
            } else {
                let j = choose|j: int| 0 <= j < rest.len() && !(arg_name(#[trigger] rest[j]) matches Some(n) ==> known.contains(n));
                assert(rest[j] == args[j]);
            }
        }
    }
}

} // verus!
