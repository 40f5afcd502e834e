//! Turning the textual arguments of a command into typed values, as the signature of
//! its handler asks.

use vstd::prelude::*;
use crate::numbers::{
    count_to_string, decimal, integer_value, is_dec_digit, is_float_chars, is_float_literal,
    parse_integer,
};
use crate::text::{chars_of, join_on, join_range, lowercase, str_eq, string_of, string_of_range, views};

verus! {

/// The type tag of an untyped parameter.
pub const TYPE_NIL: i32 = 0;

/// The type tag of a text parameter.
pub const TYPE_STRING: i32 = 4;

/// A declared parameter of a handler: its name and the tag of its type.
#[derive(Debug, Clone, PartialEq, Eq)]
pub struct ArgInfo {
    pub name: String,
    pub type_id: i32,
}

/// The declared signature of a handler: its parameters in order, how many of the
/// last ones have a default, and those defaults written out.
#[derive(Debug, Clone, PartialEq, Eq)]
pub struct MethodInfo {
    pub args: Vec<ArgInfo>,
    pub default_count: usize,
    pub defaults: Vec<String>,
}

/// A typed argument value. A floating-point number is held as the literal that
/// writes it, and a vector as the literals of its two, three or four components.
#[derive(Debug, Clone, PartialEq, Eq)]
pub enum Value {
    Str(String),
    Bool(bool),
    Int(i64),
    Float(String),
    Vector(Vec<String>),
}

/// What a `Value` stands for.
pub enum ValueView {
    Str(Seq<char>),
    Bool(bool),
    Int(int),
    Float(Seq<char>),
    Vector(Seq<Seq<char>>),
}

impl View for Value {
    type V = ValueView;

    open spec fn view(&self) -> ValueView {
        match self {
            Value::Str(s) => ValueView::Str(s@),
            Value::Bool(b) => ValueView::Bool(*b),
            Value::Int(i) => ValueView::Int(*i as int),
            Value::Float(s) => ValueView::Float(s@),
            Value::Vector(c) => ValueView::Vector(views(c@)),
        }
    }
}

/// What each of a list of values stands for.
pub open spec fn value_views(v: Seq<Value>) -> Seq<ValueView> {
    Seq::new(v.len(), |i: int| v[i]@)
}

/// Why arguments were rejected.
#[derive(Debug, Clone, PartialEq, Eq)]
pub enum ArgError {
    /// Fewer arguments than the handler requires.
    MissingArguments,
    /// More arguments than the handler takes.
    TooManyArguments,
    /// A component of a vector literal is not a number; holds the component.
    NotANumber(String),
    /// A vector literal holds a character that no vector may hold; holds the literal.
    BadFormatting(String),
    /// A vector literal has fewer than two or more than four components; holds
    /// their number.
    UnsupportedArity(usize),
}

/// What an `ArgError` stands for.
pub enum ArgErrorView {
    MissingArguments,
    TooManyArguments,
    NotANumber(Seq<char>),
    BadFormatting(Seq<char>),
    UnsupportedArity(int),
}

impl View for ArgError {
    type V = ArgErrorView;

    open spec fn view(&self) -> ArgErrorView {
        match self {
            ArgError::MissingArguments => ArgErrorView::MissingArguments,
            ArgError::TooManyArguments => ArgErrorView::TooManyArguments,
            ArgError::NotANumber(s) => ArgErrorView::NotANumber(s@),
            ArgError::BadFormatting(s) => ArgErrorView::BadFormatting(s@),
            ArgError::UnsupportedArity(n) => ArgErrorView::UnsupportedArity(*n as int),
        }
    }
}

/// The message shown for an error.
pub open spec fn error_message(e: ArgErrorView) -> Seq<char> {
    match e {
        ArgErrorView::MissingArguments => "Missing arguments."@,
        ArgErrorView::TooManyArguments => "Too many arguments."@,
        ArgErrorView::NotANumber(t) => "Failed to parse vector: Not a number: \""@ + t + "\""@,
        ArgErrorView::BadFormatting(t) => "Failed to parse vector: Bad formatting: \""@ + t
            + "\""@,
        ArgErrorView::UnsupportedArity(n) => "Supports 2,3,4-element vectors, but "@ + decimal(n)
            + "-element given."@,
    }
}

impl ArgError {
    /// The message shown for this error.
    pub fn message(&self) -> (r: String)
        ensures
            r@ == error_message(self@),
    {
        match self {
            ArgError::MissingArguments => "Missing arguments.".to_owned(),
            ArgError::TooManyArguments => "Too many arguments.".to_owned(),
            ArgError::NotANumber(t) => {
                let mut r = "Failed to parse vector: Not a number: \"".to_owned();
                r.append(t.as_str());
                r.append("\"");
                r
            },
            ArgError::BadFormatting(t) => {
                let mut r = "Failed to parse vector: Bad formatting: \"".to_owned();
                r.append(t.as_str());
                r.append("\"");
                r
            },
            ArgError::UnsupportedArity(n) => {
                let mut r = "Supports 2,3,4-element vectors, but ".to_owned();
                let count = count_to_string(*n);
                r.append(count.as_str());
                r.append("-element given.");
                r
            },
        }
    }
}

/// `s` without the pair of double quotes around it, if there is one.
pub open spec fn strip_quotes(s: Seq<char>) -> Seq<char> {
    if s.len() >= 2 && s[0] == '"' && s.last() == '"' {
        s.subrange(1, s.len() - 1)
    } else {
        s
    }
}

/// The components read from `inner`, the inside of the vector literal `text`, from
/// position `i` on, where `token` is the component being read and `comps` are those
/// read so far. Digits, points and minus signs make up a component; a comma or a space
/// ends one; a comma with nothing before it stands for the component `0`. Any other
/// character spoils the literal, and so does a component that is not a number.
pub open spec fn vector_scan(
    text: Seq<char>,
    inner: Seq<char>,
    i: int,
    token: Seq<char>,
    comps: Seq<Seq<char>>,
) -> Result<Seq<Seq<char>>, ArgErrorView>
    decreases inner.len() - i,
{
    if i >= inner.len() {
        if token.len() == 0 {
            Ok(comps)
        } else if is_float_literal(token) {
            Ok(comps.push(token))
        } else {
            Err(ArgErrorView::NotANumber(token))
        }
    } else if is_dec_digit(inner[i]) || inner[i] == '.' || inner[i] == '-' {
        vector_scan(text, inner, i + 1, token.push(inner[i]), comps)
    } else if inner[i] == ',' || inner[i] == ' ' {
        let ended = if token.len() == 0 && inner[i] == ',' {
            seq!['0']
        } else {
            token
        };
        if ended.len() == 0 {
            vector_scan(text, inner, i + 1, Seq::empty(), comps)
        } else if is_float_literal(ended) {
            vector_scan(text, inner, i + 1, Seq::empty(), comps.push(ended))
        } else {
            Err(ArgErrorView::NotANumber(ended))
        }
    } else {
        Err(ArgErrorView::BadFormatting(text))
    }
}

/// The vector that the bracketed literal `text` writes: its components, where there
/// are two, three or four of them.
pub open spec fn vector_value(text: Seq<char>) -> Result<ValueView, ArgErrorView> {
    match vector_scan(text, text.subrange(1, text.len() - 1), 0, Seq::empty(), Seq::empty()) {
        Ok(comps) => if 2 <= comps.len() <= 4 {
            Ok(ValueView::Vector(comps))
        } else {
            Err(ArgErrorView::UnsupportedArity(comps.len() as int))
        },
        Err(e) => Err(e),
    }
}

/// Whether `s` is written as a vector literal: in round brackets.
pub open spec fn is_bracketed(s: Seq<char>) -> bool {
    s.len() >= 2 && s[0] == '(' && s.last() == ')'
}

/// Whether `s` is written as a hexadecimal literal: after `0x` or `0X`.
pub open spec fn is_hex_prefixed(s: Seq<char>) -> bool {
    s.len() >= 2 && s[0] == '0' && (s[1] == 'x' || s[1] == 'X')
}

/// The value of the argument `arg` for a parameter of type `expected`, where
/// `lowered` is `arg` in lower case. A text parameter takes the argument as it is,
/// without the quotes around it. For any other parameter the argument is, in this
/// order of preference: a vector, where it stands in round brackets; an integer or a
/// floating-point number, where it is a number literal; an integer, where it is a
/// hexadecimal literal; a boolean, where it is one of `true`, `yes`, `false` and
/// `no`; and else a text.
pub open spec fn coerced_token(arg: Seq<char>, lowered: Seq<char>, expected: i32) -> Result<
    ValueView,
    ArgErrorView,
> {
    if expected == TYPE_STRING {
        Ok(ValueView::Str(strip_quotes(arg)))
    } else if is_bracketed(arg) {
        vector_value(arg)
    } else if is_float_literal(arg) {
        match integer_value(arg, 10) {
            Some(v) => Ok(ValueView::Int(v)),
            None => Ok(ValueView::Float(arg)),
        }
    } else if is_hex_prefixed(arg) && integer_value(arg.skip(2), 16) is Some {
        Ok(ValueView::Int(integer_value(arg.skip(2), 16)->0))
    } else if lowered == "true"@ || lowered == "yes"@ {
        Ok(ValueView::Bool(true))
    } else if lowered == "false"@ || lowered == "no"@ {
        Ok(ValueView::Bool(false))
    } else {
        Ok(ValueView::Str(strip_quotes(arg)))
    }
}

/// The type that the parameter at position `i` declares; untyped beyond the last.
pub open spec fn expected_type(params: Seq<ArgInfo>, i: int) -> i32 {
    if 0 <= i < params.len() {
        params[i].type_id
    } else {
        TYPE_NIL
    }
}

/// The values of the first `n` of `tokens`, each for the parameter at its position.
/// The first token that is rejected gives the error.
pub open spec fn coerced_tokens(tokens: Seq<Seq<char>>, params: Seq<ArgInfo>, n: int) -> Result<
    Seq<ValueView>,
    ArgErrorView,
>
    decreases n,
{
    if n <= 0 {
        Ok(Seq::empty())
    } else {
        match coerced_tokens(tokens, params, n - 1) {
            Err(e) => Err(e),
            Ok(values) => match coerced_token(
                tokens[n - 1],
                lowercase(tokens[n - 1]),
                expected_type(params, n - 1),
            ) {
                Ok(v) => Ok(values.push(v)),
                Err(e) => Err(e),
            },
        }
    }
}

/// Whether a handler with signature `info`, of whose parameters `bound_args` are
/// already bound, takes the rest of the line as one text.
pub open spec fn takes_whole_line(info: MethodInfo, bound_args: int) -> bool {
    info.args@.len() - bound_args == 1 && info.args@[0].type_id == TYPE_STRING
}

/// The typed arguments for the resolved line `argv`, whose first item is the
/// command. Without a signature every argument is passed on as text. A handler that
/// takes the whole line gets the arguments joined by single spaces, without the
/// quotes around them. Otherwise the number of arguments is checked against the
/// signature, and each argument is converted for its parameter.
pub open spec fn coerced_arguments(
    argv: Seq<Seq<char>>,
    info: Option<MethodInfo>,
    bound_args: int,
) -> Result<Seq<ValueView>, ArgErrorView> {
    let tokens = argv.skip(1);
    match info {
        None => Ok(Seq::new(tokens.len(), |i: int| ValueView::Str(tokens[i]))),
        Some(info) => {
            let max_args = info.args@.len() as int;
            let required = if max_args >= info.default_count {
                max_args - info.default_count
            } else {
                0
            };
            let given = tokens.len() + bound_args;
            if takes_whole_line(info, bound_args) {
                Ok(seq![ValueView::Str(strip_quotes(join_on(tokens, " "@)))])
            } else if given < required {
                Err(ArgErrorView::MissingArguments)
            } else if given > max_args {
                Err(ArgErrorView::TooManyArguments)
            } else {
                coerced_tokens(tokens, info.args@, tokens.len() as int)
            }
        },
    }
}

/// The characters `x` without the pair of double quotes around them.
fn strip_quotes_of(x: &Vec<char>) -> (r: String)
    ensures
        r@ == strip_quotes(x@),
{
    let n = x.len();
    if n >= 2 && x[0] == '"' && x[n - 1] == '"' {
        string_of_range(x, 1, n - 1)
    } else {
        string_of(x)
    }
}

/// Ends the component `token` of a vector literal: appends it to `comps` where it is
/// a number.
fn end_component(token: Vec<char>, comps: &mut Vec<String>) -> (r: Result<(), ArgError>)
    requires
        token.len() > 0,
    ensures
        is_float_literal(token@) ==> r is Ok && views(final(comps)@) == views(old(comps)@).push(
            token@,
        ),
        !is_float_literal(token@) ==> r is Err && r->Err_0@ == ArgErrorView::NotANumber(token@),
{
    let text = string_of(&token);
    if is_float_chars(&token) {
        proof {
            crate::text::lemma_views_push(comps@, text);
        }
        comps.push(text);
        Ok(())
    } else {
        Err(ArgError::NotANumber(text))
    }
}

/// The vector that the bracketed literal `text` writes.
pub fn parse_vector_arg(text: &str) -> (r: Result<Value, ArgError>)
    requires
        is_bracketed(text@),
    ensures
        r is Ok == vector_value(text@) is Ok,
        r is Ok ==> r->Ok_0@ == vector_value(text@)->Ok_0,
        r is Err ==> r->Err_0@ == vector_value(text@)->Err_0,
{
    let x = chars_of(text);
    let n = x.len();
    let ghost inner = x@.subrange(1, n - 1);
    let mut comps: Vec<String> = Vec::new();
    let mut token: Vec<char> = Vec::new();
    let mut i: usize = 1;
    assert(views(comps@) =~= Seq::<Seq<char>>::empty());
    while i < n - 1
        invariant
            1 <= i <= n - 1,
            n == x.len(),
            x@ == text@,
            inner == x@.subrange(1, n - 1),
            vector_scan(text@, inner, 0, Seq::empty(), Seq::empty()) == vector_scan(
                text@,
                inner,
                i - 1,
                token@,
                views(comps@),
            ),
        decreases n - i,
    {
        let ch = x[i];
        assert(inner[i - 1] == ch);
        if (ch >= '0' && ch <= '9') || ch == '.' || ch == '-' {
            token.push(ch);
        } else if ch == ',' || ch == ' ' {
            if token.len() == 0 && ch == ',' {
                token.push('0');
                assert(token@ =~= seq!['0']);
            }
            if token.len() > 0 {
                match end_component(token, &mut comps) {
                    Ok(()) => {},
                    Err(e) => {
                        return Err(e);
                    },
                }
                token = Vec::new();
            } else {
                assert(token@ =~= Seq::<char>::empty());
            }
        } else {
            return Err(ArgError::BadFormatting(string_of(&x)));
        }
        i += 1;
    }
    if token.len() > 0 {
        match end_component(token, &mut comps) {
            Ok(()) => {},
            Err(e) => {
                return Err(e);
            },
        }
    }
    let count = comps.len();
    if count >= 2 && count <= 4 {
        Ok(Value::Vector(comps))
    } else {
        Err(ArgError::UnsupportedArity(count))
    }
}

/// The value of the argument `arg` for a parameter of type `expected_type`, where
/// `lowered` is `arg` in lower case.
pub fn parse_lowered_arg(arg: &str, lowered: &str, expected_type: i32) -> (r: Result<
    Value,
    ArgError,
>)
    ensures
        r is Ok == coerced_token(arg@, lowered@, expected_type) is Ok,
        r is Ok ==> r->Ok_0@ == coerced_token(arg@, lowered@, expected_type)->Ok_0,
        r is Err ==> r->Err_0@ == coerced_token(arg@, lowered@, expected_type)->Err_0,
{
    let x = chars_of(arg);
    let n = x.len();
    if expected_type == TYPE_STRING {
        return Ok(Value::Str(strip_quotes_of(&x)));
    }
    if n >= 2 && x[0] == '(' && x[n - 1] == ')' {
        return parse_vector_arg(arg);
    }
    if is_float_chars(&x) {
        assert(x@.skip(0) =~= x@);
        return match parse_integer(&x, 0, 10) {
            Some(v) => Ok(Value::Int(v)),
            None => Ok(Value::Float(string_of(&x))),
        };
    }
    if n >= 2 && x[0] == '0' && (x[1] == 'x' || x[1] == 'X') {
        match parse_integer(&x, 2, 16) {
            Some(v) => {
                return Ok(Value::Int(v));
            },
            None => {},
        }
    }
    if str_eq(lowered, "true") || str_eq(lowered, "yes") {
        return Ok(Value::Bool(true));
    }
    if str_eq(lowered, "false") || str_eq(lowered, "no") {
        return Ok(Value::Bool(false));
    }
    Ok(Value::Str(strip_quotes_of(&x)))
}

/// The value of the argument `arg` for a parameter of type `expected_type`.
pub fn parse_single_arg(arg: &str, expected_type: i32) -> (r: Result<Value, ArgError>)
    ensures
        r is Ok == coerced_token(arg@, lowercase(arg@), expected_type) is Ok,
        r is Ok ==> r->Ok_0@ == coerced_token(arg@, lowercase(arg@), expected_type)->Ok_0,
        r is Err ==> r->Err_0@ == coerced_token(arg@, lowercase(arg@), expected_type)->Err_0,
{
    let lowered = arg.to_lowercase();
    parse_lowered_arg(arg, lowered.as_str(), expected_type)
}

/// The typed arguments for the resolved line `argv`, whose first item is the
/// command, for a handler with signature `method_info` of whose parameters
/// `bound_args` are already bound.
#[verifier::loop_isolation(false)]
pub fn parse_argv(argv: &Vec<String>, bound_args: usize, method_info: &Option<MethodInfo>) -> (r:
    Result<Vec<Value>, ArgError>)
    requires
        argv.len() >= 1,
    ensures
        r is Ok == coerced_arguments(views(argv@), *method_info, bound_args as int) is Ok,
        r is Ok ==> value_views(r->Ok_0@) == coerced_arguments(
            views(argv@),
            *method_info,
            bound_args as int,
        )->Ok_0,
        r is Err ==> r->Err_0@ == coerced_arguments(
            views(argv@),
            *method_info,
            bound_args as int,
        )->Err_0,
{
    let ghost tokens = views(argv@).skip(1);
    let mut args: Vec<Value> = Vec::new();
    let info = match method_info {
        Some(info) => info,
        None => {
            let mut i: usize = 1;
            while i < argv.len()
                invariant
                    1 <= i <= argv.len(),
                    tokens == views(argv@).skip(1),
                    args.len() == i - 1,
                    forall|k: int| 0 <= k < i - 1 ==> args@[k]@ == ValueView::Str(tokens[k]),
                decreases argv.len() - i,
            {
                args.push(Value::Str(argv[i].clone()));
                i += 1;
            }
            assert(value_views(args@) =~= Seq::new(
                tokens.len(),
                |i: int| ValueView::Str(tokens[i]),
            ));
            return Ok(args);
        },
    };
    let max_args = info.args.len();
    let required: usize = if max_args >= info.default_count {
        max_args - info.default_count
    } else {
        0
    };
    let given: u128 = (argv.len() - 1) as u128 + bound_args as u128;
    if max_args >= bound_args && max_args - bound_args == 1 && info.args[0].type_id == TYPE_STRING {
        let joined = join_range(argv, 1, argv.len(), " ");
        proof {
            assert(views(argv@).subrange(1, argv.len() as int) =~= tokens);
        }
        let x = chars_of(joined.as_str());
        args.push(Value::Str(strip_quotes_of(&x)));
        assert(value_views(args@) =~= seq![ValueView::Str(strip_quotes(join_on(tokens, " "@)))]);
        return Ok(args);
    }
    if given < required as u128 {
        return Err(ArgError::MissingArguments);
    }
    if given > max_args as u128 {
        return Err(ArgError::TooManyArguments);
    }
    let mut i: usize = 1;
    assert(value_views(args@) =~= Seq::<ValueView>::empty());
    while i < argv.len()
        invariant
            1 <= i <= argv.len(),
            tokens == views(argv@).skip(1),
            coerced_tokens(tokens, info.args@, i - 1) == Ok::<Seq<ValueView>, ArgErrorView>(
                value_views(args@),
            ),
        decreases argv.len() - i,
    {
        let expected: i32 = if i - 1 < info.args.len() {
            info.args[i - 1].type_id
        } else {
            TYPE_NIL
        };
        assert(tokens[i - 1] == argv@[i as int]@);
        match parse_single_arg(argv[i].as_str(), expected) {
            Ok(v) => {
                assert(value_views(args@.push(v)) =~= value_views(args@).push(v@));
                args.push(v);
            },
            Err(e) => {
                proof {
                    assert(coerced_tokens(tokens, info.args@, i as int) == Err::<
                        Seq<ValueView>,
                        ArgErrorView,
                    >(e@));
                    lemma_coerced_tokens_error(tokens, info.args@, i as int, tokens.len() as int);
                }
                return Err(e);
            },
        }
        i += 1;
    }
    Ok(args)
}

/// An error among the first `n` tokens is the error of any longer prefix.
pub proof fn lemma_coerced_tokens_error(
    tokens: Seq<Seq<char>>,
    params: Seq<ArgInfo>,
    n: int,
    m: int,
)
    requires
        0 <= n <= m,
        coerced_tokens(tokens, params, n) is Err,
    ensures
        coerced_tokens(tokens, params, m) == coerced_tokens(tokens, params, n),
    decreases m - n,
{
    if n < m {
        lemma_coerced_tokens_error(tokens, params, n, m - 1);
    }
}

/// The signature that a handler declares, from the description that the engine
/// gives of its method: the parameters `args` under their names without the leading
/// `p_`, and the defaults `defaults` of the last of them.
pub fn parse_method_dict(args: Vec<ArgInfo>, defaults: Vec<String>) -> (r: MethodInfo)
    ensures
        r.args@.len() == args@.len(),
        forall|i: int|
            0 <= i < args@.len() ==> (#[trigger] r.args@[i]).name@
                == crate::registry::strip_leading(args@[i].name@, "p_"@) && r.args@[i].type_id
                == args@[i].type_id,
        r.default_count == defaults@.len(),
        r.defaults == defaults,
{
    let mut named: Vec<ArgInfo> = Vec::new();
    let mut i: usize = 0;
    while i < args.len()
        invariant
            i <= args.len(),
            named.len() == i,
            forall|k: int|
                0 <= k < i ==> (#[trigger] named@[k]).name@ == crate::registry::strip_leading(
                    args@[k].name@,
                    "p_"@,
                ) && named@[k].type_id == args@[k].type_id,
        decreases args.len() - i,
    {
        let name = crate::registry::strip_leading_of(args[i].name.as_str(), "p_");
        named.push(ArgInfo { name, type_id: args[i].type_id });
        i += 1;
    }
    MethodInfo { args: named, default_count: defaults.len(), defaults }
}

/// The name of the type with tag `type_id`, as shown in usage texts.
pub open spec fn type_label(type_id: i32) -> &'static str {
    match type_id {
        1 => "bool",
        2 => "int",
        3 => "float",
        4 => "String",
        5 => "Vector2",
        6 => "Vector2i",
        9 => "Vector3",
        10 => "Vector3i",
        12 => "Vector4",
        13 => "Vector4i",
        _ => "Variant",
    }
}

/// The name of the type with tag `type_id`, as shown in usage texts.
pub fn variant_type_name(type_id: i32) -> (r: &'static str)
    ensures
        r == type_label(type_id),
{
    match type_id {
        1 => "bool",
        2 => "int",
        3 => "float",
        4 => "String",
        5 => "Vector2",
        6 => "Vector2i",
        9 => "Vector3",
        10 => "Vector3i",
        12 => "Vector4",
        13 => "Vector4i",
        _ => "Variant",
    }
}

} // verus!
