//! The argument resolver: a fixed flag schema scanned out of a token list,
//! with an environment fallback for one field.
//!
//! The schema has four fields: `name` (required; `-n`/`--name` or a bare
//! positional token), `count` (`-c`/`--count`, an 8-bit value, default 1),
//! `foo` (`--foo`, required, falling back to an environment value when the
//! flag is absent), and `max` (`-m`/`--max`, an optional 8-bit value, where
//! absence and 0 are distinct).

use crate::numeral::is_u8_numeral;
use crate::numeral::numeral_value;
use crate::numeral::parse_u8;
use crate::text::str_eq;
use vstd::prelude::*;
use vstd::string::StrSliceExecFns;
use vstd::string::StringExecFns;

verus! {

/// The default for `count` when `-c`/`--count` is not supplied.
pub const DEFAULT_COUNT: u8 = 1;

/// A successfully resolved argument record.
#[derive(Debug)]
pub struct ParsedArguments {
    pub name: String,
    pub count: u8,
    pub foo: String,
    pub max: Option<u8>,
}

/// The mathematical shape of a resolved record.
pub ghost struct ArgsModel {
    pub name: Seq<char>,
    pub count: u8,
    pub foo: Seq<char>,
    pub max: Option<u8>,
}

impl View for ParsedArguments {
    type V = ArgsModel;

    open spec fn view(&self) -> ArgsModel {
        ArgsModel { name: self.name@, count: self.count, foo: self.foo@, max: self.max }
    }
}

/// The one error kind of resolution, carrying the offending token where
/// there is one.
#[derive(Debug, PartialEq, Eq)]
pub enum UsageError {
    /// No `-n`/`--name` flag and no positional token supplied the name.
    MissingName,
    /// No `--foo` flag, and the environment offered no fallback value.
    MissingFoo,
    /// A token looked like a flag but is not in the schema.
    UnknownFlag(String),
    /// A flag that takes a value stood last, with no token after it.
    MissingValue(String),
    /// The value of a numeric flag is not a decimal numeral in 0..=255.
    InvalidNumber(String),
}

/// The mathematical shape of a usage error.
pub ghost enum UsageErrorModel {
    MissingName,
    MissingFoo,
    UnknownFlag(Seq<char>),
    MissingValue(Seq<char>),
    InvalidNumber(Seq<char>),
}

impl View for UsageError {
    type V = UsageErrorModel;

    open spec fn view(&self) -> UsageErrorModel {
        match self {
            UsageError::MissingName => UsageErrorModel::MissingName,
            UsageError::MissingFoo => UsageErrorModel::MissingFoo,
            UsageError::UnknownFlag(t) => UsageErrorModel::UnknownFlag(t@),
            UsageError::MissingValue(t) => UsageErrorModel::MissingValue(t@),
            UsageError::InvalidNumber(t) => UsageErrorModel::InvalidNumber(t@),
        }
    }
}

/// What the scan has gathered so far: each field as supplied by flags (or a
/// positional token, for `name`), before defaults and the environment apply.
pub ghost struct ScanModel {
    pub name: Option<Seq<char>>,
    pub count: Option<u8>,
    pub foo: Option<Seq<char>>,
    pub max: Option<u8>,
}

pub open spec fn init_scan() -> ScanModel {
    ScanModel { name: None, count: None, foo: None, max: None }
}

pub open spec fn is_name_flag(t: Seq<char>) -> bool {
    t == "-n"@ || t == "--name"@
}

pub open spec fn is_count_flag(t: Seq<char>) -> bool {
    t == "-c"@ || t == "--count"@
}

pub open spec fn is_foo_flag(t: Seq<char>) -> bool {
    t == "--foo"@
}

pub open spec fn is_max_flag(t: Seq<char>) -> bool {
    t == "-m"@ || t == "--max"@
}

pub open spec fn is_help_flag(t: Seq<char>) -> bool {
    t == "-h"@ || t == "--help"@
}

/// A token read as a flag rather than a positional value: a dash followed by
/// at least one further character.
pub open spec fn is_flag_token(t: Seq<char>) -> bool {
    t.len() >= 2 && t[0] == '-'
}

/// One left-to-right pass over the tokens.  A recognized flag consumes the
/// next token as its value; a repeated flag overwrites the earlier value; a
/// bare token supplies `name`; anything else that looks like a flag is an
/// error.  Help flags are not part of the schema here: callers intercept
/// them before resolving.
pub open spec fn scan(tokens: Seq<Seq<char>>, st: ScanModel) -> Result<ScanModel, UsageErrorModel>
    decreases tokens.len(),
{
    if tokens.len() == 0 {
        Ok(st)
    } else {
        let t = tokens[0];
        if is_name_flag(t) {
            if tokens.len() == 1 {
                Err(UsageErrorModel::MissingValue(t))
            } else {
                scan(
                    tokens.skip(2),
                    ScanModel { name: Some(tokens[1]), count: st.count, foo: st.foo, max: st.max },
                )
            }
        } else if is_count_flag(t) {
            if tokens.len() == 1 {
                Err(UsageErrorModel::MissingValue(t))
            } else if !is_u8_numeral(tokens[1]) {
                Err(UsageErrorModel::InvalidNumber(tokens[1]))
            } else {
                scan(
                    tokens.skip(2),
                    ScanModel {
                        name: st.name,
                        count: Some(numeral_value(tokens[1]) as u8),
                        foo: st.foo,
                        max: st.max,
                    },
                )
            }
        } else if is_foo_flag(t) {
            if tokens.len() == 1 {
                Err(UsageErrorModel::MissingValue(t))
            } else {
                scan(
                    tokens.skip(2),
                    ScanModel { name: st.name, count: st.count, foo: Some(tokens[1]), max: st.max },
                )
            }
        } else if is_max_flag(t) {
            if tokens.len() == 1 {
                Err(UsageErrorModel::MissingValue(t))
            } else if !is_u8_numeral(tokens[1]) {
                Err(UsageErrorModel::InvalidNumber(tokens[1]))
            } else {
                scan(
                    tokens.skip(2),
                    ScanModel {
                        name: st.name,
                        count: st.count,
                        foo: st.foo,
                        max: Some(numeral_value(tokens[1]) as u8),
                    },
                )
            }
        } else if is_flag_token(t) {
            Err(UsageErrorModel::UnknownFlag(t))
        } else {
            scan(
                tokens.skip(1),
                ScanModel { name: Some(t), count: st.count, foo: st.foo, max: st.max },
            )
        }
    }
}

/// What resolution returns: the scan's outcome with defaults applied, the
/// environment consulted for `foo` only when its flag is absent, and the two
/// required fields checked, `name` first.
pub open spec fn resolve_model(tokens: Seq<Seq<char>>, env_foo: Option<Seq<char>>) -> Result<
    ArgsModel,
    UsageErrorModel,
> {
    match scan(tokens, init_scan()) {
        Err(e) => Err(e),
        Ok(st) => match st.name {
            None => Err(UsageErrorModel::MissingName),
            Some(nm) => match (if st.foo is Some {
                st.foo
            } else {
                env_foo
            }) {
                None => Err(UsageErrorModel::MissingFoo),
                Some(f) => Ok(
                    ArgsModel {
                        name: nm,
                        count: match st.count {
                            Some(c) => c,
                            None => DEFAULT_COUNT,
                        },
                        foo: f,
                        max: st.max,
                    },
                ),
            },
        },
    }
}

/// Resolves the token list (the process arguments after the program name)
/// and the value of the `FOO` environment variable, if any, into a record.
/// The result is exactly what `resolve_model` says: `Ok` precisely when the
/// scan accepts every token, a name was supplied, and `foo` came from its
/// flag or from the environment.
pub fn resolve(args: &Vec<String>, env_foo: &Option<String>) -> (r: Result<
    ParsedArguments,
    UsageError,
>)
    ensures
        match r {
            Ok(a) => resolve_model(args.deep_view(), env_foo.deep_view()) == Ok::<
                ArgsModel,
                UsageErrorModel,
            >(a@),
            Err(e) => resolve_model(args.deep_view(), env_foo.deep_view()) == Err::<
                ArgsModel,
                UsageErrorModel,
            >(e@),
        },
{
    let ghost toks = args.deep_view();
    let n = args.len();
    let mut name: Option<String> = None;
    let mut count: Option<u8> = None;
    let mut foo: Option<String> = None;
    let mut max: Option<u8> = None;
    let mut i: usize = 0;
    proof {
        assert(toks.skip(0) =~= toks);
        assert(None::<String>.deep_view() == None::<Seq<char>>);
    }
    while i < n
        invariant
            i <= n,
            n == args@.len(),
            toks == args.deep_view(),
            toks.len() == n,
            scan(toks, init_scan()) == scan(
                toks.skip(i as int),
                ScanModel {
                    name: name.deep_view(),
                    count: count,
                    foo: foo.deep_view(),
                    max: max,
                },
            ),
        decreases n - i,
    {
        let ghost st = ScanModel {
            name: name.deep_view(),
            count: count,
            foo: foo.deep_view(),
            max: max,
        };
        let ghost rest = toks.skip(i as int);
        proof {
            assert(toks[i as int] == args@[i as int]@);
            assert(rest[0] == toks[i as int]);
            assert(rest.len() == n - i);
        }
        let t = &args[i];
        if str_eq(t.as_str(), "-n") || str_eq(t.as_str(), "--name") {
            if i + 1 >= n {
                return Err(UsageError::MissingValue(t.clone()));
            }
            proof {
                assert(toks[i + 1] == args@[i + 1]@);
                assert(rest[1] == toks[i + 1]);
                assert(rest.skip(2) =~= toks.skip(i + 2));
            }
            name = Some(args[i + 1].clone());
            i = i + 2;
        } else if str_eq(t.as_str(), "-c") || str_eq(t.as_str(), "--count") {
            if i + 1 >= n {
                return Err(UsageError::MissingValue(t.clone()));
            }
            proof {
                assert(toks[i + 1] == args@[i + 1]@);
                assert(rest[1] == toks[i + 1]);
                assert(rest.skip(2) =~= toks.skip(i + 2));
            }
            let v = &args[i + 1];
            match parse_u8(v.as_str()) {
                None => {
                    return Err(UsageError::InvalidNumber(v.clone()));
                },
                Some(c) => {
                    count = Some(c);
                },
            }
            i = i + 2;
        } else if str_eq(t.as_str(), "--foo") {
            if i + 1 >= n {
                return Err(UsageError::MissingValue(t.clone()));
            }
            proof {
                assert(toks[i + 1] == args@[i + 1]@);
                assert(rest[1] == toks[i + 1]);
                assert(rest.skip(2) =~= toks.skip(i + 2));
            }
            foo = Some(args[i + 1].clone());
            i = i + 2;
        } else if str_eq(t.as_str(), "-m") || str_eq(t.as_str(), "--max") {
            if i + 1 >= n {
                return Err(UsageError::MissingValue(t.clone()));
            }
            proof {
                assert(toks[i + 1] == args@[i + 1]@);
                assert(rest[1] == toks[i + 1]);
                assert(rest.skip(2) =~= toks.skip(i + 2));
            }
            let v = &args[i + 1];
            match parse_u8(v.as_str()) {
                None => {
                    return Err(UsageError::InvalidNumber(v.clone()));
                },
                Some(m) => {
                    max = Some(m);
                },
            }
            i = i + 2;
        } else {
            let flag_like = t.as_str().unicode_len() >= 2 && t.as_str().get_char(0) == '-';
            if flag_like {
                return Err(UsageError::UnknownFlag(t.clone()));
            }
            proof {
                assert(rest.skip(1) =~= toks.skip(i + 1));
            }
            name = Some(t.clone());
            i = i + 1;
        }
    }
    proof {
        assert(toks.skip(n as int) =~= Seq::<Seq<char>>::empty());
    }
    let nm = match name {
        None => {
            return Err(UsageError::MissingName);
        },
        Some(s) => s,
    };
    let f = match foo {
        Some(s) => s,
        None => match env_foo {
            Some(s) => s.clone(),
            None => {
                return Err(UsageError::MissingFoo);
            },
        },
    };
    let c = match count {
        Some(v) => v,
        None => DEFAULT_COUNT,
    };
    Ok(ParsedArguments { name: nm, count: c, foo: f, max })
}

/// Whether `max` resolved to the concrete value 0 (absence does not count):
/// the condition under which the caller emits the literal line `zero`.
pub fn should_print_zero(a: &ParsedArguments) -> (r: bool)
    ensures
        r == (a@.max == Some(0u8)),
{
    match a.max {
        Some(v) => v == 0,
        None => false,
    }
}

/// Whether any token asks for help (`-h`/`--help`); callers answer it before
/// resolving.
pub fn wants_help(args: &Vec<String>) -> (r: bool)
    ensures
        r == exists|i: int| 0 <= i < args.deep_view().len() && is_help_flag(args.deep_view()[i]),
{
    let ghost toks = args.deep_view();
    let n = args.len();
    let mut i: usize = 0;
    while i < n
        invariant
            i <= n,
            n == args@.len(),
            toks == args.deep_view(),
            toks.len() == n,
            forall|j: int| 0 <= j < i ==> !is_help_flag(toks[j]),
        decreases n - i,
    {
        proof {
            assert(toks[i as int] == args@[i as int]@);
        }
        if str_eq(args[i].as_str(), "-h") || str_eq(args[i].as_str(), "--help") {
            return true;
        }
        i = i + 1;
    }
    false
}

/// The value `count` resolves to when its flag is absent.
pub fn constants() -> (c: u8)
    ensures
        c == DEFAULT_COUNT,
{
    DEFAULT_COUNT
}

pub open spec fn help_text_model() -> Seq<char> {
    "Usage: smartt [OPTIONS] --name <NAME> --foo <FOO>\n\nOptions:\n  -n, --name <NAME>    the name (required; a bare token also supplies it)\n  -c, --count <COUNT>  an 8-bit count [default: 1]\n      --foo <FOO>      required; falls back to the FOO environment variable\n  -m, --max <MAX>      an optional 8-bit bound\n  -h, --help           print this help\n"@
}

/// The help text listing the schema.
pub fn help_text() -> (r: String)
    ensures
        r@ == help_text_model(),
{
    String::from_str(
        "Usage: smartt [OPTIONS] --name <NAME> --foo <FOO>\n\nOptions:\n  -n, --name <NAME>    the name (required; a bare token also supplies it)\n  -c, --count <COUNT>  an 8-bit count [default: 1]\n      --foo <FOO>      required; falls back to the FOO environment variable\n  -m, --max <MAX>      an optional 8-bit bound\n  -h, --help           print this help\n",
    )
}

/// Supplying only `--name X --foo Y` — for any texts `X` and `Y` and any
/// environment — succeeds, with `count` at its default and `max` absent.
pub proof fn lemma_minimal_invocation(x: Seq<char>, y: Seq<char>, env_foo: Option<Seq<char>>)
    ensures
        resolve_model(seq!["--name"@, x, "--foo"@, y], env_foo) == Ok::<
            ArgsModel,
            UsageErrorModel,
        >(ArgsModel { name: x, count: DEFAULT_COUNT, foo: y, max: None }),
{
    reveal_strlit("--name");
    reveal_strlit("--foo");
    reveal_strlit("-n");
    reveal_strlit("-c");
    reveal_strlit("--count");
    reveal_strlit("-m");
    reveal_strlit("--max");
    let toks = seq!["--name"@, x, "--foo"@, y];
    assert(is_name_flag(toks[0]));
    let st1 = ScanModel { name: Some(x), count: None, foo: None, max: None };
    assert(toks.skip(2) =~= seq!["--foo"@, y]);
    assert(scan(toks, init_scan()) == scan(seq!["--foo"@, y], st1));
    let rest = seq!["--foo"@, y];
    assert(rest[0] == "--foo"@);
    assert("--foo"@.len() == 5 && "-n"@.len() == 2 && "--name"@.len() == 6 && "-c"@.len() == 2
        && "--count"@.len() == 7);
    assert(!is_name_flag(rest[0]));
    assert(!is_count_flag(rest[0]));
    assert(is_foo_flag(rest[0]));
    let st2 = ScanModel { name: Some(x), count: None, foo: Some(y), max: None };
    assert(rest.skip(2) =~= Seq::<Seq<char>>::empty());
    assert(scan(rest, st1) == scan(Seq::<Seq<char>>::empty(), st2));
    assert(scan(Seq::<Seq<char>>::empty(), st2) == Ok::<ScanModel, UsageErrorModel>(st2));
}

/// Flag precedence: when resolution succeeds with no environment value at
/// all, any environment value is ignored — `--foo` won.
pub proof fn lemma_flag_overrides_env(tokens: Seq<Seq<char>>, a: ArgsModel, e: Seq<char>)
    requires
        resolve_model(tokens, None) == Ok::<ArgsModel, UsageErrorModel>(a),
    ensures
        resolve_model(tokens, Some(e)) == Ok::<ArgsModel, UsageErrorModel>(a),
{
}

/// The scan itself only ever reports a token-shaped fault; the two
/// missing-field errors arise after it, from the gathered state.
proof fn lemma_scan_err_kind(tokens: Seq<Seq<char>>, st: ScanModel)
    ensures
        match scan(tokens, st) {
            Err(e) => e matches UsageErrorModel::UnknownFlag(_) || e
                matches UsageErrorModel::MissingValue(_) || e
                matches UsageErrorModel::InvalidNumber(_),
            Ok(_) => true,
        },
    decreases tokens.len(),
{
    if tokens.len() == 0 {
    } else {
        let t = tokens[0];
        if is_name_flag(t) {
            if tokens.len() > 1 {
                lemma_scan_err_kind(
                    tokens.skip(2),
                    ScanModel { name: Some(tokens[1]), count: st.count, foo: st.foo, max: st.max },
                );
            }
        } else if is_count_flag(t) {
            if tokens.len() > 1 && is_u8_numeral(tokens[1]) {
                lemma_scan_err_kind(
                    tokens.skip(2),
                    ScanModel {
                        name: st.name,
                        count: Some(numeral_value(tokens[1]) as u8),
                        foo: st.foo,
                        max: st.max,
                    },
                );
            }
        } else if is_foo_flag(t) {
            if tokens.len() > 1 {
                lemma_scan_err_kind(
                    tokens.skip(2),
                    ScanModel { name: st.name, count: st.count, foo: Some(tokens[1]), max: st.max },
                );
            }
        } else if is_max_flag(t) {
            if tokens.len() > 1 && is_u8_numeral(tokens[1]) {
                lemma_scan_err_kind(
                    tokens.skip(2),
                    ScanModel {
                        name: st.name,
                        count: st.count,
                        foo: st.foo,
                        max: Some(numeral_value(tokens[1]) as u8),
                    },
                );
            }
        } else if is_flag_token(t) {
        } else {
            lemma_scan_err_kind(
                tokens.skip(1),
                ScanModel { name: Some(t), count: st.count, foo: st.foo, max: st.max },
            );
        }
    }
}

/// Environment fallback: exactly when resolution without an environment
/// value fails only for want of `foo`, any environment value `f` makes it
/// succeed, and lands verbatim in the `foo` field.
pub proof fn lemma_env_fallback(tokens: Seq<Seq<char>>, f: Seq<char>)
    requires
        resolve_model(tokens, None) == Err::<ArgsModel, UsageErrorModel>(
            UsageErrorModel::MissingFoo,
        ),
    ensures
        resolve_model(tokens, Some(f)) matches Ok(a) && a.foo == f,
{
    lemma_scan_err_kind(tokens, init_scan());
}

pub open spec fn message_model(e: UsageErrorModel) -> Seq<char> {
    match e {
        UsageErrorModel::MissingName => "missing required argument: name"@,
        UsageErrorModel::MissingFoo => "missing required argument: foo (flag --foo or environment variable FOO)"@,
        UsageErrorModel::UnknownFlag(t) => "unrecognized flag: "@ + t,
        UsageErrorModel::MissingValue(t) => "flag requires a value: "@ + t,
        UsageErrorModel::InvalidNumber(t) => "not an unsigned 8-bit number: "@ + t,
    }
}

impl UsageError {
    /// A line describing the error, fit for the error stream.
    pub fn message(&self) -> (r: String)
        ensures
            r@ == message_model(self@),
    {
        match self {
            UsageError::MissingName => String::from_str("missing required argument: name"),
            UsageError::MissingFoo => String::from_str(
                "missing required argument: foo (flag --foo or environment variable FOO)",
            ),
            UsageError::UnknownFlag(t) => String::from_str("unrecognized flag: ").concat(
                t.as_str(),
            ),
            UsageError::MissingValue(t) => String::from_str("flag requires a value: ").concat(
                t.as_str(),
            ),
            UsageError::InvalidNumber(t) => String::from_str("not an unsigned 8-bit number: ")
                .concat(t.as_str()),
        }
    }
}

} // verus!
