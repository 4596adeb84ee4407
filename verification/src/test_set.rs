//! The test-set expression language: a lexer, a recursive-descent parser and
//! an evaluator for filter expressions over the suite.
//!
//! An expression denotes a set of tests; its one operation is asking whether
//! a test belongs to it. Operators in increasing precedence: union (`|`,
//! `or`), intersection (`&`, `and`), difference (`~`, `\`), symmetric
//! difference (`^`, `xor`), complement (`!`, `not`), the `name:value` sugar
//! and function calls.

use vstd::prelude::*;

use crate::test::ReferenceKind;
use crate::test::Test;
use crate::util::push_char;
use crate::util::str_chars;

verus! {

/// Whether a regular expression pattern compiles.
pub uninterp spec fn spec_regex_valid(pattern: Seq<char>) -> bool;

/// Whether a compiled regular expression matches a haystack.
pub uninterp spec fn spec_regex_match(pattern: Seq<char>, text: Seq<char>) -> bool;

/// Relies on `regex::Regex::new`: whether a pattern compiles is a function
/// of the pattern alone.
#[verifier::external_body]
fn regex_valid(pattern: &str) -> (r: bool)
    ensures
        r == spec_regex_valid(pattern@),
{
    regex::Regex::new(pattern).is_ok()
}

/// Relies on `regex::Regex::is_match`: whether a valid pattern matches a
/// haystack is a function of the pattern and the haystack alone.
#[verifier::external_body]
fn regex_is_match(pattern: &str, text: &str) -> (r: bool)
    requires
        spec_regex_valid(pattern@),
    ensures
        r == spec_regex_match(pattern@, text@),
{
    match regex::Regex::new(pattern) {
        Ok(re) => re.is_match(text),
        Err(_) => false,
    }
}

/// The built-in nullary sets.
#[derive(Debug, Clone, Copy, PartialEq, Eq, Structural)]
pub enum BuiltIn {
    /// Every test.
    AllSet,
    /// No test.
    NoneSet,
    /// Tests carrying the skip annotation.
    SkipSet,
    /// Compile-only tests.
    CompileOnlySet,
    /// Ephemeral tests.
    EphemeralSet,
    /// Persistent tests.
    PersistentSet,
    /// Tests carrying the ignored annotation.
    IgnoredSet,
}

/// A test-set expression.
#[derive(Debug, PartialEq, Eq)]
pub enum Expr {
    /// A built-in set.
    Built(BuiltIn),
    /// Tests whose identifier is exactly this string.
    Exact(String),
    /// Tests whose identifier contains this string.
    Contains(String),
    /// Tests whose identifier matches this regular expression. The pattern
    /// has been checked to compile.
    Regex(String),
    /// Tests carrying this annotation.
    Tag(String),
    /// Tests of this reference kind; `None` selects compile-only tests.
    KindIs(Option<ReferenceKind>),
    /// Complement.
    Not(Box<Expr>),
    /// Set union.
    Union(Box<Expr>, Box<Expr>),
    /// Set intersection.
    Inter(Box<Expr>, Box<Expr>),
    /// Set difference.
    Diff(Box<Expr>, Box<Expr>),
    /// Symmetric difference.
    SymDiff(Box<Expr>, Box<Expr>),
}

/// Whether the identifier `text` has `pat` as a substring.
pub open spec fn spec_contains_sub(text: Seq<char>, pat: Seq<char>) -> bool {
    exists|i: int|
        0 <= i <= text.len() - pat.len() && #[trigger] text.subrange(i, i + pat.len()) == pat
}

/// Validity of an expression: every stored regular expression compiles.
pub open spec fn spec_expr_wf(e: Expr) -> bool
    decreases e,
{
    match e {
        Expr::Regex(p) => spec_regex_valid(p@),
        Expr::Not(a) => spec_expr_wf(*a),
        Expr::Union(a, b) => spec_expr_wf(*a) && spec_expr_wf(*b),
        Expr::Inter(a, b) => spec_expr_wf(*a) && spec_expr_wf(*b),
        Expr::Diff(a, b) => spec_expr_wf(*a) && spec_expr_wf(*b),
        Expr::SymDiff(a, b) => spec_expr_wf(*a) && spec_expr_wf(*b),
        _ => true,
    }
}

/// The denotation of an expression: whether a test with this identifier,
/// reference kind and annotation belongs to the set.
pub open spec fn spec_matches(
    e: Expr,
    id: Seq<char>,
    kind: Option<ReferenceKind>,
    ignored: bool,
) -> bool
    decreases e,
{
    match e {
        Expr::Built(BuiltIn::AllSet) => true,
        Expr::Built(BuiltIn::NoneSet) => false,
        Expr::Built(BuiltIn::SkipSet) => ignored,
        Expr::Built(BuiltIn::CompileOnlySet) => kind is None,
        Expr::Built(BuiltIn::EphemeralSet) => kind == Some(ReferenceKind::Ephemeral),
        Expr::Built(BuiltIn::PersistentSet) => kind == Some(ReferenceKind::Persistent),
        Expr::Built(BuiltIn::IgnoredSet) => ignored,
        Expr::Exact(s) => s@ == id,
        Expr::Contains(s) => spec_contains_sub(id, s@),
        Expr::Regex(p) => spec_regex_match(p@, id),
        Expr::Tag(s) => ignored && (s@ == "ignored"@ || s@ == "skip"@),
        Expr::KindIs(k) => kind == k,
        Expr::Not(a) => !spec_matches(*a, id, kind, ignored),
        Expr::Union(a, b) => spec_matches(*a, id, kind, ignored) || spec_matches(
            *b,
            id,
            kind,
            ignored,
        ),
        Expr::Inter(a, b) => spec_matches(*a, id, kind, ignored) && spec_matches(
            *b,
            id,
            kind,
            ignored,
        ),
        Expr::Diff(a, b) => spec_matches(*a, id, kind, ignored) && !spec_matches(
            *b,
            id,
            kind,
            ignored,
        ),
        Expr::SymDiff(a, b) => spec_matches(*a, id, kind, ignored) != spec_matches(
            *b,
            id,
            kind,
            ignored,
        ),
    }
}

/// Union is commutative: `a | b` holds the same tests as `b | a`.
pub proof fn lemma_union_commutes(
    a: Expr,
    b: Expr,
    id: Seq<char>,
    kind: Option<ReferenceKind>,
    ignored: bool,
)
    ensures
        spec_matches(Expr::Union(Box::new(a), Box::new(b)), id, kind, ignored) == spec_matches(
            Expr::Union(Box::new(b), Box::new(a)),
            id,
            kind,
            ignored,
        ),
{
}

/// Intersection is commutative: `a & b` holds the same tests as `b & a`.
pub proof fn lemma_inter_commutes(
    a: Expr,
    b: Expr,
    id: Seq<char>,
    kind: Option<ReferenceKind>,
    ignored: bool,
)
    ensures
        spec_matches(Expr::Inter(Box::new(a), Box::new(b)), id, kind, ignored) == spec_matches(
            Expr::Inter(Box::new(b), Box::new(a)),
            id,
            kind,
            ignored,
        ),
{
}

/// Difference with oneself is empty: `a \ a` holds no test.
pub proof fn lemma_diff_self_empty(
    a: Expr,
    id: Seq<char>,
    kind: Option<ReferenceKind>,
    ignored: bool,
)
    ensures
        spec_matches(Expr::Diff(Box::new(a), Box::new(a)), id, kind, ignored) == spec_matches(
            Expr::Built(BuiltIn::NoneSet),
            id,
            kind,
            ignored,
        ),
{
}

/// The empty set is a union identity: `a | none()` holds the same tests as
/// `a`.
pub proof fn lemma_union_none_identity(
    a: Expr,
    id: Seq<char>,
    kind: Option<ReferenceKind>,
    ignored: bool,
)
    ensures
        spec_matches(
            Expr::Union(Box::new(a), Box::new(Expr::Built(BuiltIn::NoneSet))),
            id,
            kind,
            ignored,
        ) == spec_matches(a, id, kind, ignored),
{
    assert(spec_matches(Expr::Built(BuiltIn::NoneSet), id, kind, ignored) == false);
}

/// The full set is an intersection identity: `a & all()` holds the same
/// tests as `a`.
pub proof fn lemma_inter_all_identity(
    a: Expr,
    id: Seq<char>,
    kind: Option<ReferenceKind>,
    ignored: bool,
)
    ensures
        spec_matches(
            Expr::Inter(Box::new(a), Box::new(Expr::Built(BuiltIn::AllSet))),
            id,
            kind,
            ignored,
        ) == spec_matches(a, id, kind, ignored),
{
    assert(spec_matches(Expr::Built(BuiltIn::AllSet), id, kind, ignored) == true);
}

/// Double complement cancels: `!!a` holds the same tests as `a`.
pub proof fn lemma_double_complement(
    a: Expr,
    id: Seq<char>,
    kind: Option<ReferenceKind>,
    ignored: bool,
)
    ensures
        spec_matches(Expr::Not(Box::new(Expr::Not(Box::new(a)))), id, kind, ignored)
            == spec_matches(a, id, kind, ignored),
{
    assert(spec_matches(Expr::Not(Box::new(a)), id, kind, ignored) == !spec_matches(
        a,
        id,
        kind,
        ignored,
    ));
}

/// The errors of the expression language.
#[derive(Debug, Clone, PartialEq, Eq)]
pub enum Error {
    /// A syntactic error, with the character position it was noticed at.
    Parse { pos: usize },
    /// A name that is neither a built-in set nor a function.
    UnknownIdentifier { name: String },
    /// A call with the wrong number of arguments.
    InvalidArgumentCount { func: String, expected: usize, is_min: bool, found: usize },
    /// A call with an argument of the wrong type.
    TypeMismatch { expected: Type, found: Type },
    /// A regular expression that does not compile.
    InvalidRegex { pos: usize },
}

/// The types a value of the language can have.
#[derive(Debug, Clone, Copy, PartialEq, Eq, Structural)]
pub enum Type {
    /// A test set.
    SetOfTests,
    /// A string literal.
    Str,
    /// An integer literal.
    Num,
    /// A function.
    Function,
}

/// A value of the language.
#[derive(Debug, PartialEq, Eq)]
pub enum Value {
    /// A test set.
    SetExpr(Expr),
    /// A string literal.
    Str(String),
    /// An integer literal.
    Num(u64),
    /// A function.
    Func(Func),
}

impl Value {
    /// The type of this value.
    pub fn as_type(&self) -> (r: Type)
        ensures
            r == match self {
                Value::SetExpr(_) => Type::SetOfTests,
                Value::Str(_) => Type::Str,
                Value::Num(_) => Type::Num,
                Value::Func(_) => Type::Function,
            },
    {
        match self {
            Value::SetExpr(_) => Type::SetOfTests,
            Value::Str(_) => Type::Str,
            Value::Num(_) => Type::Num,
            Value::Func(_) => Type::Function,
        }
    }
}

/// The evaluation context. The built-in bindings are fixed; nothing else is
/// in scope.
#[derive(Debug, Clone, PartialEq, Eq)]
pub struct Context {
    _reserved: bool,
}

impl Context {
    /// The context with only the built-in bindings.
    pub fn empty() -> (r: Context) {
        Context { _reserved: false }
    }
}

/// A function of the language: one of the built-in constructors.
#[derive(Debug, Clone, Copy, PartialEq, Eq, Structural)]
pub enum Func {
    /// `all()`.
    AllFn,
    /// `none()`.
    NoneFn,
    /// `skip()`.
    SkipFn,
    /// `compile-only()`.
    CompileOnlyFn,
    /// `ephemeral()`.
    EphemeralFn,
    /// `persistent()`.
    PersistentFn,
    /// `ignored()`.
    IgnoredFn,
    /// `exact(string)`.
    ExactFn,
    /// `contains(string)`.
    ContainsFn,
    /// `regex(string)`.
    RegexFn,
    /// `tag(string)`.
    TagFn,
    /// `kind(string)`.
    KindFn,
}

impl Func {
    /// Ensures there are no arguments.
    pub fn expect_no_args(id: &str, _ctx: &Context, args: &Vec<Value>) -> (r: Result<(), Error>)
        ensures
            r is Ok <==> args@.len() == 0,
            r matches Err(e) ==> e matches Error::InvalidArgumentCount {
                func,
                expected,
                is_min,
                found,
            } && func@ == id@ && expected == 0 && !is_min && found == args@.len(),
    {
        if args.len() == 0 {
            Ok(())
        } else {
            Err(
                Error::InvalidArgumentCount {
                    func: id.to_owned(),
                    expected: 0,
                    is_min: false,
                    found: args.len(),
                },
            )
        }
    }

    /// Extracts exactly `n` string arguments, validating the types.
    ///
    /// Succeeds exactly on `n` string arguments and returns their values in
    /// order; a wrong count or a non-string argument is reported exactly.
    pub fn expect_args_exact(func: &str, _ctx: &Context, args: &Vec<Value>, n: usize) -> (r: Result<
        Vec<String>,
        Error,
    >)
        ensures
            r is Ok <==> (args@.len() == n && (forall|i: int|
                0 <= i < n ==> (#[trigger] args@[i]) is Str)),
            r matches Ok(vals) ==> vals@.len() == n && (forall|i: int|
                0 <= i < n ==> (#[trigger] vals@[i])@ == args@[i]->Str_0@),
            args@.len() != n ==> (r matches Err(Error::InvalidArgumentCount {
                func: f,
                expected,
                is_min,
                found,
            }) && f@ == func@ && expected == n && !is_min && found == args@.len()),
            r matches Err(Error::TypeMismatch { expected, found }) ==> args@.len() == n && expected
                == Type::Str && (exists|i: int| 0 <= i < n && !((#[trigger] args@[i]) is Str)),
            args@.len() == n ==> !(r matches Err(Error::InvalidArgumentCount { .. })),
    {
        if args.len() != n {
            return Err(
                Error::InvalidArgumentCount {
                    func: func.to_owned(),
                    expected: n,
                    is_min: false,
                    found: args.len(),
                },
            );
        }
        let mut vals: Vec<String> = Vec::new();
        let mut i: usize = 0;
        while i < n
            invariant
                n == args@.len(),
                0 <= i <= n,
                vals@.len() == i,
                forall|k: int| 0 <= k < i ==> (#[trigger] args@[k]) is Str,
                forall|k: int| 0 <= k < i ==> (#[trigger] vals@[k])@ == args@[k]->Str_0@,
            decreases n - i,
        {
            match &args[i] {
                Value::Str(s) => {
                    vals.push(s.clone());
                },
                other => {
                    return Err(Error::TypeMismatch { expected: Type::Str, found: other.as_type() });
                },
            }
            i += 1;
        }
        Ok(vals)
    }

    /// Extracts at least `n` string arguments, validating the types.
    ///
    /// Succeeds exactly on enough string arguments and returns their values
    /// in order, split into the first `n` and the rest; a short argument
    /// list or a non-string argument is reported exactly.
    pub fn expect_args_min(func: &str, _ctx: &Context, args: &Vec<Value>, n: usize) -> (r: Result<
        (Vec<String>, Vec<String>),
        Error,
    >)
        ensures
            r is Ok <==> (args@.len() >= n && (forall|i: int|
                0 <= i < args@.len() ==> (#[trigger] args@[i]) is Str)),
            r matches Ok(vals) ==> vals.0@.len() == n && vals.1@.len() == args@.len() - n && (
            forall|i: int| 0 <= i < n ==> (#[trigger] vals.0@[i])@ == args@[i]->Str_0@) && (forall|
                i: int,
            | 0 <= i < args@.len() - n ==> (#[trigger] vals.1@[i])@ == args@[n + i]->Str_0@),
            args@.len() < n ==> (r matches Err(Error::InvalidArgumentCount {
                func: f,
                expected,
                is_min,
                found,
            }) && f@ == func@ && expected == n && is_min && found == args@.len()),
            r matches Err(Error::TypeMismatch { expected, found }) ==> args@.len() >= n && expected
                == Type::Str && (exists|i: int|
                0 <= i < args@.len() && !((#[trigger] args@[i]) is Str)),
            args@.len() >= n ==> !(r matches Err(Error::InvalidArgumentCount { .. })),
    {
        if args.len() < n {
            return Err(
                Error::InvalidArgumentCount {
                    func: func.to_owned(),
                    expected: n,
                    is_min: true,
                    found: args.len(),
                },
            );
        }
        let mut head: Vec<String> = Vec::new();
        let mut i: usize = 0;
        while i < n
            invariant
                n <= args@.len(),
                0 <= i <= n,
                head@.len() == i,
                forall|k: int| 0 <= k < i ==> (#[trigger] args@[k]) is Str,
                forall|k: int| 0 <= k < i ==> (#[trigger] head@[k])@ == args@[k]->Str_0@,
            decreases n - i,
        {
            match &args[i] {
                Value::Str(s) => {
                    head.push(s.clone());
                },
                other => {
                    return Err(Error::TypeMismatch { expected: Type::Str, found: other.as_type() });
                },
            }
            i += 1;
        }
        let mut tail: Vec<String> = Vec::new();
        let mut i: usize = n;
        while i < args.len()
            invariant
                n <= args@.len(),
                n <= i <= args@.len(),
                tail@.len() == i - n,
                head@.len() == n,
                forall|k: int| 0 <= k < n ==> (#[trigger] args@[k]) is Str,
                forall|k: int| 0 <= k < n ==> (#[trigger] head@[k])@ == args@[k]->Str_0@,
                forall|k: int| n <= k < i ==> (#[trigger] args@[k]) is Str,
                forall|k: int| 0 <= k < i - n ==> (#[trigger] tail@[k])@ == args@[n + k]->Str_0@,
            decreases args@.len() - i,
        {
            match &args[i] {
                Value::Str(s) => {
                    tail.push(s.clone());
                },
                other => {
                    return Err(Error::TypeMismatch { expected: Type::Str, found: other.as_type() });
                },
            }
            i += 1;
        }
        Ok((head, tail))
    }

    /// Calls this function with the given arguments.
    ///
    /// The nullary constructors succeed exactly on no arguments and denote
    /// their built-in set; the unary ones take exactly one string and wrap
    /// it in their expression; `regex` additionally asks that the pattern
    /// compiles, `kind` that the name is one of the three kinds. Mismatched
    /// argument counts and types are reported exactly.
    pub fn call(&self, ctx: &Context, args: &Vec<Value>) -> (r: Result<Value, Error>)
        ensures
            r matches Ok(v) ==> v is SetExpr && spec_expr_wf(v->SetExpr_0),
            self is AllFn ==> (r is Ok <==> args@.len() == 0) && (r matches Ok(v) ==> v
                == Value::SetExpr(Expr::Built(BuiltIn::AllSet))),
            self is NoneFn ==> (r is Ok <==> args@.len() == 0) && (r matches Ok(v) ==> v
                == Value::SetExpr(Expr::Built(BuiltIn::NoneSet))),
            self is SkipFn ==> (r is Ok <==> args@.len() == 0) && (r matches Ok(v) ==> v
                == Value::SetExpr(Expr::Built(BuiltIn::SkipSet))),
            self is CompileOnlyFn ==> (r is Ok <==> args@.len() == 0) && (r matches Ok(v) ==> v
                == Value::SetExpr(Expr::Built(BuiltIn::CompileOnlySet))),
            self is EphemeralFn ==> (r is Ok <==> args@.len() == 0) && (r matches Ok(v) ==> v
                == Value::SetExpr(Expr::Built(BuiltIn::EphemeralSet))),
            self is PersistentFn ==> (r is Ok <==> args@.len() == 0) && (r matches Ok(v) ==> v
                == Value::SetExpr(Expr::Built(BuiltIn::PersistentSet))),
            self is IgnoredFn ==> (r is Ok <==> args@.len() == 0) && (r matches Ok(v) ==> v
                == Value::SetExpr(Expr::Built(BuiltIn::IgnoredSet))),
            self is ExactFn ==> (r is Ok <==> (args@.len() == 1 && args@[0] is Str)) && (r matches
                Ok(v) ==> (v matches Value::SetExpr(Expr::Exact(s)) && s@ == args@[0]->Str_0@)),
            self is ContainsFn ==> (r is Ok <==> (args@.len() == 1 && args@[0] is Str)) && (
            r matches Ok(v) ==> (v matches Value::SetExpr(Expr::Contains(s)) && s@
                == args@[0]->Str_0@)),
            self is TagFn ==> (r is Ok <==> (args@.len() == 1 && args@[0] is Str)) && (r matches Ok(
                v,
            ) ==> (v matches Value::SetExpr(Expr::Tag(s)) && s@ == args@[0]->Str_0@)),
            self is RegexFn ==> (r is Ok <==> (args@.len() == 1 && args@[0] is Str
                && spec_regex_valid(args@[0]->Str_0@))) && (r matches Ok(v) ==> (v matches
            Value::SetExpr(Expr::Regex(p)) && p@ == args@[0]->Str_0@)),
            self is KindFn ==> (r is Ok <==> (args@.len() == 1 && args@[0] is Str && (
            args@[0]->Str_0@ == "persistent"@ || args@[0]->Str_0@ == "ephemeral"@
                || args@[0]->Str_0@ == "compile-only"@))) && (r matches Ok(v) ==> v
                == Value::SetExpr(
                Expr::KindIs(
                    if args@[0]->Str_0@ == "persistent"@ {
                        Some(ReferenceKind::Persistent)
                    } else if args@[0]->Str_0@ == "ephemeral"@ {
                        Some(ReferenceKind::Ephemeral)
                    } else {
                        None
                    },
                ),
            )),
            r matches Err(Error::InvalidArgumentCount { expected, is_min, found, .. }) ==> !is_min
                && found == args@.len() && expected == (if self is AllFn || self is NoneFn
                || self is SkipFn || self is CompileOnlyFn || self is EphemeralFn
                || self is PersistentFn || self is IgnoredFn {
                0int
            } else {
                1int
            }),
    {
        match self {
            Func::AllFn => {
                Self::expect_no_args("all", ctx, args)?;
                Ok(Value::SetExpr(Expr::Built(BuiltIn::AllSet)))
            },
            Func::NoneFn => {
                Self::expect_no_args("none", ctx, args)?;
                Ok(Value::SetExpr(Expr::Built(BuiltIn::NoneSet)))
            },
            Func::SkipFn => {
                Self::expect_no_args("skip", ctx, args)?;
                Ok(Value::SetExpr(Expr::Built(BuiltIn::SkipSet)))
            },
            Func::CompileOnlyFn => {
                Self::expect_no_args("compile-only", ctx, args)?;
                Ok(Value::SetExpr(Expr::Built(BuiltIn::CompileOnlySet)))
            },
            Func::EphemeralFn => {
                Self::expect_no_args("ephemeral", ctx, args)?;
                Ok(Value::SetExpr(Expr::Built(BuiltIn::EphemeralSet)))
            },
            Func::PersistentFn => {
                Self::expect_no_args("persistent", ctx, args)?;
                Ok(Value::SetExpr(Expr::Built(BuiltIn::PersistentSet)))
            },
            Func::IgnoredFn => {
                Self::expect_no_args("ignored", ctx, args)?;
                Ok(Value::SetExpr(Expr::Built(BuiltIn::IgnoredSet)))
            },
            Func::ExactFn => {
                let vals = Self::expect_args_exact("exact", ctx, args, 1)?;
                Ok(Value::SetExpr(Expr::Exact(vals[0].clone())))
            },
            Func::ContainsFn => {
                let vals = Self::expect_args_exact("contains", ctx, args, 1)?;
                Ok(Value::SetExpr(Expr::Contains(vals[0].clone())))
            },
            Func::RegexFn => {
                let vals = Self::expect_args_exact("regex", ctx, args, 1)?;
                if !regex_valid(vals[0].as_str()) {
                    return Err(Error::InvalidRegex { pos: 0 });
                }
                Ok(Value::SetExpr(Expr::Regex(vals[0].clone())))
            },
            Func::TagFn => {
                let vals = Self::expect_args_exact("tag", ctx, args, 1)?;
                Ok(Value::SetExpr(Expr::Tag(vals[0].clone())))
            },
            Func::KindFn => {
                let vals = Self::expect_args_exact("kind", ctx, args, 1)?;
                let name = &vals[0];
                if crate::util::str_eq(name.as_str(), "persistent") {
                    Ok(Value::SetExpr(Expr::KindIs(Some(ReferenceKind::Persistent))))
                } else if crate::util::str_eq(name.as_str(), "ephemeral") {
                    Ok(Value::SetExpr(Expr::KindIs(Some(ReferenceKind::Ephemeral))))
                } else if crate::util::str_eq(name.as_str(), "compile-only") {
                    Ok(Value::SetExpr(Expr::KindIs(None)))
                } else {
                    Err(Error::TypeMismatch { expected: Type::Str, found: Type::Str })
                }
            },
        }
    }
}

/// A compiled test-set expression with its one operation: membership.
#[derive(Debug, PartialEq, Eq)]
pub struct TestSet {
    expr: Expr,
}

impl TestSet {
    /// The underlying expression.
    pub closed spec fn expr_view(&self) -> Expr {
        self.expr
    }

    /// Validity: every regular expression in the set compiles.
    pub open spec fn wf(self) -> bool {
        spec_expr_wf(self.expr_view())
    }

    /// Wraps a checked expression.
    pub fn from_expr(expr: Expr) -> (r: TestSet)
        requires
            spec_expr_wf(expr),
        ensures
            r.expr_view() == expr,
            r.wf(),
    {
        TestSet { expr }
    }

    /// The expression this set was built from.
    pub fn expr(&self) -> (r: &Expr)
        ensures
            r == self.expr_view(),
    {
        &self.expr
    }

    /// Whether `test` belongs to this set.
    pub fn contains(&self, test: &Test) -> (r: bool)
        requires
            self.wf(),
            test.wf(),
        ensures
            r == spec_matches(
                self.expr_view(),
                test.spec_id()@,
                test.spec_ref_kind(),
                test.spec_is_ignored(),
            ),
    {
        let id = test.id().to_string();
        let kind = match test.ref_kind() {
            Some(ReferenceKind::Ephemeral) => Some(ReferenceKind::Ephemeral),
            Some(ReferenceKind::Persistent) => Some(ReferenceKind::Persistent),
            None => None,
        };
        eval_expr(&self.expr, id.as_str(), kind, test.is_ignored())
    }
}

/// Whether `text` holds `pat` as a substring.
fn contains_substring(text: &str, pat: &str) -> (r: bool)
    ensures
        r == spec_contains_sub(text@, pat@),
{
    let tn = text.unicode_len();
    let pn = pat.unicode_len();
    if pn > tn {
        proof {
            assert(!spec_contains_sub(text@, pat@)) by {
                if spec_contains_sub(text@, pat@) {
                    let i = choose|i: int|
                        0 <= i <= text@.len() - pat@.len() && #[trigger] text@.subrange(
                            i,
                            i + pat@.len(),
                        ) == pat@;
                    assert(false);
                }
            }
        }
        return false;
    }
    let tc = str_chars(text);
    let pc = str_chars(pat);
    let mut i: usize = 0;
    while i <= tn - pn
        invariant
            tn == text@.len(),
            pn == pat@.len(),
            pn <= tn,
            tc@ == text@,
            pc@ == pat@,
            0 <= i <= tn - pn + 1,
            forall|k: int|
                0 <= k < i ==> #[trigger] text@.subrange(k, k + pat@.len()) != pat@,
        decreases tn - pn - i + 1,
    {
        let mut j: usize = 0;
        let mut ok = true;
        while j < pn
            invariant
                tn == text@.len(),
                pn == pat@.len(),
                tc@ == text@,
                pc@ == pat@,
                0 <= i <= tn - pn,
                0 <= j <= pn,
                ok == (forall|k: int| 0 <= k < j ==> text@[i + k] == pat@[k]),
                !ok ==> j == pn,
            decreases pn - j,
        {
            if tc[i + j] != pc[j] {
                proof {
                    assert(text@[i + j] != pat@[j as int]);
                }
                ok = false;
                j = pn;
            } else {
                proof {
                    assert(text@[i + j] == pat@[j as int]);
                    assert(forall|k: int| 0 <= k < j + 1 ==> text@[i + k] == pat@[k]);
                }
                j += 1;
            }
        }
        if ok {
            proof {
                assert(text@.subrange(i as int, i + pat@.len()) =~= pat@);
            }
            return true;
        }
        proof {
            if text@.subrange(i as int, i + pat@.len()) == pat@ {
                assert(forall|k: int|
                    0 <= k < pat@.len() ==> text@.subrange(i as int, i + pat@.len())[k]
                        == pat@[k]);
                assert(forall|k: int| 0 <= k < pat@.len() ==> text@[i + k] == pat@[k]);
                assert(false);
            }
        }
        i += 1;
    }
    proof {
        if spec_contains_sub(text@, pat@) {
            let k = choose|k: int|
                0 <= k <= text@.len() - pat@.len() && #[trigger] text@.subrange(
                    k,
                    k + pat@.len(),
                ) == pat@;
            assert(false);
        }
    }
    false
}

/// Evaluates an expression against one test's attributes.
fn eval_expr(e: &Expr, id: &str, kind: Option<ReferenceKind>, ignored: bool) -> (r: bool)
    requires
        spec_expr_wf(*e),
    ensures
        r == spec_matches(*e, id@, kind, ignored),
    decreases *e,
{
    match e {
        Expr::Built(BuiltIn::AllSet) => true,
        Expr::Built(BuiltIn::NoneSet) => false,
        Expr::Built(BuiltIn::SkipSet) => ignored,
        Expr::Built(BuiltIn::CompileOnlySet) => matches!(kind, None),
        Expr::Built(BuiltIn::EphemeralSet) => matches!(kind, Some(ReferenceKind::Ephemeral)),
        Expr::Built(BuiltIn::PersistentSet) => matches!(kind, Some(ReferenceKind::Persistent)),
        Expr::Built(BuiltIn::IgnoredSet) => ignored,
        Expr::Exact(s) => crate::util::str_eq(s.as_str(), id),
        Expr::Contains(s) => contains_substring(id, s.as_str()),
        Expr::Regex(p) => regex_is_match(p.as_str(), id),
        Expr::Tag(s) => ignored && (crate::util::str_eq(s.as_str(), "ignored")
            || crate::util::str_eq(s.as_str(), "skip")),
        Expr::KindIs(k) => {
            match (k, kind) {
                (Some(ReferenceKind::Ephemeral), Some(ReferenceKind::Ephemeral)) => true,
                (Some(ReferenceKind::Persistent), Some(ReferenceKind::Persistent)) => true,
                (None, None) => true,
                _ => false,
            }
        },
        Expr::Not(a) => !eval_expr(a, id, kind, ignored),
        Expr::Union(a, b) => {
            let l = eval_expr(a, id, kind, ignored);
            let rr = eval_expr(b, id, kind, ignored);
            l || rr
        },
        Expr::Inter(a, b) => {
            let l = eval_expr(a, id, kind, ignored);
            let rr = eval_expr(b, id, kind, ignored);
            l && rr
        },
        Expr::Diff(a, b) => {
            let l = eval_expr(a, id, kind, ignored);
            let rr = eval_expr(b, id, kind, ignored);
            l && !rr
        },
        Expr::SymDiff(a, b) => {
            let l = eval_expr(a, id, kind, ignored);
            let rr = eval_expr(b, id, kind, ignored);
            l != rr
        },
    }
}


/// One token of the expression language.
#[derive(Debug, PartialEq, Eq)]
pub enum Token {
    /// An identifier.
    Ident(String),
    /// A string literal, with its escapes resolved.
    StrLit(String),
    /// An integer literal.
    Int(u64),
    /// `(`.
    LParen,
    /// `)`.
    RParen,
    /// `,`.
    Comma,
    /// `:`.
    Colon,
    /// `|`.
    Pipe,
    /// `&`.
    Amp,
    /// `~`.
    Tilde,
    /// `\\`.
    Backslash,
    /// `^`.
    Caret,
    /// `!`.
    Bang,
}

/// Whether `c` may start an identifier.
fn is_ident_start(c: char) -> bool {
    ('a' <= c && c <= 'z') || ('A' <= c && c <= 'Z') || c == '_'
}

/// Whether `c` may continue an identifier.
fn is_ident_continue(c: char) -> bool {
    ('a' <= c && c <= 'z') || ('A' <= c && c <= 'Z') || ('0' <= c && c <= '9') || c == '_' || c
        == '-'
}

/// Splits the source into tokens. Whitespace is insignificant.
fn lex(chars: &Vec<char>) -> (r: Result<Vec<Token>, Error>) {
    let n = chars.len();
    let mut toks: Vec<Token> = Vec::new();
    let mut i: usize = 0;
    while i < n
        invariant
            n == chars@.len(),
            0 <= i <= n,
        decreases n - i,
    {
        let c = chars[i];
        if c == ' ' || c == '\t' || c == '\n' || c == '\r' {
            i += 1;
        } else if c == '(' {
            toks.push(Token::LParen);
            i += 1;
        } else if c == ')' {
            toks.push(Token::RParen);
            i += 1;
        } else if c == ',' {
            toks.push(Token::Comma);
            i += 1;
        } else if c == ':' {
            toks.push(Token::Colon);
            i += 1;
        } else if c == '|' {
            toks.push(Token::Pipe);
            i += 1;
        } else if c == '&' {
            toks.push(Token::Amp);
            i += 1;
        } else if c == '~' {
            toks.push(Token::Tilde);
            i += 1;
        } else if c == '\\' {
            toks.push(Token::Backslash);
            i += 1;
        } else if c == '^' {
            toks.push(Token::Caret);
            i += 1;
        } else if c == '!' {
            toks.push(Token::Bang);
            i += 1;
        } else if c == '"' {
            // a string literal with backslash escapes
            let mut value = String::new();
            let mut j = i + 1;
            let mut closed = false;
            while j < n && !closed
                invariant
                    n == chars@.len(),
                    i < j <= n,
                decreases n - j,
            {
                let d = chars[j];
                if d == '"' {
                    closed = true;
                    j += 1;
                } else if d == '\\' {
                    if j + 1 >= n {
                        return Err(Error::Parse { pos: j });
                    }
                    push_char(&mut value, chars[j + 1]);
                    j += 2;
                } else {
                    push_char(&mut value, d);
                    j += 1;
                }
            }
            if !closed {
                return Err(Error::Parse { pos: i });
            }
            toks.push(Token::StrLit(value));
            i = j;
        } else if '0' <= c && c <= '9' {
            let mut value: u64 = (c as u32 - '0' as u32) as u64;
            let mut j = i + 1;
            while j < n && '0' <= chars[j] && chars[j] <= '9'
                invariant
                    n == chars@.len(),
                    i < j <= n,
                decreases n - j,
            {
                let d = (chars[j] as u32 - '0' as u32) as u64;
                if value > (u64::MAX - d) / 10 {
                    return Err(Error::Parse { pos: j });
                }
                value = value * 10 + d;
                j += 1;
            }
            toks.push(Token::Int(value));
            i = j;
        } else if is_ident_start(c) {
            let mut name = String::new();
            push_char(&mut name, c);
            let mut j = i + 1;
            while j < n && is_ident_continue(chars[j])
                invariant
                    n == chars@.len(),
                    i < j <= n,
                decreases n - j,
            {
                push_char(&mut name, chars[j]);
                j += 1;
            }
            toks.push(Token::Ident(name));
            i = j;
        } else {
            return Err(Error::Parse { pos: i });
        }
    }
    Ok(toks)
}

/// Whether the token at `pos` is the identifier `word`.
fn peek_word(toks: &Vec<Token>, pos: usize, word: &str) -> (r: bool)
    requires
        pos <= toks@.len(),
{
    if pos >= toks.len() {
        return false;
    }
    match &toks[pos] {
        Token::Ident(name) => crate::util::str_eq(name.as_str(), word),
        _ => false,
    }
}

/// Parses a union chain: `inter (('|' | 'or') inter)*`.
fn parse_union(toks: &Vec<Token>, pos: &mut usize) -> (r: Result<Expr, Error>)
    requires
        *old(pos) <= toks@.len(),
    ensures
        *old(pos) <= *final(pos) <= toks@.len(),
        r matches Ok(e) ==> spec_expr_wf(e),
    decreases toks@.len() - *old(pos), 5int,
{
    let mut left = parse_inter(toks, pos)?;
    while *pos < toks.len() && (matches!(&toks[*pos], Token::Pipe) || peek_word(toks, *pos, "or"))
        invariant
            *old(pos) <= *pos <= toks@.len(),
            spec_expr_wf(left),
        decreases toks@.len() - *pos,
    {
        *pos += 1;
        let right = parse_inter(toks, pos)?;
        left = Expr::Union(Box::new(left), Box::new(right));
    }
    Ok(left)
}

/// Parses an intersection chain: `diff (('&' | 'and') diff)*`.
fn parse_inter(toks: &Vec<Token>, pos: &mut usize) -> (r: Result<Expr, Error>)
    requires
        *old(pos) <= toks@.len(),
    ensures
        *old(pos) <= *final(pos) <= toks@.len(),
        r matches Ok(e) ==> spec_expr_wf(e),
    decreases toks@.len() - *old(pos), 4int,
{
    let mut left = parse_diff(toks, pos)?;
    while *pos < toks.len() && (matches!(&toks[*pos], Token::Amp) || peek_word(toks, *pos, "and"))
        invariant
            *old(pos) <= *pos <= toks@.len(),
            spec_expr_wf(left),
        decreases toks@.len() - *pos,
    {
        *pos += 1;
        let right = parse_diff(toks, pos)?;
        left = Expr::Inter(Box::new(left), Box::new(right));
    }
    Ok(left)
}

/// Parses a difference chain: `symdiff (('~' | '\\' | 'diff') symdiff)*`.
fn parse_diff(toks: &Vec<Token>, pos: &mut usize) -> (r: Result<Expr, Error>)
    requires
        *old(pos) <= toks@.len(),
    ensures
        *old(pos) <= *final(pos) <= toks@.len(),
        r matches Ok(e) ==> spec_expr_wf(e),
    decreases toks@.len() - *old(pos), 3int,
{
    let mut left = parse_symdiff(toks, pos)?;
    while *pos < toks.len() && (matches!(&toks[*pos], Token::Tilde) || matches!(
        &toks[*pos],
        Token::Backslash,
    ))
        invariant
            *old(pos) <= *pos <= toks@.len(),
            spec_expr_wf(left),
        decreases toks@.len() - *pos,
    {
        *pos += 1;
        let right = parse_symdiff(toks, pos)?;
        left = Expr::Diff(Box::new(left), Box::new(right));
    }
    Ok(left)
}

/// Parses a symmetric difference chain: `unary (('^' | 'xor') unary)*`.
fn parse_symdiff(toks: &Vec<Token>, pos: &mut usize) -> (r: Result<Expr, Error>)
    requires
        *old(pos) <= toks@.len(),
    ensures
        *old(pos) <= *final(pos) <= toks@.len(),
        r matches Ok(e) ==> spec_expr_wf(e),
    decreases toks@.len() - *old(pos), 2int,
{
    let mut left = parse_unary(toks, pos)?;
    while *pos < toks.len() && (matches!(&toks[*pos], Token::Caret) || peek_word(toks, *pos, "xor"))
        invariant
            *old(pos) <= *pos <= toks@.len(),
            spec_expr_wf(left),
        decreases toks@.len() - *pos,
    {
        *pos += 1;
        let right = parse_unary(toks, pos)?;
        left = Expr::SymDiff(Box::new(left), Box::new(right));
    }
    Ok(left)
}

/// Parses a prefix complement: `('!' | 'not')* atom`.
fn parse_unary(toks: &Vec<Token>, pos: &mut usize) -> (r: Result<Expr, Error>)
    requires
        *old(pos) <= toks@.len(),
    ensures
        *old(pos) <= *final(pos) <= toks@.len(),
        r matches Ok(e) ==> spec_expr_wf(e),
    decreases toks@.len() - *old(pos), 1int,
{
    if *pos < toks.len() && (matches!(&toks[*pos], Token::Bang) || peek_word(toks, *pos, "not")) {
        *pos += 1;
        let inner = parse_unary(toks, pos)?;
        return Ok(Expr::Not(Box::new(inner)));
    }
    parse_atom(toks, pos)
}

/// Resolves a call of `name` on the given arguments.
fn apply_name(name: &String, args: &Vec<Value>, name_pos: usize) -> (r: Result<Expr, Error>)
    ensures
        r matches Ok(e) ==> spec_expr_wf(e),
{
    let ctx = Context::empty();
    let func = if crate::util::str_eq(name.as_str(), "all") {
        Func::AllFn
    } else if crate::util::str_eq(name.as_str(), "none") {
        Func::NoneFn
    } else if crate::util::str_eq(name.as_str(), "skip") {
        Func::SkipFn
    } else if crate::util::str_eq(name.as_str(), "compile-only") {
        Func::CompileOnlyFn
    } else if crate::util::str_eq(name.as_str(), "ephemeral") {
        Func::EphemeralFn
    } else if crate::util::str_eq(name.as_str(), "persistent") {
        Func::PersistentFn
    } else if crate::util::str_eq(name.as_str(), "ignored") {
        Func::IgnoredFn
    } else if crate::util::str_eq(name.as_str(), "exact") {
        Func::ExactFn
    } else if crate::util::str_eq(name.as_str(), "contains") {
        Func::ContainsFn
    } else if crate::util::str_eq(name.as_str(), "regex") {
        Func::RegexFn
    } else if crate::util::str_eq(name.as_str(), "tag") {
        Func::TagFn
    } else if crate::util::str_eq(name.as_str(), "kind") {
        Func::KindFn
    } else {
        return Err(Error::UnknownIdentifier { name: name.clone() });
    };
    match func.call(&ctx, args)? {
        Value::SetExpr(e) => Ok(e),
        other => Err(Error::TypeMismatch { expected: Type::SetOfTests, found: other.as_type() }),
    }
}

/// Parses an atom: a parenthesised expression, a function call, the
/// `name:value` sugar, or a bare identifier resolved as a nullary call.
fn parse_atom(toks: &Vec<Token>, pos: &mut usize) -> (r: Result<Expr, Error>)
    requires
        *old(pos) <= toks@.len(),
    ensures
        *old(pos) <= *final(pos) <= toks@.len(),
        r matches Ok(e) ==> spec_expr_wf(e),
    decreases toks@.len() - *old(pos), 0int,
{
    if *pos >= toks.len() {
        return Err(Error::Parse { pos: *pos });
    }
    let start = *pos;
    if matches!(&toks[start], Token::LParen) {
        *pos += 1;
        let inner = parse_union(toks, pos)?;
        if *pos < toks.len() && matches!(&toks[*pos], Token::RParen) {
            *pos += 1;
            return Ok(inner);
        }
        return Err(Error::Parse { pos: *pos });
    }
    let name = match &toks[start] {
        Token::Ident(name) => name.clone(),
        _ => {
            return Err(Error::Parse { pos: start });
        },
    };
    *pos += 1;
    // `name:value` sugar for a one-argument call
    if *pos < toks.len() && matches!(&toks[*pos], Token::Colon) {
        *pos += 1;
        if *pos >= toks.len() {
            return Err(Error::Parse { pos: *pos });
        }
        let value = match &toks[*pos] {
            Token::Ident(v) => v.clone(),
            Token::StrLit(v) => v.clone(),
            _ => {
                return Err(Error::Parse { pos: *pos });
            },
        };
        *pos += 1;
        let mut args: Vec<Value> = Vec::new();
        args.push(Value::Str(value));
        return apply_name(&name, &args, start);
    }
    // a call with parenthesised arguments
    if *pos < toks.len() && matches!(&toks[*pos], Token::LParen) {
        *pos += 1;
        let mut args: Vec<Value> = Vec::new();
        if *pos < toks.len() && matches!(&toks[*pos], Token::RParen) {
            *pos += 1;
            return apply_name(&name, &args, start);
        }
        loop
            invariant
                *old(pos) <= *pos <= toks@.len(),
            decreases toks@.len() - *pos,
        {
            if *pos >= toks.len() {
                return Err(Error::Parse { pos: *pos });
            }
            match &toks[*pos] {
                Token::StrLit(v) => {
                    args.push(Value::Str(v.clone()));
                },
                Token::Int(v) => {
                    args.push(Value::Num(*v));
                },
                Token::Ident(v) => {
                    args.push(Value::Str(v.clone()));
                },
                _ => {
                    return Err(Error::Parse { pos: *pos });
                },
            }
            *pos += 1;
            if *pos < toks.len() && matches!(&toks[*pos], Token::Comma) {
                *pos += 1;
            } else if *pos < toks.len() && matches!(&toks[*pos], Token::RParen) {
                *pos += 1;
                return apply_name(&name, &args, start);
            } else {
                return Err(Error::Parse { pos: *pos });
            }
        }
    }
    // a bare identifier resolves as a nullary call
    let args: Vec<Value> = Vec::new();
    apply_name(&name, &args, start)
}

/// Parses a test-set expression.
///
/// The result is ready for evaluation: every regular expression in it has
/// been checked to compile.
pub fn parse(source: &str) -> (r: Result<TestSet, Error>)
    ensures
        r matches Ok(set) ==> set.wf(),
{
    let chars = str_chars(source);
    let toks = lex(&chars)?;
    let mut pos: usize = 0;
    let expr = parse_union(&toks, &mut pos)?;
    if pos != toks.len() {
        return Err(Error::Parse { pos });
    }
    Ok(TestSet::from_expr(expr))
}

/// Parses `source` and decides whether `test` belongs to the set it denotes.
pub fn expression_matches(source: &str, test: &Test) -> (r: Result<bool, Error>)
    requires
        test.wf(),
    ensures
        r matches Ok(b) ==> exists|e: Expr|
            spec_expr_wf(e) && b == #[trigger] spec_matches(
                e,
                test.spec_id()@,
                test.spec_ref_kind(),
                test.spec_is_ignored(),
            ),
{
    let set = parse(source)?;
    let b = set.contains(test);
    proof {
        assert(spec_expr_wf(set.expr_view()) && b == spec_matches(
            set.expr_view(),
            test.spec_id()@,
            test.spec_ref_kind(),
            test.spec_is_ignored(),
        ));
    }
    Ok(b)
}

/// The escaped form of a string literal body: backslashes and quotes carry a
/// backslash prefix.
pub open spec fn spec_escape(s: Seq<char>) -> Seq<char>
    decreases s.len(),
{
    if s.len() == 0 {
        Seq::empty()
    } else {
        let head: Seq<char> = if s[0] == '"' || s[0] == '\\' {
            seq!['\\', s[0]]
        } else {
            seq![s[0]]
        };
        head + spec_escape(s.drop_first())
    }
}

/// The rendered form of an expression: fully parenthesised, so that parsing
/// it back gives the same structure.
pub open spec fn spec_format(e: Expr) -> Seq<char>
    decreases e,
{
    match e {
        Expr::Built(BuiltIn::AllSet) => "all()"@,
        Expr::Built(BuiltIn::NoneSet) => "none()"@,
        Expr::Built(BuiltIn::SkipSet) => "skip()"@,
        Expr::Built(BuiltIn::CompileOnlySet) => "compile-only()"@,
        Expr::Built(BuiltIn::EphemeralSet) => "ephemeral()"@,
        Expr::Built(BuiltIn::PersistentSet) => "persistent()"@,
        Expr::Built(BuiltIn::IgnoredSet) => "ignored()"@,
        Expr::Exact(s) => "exact(\""@ + spec_escape(s@) + "\")"@,
        Expr::Contains(s) => "contains(\""@ + spec_escape(s@) + "\")"@,
        Expr::Regex(p) => "regex(\""@ + spec_escape(p@) + "\")"@,
        Expr::Tag(s) => "tag(\""@ + spec_escape(s@) + "\")"@,
        Expr::KindIs(Some(ReferenceKind::Persistent)) => "kind(\"persistent\")"@,
        Expr::KindIs(Some(ReferenceKind::Ephemeral)) => "kind(\"ephemeral\")"@,
        Expr::KindIs(None) => "kind(\"compile-only\")"@,
        Expr::Not(a) => "(!"@ + spec_format(*a) + ")"@,
        Expr::Union(a, b) => "("@ + spec_format(*a) + " | "@ + spec_format(*b) + ")"@,
        Expr::Inter(a, b) => "("@ + spec_format(*a) + " & "@ + spec_format(*b) + ")"@,
        Expr::Diff(a, b) => "("@ + spec_format(*a) + " ~ "@ + spec_format(*b) + ")"@,
        Expr::SymDiff(a, b) => "("@ + spec_format(*a) + " ^ "@ + spec_format(*b) + ")"@,
    }
}

/// Renders the body of a string literal, escaping backslashes and quotes.
fn escape_into(out: &mut String, s: &str)
    ensures
        final(out)@ == old(out)@ + spec_escape(s@),
{
    let chars = str_chars(s);
    let n = chars.len();
    let mut i: usize = 0;
    while i < n
        invariant
            n == chars@.len(),
            chars@ == s@,
            0 <= i <= n,
            out@ == old(out)@ + spec_escape(s@.take(i as int)),
        decreases n - i,
    {
        let c = chars[i];
        if c == '"' || c == '\\' {
            push_char(out, '\\');
            push_char(out, c);
        } else {
            push_char(out, c);
        }
        proof {
            lemma_escape_take_step(s@, i as int);
        }
        i += 1;
    }
    proof {
        assert(s@.take(n as int) =~= s@);
    }
}

/// Escaping one more character appends its escaped form.
proof fn lemma_escape_take_step(s: Seq<char>, i: int)
    requires
        0 <= i < s.len(),
    ensures
        spec_escape(s.take(i + 1)) == spec_escape(s.take(i)) + (if s[i] == '"' || s[i] == '\\' {
            seq!['\\', s[i]]
        } else {
            seq![s[i]]
        }),
    decreases i,
{
    if i == 0 {
        assert(s.take(1).drop_first() =~= Seq::<char>::empty());
        assert(spec_escape(Seq::<char>::empty()) =~= Seq::<char>::empty());
        assert(spec_escape(s.take(0)) =~= Seq::<char>::empty());
        assert(s.take(1)[0] == s[0]);
        assert(spec_escape(s.take(1)) =~= (if s[0] == '"' || s[0] == '\\' {
            seq!['\\', s[0]]
        } else {
            seq![s[0]]
        }) + spec_escape(s.take(1).drop_first()));
        assert(spec_escape(s.take(1)) =~= spec_escape(s.take(0)) + (if s[0] == '"' || s[0]
            == '\\' {
            seq!['\\', s[0]]
        } else {
            seq![s[0]]
        }));
    } else {
        assert(s.take(i + 1).drop_first() =~= s.drop_first().take(i));
        assert(s.take(i).drop_first() =~= s.drop_first().take(i - 1));
        lemma_escape_take_step(s.drop_first(), i - 1);
        assert(s.take(i + 1)[0] == s[0] && s.take(i)[0] == s[0]);
        assert(s.drop_first()[i - 1] == s[i]);
        assert(spec_escape(s.take(i + 1)) =~= spec_escape(s.take(i)) + (if s[i] == '"' || s[i]
            == '\\' {
            seq!['\\', s[i]]
        } else {
            seq![s[i]]
        }));
    }
}

/// Renders an expression so that parsing the result gives back an expression
/// with the same meaning: every operator application is parenthesised and
/// every string literal quoted and escaped.
pub fn format_expr(e: &Expr) -> (r: String)
    ensures
        r@ == spec_format(*e),
    decreases *e,
{
    let mut out = String::new();
    match e {
        Expr::Built(BuiltIn::AllSet) => {
            out.append("all()");
        },
        Expr::Built(BuiltIn::NoneSet) => {
            out.append("none()");
        },
        Expr::Built(BuiltIn::SkipSet) => {
            out.append("skip()");
        },
        Expr::Built(BuiltIn::CompileOnlySet) => {
            out.append("compile-only()");
        },
        Expr::Built(BuiltIn::EphemeralSet) => {
            out.append("ephemeral()");
        },
        Expr::Built(BuiltIn::PersistentSet) => {
            out.append("persistent()");
        },
        Expr::Built(BuiltIn::IgnoredSet) => {
            out.append("ignored()");
        },
        Expr::Exact(s) => {
            out.append("exact(\"");
            escape_into(&mut out, s.as_str());
            out.append("\")");
        },
        Expr::Contains(s) => {
            out.append("contains(\"");
            escape_into(&mut out, s.as_str());
            out.append("\")");
        },
        Expr::Regex(p) => {
            out.append("regex(\"");
            escape_into(&mut out, p.as_str());
            out.append("\")");
        },
        Expr::Tag(s) => {
            out.append("tag(\"");
            escape_into(&mut out, s.as_str());
            out.append("\")");
        },
        Expr::KindIs(Some(ReferenceKind::Persistent)) => {
            out.append("kind(\"persistent\")");
        },
        Expr::KindIs(Some(ReferenceKind::Ephemeral)) => {
            out.append("kind(\"ephemeral\")");
        },
        Expr::KindIs(None) => {
            out.append("kind(\"compile-only\")");
        },
        Expr::Not(a) => {
            out.append("(!");
            let inner = format_expr(a);
            out.append(inner.as_str());
            out.append(")");
        },
        Expr::Union(a, b) => {
            out.append("(");
            let l = format_expr(a);
            out.append(l.as_str());
            out.append(" | ");
            let rr = format_expr(b);
            out.append(rr.as_str());
            out.append(")");
        },
        Expr::Inter(a, b) => {
            out.append("(");
            let l = format_expr(a);
            out.append(l.as_str());
            out.append(" & ");
            let rr = format_expr(b);
            out.append(rr.as_str());
            out.append(")");
        },
        Expr::Diff(a, b) => {
            out.append("(");
            let l = format_expr(a);
            out.append(l.as_str());
            out.append(" ~ ");
            let rr = format_expr(b);
            out.append(rr.as_str());
            out.append(")");
        },
        Expr::SymDiff(a, b) => {
            out.append("(");
            let l = format_expr(a);
            out.append(l.as_str());
            out.append(" ^ ");
            let rr = format_expr(b);
            out.append(rr.as_str());
            out.append(")");
        },
    }
    proof {
        assert(out@ =~= spec_format(*e));
    }
    out
}

} // verus!
