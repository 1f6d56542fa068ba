//! A small command-line flag library built around three pieces: a typed flag
//! descriptor ([`Flag`]), an argument store ([`Parser`]) holding a snapshot of
//! the invocation's tokens, and a conversion protocol ([`TryParse`]) that
//! turns raw tokens into typed values.
//!
//! The store is constructed once from a pre-tokenized argument list (the
//! program name, if any, is the caller's business: every token handed in is
//! scanned uniformly).  Resolution is a pure function of the store and the
//! descriptor: the same descriptor resolved twice yields the same result.
//! Fatal conditions (a mandatory flag missing, a token that does not convert)
//! are reported as a [`FlagError`] so that an embedding caller can decide how
//! to abort; absence of an optional flag is an `Ok(None)`, not an error.

use vstd::prelude::*;

pub mod convert;
pub mod try_parse;
pub mod tokens;

verus! {

use crate::tokens::spec_passed;
use crate::tokens::find_match;
use crate::try_parse::TryParse;
use crate::try_parse::many_matches;

/// How many of the tokens trailing a flag's occurrence a multi-value
/// resolution consumes.
///
/// * `Count(n)`: up to `n` tokens, starting right after the flag.
/// * `Remainder`: every token after the flag, to the end of the list.
/// * `SmartRemainder`: tokens after the flag, up to (not including) the first
///   one that the target type cannot convert.
#[derive(Clone)]
pub enum NArgs {
    Remainder,
    Count(usize),
    SmartRemainder,
}

/// A fatal resolution condition.  The library never terminates the process
/// itself; callers that want the classic fail-fast behaviour print the
/// error's data and exit with a non-zero status.
#[derive(Clone, Debug, PartialEq, Eq)]
pub enum FlagError {
    /// A mandatory flag was absent: neither `short` nor `long` occurs in the
    /// argument store.
    MissingFlag { short: String, long: String },
    /// A token that an integer-typed flag collected does not read as a
    /// decimal integer.
    BadInt { token: String },
    /// A token that a range-typed flag collected is not of the form
    /// `<integer>..<integer>`.
    BadRange { token: String },
}

/// One named, typed command-line option: its identity (`short`/`long`),
/// documentation, whether its absence is fatal, and an optional fallback
/// value.  Constructed once, then read by the resolution engine.
pub struct Flag<T = ()> {
    pub(crate) short: String,
    pub(crate) long: String,
    pub(crate) help: Option<&'static str>,
    pub(crate) mandatory: bool,
    pub(crate) default: Option<T>,
}

impl<T> Flag<T> {
    /// The short identifier, e.g. `-f`.
    pub closed spec fn spec_short(&self) -> String {
        self.short
    }

    /// The long identifier, e.g. `--flag`.
    pub closed spec fn spec_long(&self) -> String {
        self.long
    }

    /// The documentation string, if one was attached.
    pub closed spec fn spec_help(&self) -> Option<&'static str> {
        self.help
    }

    /// Whether absence of the flag is a fatal condition.
    pub closed spec fn spec_mandatory(&self) -> bool {
        self.mandatory
    }

    /// The fallback value, if one was attached.
    pub closed spec fn spec_default(&self) -> Option<T> {
        self.default
    }

    /// The descriptor's fields are exactly what its specification accessors
    /// say; stated here, where the accessors' bodies are in scope, for the
    /// modules that work on the fields directly.
    pub(crate) proof fn lemma_fields(&self)
        ensures
            self.short == self.spec_short(),
            self.long == self.spec_long(),
            self.help == self.spec_help(),
            self.mandatory == self.spec_mandatory(),
            self.default == self.spec_default(),
    {
    }

}

impl<T> Flag<T> where T: TryParse {
    /// A descriptor with the given identities and fallback; not mandatory,
    /// no documentation.
    pub fn new(short: &'static str, long: &'static str, default: Option<T>) -> (r: Self)
        ensures
            r.spec_short()@ == short@,
            r.spec_long()@ == long@,
            r.spec_help() is None,
            !r.spec_mandatory(),
            r.spec_default() == default,
    {
        Flag { short: short.to_owned(), long: long.to_owned(), help: None, mandatory: false, default }
    }

    /// Attaches a documentation string, passing the descriptor through for
    /// chaining.
    pub fn help(self, help: &'static str) -> (r: Self)
        ensures
            r.spec_short() == self.spec_short(),
            r.spec_long() == self.spec_long(),
            r.spec_help() == Some(help),
            r.spec_mandatory() == self.spec_mandatory(),
            r.spec_default() == self.spec_default(),
    {
        let mut f = self;
        f.help = Some(help);
        f
    }

    /// Attaches a documentation string through a mutable borrow.
    pub fn help_borrow(&mut self, help: &'static str)
        ensures
            final(self).spec_short() == old(self).spec_short(),
            final(self).spec_long() == old(self).spec_long(),
            final(self).spec_help() == Some(help),
            final(self).spec_mandatory() == old(self).spec_mandatory(),
            final(self).spec_default() == old(self).spec_default(),
    {
        self.help = Some(help);
    }

    /// Marks the flag mandatory, passing the descriptor through for chaining.
    pub fn mandatory(self) -> (r: Self)
        ensures
            r.spec_short() == self.spec_short(),
            r.spec_long() == self.spec_long(),
            r.spec_help() == self.spec_help(),
            r.spec_mandatory(),
            r.spec_default() == self.spec_default(),
    {
        let mut f = self;
        f.mandatory = true;
        f
    }

    /// Marks the flag mandatory through a mutable borrow.
    pub fn mandatory_borrow(&mut self)
        ensures
            final(self).spec_short() == old(self).spec_short(),
            final(self).spec_long() == old(self).spec_long(),
            final(self).spec_help() == old(self).spec_help(),
            final(self).spec_mandatory(),
            final(self).spec_default() == old(self).spec_default(),
    {
        self.mandatory = true;
    }

    /// Attaches a fallback value, passing the descriptor through for
    /// chaining.
    pub fn default(self, v: T) -> (r: Self)
        ensures
            r.spec_short() == self.spec_short(),
            r.spec_long() == self.spec_long(),
            r.spec_help() == self.spec_help(),
            r.spec_mandatory() == self.spec_mandatory(),
            r.spec_default() == Some(v),
    {
        let mut f = self;
        f.default = Some(v);
        f
    }

    /// Attaches a fallback value through a mutable borrow.
    pub fn default_borrow(&mut self, v: T)
        ensures
            final(self).spec_short() == old(self).spec_short(),
            final(self).spec_long() == old(self).spec_long(),
            final(self).spec_help() == old(self).spec_help(),
            final(self).spec_mandatory() == old(self).spec_mandatory(),
            final(self).spec_default() == Some(v),
    {
        self.default = Some(v);
    }

    /// Resolves this flag against the given store, with no mandatory
    /// check: exactly the conversion protocol's single-value reading.
    pub fn parse(&self, parser: &Parser) -> (r: Result<Option<T>, FlagError>)
        ensures
            r == T::spec_parse(parser, self),
    {
        T::parse(parser, self)
    }
}

/// The argument store: an ordered snapshot of the invocation's tokens,
/// captured once at construction and never re-read, so that every resolution
/// against one store sees the same list.  Its view is the token sequence.
pub struct Parser {
    pub(crate) args: Vec<String>,
}

impl View for Parser {
    type V = Seq<String>;

    closed spec fn view(&self) -> Seq<String> {
        self.args@
    }
}

/// What a single-value resolution of `f` against `parser` returns: the
/// mandatory check first, then the conversion protocol's reading.  A pure
/// function of the store and the descriptor.
pub open spec fn spec_resolve<T: TryParse>(parser: &Parser, f: &Flag<T>) -> Result<
    Option<T>,
    FlagError,
> {
    if f.spec_mandatory() && !spec_passed(parser@, f.spec_short(), f.spec_long()) {
        Err(FlagError::MissingFlag { short: f.spec_short(), long: f.spec_long() })
    } else {
        T::spec_parse(parser, f)
    }
}

/// What a multi-value resolution of `f` against `parser` returns: the
/// mandatory check first, then the conversion protocol's reading.  A pure
/// function of the store, the descriptor and the policy.
pub open spec fn spec_resolve_many<T: TryParse>(parser: &Parser, f: &Flag<T>, nargs: NArgs) -> Result<
    Option<Seq<T>>,
    FlagError,
> {
    if f.spec_mandatory() && !spec_passed(parser@, f.spec_short(), f.spec_long()) {
        Err(FlagError::MissingFlag { short: f.spec_short(), long: f.spec_long() })
    } else {
        T::spec_parse_many(parser, f, nargs)
    }
}

/// Idempotence of resolution: nothing is consumed, so two single-value
/// resolutions of one descriptor against one store — each pinned to
/// [`spec_resolve`] by [`Parser::parse`]'s contract — yield identical
/// results.
pub proof fn lemma_resolve_idempotent<T: TryParse>(
    parser: &Parser,
    f: &Flag<T>,
    r1: Result<Option<T>, FlagError>,
    r2: Result<Option<T>, FlagError>,
)
    requires
        r1 == spec_resolve(parser, f),
        r2 == spec_resolve(parser, f),
    ensures
        r1 == r2,
{
}

impl Parser {
    /// The store's token vector is exactly its view; stated here, where the
    /// view's body is in scope, for the modules that work on the vector
    /// directly.
    pub(crate) proof fn lemma_args(&self)
        ensures
            self.args@ == self@,
    {
    }

    /// A store over the given pre-tokenized argument list.  Nothing is
    /// filtered: if the caller does not want the program name scanned, it
    /// leaves it out of `args`.
    pub fn new(args: Vec<String>) -> (r: Self)
        ensures
            r@ == args@,
    {
        Parser { args }
    }

    /// Whether any token in the store equals the flag's short or long
    /// identifier exactly.  Read-only: repeated calls agree.
    pub fn passed<T>(&self, f: &Flag<T>) -> (r: bool)
        ensures
            r == spec_passed(self@, f.spec_short(), f.spec_long()),
    {
        proof {
            crate::tokens::lemma_hit_iff_passed(self@, f.spec_short(), f.spec_long());
        }
        find_match(&self.args, &f.short, &f.long).is_some()
    }

    /// The error a mandatory-and-absent flag resolves to, if the flag is in
    /// that state; nothing otherwise.
    fn mandatory_check<T>(&self, f: &Flag<T>) -> (r: Option<FlagError>)
        ensures
            match r {
                Some(e) => f.spec_mandatory() && !spec_passed(
                    self@,
                    f.spec_short(),
                    f.spec_long(),
                ) && e == (FlagError::MissingFlag {
                    short: f.spec_short(),
                    long: f.spec_long(),
                }),
                None => !(f.spec_mandatory() && !spec_passed(
                    self@,
                    f.spec_short(),
                    f.spec_long(),
                )),
            },
    {
        if f.mandatory && !self.passed(f) {
            Some(FlagError::MissingFlag { short: f.short.clone(), long: f.long.clone() })
        } else {
            None
        }
    }

    /// Resolves the flag to a single value.  A mandatory flag that is
    /// absent is fatal before any conversion is looked at; otherwise the
    /// result is exactly the conversion protocol's single-value reading:
    /// `Ok(None)` when the flag is absent or trails nothing, `Ok(Some(_))`
    /// when its candidate token converts, and the conversion's error when
    /// it does not.
    pub fn parse<T: TryParse>(&self, f: &Flag<T>) -> (r: Result<Option<T>, FlagError>)
        ensures
            r == spec_resolve(self, f),
            f.spec_mandatory() && !spec_passed(self@, f.spec_short(), f.spec_long()) ==> r == Err::<
                Option<T>,
                FlagError,
            >(FlagError::MissingFlag { short: f.spec_short(), long: f.spec_long() }),
    {
        if let Some(e) = self.mandatory_check(f) {
            return Err(e);
        }
        T::parse(self, f)
    }

    /// Resolves the flag to a sequence of values per the collection policy.
    /// The mandatory check comes first, as in [`Parser::parse`]; otherwise
    /// the result is exactly the conversion protocol's multi-value reading.
    pub fn parse_many<T: TryParse>(&self, f: &Flag<T>, nargs: NArgs) -> (r: Result<
        Option<Vec<T>>,
        FlagError,
    >)
        ensures
            many_matches(r, spec_resolve_many(self, f, nargs)),
            f.spec_mandatory() && !spec_passed(self@, f.spec_short(), f.spec_long()) ==> r == Err::<
                Option<Vec<T>>,
                FlagError,
            >(FlagError::MissingFlag { short: f.spec_short(), long: f.spec_long() }),
    {
        if let Some(e) = self.mandatory_check(f) {
            return Err(e);
        }
        T::parse_many(self, f, nargs)
    }

    /// Resolves the flag to a single value, falling back when it is
    /// absent: to the descriptor's default if one was attached, else to the
    /// type's own default value.  The mandatory check and the conversion's
    /// fatal conditions are as in [`Parser::parse`]; absence alone never
    /// is: the fallback answers it.
    pub fn parse_or_default<T: TryParse + Default + Clone>(&self, f: &Flag<T>) -> (r: Result<
        T,
        FlagError,
    >)
        ensures
            match spec_resolve(self, f) {
                Err(e) => r == Err::<T, FlagError>(e),
                Ok(Some(v)) => r == Ok::<T, FlagError>(v),
                Ok(None) => match f.spec_default() {
                    Some(d) => r matches Ok(v) && vstd::pervasive::cloned(d, v),
                    None => r matches Ok(v) && call_ensures(T::default, (), v),
                },
            },
            f.spec_mandatory() && !spec_passed(self@, f.spec_short(), f.spec_long()) ==> r == Err::<
                T,
                FlagError,
            >(FlagError::MissingFlag { short: f.spec_short(), long: f.spec_long() }),
    {
        if let Some(e) = self.mandatory_check(f) {
            return Err(e);
        }
        match T::parse(self, f) {
            Err(e) => Err(e),
            Ok(Some(v)) => Ok(v),
            Ok(None) => match &f.default {
                Some(d) => Ok(d.clone()),
                None => Ok(T::default()),
            },
        }
    }
}


} // verus!
