//! The conversion protocol: what it means, per target type, to resolve one
//! flag against the store, either to a single value or to a sequence of
//! values cut down by a collection policy.
//!
//! Each implementation gives its own specification functions
//! (`spec_parse`, `spec_parse_many`) and the executable resolvers are
//! proved to return exactly what those functions say.  New target types
//! join the protocol by supplying the same four items.

use vstd::prelude::*;

verus! {

use crate::Flag;
use crate::FlagError;
use crate::NArgs;
use crate::Parser;
use crate::tokens::raw_many;
use crate::tokens::ok_upto;
use crate::tokens::spec_single;
use crate::tokens::spec_passed;
use crate::tokens::single_after;
use crate::tokens::find_last_match;
use crate::tokens::lemma_ok_upto_is;
use std::ops::Range;
use std::path::PathBuf;

/// The single-token test of a type whose conversion never fails.
pub open spec fn any_tok() -> spec_fn(String) -> bool {
    |t: String| true
}

/// The single-token test of the integer types: the token reads as a decimal
/// integer at the widest signed width.
pub open spec fn int_tok() -> spec_fn(String) -> bool {
    |t: String| crate::convert::spec_parse_int(t@) is Some
}

/// The single-token test of the range types: the token reads as an integer
/// range at the widest signed width.
pub open spec fn range_tok() -> spec_fn(String) -> bool {
    |t: String| crate::convert::spec_parse_range(t@) is Some
}

/// Agreement between an executable multi-value resolution and its model:
/// same error, same absence, or element-for-element the same sequence.
pub open spec fn many_matches<T>(
    r: Result<Option<Vec<T>>, FlagError>,
    s: Result<Option<Seq<T>>, FlagError>,
) -> bool {
    match (r, s) {
        (Ok(Some(v)), Ok(Some(q))) => v@ == q,
        (Ok(None), Ok(None)) => true,
        (Err(a), Err(b)) => a == b,
        _ => false,
    }
}

/// How one type joins the protocol: a specification of single- and
/// multi-value resolution, and executable resolvers that return exactly
/// what the specification says.
///
/// Locating the flag is common to all types: a single-value resolution
/// takes the token right after the flag's first occurrence; a multi-value
/// resolution takes the tokens after its last occurrence, cut down by the
/// policy.  What differs per type is what a token means, and which fatal
/// conditions exist.
pub trait TryParse: Sized {
    /// The model of a single-value resolution against the store.
    spec fn spec_parse(parser: &Parser, f: &Flag<Self>) -> Result<Option<Self>, FlagError>;

    /// The model of a multi-value resolution against the store.
    spec fn spec_parse_many(parser: &Parser, f: &Flag<Self>, nargs: NArgs) -> Result<
        Option<Seq<Self>>,
        FlagError,
    >;

    /// Resolves the flag to a single value: absence is `Ok(None)`, a
    /// candidate token that does not convert is an error.
    fn parse(parser: &Parser, f: &Flag<Self>) -> (r: Result<Option<Self>, FlagError>)
        ensures
            r == Self::spec_parse(parser, f),
    ;

    /// Resolves the flag to a sequence of values per the collection policy:
    /// absence (or nothing trailing the flag) is `Ok(None)`, a collected
    /// token that does not convert is an error.
    fn parse_many(parser: &Parser, f: &Flag<Self>, nargs: NArgs) -> (r: Result<
        Option<Vec<Self>>,
        FlagError,
    >)
        ensures
            many_matches(r, Self::spec_parse_many(parser, f, nargs)),
    ;
}

/// The raw tokens a multi-value resolution of a never-failing type
/// captures.
pub open spec fn spec_strings_many(
    args: Seq<String>,
    short: String,
    long: String,
    nargs: NArgs,
) -> Option<Seq<String>> {
    raw_many(args, short, long, nargs, any_tok())
}

/// Captures the raw tokens of a multi-value resolution whose conversion
/// never fails, copying them out of the store.
fn strings_many(args: &Vec<String>, short: &String, long: &String, nargs: NArgs) -> (r: Option<
    Vec<String>,
>)
    ensures
        match (r, spec_strings_many(args@, *short, *long, nargs)) {
            (Some(v), Some(q)) => v@ == q,
            (None, None) => true,
            _ => false,
        },
{
    let ghost spec_r = spec_strings_many(args@, *short, *long, nargs);
    match find_last_match(args, short, long) {
        None => None,
        Some(h) => {
            let n = args.len();
            proof {
                crate::tokens::lemma_last_hit_before(args@, *short, *long, args@.len() as int);
            }
            if h == n - 1 {
                return None;
            }
            let start = h + 1;
            let ghost tail = args@.subrange(start as int, n as int);
            let end: usize = match nargs {
                NArgs::Count(c) => if c <= n - start {
                    start + c
                } else {
                    n
                },
                NArgs::Remainder => n,
                NArgs::SmartRemainder => {
                    proof {
                        lemma_ok_upto_is(tail, any_tok(), tail.len() as int);
                    }
                    n
                },
            };
            let mut v: Vec<String> = Vec::new();
            let mut i: usize = start;
            while i < end
                invariant
                    start <= i <= end <= n,
                    n == args@.len(),
                    v@ =~= args@.subrange(start as int, i as int),
                decreases end - i,
            {
                v.push(args[i].clone());
                i += 1;
                proof {
                    assert(v@ =~= args@.subrange(start as int, i as int));
                }
            }
            proof {
                assert(tail.take(end - start) =~= args@.subrange(start as int, end as int));
                assert(tail.take(tail.len() as int) =~= tail);
                assert(spec_r matches Some(q) && q == v@);
            }
            Some(v)
        },
    }
}

/// The single-value integer resolution at the widest signed width: the
/// candidate token read as a decimal integer, its absence reported as
/// absence, a token that does not read reported as fatal.
pub open spec fn spec_int_single(args: Seq<String>, short: String, long: String) -> Result<
    Option<i128>,
    FlagError,
> {
    match spec_single(args, short, long) {
        None => Ok(None),
        Some(t) => match crate::convert::spec_parse_int(t@) {
            Some(v) => Ok(Some(v)),
            None => Err(FlagError::BadInt { token: t }),
        },
    }
}

/// The multi-value integer resolution at the widest signed width: the
/// captured tokens read as decimal integers; under `Count` and `Remainder`
/// a token that does not read is fatal, while `SmartRemainder` never
/// captures one.
pub open spec fn spec_int_many(
    args: Seq<String>,
    short: String,
    long: String,
    nargs: NArgs,
) -> Result<Option<Seq<i128>>, FlagError> {
    match raw_many(args, short, long, nargs, int_tok()) {
        None => Ok(None),
        Some(toks) => {
            let stop = ok_upto(toks, int_tok(), 0);
            if stop < toks.len() {
                Err(FlagError::BadInt { token: toks[stop] })
            } else {
                Ok(Some(toks.map_values(|t: String| crate::convert::spec_parse_int(t@).unwrap())))
            }
        },
    }
}

/// Resolves a single integer token at the widest signed width.
fn int_single(args: &Vec<String>, short: &String, long: &String) -> (r: Result<
    Option<i128>,
    FlagError,
>)
    ensures
        r == spec_int_single(args@, *short, *long),
{
    match single_after(args, short, long) {
        None => Ok(None),
        Some(t) => match crate::convert::parse_int(t.as_str()) {
            Some(v) => Ok(Some(v)),
            None => Err(FlagError::BadInt { token: t }),
        },
    }
}

/// Resolves a sequence of integer tokens at the widest signed width.
#[verifier::loop_isolation(false)]
fn int_many(args: &Vec<String>, short: &String, long: &String, nargs: NArgs) -> (r: Result<
    Option<Vec<i128>>,
    FlagError,
>)
    ensures
        many_matches(r, spec_int_many(args@, *short, *long, nargs)),
{
    match find_last_match(args, short, long) {
        None => Ok(None),
        Some(h) => {
            let n = args.len();
            proof {
                crate::tokens::lemma_last_hit_before(args@, *short, *long, args@.len() as int);
            }
            if h == n - 1 {
                return Ok(None);
            }
            let start = h + 1;
            let ghost tail = args@.subrange(start as int, n as int);
            let smart = matches!(nargs, NArgs::SmartRemainder);
            let end: usize = match nargs {
                NArgs::Count(c) => if c <= n - start {
                    start + c
                } else {
                    n
                },
                NArgs::Remainder => n,
                NArgs::SmartRemainder => n,
            };
            let ghost toks = match nargs {
                NArgs::SmartRemainder => tail.take(ok_upto(tail, int_tok(), 0)),
                _ => tail.take(end - start),
            };
            proof {
                assert(tail.take(n - start) =~= tail);
                assert(raw_many(args@, *short, *long, nargs, int_tok()) == Some(toks));
            }
            let mut v: Vec<i128> = Vec::new();
            let mut i: usize = start;
            while i < end
                invariant
                    start <= i <= end <= n,
                    n == args@.len(),
                    start >= 1,
                    tail == args@.subrange(start as int, n as int),
                    forall|k: int|
                        0 <= k < i - start ==> crate::convert::spec_parse_int(tail[k]@) is Some,
                    v@ =~= tail.take(i - start).map_values(
                        |t: String| crate::convert::spec_parse_int(t@).unwrap(),
                    ),
                decreases end - i,
            {
                match crate::convert::parse_int(args[i].as_str()) {
                    Some(x) => {
                        v.push(x);
                        i += 1;
                        proof {
                            assert(tail[i - start - 1] == args@[i - 1]);
                            assert(v@ =~= tail.take(i - start).map_values(
                                |t: String| crate::convert::spec_parse_int(t@).unwrap(),
                            ));
                        }
                    },
                    None => {
                        proof {
                            assert(tail[i - start] == args@[i as int]);
                        }
                        if smart {
                            proof {
                                lemma_ok_upto_is(tail, int_tok(), i - start);
                                assert(toks =~= tail.take(i - start));
                                assert(forall|k: int|
                                    0 <= k < toks.len() ==> toks[k] == tail[k]);
                                lemma_ok_upto_is(toks, int_tok(), toks.len() as int);
                                assert(v@ =~= toks.map_values(
                                    |t: String| crate::convert::spec_parse_int(t@).unwrap(),
                                ));
                            }
                            return Ok(Some(v));
                        } else {
                            proof {
                                assert(forall|k: int|
                                    0 <= k < toks.len() ==> toks[k] == tail[k]);
                                lemma_ok_upto_is(toks, int_tok(), i - start);
                            }
                            return Err(FlagError::BadInt { token: args[i].clone() });
                        }
                    },
                }
            }
            proof {
                if smart {
                    lemma_ok_upto_is(tail, int_tok(), end - start);
                }
                lemma_ok_upto_is(toks, int_tok(), toks.len() as int);
                assert(v@ =~= toks.map_values(
                    |t: String| crate::convert::spec_parse_int(t@).unwrap(),
                ));
            }
            Ok(Some(v))
        },
    }
}

/// What `Count(n)` yields once conversion is applied, at the wide integer
/// funnel every integer width goes through: when the resolution returns a
/// sequence at all, it has at most `n` values — exactly `n` or exactly the
/// number of trailing tokens, whichever is smaller — and the `j`-th value
/// is read from the token standing `j` places after the flag's position,
/// never from a token before it.
pub proof fn lemma_int_count_capture(args: Seq<String>, short: String, long: String, n: usize)
    ensures
        match spec_int_many(args, short, long, NArgs::Count(n)) {
            Ok(Some(s)) => {
                &&& s.len() <= n
                &&& match crate::tokens::last_hit(args, short, long) {
                    Some(h) => {
                        let avail = args.len() - h - 1;
                        &&& s.len() == (if n <= avail {
                            n as int
                        } else {
                            avail
                        })
                        &&& forall|j: int|
                            0 <= j < s.len() ==> s[j] == crate::convert::spec_parse_int(
                                args[h + 1 + j]@,
                            ).unwrap()
                    },
                    None => false,
                }
            },
            _ => true,
        },
{
    crate::tokens::lemma_count_capture(args, short, long, n, int_tok());
}

/// How a fixed-width integer type is reached from the widest signed width:
/// by a plain numeric cast, the same cast the specification speaks of.
pub trait FromWide: Sized {
    /// The cast, as the specification sees it.
    spec fn spec_from_wide(x: i128) -> Self;

    /// The cast, executed.
    fn from_wide(x: i128) -> (r: Self)
        ensures
            r == Self::spec_from_wide(x),
    ;
}

/// The single-value resolution of a fixed-width integer flag: the widest
/// signed reading, narrowed by the type's cast.
pub open spec fn spec_int_single_for<T: FromWide>(parser: &Parser, f: &Flag<T>) -> Result<
    Option<T>,
    FlagError,
> {
    match spec_int_single(parser@, f.spec_short(), f.spec_long()) {
        Ok(None) => Ok(None),
        Ok(Some(v)) => Ok(Some(T::spec_from_wide(v))),
        Err(e) => Err(e),
    }
}

/// The multi-value resolution of a fixed-width integer flag: the widest
/// signed readings, each narrowed by the type's cast.
pub open spec fn spec_int_many_for<T: FromWide>(parser: &Parser, f: &Flag<T>, nargs: NArgs) -> Result<
    Option<Seq<T>>,
    FlagError,
> {
    match spec_int_many(parser@, f.spec_short(), f.spec_long(), nargs) {
        Ok(None) => Ok(None),
        Ok(Some(s)) => Ok(Some(s.map_values(|x: i128| T::spec_from_wide(x)))),
        Err(e) => Err(e),
    }
}

/// Resolves a fixed-width integer flag to a single value.
fn int_single_for<T: FromWide>(parser: &Parser, f: &Flag<T>) -> (r: Result<Option<T>, FlagError>)
    ensures
        r == spec_int_single_for(parser, f),
{
    proof {
        parser.lemma_args();
        f.lemma_fields();
    }
    match int_single(&parser.args, &f.short, &f.long) {
        Ok(None) => Ok(None),
        Ok(Some(v)) => Ok(Some(T::from_wide(v))),
        Err(e) => Err(e),
    }
}

/// Resolves a fixed-width integer flag to a sequence of values.
fn int_many_for<T: FromWide>(parser: &Parser, f: &Flag<T>, nargs: NArgs) -> (r: Result<
    Option<Vec<T>>,
    FlagError,
>)
    ensures
        many_matches(r, spec_int_many_for(parser, f, nargs)),
{
    proof {
        parser.lemma_args();
        f.lemma_fields();
    }
    match int_many(&parser.args, &f.short, &f.long, nargs) {
        Ok(None) => Ok(None),
        Ok(Some(wide)) => {
            let mut out: Vec<T> = Vec::new();
            let m = wide.len();
            let mut i: usize = 0;
            while i < m
                invariant
                    0 <= i <= m,
                    m == wide@.len(),
                    out@ =~= wide@.take(i as int).map_values(|x: i128| T::spec_from_wide(x)),
                decreases m - i,
            {
                out.push(T::from_wide(wide[i]));
                i += 1;
                proof {
                    assert(out@ =~= wide@.take(i as int).map_values(
                        |x: i128| T::spec_from_wide(x),
                    ));
                }
            }
            proof {
                assert(wide@.take(m as int) =~= wide@);
            }
            Ok(Some(out))
        },
        Err(e) => Err(e),
    }
}

impl TryParse for String {
    /// A text flag's candidate token is its value; nothing is fatal but a
    /// missing mandatory flag, which the engine checks before conversion.
    open spec fn spec_parse(parser: &Parser, f: &Flag<String>) -> Result<
        Option<String>,
        FlagError,
    > {
        Ok(spec_single(parser@, f.spec_short(), f.spec_long()))
    }

    open spec fn spec_parse_many(parser: &Parser, f: &Flag<String>, nargs: NArgs) -> Result<
        Option<Seq<String>>,
        FlagError,
    > {
        Ok(spec_strings_many(parser@, f.spec_short(), f.spec_long(), nargs))
    }

    fn parse(parser: &Parser, f: &Flag<String>) -> (r: Result<Option<String>, FlagError>) {
        proof {
            parser.lemma_args();
            f.lemma_fields();
        }
        Ok(single_after(&parser.args, &f.short, &f.long))
    }

    fn parse_many(parser: &Parser, f: &Flag<String>, nargs: NArgs) -> (r: Result<
        Option<Vec<String>>,
        FlagError,
    >) {
        proof {
            parser.lemma_args();
            f.lemma_fields();
        }
        Ok(strings_many(&parser.args, &f.short, &f.long, nargs))
    }
}

impl TryParse for bool {
    /// A boolean flag's value is its presence; conversion always succeeds.
    open spec fn spec_parse(parser: &Parser, f: &Flag<bool>) -> Result<Option<bool>, FlagError> {
        Ok(Some(spec_passed(parser@, f.spec_short(), f.spec_long())))
    }

    open spec fn spec_parse_many(parser: &Parser, f: &Flag<bool>, nargs: NArgs) -> Result<
        Option<Seq<bool>>,
        FlagError,
    > {
        Ok(Some(seq![spec_passed(parser@, f.spec_short(), f.spec_long())]))
    }

    fn parse(parser: &Parser, f: &Flag<bool>) -> (r: Result<Option<bool>, FlagError>) {
        Ok(Some(parser.passed(f)))
    }

    fn parse_many(parser: &Parser, f: &Flag<bool>, nargs: NArgs) -> (r: Result<
        Option<Vec<bool>>,
        FlagError,
    >) {
        let b = parser.passed(f);
        let v = vec![b];
        proof {
            assert(v@ =~= seq![spec_passed(parser@, f.spec_short(), f.spec_long())]);
        }
        Ok(Some(v))
    }
}

impl TryParse for () {
    /// The unit type carries no information: resolving it always reports
    /// absence.
    open spec fn spec_parse(parser: &Parser, f: &Flag<()>) -> Result<Option<()>, FlagError> {
        Ok(None)
    }

    open spec fn spec_parse_many(parser: &Parser, f: &Flag<()>, nargs: NArgs) -> Result<
        Option<Seq<()>>,
        FlagError,
    > {
        Ok(None)
    }

    fn parse(parser: &Parser, f: &Flag<()>) -> (r: Result<Option<()>, FlagError>) {
        Ok(None)
    }

    fn parse_many(parser: &Parser, f: &Flag<()>, nargs: NArgs) -> (r: Result<
        Option<Vec<()>>,
        FlagError,
    >) {
        Ok(None)
    }
}

impl FromWide for i8 {
    open spec fn spec_from_wide(x: i128) -> i8 {
        x as i8
    }

    fn from_wide(x: i128) -> (r: i8) {
        #[verifier::truncate] (x as i8)
    }
}

impl TryParse for i8 {
    open spec fn spec_parse(parser: &Parser, f: &Flag<i8>) -> Result<Option<i8>, FlagError> {
        spec_int_single_for(parser, f)
    }

    open spec fn spec_parse_many(parser: &Parser, f: &Flag<i8>, nargs: NArgs) -> Result<
        Option<Seq<i8>>,
        FlagError,
    > {
        spec_int_many_for(parser, f, nargs)
    }

    fn parse(parser: &Parser, f: &Flag<i8>) -> (r: Result<Option<i8>, FlagError>) {
        int_single_for(parser, f)
    }

    fn parse_many(parser: &Parser, f: &Flag<i8>, nargs: NArgs) -> (r: Result<
        Option<Vec<i8>>,
        FlagError,
    >) {
        int_many_for(parser, f, nargs)
    }
}

impl FromWide for i16 {
    open spec fn spec_from_wide(x: i128) -> i16 {
        x as i16
    }

    fn from_wide(x: i128) -> (r: i16) {
        #[verifier::truncate] (x as i16)
    }
}

impl TryParse for i16 {
    open spec fn spec_parse(parser: &Parser, f: &Flag<i16>) -> Result<Option<i16>, FlagError> {
        spec_int_single_for(parser, f)
    }

    open spec fn spec_parse_many(parser: &Parser, f: &Flag<i16>, nargs: NArgs) -> Result<
        Option<Seq<i16>>,
        FlagError,
    > {
        spec_int_many_for(parser, f, nargs)
    }

    fn parse(parser: &Parser, f: &Flag<i16>) -> (r: Result<Option<i16>, FlagError>) {
        int_single_for(parser, f)
    }

    fn parse_many(parser: &Parser, f: &Flag<i16>, nargs: NArgs) -> (r: Result<
        Option<Vec<i16>>,
        FlagError,
    >) {
        int_many_for(parser, f, nargs)
    }
}

impl FromWide for i32 {
    open spec fn spec_from_wide(x: i128) -> i32 {
        x as i32
    }

    fn from_wide(x: i128) -> (r: i32) {
        #[verifier::truncate] (x as i32)
    }
}

impl TryParse for i32 {
    open spec fn spec_parse(parser: &Parser, f: &Flag<i32>) -> Result<Option<i32>, FlagError> {
        spec_int_single_for(parser, f)
    }

    open spec fn spec_parse_many(parser: &Parser, f: &Flag<i32>, nargs: NArgs) -> Result<
        Option<Seq<i32>>,
        FlagError,
    > {
        spec_int_many_for(parser, f, nargs)
    }

    fn parse(parser: &Parser, f: &Flag<i32>) -> (r: Result<Option<i32>, FlagError>) {
        int_single_for(parser, f)
    }

    fn parse_many(parser: &Parser, f: &Flag<i32>, nargs: NArgs) -> (r: Result<
        Option<Vec<i32>>,
        FlagError,
    >) {
        int_many_for(parser, f, nargs)
    }
}

impl FromWide for i64 {
    open spec fn spec_from_wide(x: i128) -> i64 {
        x as i64
    }

    fn from_wide(x: i128) -> (r: i64) {
        #[verifier::truncate] (x as i64)
    }
}

impl TryParse for i64 {
    open spec fn spec_parse(parser: &Parser, f: &Flag<i64>) -> Result<Option<i64>, FlagError> {
        spec_int_single_for(parser, f)
    }

    open spec fn spec_parse_many(parser: &Parser, f: &Flag<i64>, nargs: NArgs) -> Result<
        Option<Seq<i64>>,
        FlagError,
    > {
        spec_int_many_for(parser, f, nargs)
    }

    fn parse(parser: &Parser, f: &Flag<i64>) -> (r: Result<Option<i64>, FlagError>) {
        int_single_for(parser, f)
    }

    fn parse_many(parser: &Parser, f: &Flag<i64>, nargs: NArgs) -> (r: Result<
        Option<Vec<i64>>,
        FlagError,
    >) {
        int_many_for(parser, f, nargs)
    }
}

impl FromWide for i128 {
    open spec fn spec_from_wide(x: i128) -> i128 {
        x
    }

    fn from_wide(x: i128) -> (r: i128) {
        x
    }
}

impl TryParse for i128 {
    open spec fn spec_parse(parser: &Parser, f: &Flag<i128>) -> Result<Option<i128>, FlagError> {
        spec_int_single_for(parser, f)
    }

    open spec fn spec_parse_many(parser: &Parser, f: &Flag<i128>, nargs: NArgs) -> Result<
        Option<Seq<i128>>,
        FlagError,
    > {
        spec_int_many_for(parser, f, nargs)
    }

    fn parse(parser: &Parser, f: &Flag<i128>) -> (r: Result<Option<i128>, FlagError>) {
        int_single_for(parser, f)
    }

    fn parse_many(parser: &Parser, f: &Flag<i128>, nargs: NArgs) -> (r: Result<
        Option<Vec<i128>>,
        FlagError,
    >) {
        int_many_for(parser, f, nargs)
    }
}

impl FromWide for isize {
    open spec fn spec_from_wide(x: i128) -> isize {
        x as isize
    }

    fn from_wide(x: i128) -> (r: isize) {
        #[verifier::truncate] (x as isize)
    }
}

impl TryParse for isize {
    open spec fn spec_parse(parser: &Parser, f: &Flag<isize>) -> Result<Option<isize>, FlagError> {
        spec_int_single_for(parser, f)
    }

    open spec fn spec_parse_many(parser: &Parser, f: &Flag<isize>, nargs: NArgs) -> Result<
        Option<Seq<isize>>,
        FlagError,
    > {
        spec_int_many_for(parser, f, nargs)
    }

    fn parse(parser: &Parser, f: &Flag<isize>) -> (r: Result<Option<isize>, FlagError>) {
        int_single_for(parser, f)
    }

    fn parse_many(parser: &Parser, f: &Flag<isize>, nargs: NArgs) -> (r: Result<
        Option<Vec<isize>>,
        FlagError,
    >) {
        int_many_for(parser, f, nargs)
    }
}

impl FromWide for u8 {
    open spec fn spec_from_wide(x: i128) -> u8 {
        x as u8
    }

    fn from_wide(x: i128) -> (r: u8) {
        #[verifier::truncate] (x as u8)
    }
}

impl TryParse for u8 {
    open spec fn spec_parse(parser: &Parser, f: &Flag<u8>) -> Result<Option<u8>, FlagError> {
        spec_int_single_for(parser, f)
    }

    open spec fn spec_parse_many(parser: &Parser, f: &Flag<u8>, nargs: NArgs) -> Result<
        Option<Seq<u8>>,
        FlagError,
    > {
        spec_int_many_for(parser, f, nargs)
    }

    fn parse(parser: &Parser, f: &Flag<u8>) -> (r: Result<Option<u8>, FlagError>) {
        int_single_for(parser, f)
    }

    fn parse_many(parser: &Parser, f: &Flag<u8>, nargs: NArgs) -> (r: Result<
        Option<Vec<u8>>,
        FlagError,
    >) {
        int_many_for(parser, f, nargs)
    }
}

impl FromWide for u16 {
    open spec fn spec_from_wide(x: i128) -> u16 {
        x as u16
    }

    fn from_wide(x: i128) -> (r: u16) {
        #[verifier::truncate] (x as u16)
    }
}

impl TryParse for u16 {
    open spec fn spec_parse(parser: &Parser, f: &Flag<u16>) -> Result<Option<u16>, FlagError> {
        spec_int_single_for(parser, f)
    }

    open spec fn spec_parse_many(parser: &Parser, f: &Flag<u16>, nargs: NArgs) -> Result<
        Option<Seq<u16>>,
        FlagError,
    > {
        spec_int_many_for(parser, f, nargs)
    }

    fn parse(parser: &Parser, f: &Flag<u16>) -> (r: Result<Option<u16>, FlagError>) {
        int_single_for(parser, f)
    }

    fn parse_many(parser: &Parser, f: &Flag<u16>, nargs: NArgs) -> (r: Result<
        Option<Vec<u16>>,
        FlagError,
    >) {
        int_many_for(parser, f, nargs)
    }
}

impl FromWide for u32 {
    open spec fn spec_from_wide(x: i128) -> u32 {
        x as u32
    }

    fn from_wide(x: i128) -> (r: u32) {
        #[verifier::truncate] (x as u32)
    }
}

impl TryParse for u32 {
    open spec fn spec_parse(parser: &Parser, f: &Flag<u32>) -> Result<Option<u32>, FlagError> {
        spec_int_single_for(parser, f)
    }

    open spec fn spec_parse_many(parser: &Parser, f: &Flag<u32>, nargs: NArgs) -> Result<
        Option<Seq<u32>>,
        FlagError,
    > {
        spec_int_many_for(parser, f, nargs)
    }

    fn parse(parser: &Parser, f: &Flag<u32>) -> (r: Result<Option<u32>, FlagError>) {
        int_single_for(parser, f)
    }

    fn parse_many(parser: &Parser, f: &Flag<u32>, nargs: NArgs) -> (r: Result<
        Option<Vec<u32>>,
        FlagError,
    >) {
        int_many_for(parser, f, nargs)
    }
}

impl FromWide for u64 {
    open spec fn spec_from_wide(x: i128) -> u64 {
        x as u64
    }

    fn from_wide(x: i128) -> (r: u64) {
        #[verifier::truncate] (x as u64)
    }
}

impl TryParse for u64 {
    open spec fn spec_parse(parser: &Parser, f: &Flag<u64>) -> Result<Option<u64>, FlagError> {
        spec_int_single_for(parser, f)
    }

    open spec fn spec_parse_many(parser: &Parser, f: &Flag<u64>, nargs: NArgs) -> Result<
        Option<Seq<u64>>,
        FlagError,
    > {
        spec_int_many_for(parser, f, nargs)
    }

    fn parse(parser: &Parser, f: &Flag<u64>) -> (r: Result<Option<u64>, FlagError>) {
        int_single_for(parser, f)
    }

    fn parse_many(parser: &Parser, f: &Flag<u64>, nargs: NArgs) -> (r: Result<
        Option<Vec<u64>>,
        FlagError,
    >) {
        int_many_for(parser, f, nargs)
    }
}

impl FromWide for u128 {
    open spec fn spec_from_wide(x: i128) -> u128 {
        x as u128
    }

    fn from_wide(x: i128) -> (r: u128) {
        #[verifier::truncate] (x as u128)
    }
}

impl TryParse for u128 {
    open spec fn spec_parse(parser: &Parser, f: &Flag<u128>) -> Result<Option<u128>, FlagError> {
        spec_int_single_for(parser, f)
    }

    open spec fn spec_parse_many(parser: &Parser, f: &Flag<u128>, nargs: NArgs) -> Result<
        Option<Seq<u128>>,
        FlagError,
    > {
        spec_int_many_for(parser, f, nargs)
    }

    fn parse(parser: &Parser, f: &Flag<u128>) -> (r: Result<Option<u128>, FlagError>) {
        int_single_for(parser, f)
    }

    fn parse_many(parser: &Parser, f: &Flag<u128>, nargs: NArgs) -> (r: Result<
        Option<Vec<u128>>,
        FlagError,
    >) {
        int_many_for(parser, f, nargs)
    }
}

impl FromWide for usize {
    open spec fn spec_from_wide(x: i128) -> usize {
        x as usize
    }

    fn from_wide(x: i128) -> (r: usize) {
        #[verifier::truncate] (x as usize)
    }
}

impl TryParse for usize {
    open spec fn spec_parse(parser: &Parser, f: &Flag<usize>) -> Result<Option<usize>, FlagError> {
        spec_int_single_for(parser, f)
    }

    open spec fn spec_parse_many(parser: &Parser, f: &Flag<usize>, nargs: NArgs) -> Result<
        Option<Seq<usize>>,
        FlagError,
    > {
        spec_int_many_for(parser, f, nargs)
    }

    fn parse(parser: &Parser, f: &Flag<usize>) -> (r: Result<Option<usize>, FlagError>) {
        int_single_for(parser, f)
    }

    fn parse_many(parser: &Parser, f: &Flag<usize>, nargs: NArgs) -> (r: Result<
        Option<Vec<usize>>,
        FlagError,
    >) {
        int_many_for(parser, f, nargs)
    }
}


/// The single-value range resolution at the widest signed width: the
/// candidate token read as a range literal, its absence reported as
/// absence, a token that does not read reported as fatal.
pub open spec fn spec_range_single(args: Seq<String>, short: String, long: String) -> Result<
    Option<(i128, i128)>,
    FlagError,
> {
    match spec_single(args, short, long) {
        None => Ok(None),
        Some(t) => match crate::convert::spec_parse_range(t@) {
            Some(p) => Ok(Some(p)),
            None => Err(FlagError::BadRange { token: t }),
        },
    }
}

/// The multi-value range resolution at the widest signed width: the
/// captured tokens read as range literals; under `Count` and `Remainder` a
/// token that does not read is fatal, while `SmartRemainder` never captures
/// one.
pub open spec fn spec_range_many(
    args: Seq<String>,
    short: String,
    long: String,
    nargs: NArgs,
) -> Result<Option<Seq<(i128, i128)>>, FlagError> {
    match raw_many(args, short, long, nargs, range_tok()) {
        None => Ok(None),
        Some(toks) => {
            let stop = ok_upto(toks, range_tok(), 0);
            if stop < toks.len() {
                Err(FlagError::BadRange { token: toks[stop] })
            } else {
                Ok(
                    Some(
                        toks.map_values(
                            |t: String| crate::convert::spec_parse_range(t@).unwrap(),
                        ),
                    ),
                )
            }
        },
    }
}

/// Resolves a single range token at the widest signed width.
fn range_single(args: &Vec<String>, short: &String, long: &String) -> (r: Result<
    Option<(i128, i128)>,
    FlagError,
>)
    ensures
        r == spec_range_single(args@, *short, *long),
{
    match single_after(args, short, long) {
        None => Ok(None),
        Some(t) => match crate::convert::parse_range(t.as_str()) {
            Some(p) => Ok(Some(p)),
            None => Err(FlagError::BadRange { token: t }),
        },
    }
}

/// Resolves a sequence of range tokens at the widest signed width.
#[verifier::loop_isolation(false)]
fn range_many(args: &Vec<String>, short: &String, long: &String, nargs: NArgs) -> (r: Result<
    Option<Vec<(i128, i128)>>,
    FlagError,
>)
    ensures
        many_matches(r, spec_range_many(args@, *short, *long, nargs)),
{
    match find_last_match(args, short, long) {
        None => Ok(None),
        Some(h) => {
            let n = args.len();
            proof {
                crate::tokens::lemma_last_hit_before(args@, *short, *long, args@.len() as int);
            }
            if h == n - 1 {
                return Ok(None);
            }
            let start = h + 1;
            let ghost tail = args@.subrange(start as int, n as int);
            let smart = matches!(nargs, NArgs::SmartRemainder);
            let end: usize = match nargs {
                NArgs::Count(c) => if c <= n - start {
                    start + c
                } else {
                    n
                },
                NArgs::Remainder => n,
                NArgs::SmartRemainder => n,
            };
            let ghost toks = match nargs {
                NArgs::SmartRemainder => tail.take(ok_upto(tail, range_tok(), 0)),
                _ => tail.take(end - start),
            };
            proof {
                assert(tail.take(n - start) =~= tail);
                assert(raw_many(args@, *short, *long, nargs, range_tok()) == Some(toks));
            }
            let mut v: Vec<(i128, i128)> = Vec::new();
            let mut i: usize = start;
            while i < end
                invariant
                    start <= i <= end <= n,
                    n == args@.len(),
                    start >= 1,
                    tail == args@.subrange(start as int, n as int),
                    forall|k: int|
                        0 <= k < i - start ==> crate::convert::spec_parse_range(tail[k]@) is Some,
                    v@ =~= tail.take(i - start).map_values(
                        |t: String| crate::convert::spec_parse_range(t@).unwrap(),
                    ),
                decreases end - i,
            {
                match crate::convert::parse_range(args[i].as_str()) {
                    Some(x) => {
                        v.push(x);
                        i += 1;
                        proof {
                            assert(tail[i - start - 1] == args@[i - 1]);
                            assert(v@ =~= tail.take(i - start).map_values(
                                |t: String| crate::convert::spec_parse_range(t@).unwrap(),
                            ));
                        }
                    },
                    None => {
                        proof {
                            assert(tail[i - start] == args@[i as int]);
                        }
                        if smart {
                            proof {
                                lemma_ok_upto_is(tail, range_tok(), i - start);
                                assert(toks =~= tail.take(i - start));
                                assert(forall|k: int|
                                    0 <= k < toks.len() ==> toks[k] == tail[k]);
                                lemma_ok_upto_is(toks, range_tok(), toks.len() as int);
                                assert(v@ =~= toks.map_values(
                                    |t: String| crate::convert::spec_parse_range(t@).unwrap(),
                                ));
                            }
                            return Ok(Some(v));
                        } else {
                            proof {
                                assert(forall|k: int|
                                    0 <= k < toks.len() ==> toks[k] == tail[k]);
                                lemma_ok_upto_is(toks, range_tok(), i - start);
                            }
                            return Err(FlagError::BadRange { token: args[i].clone() });
                        }
                    },
                }
            }
            proof {
                if smart {
                    lemma_ok_upto_is(tail, range_tok(), end - start);
                }
                lemma_ok_upto_is(toks, range_tok(), toks.len() as int);
                assert(v@ =~= toks.map_values(
                    |t: String| crate::convert::spec_parse_range(t@).unwrap(),
                ));
            }
            Ok(Some(v))
        },
    }
}

/// The range value a pair of wide bounds narrows to.
pub open spec fn spec_range_of<T: FromWide>(p: (i128, i128)) -> Range<T> {
    Range { start: T::spec_from_wide(p.0), end: T::spec_from_wide(p.1) }
}

impl<T: FromWide> TryParse for Range<T> {
    open spec fn spec_parse(parser: &Parser, f: &Flag<Range<T>>) -> Result<
        Option<Range<T>>,
        FlagError,
    > {
        match spec_range_single(parser@, f.spec_short(), f.spec_long()) {
            Ok(None) => Ok(None),
            Ok(Some(p)) => Ok(Some(spec_range_of::<T>(p))),
            Err(e) => Err(e),
        }
    }

    open spec fn spec_parse_many(parser: &Parser, f: &Flag<Range<T>>, nargs: NArgs) -> Result<
        Option<Seq<Range<T>>>,
        FlagError,
    > {
        match spec_range_many(parser@, f.spec_short(), f.spec_long(), nargs) {
            Ok(None) => Ok(None),
            Ok(Some(s)) => Ok(Some(s.map_values(|p: (i128, i128)| spec_range_of::<T>(p)))),
            Err(e) => Err(e),
        }
    }

    fn parse(parser: &Parser, f: &Flag<Range<T>>) -> (r: Result<Option<Range<T>>, FlagError>) {
        proof {
            parser.lemma_args();
            f.lemma_fields();
        }
        match range_single(&parser.args, &f.short, &f.long) {
            Ok(None) => Ok(None),
            Ok(Some(p)) => Ok(
                Some(Range { start: T::from_wide(p.0), end: T::from_wide(p.1) }),
            ),
            Err(e) => Err(e),
        }
    }

    fn parse_many(parser: &Parser, f: &Flag<Range<T>>, nargs: NArgs) -> (r: Result<
        Option<Vec<Range<T>>>,
        FlagError,
    >) {
        proof {
            parser.lemma_args();
            f.lemma_fields();
        }
        match range_many(&parser.args, &f.short, &f.long, nargs) {
            Ok(None) => Ok(None),
            Ok(Some(wide)) => {
                let mut out: Vec<Range<T>> = Vec::new();
                let m = wide.len();
                let mut i: usize = 0;
                while i < m
                    invariant
                        0 <= i <= m,
                        m == wide@.len(),
                        out@ =~= wide@.take(i as int).map_values(
                            |p: (i128, i128)| spec_range_of::<T>(p),
                        ),
                    decreases m - i,
                {
                    let p = wide[i];
                    out.push(Range { start: T::from_wide(p.0), end: T::from_wide(p.1) });
                    i += 1;
                    proof {
                        assert(out@ =~= wide@.take(i as int).map_values(
                            |p: (i128, i128)| spec_range_of::<T>(p),
                        ));
                    }
                }
                proof {
                    assert(wide@.take(m as int) =~= wide@);
                }
                Ok(Some(out))
            },
            Err(e) => Err(e),
        }
    }
}


/// `PathBuf` is opaque to the verifier: a declared outside type whose
/// values the library only carries through.
#[verifier::external_type_specification]
#[verifier::external_body]
pub struct ExPathBuf(PathBuf);

/// The path value that wrapping a given text yields; a function of the
/// text alone.
pub uninterp spec fn path_of(s: Seq<char>) -> PathBuf;

/// Relies on `PathBuf::from(String)`: wraps the given text as a filesystem
/// path, byte for byte; the result depends on the text alone.
#[verifier::external_body]
fn path_from(s: &String) -> (p: PathBuf)
    ensures
        p == path_of(s@),
{
    PathBuf::from(s.clone())
}

impl TryParse for PathBuf {
    /// A path flag's candidate token is wrapped as a path; nothing is
    /// fatal but a missing mandatory flag, which the engine checks before
    /// conversion.
    open spec fn spec_parse(parser: &Parser, f: &Flag<PathBuf>) -> Result<
        Option<PathBuf>,
        FlagError,
    > {
        Ok(
            match spec_single(parser@, f.spec_short(), f.spec_long()) {
                Some(t) => Some(path_of(t@)),
                None => None,
            },
        )
    }

    open spec fn spec_parse_many(parser: &Parser, f: &Flag<PathBuf>, nargs: NArgs) -> Result<
        Option<Seq<PathBuf>>,
        FlagError,
    > {
        Ok(
            match spec_strings_many(parser@, f.spec_short(), f.spec_long(), nargs) {
                Some(toks) => Some(toks.map_values(|t: String| path_of(t@))),
                None => None,
            },
        )
    }

    fn parse(parser: &Parser, f: &Flag<PathBuf>) -> (r: Result<Option<PathBuf>, FlagError>) {
        proof {
            parser.lemma_args();
            f.lemma_fields();
        }
        match single_after(&parser.args, &f.short, &f.long) {
            Some(t) => Ok(Some(path_from(&t))),
            None => Ok(None),
        }
    }

    fn parse_many(parser: &Parser, f: &Flag<PathBuf>, nargs: NArgs) -> (r: Result<
        Option<Vec<PathBuf>>,
        FlagError,
    >) {
        proof {
            parser.lemma_args();
            f.lemma_fields();
        }
        match strings_many(&parser.args, &f.short, &f.long, nargs) {
            None => Ok(None),
            Some(toks) => {
                let mut out: Vec<PathBuf> = Vec::new();
                let m = toks.len();
                let mut i: usize = 0;
                while i < m
                    invariant
                        0 <= i <= m,
                        m == toks@.len(),
                        out@ =~= toks@.take(i as int).map_values(|t: String| path_of(t@)),
                    decreases m - i,
                {
                    out.push(path_from(&toks[i]));
                    i += 1;
                    proof {
                        assert(out@ =~= toks@.take(i as int).map_values(
                            |t: String| path_of(t@),
                        ));
                    }
                }
                proof {
                    assert(toks@.take(m as int) =~= toks@);
                }
                Ok(Some(out))
            },
        }
    }
}

} // verus!
