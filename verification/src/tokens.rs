//! Locating a flag's occurrences in the argument store.
//!
//! All functions here work on the store's token sequence alone; what a token
//! means for a given target type is the conversion protocol's business.

use vstd::prelude::*;

verus! {

use crate::NArgs;

/// Whether one token names the flag: an exact match against the short or the
/// long identifier, with no prefix matching and no `=`-splitting.
pub open spec fn tok_matches(t: String, short: String, long: String) -> bool {
    t@ == short@ || t@ == long@
}

/// Whether the flag occurs anywhere in the argument list.
pub open spec fn spec_passed(args: Seq<String>, short: String, long: String) -> bool {
    exists|i: int| 0 <= i < args.len() && tok_matches(args[i], short, long)
}

/// The first index at or after `i` whose token names the flag.
pub open spec fn first_hit_from(args: Seq<String>, short: String, long: String, i: int) -> Option<
    int,
>
    decreases args.len() - i,
{
    if i < 0 || i >= args.len() {
        None
    } else if tok_matches(args[i], short, long) {
        Some(i)
    } else {
        first_hit_from(args, short, long, i + 1)
    }
}

/// The index of the flag's first occurrence, if any.
pub open spec fn first_hit(args: Seq<String>, short: String, long: String) -> Option<int> {
    first_hit_from(args, short, long, 0)
}

/// The last index strictly before `i` whose token names the flag.
pub open spec fn last_hit_before(args: Seq<String>, short: String, long: String, i: int) -> Option<
    int,
>
    decreases i,
{
    if i <= 0 || i > args.len() {
        None
    } else if tok_matches(args[i - 1], short, long) {
        Some(i - 1)
    } else {
        last_hit_before(args, short, long, i - 1)
    }
}

/// The index of the flag's last occurrence, if any.
pub open spec fn last_hit(args: Seq<String>, short: String, long: String) -> Option<int> {
    last_hit_before(args, short, long, args.len() as int)
}

/// What `first_hit_from` finds: a matching index with no match before it
/// (within the scanned range), or the absence of any match in the range.
pub proof fn lemma_first_hit_from(args: Seq<String>, short: String, long: String, i: int)
    requires
        0 <= i <= args.len(),
    ensures
        match first_hit_from(args, short, long, i) {
            Some(j) => i <= j < args.len() && tok_matches(args[j], short, long) && forall|k: int|
                i <= k < j ==> !tok_matches(args[k], short, long),
            None => forall|k: int|
                i <= k < args.len() ==> !tok_matches(args[k], short, long),
        },
    decreases args.len() - i,
{
    if i < args.len() && !tok_matches(args[i], short, long) {
        lemma_first_hit_from(args, short, long, i + 1);
    }
}

/// A matching index with no match before it is exactly what `first_hit`
/// returns.
pub proof fn lemma_first_hit_is(args: Seq<String>, short: String, long: String, j: int)
    requires
        0 <= j < args.len(),
        tok_matches(args[j], short, long),
        forall|k: int| 0 <= k < j ==> !tok_matches(args[k], short, long),
    ensures
        first_hit(args, short, long) == Some(j),
{
    lemma_first_hit_from(args, short, long, 0);
}

/// What `last_hit_before` finds: a matching index with no match after it
/// (within the scanned range), or the absence of any match in the range.
pub proof fn lemma_last_hit_before(args: Seq<String>, short: String, long: String, i: int)
    requires
        0 <= i <= args.len(),
    ensures
        match last_hit_before(args, short, long, i) {
            Some(j) => 0 <= j < i && tok_matches(args[j], short, long) && forall|k: int|
                j < k < i ==> !tok_matches(args[k], short, long),
            None => forall|k: int| 0 <= k < i ==> !tok_matches(args[k], short, long),
        },
    decreases i,
{
    if 0 < i <= args.len() && !tok_matches(args[i - 1], short, long) {
        lemma_last_hit_before(args, short, long, i - 1);
    }
}

/// A matching index with no match after it is exactly what `last_hit`
/// returns.
pub proof fn lemma_last_hit_is(args: Seq<String>, short: String, long: String, j: int)
    requires
        0 <= j < args.len(),
        tok_matches(args[j], short, long),
        forall|k: int| j < k < args.len() ==> !tok_matches(args[k], short, long),
    ensures
        last_hit(args, short, long) == Some(j),
{
    lemma_last_hit_before(args, short, long, args.len() as int);
}

/// The flag occurs somewhere iff the scan for its first occurrence succeeds,
/// iff the scan for its last occurrence succeeds.
pub proof fn lemma_hit_iff_passed(args: Seq<String>, short: String, long: String)
    ensures
        (first_hit(args, short, long) is Some) == spec_passed(args, short, long),
        (last_hit(args, short, long) is Some) == spec_passed(args, short, long),
{
    lemma_first_hit_from(args, short, long, 0);
    lemma_last_hit_before(args, short, long, args.len() as int);
}

/// The candidate token of a single-value resolution: the token immediately
/// after the flag's first occurrence, if both exist.
pub open spec fn spec_single(args: Seq<String>, short: String, long: String) -> Option<String> {
    match first_hit(args, short, long) {
        Some(h) => if h + 1 < args.len() {
            Some(args[h + 1])
        } else {
            None
        },
        None => None,
    }
}

/// The end of the run of acceptable tokens that starts at `i`: the first
/// index at or after `i` whose token fails `ok`, or the sequence's length if
/// none does.
pub open spec fn ok_upto(toks: Seq<String>, ok: spec_fn(String) -> bool, i: int) -> int
    decreases toks.len() - i,
{
    if i < 0 || i >= toks.len() {
        toks.len() as int
    } else if ok(toks[i]) {
        ok_upto(toks, ok, i + 1)
    } else {
        i
    }
}

/// What `ok_upto` finds: everything from `i` up to the found index passes
/// `ok`, and the found index (when inside the sequence) fails it.
pub proof fn lemma_ok_upto(toks: Seq<String>, ok: spec_fn(String) -> bool, i: int)
    requires
        0 <= i <= toks.len(),
    ensures
        i <= ok_upto(toks, ok, i) <= toks.len(),
        forall|k: int| i <= k < ok_upto(toks, ok, i) ==> ok(toks[k]),
        ok_upto(toks, ok, i) < toks.len() ==> !ok(toks[ok_upto(toks, ok, i)]),
    decreases toks.len() - i,
{
    if i < toks.len() && ok(toks[i]) {
        lemma_ok_upto(toks, ok, i + 1);
    }
}

/// An index whose prefix passes `ok` and which itself fails `ok` (or is the
/// length) is exactly what `ok_upto` returns.
pub proof fn lemma_ok_upto_is(toks: Seq<String>, ok: spec_fn(String) -> bool, j: int)
    requires
        0 <= j <= toks.len(),
        forall|k: int| 0 <= k < j ==> ok(toks[k]),
        j < toks.len() ==> !ok(toks[j]),
    ensures
        ok_upto(toks, ok, 0) == j,
{
    lemma_ok_upto(toks, ok, 0);
}

/// The tokens strictly after the flag's last occurrence, if the flag occurs
/// at all.
pub open spec fn raw_tail(args: Seq<String>, short: String, long: String) -> Option<Seq<String>> {
    match last_hit(args, short, long) {
        Some(h) => Some(args.subrange(h + 1, args.len() as int)),
        None => None,
    }
}

/// The raw tokens a multi-value resolution captures: nothing when the flag
/// is absent or nothing follows it; otherwise the trailing tokens cut down
/// by the collection policy, where `ok` is the target type's single-token
/// conversion test (consulted only by `SmartRemainder`).
pub open spec fn raw_many(
    args: Seq<String>,
    short: String,
    long: String,
    nargs: NArgs,
    ok: spec_fn(String) -> bool,
) -> Option<Seq<String>> {
    match raw_tail(args, short, long) {
        None => None,
        Some(tail) => if tail.len() == 0 {
            None
        } else {
            Some(
                match nargs {
                    NArgs::Count(n) => tail.take(
                        if n <= tail.len() {
                            n as int
                        } else {
                            tail.len() as int
                        },
                    ),
                    NArgs::Remainder => tail,
                    NArgs::SmartRemainder => tail.take(ok_upto(tail, ok, 0)),
                },
            )
        },
    }
}

/// What `Count(n)` captures, for any store, flag and conversion test: when
/// the capture succeeds it has at most `n` tokens — exactly `n` or exactly
/// the number of trailing tokens, whichever is smaller — and each captured
/// token stands strictly after the flag's position in the store.
pub proof fn lemma_count_capture(
    args: Seq<String>,
    short: String,
    long: String,
    n: usize,
    ok: spec_fn(String) -> bool,
)
    ensures
        match last_hit(args, short, long) {
            Some(h) => {
                let avail = args.len() - h - 1;
                match raw_many(args, short, long, NArgs::Count(n), ok) {
                    Some(toks) => avail > 0 && toks.len() <= n && toks.len() == (
                    if n <= avail {
                        n as int
                    } else {
                        avail
                    }) && forall|j: int| 0 <= j < toks.len() ==> toks[j] == args[h + 1 + j],
                    None => avail == 0,
                }
            },
            None => raw_many(args, short, long, NArgs::Count(n), ok) is None,
        },
{
    lemma_last_hit_before(args, short, long, args.len() as int);
}

/// What `Remainder` captures, for any store, flag and conversion test:
/// every token strictly after the flag's last occurrence, in the store's
/// order, unfiltered — or nothing, when the flag is absent or nothing
/// trails it.
pub proof fn lemma_remainder_capture(
    args: Seq<String>,
    short: String,
    long: String,
    ok: spec_fn(String) -> bool,
)
    ensures
        match last_hit(args, short, long) {
            Some(h) => if args.len() - h - 1 == 0 {
                raw_many(args, short, long, NArgs::Remainder, ok) is None
            } else {
                raw_many(args, short, long, NArgs::Remainder, ok) == Some(
                    args.subrange(h + 1, args.len() as int),
                )
            },
            None => raw_many(args, short, long, NArgs::Remainder, ok) is None,
        },
{
    lemma_last_hit_before(args, short, long, args.len() as int);
}

/// What `SmartRemainder` captures, for any store, flag and conversion
/// test: a prefix of what `Remainder` captures — never reordered, never
/// filtered from the middle — cut at the first token that fails the test;
/// every captured token passes the test, and the first token left behind
/// (if any) fails it.  The two policies succeed on exactly the same
/// stores.
pub proof fn lemma_smart_prefix_of_remainder(
    args: Seq<String>,
    short: String,
    long: String,
    ok: spec_fn(String) -> bool,
)
    ensures
        match (
            raw_many(args, short, long, NArgs::SmartRemainder, ok),
            raw_many(args, short, long, NArgs::Remainder, ok),
        ) {
            (Some(s), Some(r)) => s.len() <= r.len() && s == r.take(s.len() as int) && (forall|
                j: int,
            |
                0 <= j < s.len() ==> ok(s[j])) && (s.len() < r.len() ==> !ok(r[s.len() as int])),
            (None, None) => true,
            _ => false,
        },
{
    lemma_last_hit_before(args, short, long, args.len() as int);
    match last_hit(args, short, long) {
        Some(h) => {
            let tail = args.subrange(h + 1, args.len() as int);
            if tail.len() > 0 {
                lemma_ok_upto(tail, ok, 0);
                let stop = ok_upto(tail, ok, 0);
                assert(tail.take(stop).take(stop) =~= tail.take(stop));
                assert(tail.take(tail.len() as int) =~= tail);
            }
        },
        None => {},
    }
}

/// The index of the flag's first occurrence in `args`, by a forward scan.
pub fn find_match(args: &Vec<String>, short: &String, long: &String) -> (r: Option<usize>)
    ensures
        match r {
            Some(i) => first_hit(args@, *short, *long) == Some(i as int),
            None => first_hit(args@, *short, *long) is None,
        },
{
    let n = args.len();
    let mut i: usize = 0;
    while i < n
        invariant
            n == args@.len(),
            0 <= i <= n,
            forall|k: int| 0 <= k < i ==> !tok_matches(args@[k], *short, *long),
        decreases n - i,
    {
        if args[i] == *short || args[i] == *long {
            proof {
                lemma_first_hit_is(args@, *short, *long, i as int);
            }
            return Some(i);
        }
        i += 1;
    }
    proof {
        lemma_first_hit_from(args@, *short, *long, 0);
    }
    None
}

/// The candidate token of a single-value resolution, by a forward scan: a
/// copy of the token right after the flag's first occurrence, if both exist.
pub fn single_after(args: &Vec<String>, short: &String, long: &String) -> (r: Option<String>)
    ensures
        r == spec_single(args@, *short, *long),
{
    match find_match(args, short, long) {
        Some(h) => if h < args.len() - 1 {
            Some(args[h + 1].clone())
        } else {
            None
        },
        None => None,
    }
}

/// The index of the flag's last occurrence in `args`, by a backward scan.
pub fn find_last_match(args: &Vec<String>, short: &String, long: &String) -> (r: Option<usize>)
    ensures
        match r {
            Some(i) => last_hit(args@, *short, *long) == Some(i as int),
            None => last_hit(args@, *short, *long) is None,
        },
{
    let n = args.len();
    let mut i: usize = n;
    while i > 0
        invariant
            n == args@.len(),
            0 <= i <= n,
            forall|k: int| i <= k < n ==> !tok_matches(args@[k], *short, *long),
        decreases i,
    {
        i -= 1;
        if args[i] == *short || args[i] == *long {
            proof {
                lemma_last_hit_is(args@, *short, *long, i as int);
            }
            return Some(i);
        }
    }
    proof {
        lemma_last_hit_before(args@, *short, *long, args@.len() as int);
    }
    None
}

} // verus!
