//! Compiled regex literals that several compilations share.
use crate::table::Table;
use crate::value_regex;
use crate::value_regex::{RegexError, ValueRegex};
use regex::Regex;
use std::sync::Arc;
use vstd::prelude::*;
use vstd::rwlock::{RwLock, RwLockPredicate};

verus! {

/// Compiled regex literals, by pattern.
pub type RegexMap = Table<String, ValueRegex>;

/// Whether each compiled form is that of its pattern.
pub open spec fn is_faithful(map: Map<Seq<char>, ValueRegex>) -> bool {
    forall|pattern: Seq<char>| #[trigger]
        map.contains_key(pattern) ==> is_compiled_from(pattern, map[pattern])
}

/// Whether `regex` is the compiled form of `pattern`.
pub open spec fn is_compiled_from(pattern: Seq<char>, regex: ValueRegex) -> bool {
    &&& regex@ == pattern
    &&& value_regex::regex_of(pattern) == Ok::<Regex, Seq<char>>(regex.compiled())
}

/// Whether `outcome` is an outcome of compiling the literal `pattern`.
pub open spec fn literal_compiles_to(
    pattern: Seq<char>,
    outcome: Result<ValueRegex, RegexError>,
) -> bool {
    match outcome {
        Ok(regex) => is_compiled_from(pattern, regex),
        Err(error) => value_regex::compiles_to(pattern, Err(error)),
    }
}

/// The outcome of compiling a literal, as a value where it is a compiled form.
pub fn literal(compiled: Result<Regex, RegexError>) -> (r: Result<ValueRegex, RegexError>)
    ensures
        match (compiled, r) {
            (Ok(regex), Ok(literal)) => {
                &&& literal@ == value_regex::pattern_of(regex)
                &&& literal.compiled() == regex
            },
            (Err(error), Err(same)) => same == error,
            _ => false,
        },
{
    match compiled {
        Ok(regex) => Ok(ValueRegex::new(regex)),
        Err(error) => Err(error),
    }
}

/// Puts the outcome of compiling `pattern` into the map, where it is a compiled form, and hands it
/// out. A pattern that did not compile is not remembered.
pub fn remember(
    map: &mut RegexMap,
    pattern: &str,
    compiled: Result<Regex, RegexError>,
) -> (r: Result<ValueRegex, RegexError>)
    ensures
        match (compiled, r) {
            (Ok(regex), Ok(literal)) => {
                &&& literal@ == value_regex::pattern_of(regex)
                &&& literal.compiled() == regex
                &&& final(map)@ == old(map)@.insert(pattern@, literal)
            },
            (Err(error), Err(same)) => same == error && final(map)@ == old(map)@,
            _ => false,
        },
{
    match literal(compiled) {
        Ok(regex) => {
            let _ = map.insert(pattern.to_string(), regex.clone());
            Ok(regex)
        },
        Err(error) => Err(error),
    }
}

/// Whether compiling the literal `pattern` with a map of those compiled before may have this
/// outcome and leave the map so: a pattern in the map is not compiled again, another one is
/// compiled, and put into the map if that succeeds.
pub open spec fn compiles_in(
    before: Map<Seq<char>, ValueRegex>,
    pattern: Seq<char>,
    outcome: Result<ValueRegex, RegexError>,
    after: Map<Seq<char>, ValueRegex>,
) -> bool {
    if before.contains_key(pattern) {
        outcome == Ok::<ValueRegex, RegexError>(before[pattern]) && after == before
    } else {
        literal_compiles_to(pattern, outcome) && after == match outcome {
            Ok(regex) => before.insert(pattern, regex),
            Err(_) => before,
        }
    }
}

/// A literal compiles to the compiled form of its pattern, or not at all: its pattern has a syntax
/// error, which is handed on, or its compiled form takes more memory than the limit, which is given.
pub proof fn a_literal_compiles_to_its_pattern(
    pattern: Seq<char>,
    outcome: Result<ValueRegex, RegexError>,
)
    requires
        literal_compiles_to(pattern, outcome),
    ensures
        outcome matches Ok(regex) ==> regex@ == pattern && value_regex::regex_of(pattern) == Ok::<
            Regex,
            Seq<char>,
        >(regex.compiled()),
        outcome matches Err(RegexError::Syntax(message)) ==> value_regex::regex_of(pattern) == Err::<
            Regex,
            Seq<char>,
        >(message@),
        outcome matches Err(RegexError::CompiledTooBig(limit)) ==> limit == 10485760
            && value_regex::regex_of(pattern) is Ok,
{
}

/// With a map of literals that were compiled before, a pattern in the map is not compiled again. Any
/// other one is, and its compiled form is put into the map under the pattern. Nothing else in the map
/// changes.
pub proof fn a_literal_is_looked_up_before_it_is_compiled(
    before: Map<Seq<char>, ValueRegex>,
    pattern: Seq<char>,
    outcome: Result<ValueRegex, RegexError>,
    after: Map<Seq<char>, ValueRegex>,
)
    requires
        compiles_in(before, pattern, outcome, after),
    ensures
        before.contains_key(pattern) ==> after == before && outcome == Ok::<ValueRegex, RegexError>(
            before[pattern],
        ),
        !before.contains_key(pattern) ==> {
            &&& outcome matches Ok(regex) ==> {
                &&& after == before.insert(pattern, regex)
                &&& regex@ == pattern
                &&& value_regex::regex_of(pattern) == Ok::<Regex, Seq<char>>(regex.compiled())
            }
            &&& outcome matches Err(RegexError::Syntax(message)) ==> {
                &&& after == before
                &&& value_regex::regex_of(pattern) == Err::<Regex, Seq<char>>(message@)
            }
            &&& outcome matches Err(RegexError::CompiledTooBig(limit)) ==> {
                &&& after == before
                &&& limit == 10485760
                &&& value_regex::regex_of(pattern) is Ok
            }
        },
{
}

/// In a map that is faithful, each pattern has its own compiled form.
pub proof fn a_faithful_map_has_the_compiled_forms(
    map: Map<Seq<char>, ValueRegex>,
    pattern: Seq<char>,
)
    requires
        is_faithful(map),
        map.contains_key(pattern),
    ensures
        map[pattern]@ == pattern,
        value_regex::regex_of(pattern) == Ok::<Regex, Seq<char>>(map[pattern].compiled()),
{
}

/// A pattern that compiled once gives the same compiled form the next time, and the map stays as
/// it is.
pub proof fn a_pattern_is_compiled_once(
    maps: (Map<Seq<char>, ValueRegex>, Map<Seq<char>, ValueRegex>, Map<Seq<char>, ValueRegex>),
    pattern: Seq<char>,
    outcomes: (Result<ValueRegex, RegexError>, Result<ValueRegex, RegexError>),
)
    requires
        compiles_in(maps.0, pattern, outcomes.0, maps.1),
        compiles_in(maps.1, pattern, outcomes.1, maps.2),
        outcomes.0 is Ok,
    ensures
        outcomes.1 == outcomes.0,
        maps.2 == maps.1,
{
}

/// A pattern that does not compile leaves the map as it is.
pub proof fn an_invalid_pattern_is_not_kept(
    before: Map<Seq<char>, ValueRegex>,
    pattern: Seq<char>,
    outcome: Result<ValueRegex, RegexError>,
    after: Map<Seq<char>, ValueRegex>,
)
    requires
        compiles_in(before, pattern, outcome, after),
        outcome is Err,
    ensures
        after == before,
{
}

/// Compiling a literal takes nothing out of the map and changes nothing in it, and what it adds is
/// the compiled form of its pattern.
pub proof fn a_map_stays_faithful(
    before: Map<Seq<char>, ValueRegex>,
    pattern: Seq<char>,
    outcome: Result<ValueRegex, RegexError>,
    after: Map<Seq<char>, ValueRegex>,
)
    requires
        compiles_in(before, pattern, outcome, after),
    ensures
        before.submap_of(after),
        is_faithful(before) ==> is_faithful(after) && literal_compiles_to(pattern, outcome),
{
}

/// The compiled form of `pattern`: the one in the map, and where there is none a new one, which is
/// put into the map.
pub fn compile_in(map: &mut RegexMap, pattern: &str) -> (r: Result<ValueRegex, RegexError>)
    ensures
        compiles_in(old(map)@, pattern@, r, final(map)@),
{
    let found = match map.get(&pattern.to_string()) {
        Some(regex) => Some(regex.clone()),
        None => None,
    };
    match found {
        Some(regex) => Ok(regex),
        None => remember(map, pattern, value_regex::new_regex(pattern)),
    }
}

/// What holds of a cache at all times: each compiled form is that of its pattern.
pub struct Faithful;

impl RwLockPredicate<RegexMap> for Faithful {
    open spec fn inv(self, map: RegexMap) -> bool {
        is_faithful(map@)
    }
}

/// Compiled regex literals, keyed by pattern, shared by every compilation that is handed the same
/// handle.
///
/// A compiled form is tens of kilobytes of automata, and [`ValueRegex`] shares it, so identical
/// literals can share one object instead of one each.
///
/// **Scope this to a compile session and no longer.** The cache pins every pattern it has seen, so
/// a handle that lives as long as the process never frees the patterns of programs that have since
/// been discarded. Drop the handle when the session ends, and only the regexes that a live program
/// still references survive.
pub struct RegexCache(Arc<RwLock<RegexMap, Faithful>>);

impl Clone for RegexCache {
    /// Another handle on the same cache.
    fn clone(&self) -> (r: Self)
        ensures
            r == *self,
    {
        RegexCache(self.0.clone())
    }
}

impl Default for RegexCache {
    /// A new cache, without a pattern. What a cache holds is behind a lock that others may take at
    /// any time, so there is nothing that a contract could say of it.
    fn default() -> (r: Self) {
        let map: RegexMap = Table::new();
        RegexCache(Arc::new(RwLock::new(map, Ghost(Faithful))))
    }
}

impl RegexCache {
    /// A copy of what the cache holds at some moment during the call. Which patterns these are is
    /// up to the compilations that share the cache.
    pub fn entries(&self) -> (r: RegexMap)
        ensures
            is_faithful(r@),
    {
        let handle = self.0.acquire_read();
        let r = handle.borrow().clone();
        handle.release_read();
        r
    }

    /// The compiled form of `pattern`: the one in the cache, and where there is none a new one,
    /// which is put into the cache. Which of the two it is depends on the compilations that share
    /// the cache. A pattern has the same compiled form either way.
    pub fn compile(&self, pattern: &str) -> (r: Result<ValueRegex, RegexError>)
        ensures
            literal_compiles_to(pattern@, r),
    {
        let (mut map, handle) = self.0.acquire_write();
        let ghost before = map@;
        let r = compile_in(&mut map, pattern);
        proof {
            a_map_stays_faithful(before, pattern@, r, map@);
        }
        handle.release_write(map);
        r
    }
}

} // verus!
