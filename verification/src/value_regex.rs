//! Regular expressions as values.
use regex::Regex;
use std::sync::Arc;
use vstd::prelude::*;

verus! {

/// A compiled regular expression of the `regex` crate.
#[verifier::external_type_specification]
#[verifier::external_body]
pub struct ExRegex(regex::Regex);

/// Why a regular expression did not compile.
#[derive(Debug)]
pub enum RegexError {
    /// The pattern is not a regular expression. The text says where and why.
    Syntax(String),
    /// The compiled form would take more memory than the limit, which is given.
    CompiledTooBig(usize),
}

/// How many bytes of memory a compiled form may take: the limit that the `regex` crate sets unless
/// it is asked for another one.
pub const SIZE_LIMIT: usize = 10485760;

/// What compiling `pattern` gives where the size of the compiled form does not stand against it:
/// the compiled form, or the text of the syntax error.
pub uninterp spec fn regex_of(pattern: Seq<char>) -> Result<Regex, Seq<char>>;

/// The pattern that a regular expression was compiled from.
pub uninterp spec fn pattern_of(regex: Regex) -> Seq<char>;

/// Whether `outcome` is an outcome of compiling `pattern`. Which patterns are too big is left
/// open: how much memory a compiled form takes is a matter of the machine.
pub open spec fn compiles_to(pattern: Seq<char>, outcome: Result<Regex, RegexError>) -> bool {
    match outcome {
        Ok(regex) => regex_of(pattern) == Ok::<Regex, Seq<char>>(regex),
        Err(RegexError::Syntax(message)) => regex_of(pattern) == Err::<Regex, Seq<char>>(message@),
        Err(RegexError::CompiledTooBig(limit)) => regex_of(pattern) is Ok && limit == SIZE_LIMIT,
    }
}

/// `regex::Regex::new`: one pattern gives one compiled form, or one syntax error, each time that
/// the size of the compiled form is within the crate's limit. A pattern with a syntax error is
/// refused for that, whatever its size. The compiled form keeps its pattern. Where the limit is
/// exceeded, the error gives the limit. The limit is on memory, so the contract does not say which
/// patterns exceed it.
#[verifier::external_body]
pub(crate) fn new_regex(pattern: &str) -> (r: Result<Regex, RegexError>)
    ensures
        match r {
            Ok(regex) => {
                &&& regex_of(pattern@) == Ok::<Regex, Seq<char>>(regex)
                &&& pattern_of(regex) == pattern@
            },
            Err(RegexError::Syntax(message)) => regex_of(pattern@) == Err::<Regex, Seq<char>>(
                message@,
            ),
            Err(RegexError::CompiledTooBig(limit)) => {
                &&& regex_of(pattern@) is Ok
                &&& limit == SIZE_LIMIT
            },
        },
{
    match Regex::new(pattern) {
        Ok(regex) => Ok(regex),
        Err(regex::Error::Syntax(message)) => Err(RegexError::Syntax(message)),
        Err(regex::Error::CompiledTooBig(limit)) => Err(RegexError::CompiledTooBig(limit)),
        Err(error) => Err(RegexError::Syntax(error.to_string())),
    }
}

/// `regex::Regex::as_str`: the pattern that a regular expression was compiled from.
#[verifier::external_body]
fn regex_pattern(regex: &Regex) -> (r: &str)
    ensures
        r@ == pattern_of(*regex),
{
    regex.as_str()
}

/// A compiled regular expression. Two of them are equal if they were compiled from the same
/// pattern.
#[derive(Debug)]
pub struct ValueRegex {
    regex: Arc<Regex>,
}

impl View for ValueRegex {
    type V = Seq<char>;

    closed spec fn view(&self) -> Seq<char> {
        pattern_of(*self.regex)
    }
}

impl ValueRegex {
    /// The compiled form.
    pub closed spec fn compiled(&self) -> Regex {
        *self.regex
    }

    /// The value of a compiled regular expression.
    pub fn new(regex: Regex) -> (r: Self)
        ensures
            r@ == pattern_of(regex),
            r.compiled() == regex,
    {
        ValueRegex { regex: Arc::new(regex) }
    }

    /// The pattern.
    pub fn as_str(&self) -> (r: &str)
        ensures
            r@ == self@,
    {
        regex_pattern(&self.regex)
    }

    /// The compiled form, which clones share.
    pub fn into_inner(self) -> (r: Arc<Regex>)
        ensures
            *r == self.compiled(),
    {
        self.regex
    }
}

impl Clone for ValueRegex {
    fn clone(&self) -> (r: Self)
        ensures
            r == *self,
    {
        ValueRegex { regex: self.regex.clone() }
    }
}

impl vstd::std_specs::cmp::PartialEqSpecImpl for ValueRegex {
    open spec fn obeys_eq_spec() -> bool {
        true
    }

    open spec fn eq_spec(&self, other: &Self) -> bool {
        self@ == other@
    }
}

impl PartialEq for ValueRegex {
    fn eq(&self, other: &Self) -> (r: bool) {
        self.as_str().to_string() == other.as_str().to_string()
    }
}

} // verus!
