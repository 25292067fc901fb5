//! Which command names belong to the configured targets.
//!
//! The target names are literal strings. They are escaped, joined into one
//! alternation anchored at both ends, and compiled once; a command name is
//! then tried against the compiled expression.
//!
//! What the expression compiler makes of a pattern is not proved here, and
//! whether it takes a pattern at all depends on the size limit that it sets
//! itself. So a matcher does not rest on it. The expression is used only if it
//! was compiled and, tried on every target name, finds each of them; and what
//! it finds is accepted only if it equals a target name. Without such an
//! expression the matcher compares with the target names alone. So a matcher
//! is made of every list of target names, and it accepts exactly those names,
//! whatever characters they hold.

use regex::Regex;
use vstd::prelude::*;
use vstd::string::StringExecFns;

verus! {

#[verifier::external_type_specification]
#[verifier::external_body]
pub struct ExRegex(regex::Regex);

#[verifier::external_type_specification]
#[verifier::external_body]
pub struct ExRegexError(regex::Error);

/// The string that a compiled expression was compiled from: what
/// `Regex::as_str` returns.
pub uninterp spec fn regex_source(re: Regex) -> Seq<char>;

/// Whether a compiled expression finds a match in `text`: what
/// `Regex::is_match` returns.
pub uninterp spec fn regex_accepts(re: Regex, text: Seq<char>) -> bool;

/// The characters that mean something in an expression.
pub open spec fn is_meta_character(c: char) -> bool {
    ||| c == '\\'
    ||| c == '.'
    ||| c == '+'
    ||| c == '*'
    ||| c == '?'
    ||| c == '('
    ||| c == ')'
    ||| c == '|'
    ||| c == '['
    ||| c == ']'
    ||| c == '{'
    ||| c == '}'
    ||| c == '^'
    ||| c == '$'
    ||| c == '#'
    ||| c == '&'
    ||| c == '-'
    ||| c == '~'
}

/// `text` with a backslash before each character that means something in an
/// expression.
pub open spec fn escaped(text: Seq<char>) -> Seq<char>
    decreases text.len(),
{
    if text.len() == 0 {
        Seq::empty()
    } else if is_meta_character(text.last()) {
        escaped(text.drop_last()).push('\\').push(text.last())
    } else {
        escaped(text.drop_last()).push(text.last())
    }
}

/// The parts in their order, with `separator` between each two.
pub open spec fn joined(parts: Seq<Seq<char>>, separator: Seq<char>) -> Seq<char>
    decreases parts.len(),
{
    if parts.len() == 0 {
        Seq::empty()
    } else if parts.len() == 1 {
        parts[0]
    } else {
        joined(parts.drop_last(), separator) + separator + parts.last()
    }
}

/// The views of some strings, in their order.
pub open spec fn texts(strings: Seq<String>) -> Seq<Seq<char>> {
    strings.map_values(|s: String| s@)
}

/// The views of some string slices, in their order.
pub open spec fn slice_texts(strings: Seq<&str>) -> Seq<Seq<char>> {
    strings.map_values(|s: &str| s@)
}

/// The expression for a list of target names: the escaped names as
/// alternatives of one group, between the anchors of start and end.
pub open spec fn union_pattern(names: Seq<Seq<char>>) -> Seq<char> {
    seq!['^', '(', '?', ':'] + joined(names.map_values(|n: Seq<char>| escaped(n)), seq!['|'])
        + seq![')', '$']
}

/// Calls `regex::escape`, which copies `text` and puts a backslash before each
/// of the eighteen characters listed in [`is_meta_character`].
#[verifier::external_body]
fn regex_escape(text: &str) -> (quoted: String)
    ensures
        quoted@ == escaped(text@),
{
    regex::escape(text)
}

/// Calls `itertools::join`, which writes the parts one after the other with
/// `separator` between each two, and nothing for no parts.
#[verifier::external_body]
fn itertools_join(parts: &Vec<String>, separator: &str) -> (line: String)
    ensures
        line@ == joined(texts(parts@), separator@),
{
    itertools::join(parts, separator)
}

/// Calls `Regex::new`. Nothing is claimed of when it succeeds: the compiler
/// refuses what would take more memory than its size limit, and it measures
/// that memory in its own states, which are not of one size on every machine.
/// Where it succeeds, the expression keeps `pattern` as its source.
#[verifier::external_body]
fn regex_new(pattern: &str) -> (outcome: Result<Regex, regex::Error>)
    ensures
        outcome matches Ok(re) ==> regex_source(re) == pattern@,
{
    Regex::new(pattern)
}

/// Calls `Regex::as_str`, which returns the string the expression was compiled
/// from.
#[verifier::external_body]
fn regex_as_str<'a>(re: &'a Regex) -> (pattern: &'a str)
    ensures
        pattern@ == regex_source(*re),
{
    re.as_str()
}

/// Calls `Regex::is_match`, whose answer depends on the expression and the
/// text alone.
#[verifier::external_body]
fn regex_is_match(re: &Regex, text: &str) -> (found: bool)
    ensures
        found == regex_accepts(*re, text@),
{
    re.is_match(text)
}

/// Why a matcher works without a compiled expression.
#[derive(Debug, Clone, PartialEq, Eq)]
pub enum PatternError {
    /// The expression was refused as malformed; the message says where.
    Syntax(String),
    /// The compiled expression would be larger than this limit.
    CompiledTooBig(usize),
    /// The expression was refused for another reason.
    Other,
    /// The expression was compiled, but does not find this target name.
    MissesTarget(String),
}

/// Tells the variants of `regex::Error` apart. Each is reported as a refusal
/// of the compiler, none as a target name that was missed: that is found only
/// after compiling.
#[verifier::external_body]
fn classify_error(error: regex::Error) -> (kind: PatternError)
    ensures
        kind is Syntax || kind is CompiledTooBig || kind is Other,
{
    match error {
        regex::Error::Syntax(message) => PatternError::Syntax(message),
        regex::Error::CompiledTooBig(limit) => PatternError::CompiledTooBig(limit),
        _ => PatternError::Other,
    }
}

/// The expression for `target_names`, as a string to compile.
pub fn build_pattern(target_names: &[&str]) -> (pattern: String)
    ensures
        pattern@ == union_pattern(slice_texts(target_names@)),
{
    let mut quoted: Vec<String> = Vec::new();
    let mut i: usize = 0;
    while i < target_names.len()
        invariant
            i <= target_names.len(),
            quoted@.len() == i,
            forall|k: int| 0 <= k < i ==> (#[trigger] quoted@[k])@ == escaped(target_names@[k]@),
        decreases target_names.len() - i,
    {
        quoted.push(regex_escape(target_names[i]));
        i += 1;
    }
    let alternatives = itertools_join(&quoted, "|");
    let mut pattern = String::from_str("^(?:");
    pattern.append(alternatives.as_str());
    pattern.append(")$");
    proof {
        reveal_strlit("|");
        reveal_strlit("^(?:");
        reveal_strlit(")$");
        assert("|"@ =~= seq!['|']);
        assert("^(?:"@ =~= seq!['^', '(', '?', ':']);
        assert(")$"@ =~= seq![')', '$']);
        assert(texts(quoted@) =~= slice_texts(target_names@).map_values(
            |n: Seq<char>| escaped(n),
        ));
    }
    pattern
}

/// Whether `name` is one of `names`, character for character.
pub fn listed(names: &Vec<String>, name: &str) -> (found: bool)
    ensures
        found == texts(names@).contains(name@),
{
    let wanted = name.to_owned();
    let mut i: usize = 0;
    while i < names.len()
        invariant
            i <= names.len(),
            wanted@ == name@,
            forall|k: int| 0 <= k < i ==> (#[trigger] texts(names@)[k]) != name@,
        decreases names.len() - i,
    {
        if names[i] == wanted {
            assert(texts(names@)[i as int] == name@);
            return true;
        }
        i += 1;
    }
    false
}

/// Whether a command name is accepted, given what the compiled expression said
/// of it: only if the expression found a match and the name is one of the
/// target names.
pub fn confirm(names: &Vec<String>, name: &str, expression_matched: bool) -> (accepted: bool)
    ensures
        accepted == (expression_matched && texts(names@).contains(name@)),
{
    if !expression_matched {
        return false;
    }
    listed(names, name)
}

/// The target names, with their compiled expression where there is one to
/// use.
pub struct NameMatcher {
    names: Vec<String>,
    re: Option<Regex>,
    refusal: Option<PatternError>,
}

/// The expression finds each of the names.
pub open spec fn finds_all(re: Regex, names: Seq<Seq<char>>) -> bool {
    forall|i: int| 0 <= i < names.len() ==> regex_accepts(re, #[trigger] names[i])
}

/// The expression that a matcher for `names` uses, given what compiling gave:
/// the compiled expression if there is one and it finds each of the names.
pub open spec fn usable(compiled: Result<Regex, regex::Error>, names: Seq<Seq<char>>) -> Option<
    Regex,
> {
    match compiled {
        Ok(re) => if finds_all(re, names) {
            Some(re)
        } else {
            None
        },
        Err(_) => None,
    }
}

impl NameMatcher {
    /// The target names, in the order given.
    pub closed spec fn names(&self) -> Seq<Seq<char>> {
        texts(self.names@)
    }

    /// The compiled expression, if the matcher uses one.
    pub closed spec fn expression(&self) -> Option<Regex> {
        self.re
    }

    /// Why the matcher uses no expression, if it uses none.
    pub closed spec fn refusal(&self) -> Option<PatternError> {
        self.refusal
    }

    /// The expression that a matcher uses finds each of its target names, and
    /// a matcher that uses none knows why.
    #[verifier::type_invariant]
    pub open spec fn wf(&self) -> bool {
        &&& self.expression() matches Some(re) ==> finds_all(re, self.names())
        &&& (self.expression() is None) == (self.refusal() is Some)
    }

    /// The matcher for `target_names`. Their pattern is compiled, and
    /// [`NameMatcher::from_compiled`] makes the matcher of what compiling
    /// gave.
    pub fn new(target_names: &[&str]) -> (matcher: NameMatcher)
        ensures
            matcher.names() == slice_texts(target_names@),
            matcher.expression() matches Some(re) ==> regex_source(re) == union_pattern(
                slice_texts(target_names@),
            ),
            (matcher.expression() is None) == (matcher.refusal() is Some),
            matcher.refusal() matches Some(PatternError::MissesTarget(missed)) ==> slice_texts(
                target_names@,
            ).contains(missed@),
    {
        let pattern = build_pattern(target_names);
        let compiled = regex_new(pattern.as_str());
        NameMatcher::from_compiled(target_names, compiled)
    }

    /// The matcher for `target_names`, given what compiling their pattern
    /// gave.
    ///
    /// An expression is tried on each target name and used if it finds them
    /// all. If it misses one, or if compiling gave none, the matcher uses no
    /// expression and keeps the reason: the first name that was missed, or the
    /// refusal of the compiler.
    pub fn from_compiled(target_names: &[&str], compiled: Result<Regex, regex::Error>) -> (matcher:
        NameMatcher)
        ensures
            matcher.names() == slice_texts(target_names@),
            matcher.expression() == usable(compiled, slice_texts(target_names@)),
            (matcher.expression() is None) == (matcher.refusal() is Some),
            compiled matches Ok(re) ==> (matcher.refusal() matches Some(error) ==> {
                &&& error matches PatternError::MissesTarget(missed)
                &&& slice_texts(target_names@).contains(missed@)
                &&& !regex_accepts(re, missed@)
            }),
            compiled is Err ==> (matcher.refusal() matches Some(error) && (error is Syntax
                || error is CompiledTooBig || error is Other)),
    {
        let mut names: Vec<String> = Vec::new();
        let mut i: usize = 0;
        while i < target_names.len()
            invariant
                i <= target_names.len(),
                names@.len() == i,
                forall|k: int| 0 <= k < i ==> (#[trigger] names@[k])@ == target_names@[k]@,
            decreases target_names.len() - i,
        {
            names.push(target_names[i].to_owned());
            i += 1;
        }
        assert(texts(names@) =~= slice_texts(target_names@));
        match compiled {
            Ok(re) => {
                let mut i: usize = 0;
                while i < target_names.len()
                    invariant
                        compiled == Ok::<Regex, regex::Error>(re),
                        texts(names@) == slice_texts(target_names@),
                        i <= target_names.len(),
                        forall|k: int|
                            0 <= k < i ==> regex_accepts(
                                re,
                                #[trigger] slice_texts(target_names@)[k],
                            ),
                    decreases target_names.len() - i,
                {
                    let name = target_names[i];
                    assert(slice_texts(target_names@)[i as int] == name@);
                    if !regex_is_match(&re, name) {
                        let missed = name.to_owned();
                        assert(slice_texts(target_names@)[i as int] == missed@);
                        assert(!regex_accepts(re, slice_texts(target_names@)[i as int]));
                        return NameMatcher {
                            names,
                            re: None,
                            refusal: Some(PatternError::MissesTarget(missed)),
                        };
                    }
                    i += 1;
                }
                NameMatcher { names, re: Some(re), refusal: None }
            },
            Err(error) => NameMatcher { names, re: None, refusal: Some(classify_error(error)) },
        }
    }

    /// How many target names there are.
    pub fn target_count(&self) -> (count: usize)
        ensures
            count == self.names().len(),
    {
        self.names.len()
    }

    /// The pattern that the expression was compiled from, if the matcher uses
    /// an expression.
    pub fn pattern(&self) -> (pattern: Option<&str>)
        ensures
            pattern is Some == self.expression() is Some,
            pattern matches Some(source) ==> source@ == regex_source(self.expression()->Some_0),
    {
        match &self.re {
            Some(re) => Some(regex_as_str(re)),
            None => None,
        }
    }

    /// Why the matcher uses no expression, if it uses none.
    pub fn why_no_expression(&self) -> (reason: &Option<PatternError>)
        ensures
            *reason == self.refusal(),
            (*reason is Some) == (self.expression() is None),
    {
        proof {
            use_type_invariant(self);
        }
        &self.refusal
    }

    /// Whether `name` is one of the target names, exactly.
    ///
    /// With an expression, the name is tried against it, and what the
    /// expression finds is compared with the target names. Without one, the
    /// name is compared with the target names at once.
    pub fn is_match(&self, name: &str) -> (accepted: bool)
        ensures
            accepted == self.names().contains(name@),
    {
        proof {
            use_type_invariant(self);
        }
        match &self.re {
            Some(re) => {
                proof {
                    if self.names().contains(name@) {
                        let i = choose|i: int|
                            0 <= i < self.names().len() && self.names()[i] == name@;
                        assert(regex_accepts(*re, self.names()[i]));
                    }
                }
                let expression_matched = regex_is_match(re, name);
                confirm(&self.names, name, expression_matched)
            },
            None => listed(&self.names, name),
        }
    }
}

} // verus!
