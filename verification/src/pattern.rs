//! Regular expressions, as the `regex` crate matches them.
use vstd::prelude::*;

verus! {

broadcast use vstd::string::group_string_axioms;

/// A compiled regular expression of the `regex` crate.
#[verifier::external_type_specification]
#[verifier::external_body]
pub struct ExRegex(regex::Regex);

/// Why the `regex` crate did not compile a text.
#[verifier::external_type_specification]
#[verifier::external_body]
pub struct ExRegexError(regex::Error);

/// A text is not a regular expression.
#[derive(Debug)]
pub struct PatternError {
    pub cause: regex::Error,
}

/// The expression that a text stands for.
pub uninterp spec fn compiled(pattern: Seq<char>) -> regex::Regex;

/// Does the expression that a pattern stands for match somewhere in the text?
pub uninterp spec fn found(pattern: Seq<char>, s: Seq<char>) -> bool;

/// The groups of the first match of a pattern in the text, the whole match first; a group that took
/// no part in the match has no text.
pub uninterp spec fn captured(pattern: Seq<char>, s: Seq<char>) -> Option<
    Seq<Option<Seq<char>>>,
>;

/// The texts of captured groups.
pub open spec fn group_views(groups: Seq<Option<String>>) -> Seq<Option<Seq<char>>> {
    Seq::new(groups.len(), |i: int| crate::text::opt_view(groups[i]))
}

/// The texts of captured groups, if there are any.
pub open spec fn match_view(m: Option<Vec<Option<String>>>) -> Option<Seq<Option<Seq<char>>>> {
    match m {
        Some(groups) => Some(group_views(groups@)),
        None => None,
    }
}

/// `Regex::new` compiles a text. If it succeeds, the expression is the one that the text stands
/// for. Nothing is said of when it succeeds: besides the text, that depends on how much memory the
/// compiled program takes on the machine, which is limited.
#[verifier::external_body]
fn compile_regex(pattern: &str) -> (r: Result<regex::Regex, regex::Error>)
    ensures
        r matches Ok(re) ==> re == compiled(pattern@),
{
    regex::Regex::new(pattern)
}

/// `Regex::is_match` depends on the pattern that the expression was compiled from and on the text.
#[verifier::external_body]
pub(crate) fn is_match(re: &regex::Regex, s: &str) -> (r: bool)
    ensures
        forall|p: Seq<char>| *re == #[trigger] compiled(p) ==> r == found(p, s@),
{
    re.is_match(s)
}

/// `Regex::captures` gives the groups of the first match; they depend on the pattern that the
/// expression was compiled from and on the text.
#[verifier::external_body]
pub(crate) fn captures(re: &regex::Regex, s: &str) -> (r: Option<Vec<Option<String>>>)
    ensures
        forall|p: Seq<char>| *re == #[trigger] compiled(p) ==> match_view(r) == captured(p, s@),
{
    re.captures(s).map(
        |groups| groups.iter().map(|g| g.map(|m| m.as_str().to_string())).collect(),
    )
}

/// What comes of compiling a text: the expression, or the error with its cause.
pub fn compilation(outcome: Result<regex::Regex, regex::Error>) -> (r: Result<
    regex::Regex,
    PatternError,
>)
    ensures
        match outcome {
            Ok(re) => r == Ok::<regex::Regex, PatternError>(re),
            Err(cause) => r matches Err(e) && e.cause == cause,
        },
{
    match outcome {
        Ok(re) => Ok(re),
        Err(cause) => Err(PatternError { cause }),
    }
}

/// Compiles a text to a regular expression.
pub fn compile(pattern: &str) -> (r: Result<regex::Regex, PatternError>)
    ensures
        r matches Ok(re) ==> re == compiled(pattern@),
{
    compilation(compile_regex(pattern))
}

/// What comes of compiling several texts: all expressions in their order, or the error of the first
/// text that failed.
pub fn all_compiled(outcomes: Vec<Result<regex::Regex, PatternError>>) -> (r: Result<
    Vec<regex::Regex>,
    PatternError,
>)
    ensures
        match r {
            Ok(all) => all_came(outcomes@, all@),
            Err(e) => first_failed(outcomes@, e),
        },
{
    let ghost all = outcomes@;
    let n: usize = outcomes.len();
    let mut rest = outcomes;
    let mut out: Vec<regex::Regex> = Vec::new();
    for i in 0..n
        invariant
            n == all.len(),
            all == outcomes@,
            rest@ == all.skip(i as int),
            out@.len() == i,
            forall|j: int|
                #![trigger all[j]]
                0 <= j < i ==> all[j] == Ok::<regex::Regex, PatternError>(out@[j]),
    {
        let outcome = rest.remove(0);
        assert(outcome == all[i as int]);
        assert(rest@ =~= all.skip(i + 1));
        match outcome {
            Ok(re) => {
                out.push(re);
            },
            Err(e) => {
                assert(all[i as int] == Err::<regex::Regex, PatternError>(e));
                return Err(e);
            },
        }
    }
    Ok(out)
}

/// All outcomes are expressions, and these are they.
pub open spec fn all_came(
    outcomes: Seq<Result<regex::Regex, PatternError>>,
    all: Seq<regex::Regex>,
) -> bool {
    &&& all.len() == outcomes.len()
    &&& forall|i: int|
        #![trigger outcomes[i]]
        0 <= i < outcomes.len() ==> outcomes[i] == Ok::<regex::Regex, PatternError>(all[i])
}

/// The first outcome that is no expression is this error.
pub open spec fn first_failed(
    outcomes: Seq<Result<regex::Regex, PatternError>>,
    e: PatternError,
) -> bool {
    exists|i: int|
        #![trigger outcomes[i]]
        0 <= i < outcomes.len() && outcomes[i] == Err::<regex::Regex, PatternError>(e)
            && forall|j: int| 0 <= j < i ==> (#[trigger] outcomes[j]) is Ok
}

/// The outcomes are those of compiling these texts, as far as they are expressions.
pub open spec fn outcomes_of(
    outcomes: Seq<Result<regex::Regex, PatternError>>,
    patterns: Seq<Seq<char>>,
) -> bool {
    &&& outcomes.len() == patterns.len()
    &&& forall|i: int|
        #![trigger outcomes[i]]
        0 <= i < outcomes.len() ==> (outcomes[i] matches Ok(re) ==> re == compiled(patterns[i]))
}

/// The expressions that texts stand for.
pub open spec fn each_compiled(patterns: Seq<Seq<char>>) -> Seq<regex::Regex> {
    patterns.map_values(|p: Seq<char>| compiled(p))
}

/// Where all texts were compiled, the expressions are those that they stand for.
pub(crate) proof fn lemma_all_came(
    outcomes: Seq<Result<regex::Regex, PatternError>>,
    patterns: Seq<Seq<char>>,
    all: Seq<regex::Regex>,
)
    requires
        outcomes_of(outcomes, patterns),
        all_came(outcomes, all),
    ensures
        all == each_compiled(patterns),
{
    assert forall|i: int| 0 <= i < all.len() implies all[i] == each_compiled(patterns)[i] by {
        assert(outcomes[i] == Ok::<regex::Regex, PatternError>(all[i]));
    }
    assert(all =~= each_compiled(patterns));
}

/// The text of a group, where it took part in the match.
pub open spec fn group_text(groups: Seq<Option<Seq<char>>>, n: int) -> Option<Seq<char>> {
    if n < groups.len() {
        groups[n]
    } else {
        None
    }
}

/// The text of a group, where it took part in the match.
pub fn group(groups: &Vec<Option<String>>, n: usize) -> (r: Option<&String>)
    ensures
        match r {
            Some(t) => group_text(group_views(groups@), n as int) == Some(t@),
            None => group_text(group_views(groups@), n as int) is None,
        },
{
    if n < groups.len() {
        match &groups[n] {
            Some(t) => Some(t),
            None => None,
        }
    } else {
        None
    }
}

} // verus!
