//! Which policies are shown: include and exclude patterns on the policy
//! name, with include taking precedence.

use vstd::prelude::*;
use vstd::string::*;
use crate::v2::EscalationPolicy;

verus! {

/// `regex::Regex`: a compiled regular expression. The verifier sees
/// nothing inside it.
#[verifier::external_type_specification]
#[verifier::external_body]
pub struct ExRegex(regex::Regex);

/// `regex::Error`: why a text was not compiled, either for its syntax or
/// because the compiled expression would pass the size limit.
#[verifier::external_type_specification]
pub struct ExRegexError(regex::Error);

/// What `regex::Regex::is_match` answers for `haystack` on the regular
/// expression that `regex::Regex::new` compiles from `pattern`: whether
/// there is a match somewhere in `haystack`.
pub uninterp spec fn regex_matches(pattern: Seq<char>, haystack: Seq<char>) -> bool;

/// What `regex::Regex::new` makes of the syntax of `source`: true unless
/// its answer is `regex::Error::Syntax`. The syntax of a text is the same on
/// every machine. Whether the compiled expression also stays under the size
/// limit is not: the crate counts that size in units that differ between
/// machines, so it has no name.
pub uninterp spec fn regex_parses(source: Seq<char>) -> bool;

/// A pattern on policy names: a regular expression together with the text
/// that it was compiled from. The only way to make one is [`compile`].
#[derive(Debug)]
pub struct NamePattern {
    source: String,
    regex: regex::Regex,
}

impl View for NamePattern {
    type V = Seq<char>;

    closed spec fn view(&self) -> Seq<char> {
        self.source@
    }
}

/// A pattern that could not be used.
#[derive(Debug, Clone, PartialEq, Eq)]
pub enum ConfigError {
    /// The text is no regular expression.
    InvalidPattern(String),
    /// The text is a regular expression, but compiled it would pass the
    /// size limit of the `regex` crate.
    PatternTooLarge(String),
}

/// What a [`ConfigError`] holds.
pub enum ConfigErrorView {
    InvalidPattern(Seq<char>),
    PatternTooLarge(Seq<char>),
}

impl ConfigErrorView {
    /// The text that the error is about.
    pub open spec fn source(self) -> Seq<char> {
        match self {
            ConfigErrorView::InvalidPattern(text) => text,
            ConfigErrorView::PatternTooLarge(text) => text,
        }
    }
}

/// The error that a text has coming: that of its syntax where it is no
/// regular expression, and else that of its size.
pub open spec fn error_of(source: Seq<char>) -> ConfigErrorView {
    if regex_parses(source) {
        ConfigErrorView::PatternTooLarge(source)
    } else {
        ConfigErrorView::InvalidPattern(source)
    }
}

impl DeepView for ConfigError {
    type V = ConfigErrorView;

    open spec fn deep_view(&self) -> ConfigErrorView {
        match self {
            ConfigError::InvalidPattern(text) => ConfigErrorView::InvalidPattern(text@),
            ConfigError::PatternTooLarge(text) => ConfigErrorView::PatternTooLarge(text@),
        }
    }
}

/// `regex::Regex::new`: compiles `source`. A text that is no regular
/// expression is answered with `regex::Error::Syntax`, and no other text
/// is. A text that is one is compiled, unless the compiled expression would
/// pass the crate's size limit; which of the two depends on the machine, so
/// nothing more is claimed of it. A pattern that comes back holds `source`
/// and the regex compiled from it.
#[verifier::external_body]
fn compile_regex(source: &str) -> (compiled: Result<NamePattern, regex::Error>)
    ensures
        compiled is Ok ==> compiled.unwrap()@ == source@,
        (compiled is Err && compiled.unwrap_err() is Syntax) <==> !regex_parses(source@),
{
    match regex::Regex::new(source) {
        Ok(regex) => Ok(NamePattern { source: source.to_string(), regex }),
        Err(error) => Err(error),
    }
}

/// `regex::Regex::is_match`: whether the pattern matches somewhere in
/// `haystack`. The answer is that of the pattern's text, because the regex
/// of a [`NamePattern`] is always the one that [`compile_regex`] compiled
/// from that text.
#[verifier::external_body]
fn regex_is_match(pattern: &NamePattern, haystack: &str) -> (found: bool)
    ensures
        found == regex_matches(pattern@, haystack@),
{
    pattern.regex.is_match(haystack)
}

/// Compiles `source` into a pattern.
///
/// A text that is no regular expression is reported as such, always. A
/// text that is one is compiled, or reported as too large where the `regex`
/// crate finds it so.
pub fn compile(source: &str) -> (pattern: Result<NamePattern, ConfigError>)
    ensures
        pattern matches Ok(compiled) ==> compiled@ == source@ && regex_parses(source@),
        pattern matches Err(error) ==> error.deep_view() == error_of(source@),
        !regex_parses(source@) ==> pattern is Err,
{
    pattern_or_error(source, compile_regex(source))
}

/// What [`compile`] answers once the `regex` crate has answered: its
/// pattern, or the offending text in place of its error, as no regular
/// expression where the error is one of syntax and as too large else.
pub fn pattern_or_error(source: &str, compiled: Result<NamePattern, regex::Error>) -> (pattern: Result<
    NamePattern,
    ConfigError,
>)
    ensures
        compiled matches Ok(regex) ==> pattern == Ok::<NamePattern, ConfigError>(regex),
        compiled matches Err(error) ==> (pattern matches Err(reported) && reported.deep_view() == (
        if error is Syntax {
            ConfigErrorView::InvalidPattern(source@)
        } else {
            ConfigErrorView::PatternTooLarge(source@)
        })),
{
    match compiled {
        Ok(pattern) => Ok(pattern),
        Err(regex::Error::Syntax(_)) => Err(ConfigError::InvalidPattern(String::from_str(source))),
        Err(_) => Err(ConfigError::PatternTooLarge(String::from_str(source))),
    }
}

/// One step of [`compile_all`], once the `regex` crate has answered for
/// `source`: the patterns compiled so far with the new one after them, or
/// the offending text in place of the crate's error.
pub fn keep_or_report(
    compiled: Vec<NamePattern>,
    source: &str,
    outcome: Result<NamePattern, regex::Error>,
) -> (next: Result<Vec<NamePattern>, ConfigError>)
    ensures
        outcome matches Ok(pattern) ==> (next matches Ok(longer) && longer@ == compiled@.push(
            pattern,
        )),
        outcome matches Err(error) ==> (next matches Err(reported) && reported.deep_view() == (
        if error is Syntax {
            ConfigErrorView::InvalidPattern(source@)
        } else {
            ConfigErrorView::PatternTooLarge(source@)
        })),
{
    match pattern_or_error(source, outcome) {
        Ok(pattern) => {
            let mut longer = compiled;
            longer.push(pattern);
            Ok(longer)
        },
        Err(error) => Err(error),
    }
}

/// Whether every one of the first `upto` texts is a regular expression.
pub open spec fn all_parse(sources: Seq<Seq<char>>, upto: int) -> bool {
    forall|j: int| 0 <= j < upto ==> regex_parses(#[trigger] sources[j])
}

/// Compiles every source, in order. The first text that cannot be used
/// ends the work at once and is reported; the texts after it are not
/// looked at.
///
/// Where one of the texts is no regular expression, the result is an
/// error, always. The text reported is then that one, if all texts before
/// it were compiled, or a text before it that was found too large.
pub fn compile_all(sources: &Vec<String>) -> (patterns: Result<Vec<NamePattern>, ConfigError>)
    ensures
        sources.len() == 0 ==> patterns is Ok,
        patterns matches Ok(compiled) ==> sources_of(compiled@) == sources.deep_view() && all_parse(
            sources.deep_view(),
            sources.len() as int,
        ),
        patterns matches Err(error) ==> exists|i: int|
            0 <= i < sources.len() && all_parse(sources.deep_view(), i) && error.deep_view()
                == error_of(#[trigger] sources[i]@),
        !all_parse(sources.deep_view(), sources.len() as int) ==> patterns is Err,
{
    let mut compiled: Vec<NamePattern> = Vec::new();
    let mut i: usize = 0;
    proof {
        assert(sources_of(compiled@) =~= sources.deep_view().take(0));
    }
    while i < sources.len()
        invariant
            i <= sources.len(),
            sources_of(compiled@) == sources.deep_view().take(i as int),
            all_parse(sources.deep_view(), i as int),
        decreases sources.len() - i,
    {
        let ghost before = compiled@;
        let source = sources[i].as_str();
        let outcome = compile_regex(source);
        match keep_or_report(compiled, source, outcome) {
            Ok(longer) => {
                compiled = longer;
                proof {
                    let all = sources.deep_view();
                    let pattern = outcome->Ok_0;
                    assert(sources_of(compiled@) =~= sources_of(before).push(pattern@));
                    assert(all.take(i + 1) =~= all.take(i as int).push(all[i as int]));
                    assert(regex_parses(all[i as int]));
                }
            },
            Err(error) => {
                proof {
                    assert(sources.deep_view()[i as int] == sources[i as int]@);
                }
                return Err(error);
            },
        }
        i += 1;
    }
    proof {
        assert(sources.deep_view().take(i as int) =~= sources.deep_view());
    }
    Ok(compiled)
}

/// The texts that the patterns were compiled from.
pub open spec fn sources_of(patterns: Seq<NamePattern>) -> Seq<Seq<char>> {
    patterns.map_values(|pattern: NamePattern| pattern@)
}

/// What a list of patterns says of a name.
#[derive(Debug, Clone, Copy, PartialEq, Eq, Structural)]
pub enum PolicyMatch {
    /// One of the patterns matches.
    Yes,
    /// There are patterns, and none matches.
    No,
    /// There is no pattern.
    NotProvided,
}

/// Whether one of the patterns matches somewhere in `name`.
pub open spec fn any_match(patterns: Seq<Seq<char>>, name: Seq<char>) -> bool {
    exists|i: int| 0 <= i < patterns.len() && regex_matches(#[trigger] patterns[i], name)
}

/// What the patterns say of `name`.
pub open spec fn policy_match(patterns: Seq<Seq<char>>, name: Seq<char>) -> PolicyMatch {
    if patterns.len() == 0 {
        PolicyMatch::NotProvided
    } else if any_match(patterns, name) {
        PolicyMatch::Yes
    } else {
        PolicyMatch::No
    }
}

/// What the patterns say of the policy's name.
pub fn does_policy_match(inputs: &[NamePattern], policy: &EscalationPolicy) -> (answer: PolicyMatch)
    ensures
        answer == policy_match(sources_of(inputs@), policy.policy_name@),
{
    if inputs.len() == 0 {
        return PolicyMatch::NotProvided;
    }
    let mut i: usize = 0;
    while i < inputs.len()
        invariant
            i <= inputs.len(),
            forall|j: int|
                0 <= j < i ==> !regex_matches(
                    #[trigger] sources_of(inputs@)[j],
                    policy.policy_name@,
                ),
        decreases inputs.len() - i,
    {
        if regex_is_match(&inputs[i], policy.policy_name.as_str()) {
            assert(regex_matches(sources_of(inputs@)[i as int], policy.policy_name@));
            return PolicyMatch::Yes;
        }
        i += 1;
    }
    PolicyMatch::No
}

/// Whether a policy is shown, given what the include patterns and the
/// exclude patterns say of it. Include patterns take precedence: where there
/// are any, they alone decide. Where there are none, the policy is shown
/// unless an exclude pattern matches.
pub open spec fn shown(included: PolicyMatch, excluded: PolicyMatch) -> bool {
    match included {
        PolicyMatch::Yes => true,
        PolicyMatch::No => false,
        PolicyMatch::NotProvided => excluded != PolicyMatch::Yes,
    }
}

/// Whether a policy is shown, given what the include patterns and the
/// exclude patterns say of it.
pub fn is_shown(included: PolicyMatch, excluded: PolicyMatch) -> (yes: bool)
    ensures
        yes == shown(included, excluded),
{
    match included {
        PolicyMatch::Yes => true,
        PolicyMatch::No => false,
        PolicyMatch::NotProvided => match excluded {
            PolicyMatch::Yes => false,
            PolicyMatch::No => true,
            PolicyMatch::NotProvided => true,
        },
    }
}

/// Whether a policy of the given name is shown under the given patterns.
pub open spec fn passes(includes: Seq<Seq<char>>, excludes: Seq<Seq<char>>, name: Seq<char>) -> bool {
    shown(policy_match(includes, name), policy_match(excludes, name))
}

/// Whether the policy is shown under the given patterns.
pub fn policy_should_be_included(
    includes_vec: &[NamePattern],
    excludes_vec: &[NamePattern],
    policy: &EscalationPolicy,
) -> (yes: bool)
    ensures
        yes == passes(sources_of(includes_vec@), sources_of(excludes_vec@), policy.policy_name@),
{
    match does_policy_match(includes_vec, policy) {
        PolicyMatch::Yes => {
            return true;
        },
        PolicyMatch::No => {
            return false;
        },
        PolicyMatch::NotProvided => {},
    };
    is_shown(PolicyMatch::NotProvided, does_policy_match(excludes_vec, policy))
}

/// Include patterns take precedence over exclude patterns: with an include
/// pattern that matches a name, the name is shown whatever the exclude
/// patterns are; with include patterns of which none matches, it is not
/// shown whatever they are; without any pattern of either kind, every name
/// is shown.
pub proof fn lemma_include_takes_precedence(
    includes: Seq<Seq<char>>,
    excludes: Seq<Seq<char>>,
    name: Seq<char>,
)
    ensures
        any_match(includes, name) ==> passes(includes, excludes, name),
        includes.len() > 0 && !any_match(includes, name) ==> !passes(includes, excludes, name),
        includes.len() == 0 ==> passes(includes, excludes, name) == !any_match(excludes, name),
        includes.len() == 0 && excludes.len() == 0 ==> passes(includes, excludes, name),
{
}

/// The policies that are shown under the given patterns, in their order.
pub fn select_policies(
    policies: Vec<EscalationPolicy>,
    includes_vec: &[NamePattern],
    excludes_vec: &[NamePattern],
) -> (selected: Vec<EscalationPolicy>)
    ensures
        selected@ == policies@.filter(
            |policy: EscalationPolicy|
                passes(sources_of(includes_vec@), sources_of(excludes_vec@), policy.policy_name@),
        ),
{
    let ghost keep = |policy: EscalationPolicy|
        passes(sources_of(includes_vec@), sources_of(excludes_vec@), policy.policy_name@);
    let ghost input = policies@;
    let mut selected: Vec<EscalationPolicy> = Vec::new();
    proof {
        reveal(Seq::filter);
        assert(input.take(0).len() == 0);
    }
    for policy in it: policies
        invariant
            it.seq() == input,
            keep == |policy: EscalationPolicy|
                passes(sources_of(includes_vec@), sources_of(excludes_vec@), policy.policy_name@),
            selected@ == input.take(it.index() as int).filter(keep),
    {
        proof {
            let n = it.index() as int;
            assert(input.take(n + 1) =~= input.take(n).push(policy));
            input.take(n).lemma_filter_push(policy, keep);
        }
        if policy_should_be_included(includes_vec, excludes_vec, &policy) {
            selected.push(policy);
        }
    }
    proof {
        assert(input.take(input.len() as int) =~= input);
    }
    selected
}

} // verus!
