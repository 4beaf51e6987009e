//! The classifier that picks a fetch strategy for a domain: an ordered
//! list of rules, a default, and a cache that is filled as domains are
//! classified and never changed afterwards.

use vstd::prelude::*;
use vstd::utf8::encode_utf8;
use crate::errors::{CrawlerError, DomainDetectionError};
use crate::text::{
    char_is_alphanumeric, ends_with, find_char, find_char_from, from_chars, has_prefix_at,
    has_suffix, is_alphanumeric_char, is_str, lowercase, push_all, same_chars, slice_of,
    starts_with_at, str_to_lowercase, to_chars, views,
};
use crate::urls::{split_url, url_parts};

verus! {

/// How a page body is retrieved.
#[derive(Debug, Clone, Copy, PartialEq, Eq, Structural)]
pub enum FetchMode {
    /// Plain HTTP retrieval, for server-rendered sites.
    HttpRequest,
    /// Retrieval through a JavaScript-executing browser, for single-page applications.
    Chrome,
}

impl FetchMode {
    /// The mode that a configuration text names: `Chrome` for the text
    /// `Chrome`, `HttpRequest` for any other.
    pub fn from_str(s: &str) -> (r: Self)
        ensures
            r == if s@ == "Chrome"@ {
                FetchMode::Chrome
            } else {
                FetchMode::HttpRequest
            },
    {
        let v = to_chars(s);
        if is_str(&v, "Chrome") {
            FetchMode::Chrome
        } else {
            FetchMode::HttpRequest
        }
    }
}

/// How a rule's pattern is held against a domain.
#[derive(Debug, Clone, Copy, PartialEq, Eq, Structural)]
pub enum MatchKind {
    /// The domain is the pattern.
    Exact,
    /// The domain is the pattern or ends with a dot and the pattern.
    Subdomain,
}

/// A rule of the whitelist.
#[derive(Debug)]
pub struct WhitelistRule {
    /// A normalized domain.
    pub pattern: String,
    pub strategy: FetchMode,
    pub match_kind: MatchKind,
}

/// A rule of the whitelist, as mathematics has it.
pub struct Rule {
    pub pattern: Seq<char>,
    pub strategy: FetchMode,
    pub match_kind: MatchKind,
}

impl WhitelistRule {
    pub open spec fn view(self) -> Rule {
        Rule { pattern: self.pattern@, strategy: self.strategy, match_kind: self.match_kind }
    }
}

/// The rules of a list as mathematics has them.
pub open spec fn rule_views(rules: Seq<WhitelistRule>) -> Seq<Rule> {
    rules.map_values(|r: WhitelistRule| r@)
}

/// The domains that are to be fetched by browser and by plain request.
#[derive(Debug)]
pub struct DomainConfig {
    pub spa_domains: Vec<String>,
    pub ssr_domains: Vec<String>,
}

/// What a classifier knows.
pub struct DetectorState {
    /// The rules, in the order in which they are tried.
    pub rules: Seq<Rule>,
    /// The strategy for a domain that no rule matches.
    pub default_mode: FetchMode,
    /// What was decided so far, oldest first.
    pub cache: Seq<(Seq<char>, FetchMode)>,
}

/// A lowercased input made a domain: without `https://` or `http://` at
/// its start, then without `www.` at its start, then cut before the first `/`.
pub open spec fn strip_to_domain(lowered: Seq<char>) -> Seq<char> {
    let a = if has_prefix_at(lowered, 0, "https://"@) {
        lowered.skip("https://"@.len() as int)
    } else if has_prefix_at(lowered, 0, "http://"@) {
        lowered.skip("http://"@.len() as int)
    } else {
        lowered
    };
    let b = if has_prefix_at(a, 0, "www."@) {
        a.skip("www."@.len() as int)
    } else {
        a
    };
    b.take(find_char_from(b, '/', 0))
}

/// The normalized form of a domain or URL: lowercased, without scheme,
/// without a leading `www.`, without path.
pub open spec fn normalized(input: Seq<char>) -> Seq<char> {
    strip_to_domain(lowercase(input))
}

/// Whether `rule` matches the normalized domain `domain`.
pub open spec fn rule_matches(rule: Rule, domain: Seq<char>) -> bool {
    match rule.match_kind {
        MatchKind::Exact => domain == rule.pattern,
        MatchKind::Subdomain => domain == rule.pattern || has_suffix(domain, "."@ + rule.pattern),
    }
}

/// The strategy of the first rule that matches `domain`, if one does.
pub open spec fn first_match(rules: Seq<Rule>, domain: Seq<char>) -> Option<FetchMode>
    decreases rules.len(),
{
    if rules.len() == 0 {
        None
    } else if rule_matches(rules[0], domain) {
        Some(rules[0].strategy)
    } else {
        first_match(rules.drop_first(), domain)
    }
}

/// What the cache holds for `domain`, if anything.
pub open spec fn cached(cache: Seq<(Seq<char>, FetchMode)>, domain: Seq<char>) -> Option<
    FetchMode,
>
    decreases cache.len(),
{
    if cache.len() == 0 {
        None
    } else if cache[0].0 == domain {
        Some(cache[0].1)
    } else {
        cached(cache.drop_first(), domain)
    }
}

/// The strategy for the normalized domain `domain`: what the cache holds
/// for it, else that of the first rule that matches, else the default.
pub open spec fn decide(st: DetectorState, domain: Seq<char>) -> FetchMode {
    match cached(st.cache, domain) {
        Some(m) => m,
        None => match first_match(st.rules, domain) {
            Some(m) => m,
            None => st.default_mode,
        },
    }
}

/// What classifying `input` returns: the strategy for its normalized form,
/// or `None` where that form is empty.
pub open spec fn classification(st: DetectorState, input: Seq<char>) -> Option<FetchMode> {
    if normalized(input).len() == 0 {
        None
    } else {
        Some(decide(st, normalized(input)))
    }
}

/// What the classifier knows after classifying `input`: the decision is
/// in the cache, where it was not before.
pub open spec fn after_classification(st: DetectorState, input: Seq<char>) -> DetectorState {
    let d = normalized(input);
    if d.len() == 0 || cached(st.cache, d) is Some {
        st
    } else {
        DetectorState { cache: st.cache.push((d, decide(st, d))), ..st }
    }
}

/// Whether some rule with the strategy `mode` matches `domain`.
pub open spec fn listed(rules: Seq<Rule>, mode: FetchMode, domain: Seq<char>) -> bool {
    exists|i: int| 0 <= i < rules.len() && (#[trigger] rules[i]).strategy == mode && rule_matches(
        rules[i],
        domain,
    )
}

/// The patterns of the rules with the strategy `mode`, in rule order.
pub open spec fn patterns_of(rules: Seq<Rule>, mode: FetchMode) -> Seq<Seq<char>>
    decreases rules.len(),
{
    if rules.len() == 0 {
        Seq::empty()
    } else if rules.last().strategy == mode {
        patterns_of(rules.drop_last(), mode).push(rules.last().pattern)
    } else {
        patterns_of(rules.drop_last(), mode)
    }
}

/// The rules without those that have the strategy `mode` and the pattern `pattern`.
pub open spec fn without(rules: Seq<Rule>, mode: FetchMode, pattern: Seq<char>) -> Seq<Rule>
    decreases rules.len(),
{
    if rules.len() == 0 {
        Seq::empty()
    } else if rules.last().strategy == mode && rules.last().pattern == pattern {
        without(rules.drop_last(), mode, pattern)
    } else {
        without(rules.drop_last(), mode, pattern).push(rules.last())
    }
}

/// Whether the list holds the exact-match rule for `pattern` with the strategy `mode`.
pub open spec fn has_exact_rule(rules: Seq<Rule>, mode: FetchMode, pattern: Seq<char>) -> bool {
    rules.contains(Rule { pattern, strategy: mode, match_kind: MatchKind::Exact })
}

/// The rules with the exact-match rule for `pattern` and `mode` at the
/// end, unless the list holds it already.
pub open spec fn with_exact_rule(rules: Seq<Rule>, mode: FetchMode, pattern: Seq<char>) -> Seq<
    Rule,
> {
    if has_exact_rule(rules, mode, pattern) {
        rules
    } else {
        rules.push(Rule { pattern, strategy: mode, match_kind: MatchKind::Exact })
    }
}

/// The rules with exact-match rules for the normalized forms of
/// `domains` added one after the other.
pub open spec fn with_exact_rules(rules: Seq<Rule>, mode: FetchMode, domains: Seq<Seq<char>>)
    -> Seq<Rule>
    decreases domains.len(),
{
    if domains.len() == 0 {
        rules
    } else {
        with_exact_rule(
            with_exact_rules(rules, mode, domains.drop_last()),
            mode,
            normalized(domains.last()),
        )
    }
}

/// The host of `input` where it is an `http` or `https` URL that parses
/// and has a host; `input` itself otherwise.
pub open spec fn host_or_input(input: Seq<char>) -> Seq<char> {
    if has_prefix_at(input, 0, "http://"@) || has_prefix_at(input, 0, "https://"@) {
        match url_parts(input) {
            Some((Some(h), _)) => h,
            _ => input,
        }
    } else {
        input
    }
}

/// Whether `domain` is shaped like a domain: not empty, at most 253 bytes
/// in UTF-8, and made of letters, digits, dots, hyphens and underscores.
pub open spec fn well_formed_domain(domain: Seq<char>) -> bool {
    &&& domain.len() > 0
    &&& encode_utf8(domain).len() <= 253
    &&& forall|i: int|
        0 <= i < domain.len() ==> is_alphanumeric_char(#[trigger] domain[i]) || domain[i] == '.'
            || domain[i] == '-' || domain[i] == '_'
}

/// What the checked lookup answers for `input`: the strategy, or the text
/// of the reason why `input` is refused.
pub open spec fn checked_lookup(st: DetectorState, input: Seq<char>) -> Result<
    FetchMode,
    Seq<char>,
> {
    if input.len() == 0 {
        Err("Empty domain"@)
    } else if !well_formed_domain(host_or_input(input)) {
        Err("Invalid format: "@ + host_or_input(input))
    } else if normalized(input).len() == 0 {
        Err("Empty domain"@)
    } else {
        Ok(decide(st, normalized(input)))
    }
}

/// Adding a domain that is listed already changes nothing, so that rules
/// that were each listed once still are.
pub proof fn lemma_exact_rules_stay_distinct(rules: Seq<Rule>, mode: FetchMode, pattern: Seq<char>)
    requires
        rules.no_duplicates(),
    ensures
        with_exact_rule(rules, mode, pattern).no_duplicates(),
        has_exact_rule(with_exact_rule(rules, mode, pattern), mode, pattern),
        with_exact_rule(with_exact_rule(rules, mode, pattern), mode, pattern) == with_exact_rule(
            rules,
            mode,
            pattern,
        ),
{
    let wanted = Rule { pattern, strategy: mode, match_kind: MatchKind::Exact };
    if !has_exact_rule(rules, mode, pattern) {
        let after = rules.push(wanted);
        assert(after[after.len() - 1] == wanted);
    }
}

/// What is left when the rules for a domain are taken out holds no rule
/// with that strategy and pattern, and holds every other rule that there was.
pub proof fn lemma_without(rules: Seq<Rule>, mode: FetchMode, pattern: Seq<char>)
    ensures
        forall|i: int|
            0 <= i < without(rules, mode, pattern).len() ==> !((#[trigger] without(
                rules,
                mode,
                pattern,
            )[i]).strategy == mode && without(rules, mode, pattern)[i].pattern == pattern),
        forall|i: int|
            0 <= i < without(rules, mode, pattern).len() ==> rules.contains(
                #[trigger] without(rules, mode, pattern)[i],
            ),
        without(rules, mode, pattern).len() <= rules.len(),
    decreases rules.len(),
{
    if rules.len() > 0 {
        let init = rules.drop_last();
        lemma_without(init, mode, pattern);
        let kept = without(init, mode, pattern);
        let out = without(rules, mode, pattern);
        assert forall|i: int| 0 <= i < out.len() implies rules.contains(#[trigger] out[i]) by {
            if i < kept.len() {
                assert(out[i] == kept[i]);
                assert(init.contains(kept[i]));
                let j = choose|j: int| 0 <= j < init.len() && init[j] == kept[i];
                assert(rules[j] == out[i]);
            } else {
                assert(rules[rules.len() - 1] == out[i]);
            }
        }
    }
}

/// Where every rule is an exact-match rule, a domain whose rules were
/// taken out is no longer listed.
pub proof fn lemma_removed_is_not_listed(rules: Seq<Rule>, mode: FetchMode, pattern: Seq<char>)
    requires
        forall|i: int| 0 <= i < rules.len() ==> (#[trigger] rules[i]).match_kind is Exact,
    ensures
        !listed(without(rules, mode, pattern), mode, pattern),
{
    lemma_without(rules, mode, pattern);
    let out = without(rules, mode, pattern);
    if listed(out, mode, pattern) {
        let i = choose|i: int|
            0 <= i < out.len() && (#[trigger] out[i]).strategy == mode && rule_matches(
                out[i],
                pattern,
            );
        assert(rules.contains(out[i]));
        let j = choose|j: int| 0 <= j < rules.len() && rules[j] == out[i];
        assert(rules[j].match_kind is Exact);
    }
}

/// A normalized domain holds no path: there is no `/` in it.
pub proof fn lemma_normalized_has_no_path(input: Seq<char>)
    ensures
        forall|i: int| 0 <= i < normalized(input).len() ==> normalized(input)[i] != '/',
{
    let lowered = lowercase(input);
    let a = if has_prefix_at(lowered, 0, "https://"@) {
        lowered.skip("https://"@.len() as int)
    } else if has_prefix_at(lowered, 0, "http://"@) {
        lowered.skip("http://"@.len() as int)
    } else {
        lowered
    };
    let b = if has_prefix_at(a, 0, "www."@) {
        a.skip("www."@.len() as int)
    } else {
        a
    };
    crate::text::lemma_find_char_from(b, '/', 0);
}

/// What the classifier knows after the checked lookup of `input`: the
/// decision is remembered where the input passes the checks.
pub open spec fn after_checked_lookup(st: DetectorState, input: Seq<char>) -> DetectorState {
    if checked_lookup(st, input) is Ok {
        after_classification(st, input)
    } else {
        st
    }
}

/// A rule that is added after a domain was classified changes nothing for
/// that domain: it is classified as before.
pub proof fn lemma_new_rule_changes_no_decision(
    st: DetectorState,
    input: Seq<char>,
    mode: FetchMode,
    pattern: Seq<char>,
)
    ensures
        classification(
            DetectorState {
                rules: with_exact_rule(after_classification(st, input).rules, mode, pattern),
                ..after_classification(st, input)
            },
            input,
        ) == classification(st, input),
{
    let first = after_classification(st, input);
    lemma_classification_is_stable(
        st,
        input,
        DetectorState { rules: with_exact_rule(first.rules, mode, pattern), ..first },
    );
}

/// A decision that is in the cache stays what it is when the cache grows.
pub proof fn lemma_cached_in_extension(
    cache: Seq<(Seq<char>, FetchMode)>,
    longer: Seq<(Seq<char>, FetchMode)>,
    domain: Seq<char>,
)
    requires
        cache.is_prefix_of(longer),
        cached(cache, domain) is Some,
    ensures
        cached(longer, domain) == cached(cache, domain),
    decreases cache.len(),
{
    assert(cache.len() > 0);
    assert(longer[0] == cache[0]);
    if cache[0].0 != domain {
        assert(cache.drop_first().is_prefix_of(longer.drop_first()));
        lemma_cached_in_extension(cache.drop_first(), longer.drop_first(), domain);
    }
}

/// A decision added to the cache for a domain that was not in it is what
/// the cache holds for that domain afterwards.
pub proof fn lemma_cached_after_push(
    cache: Seq<(Seq<char>, FetchMode)>,
    domain: Seq<char>,
    mode: FetchMode,
)
    requires
        cached(cache, domain) is None,
    ensures
        cached(cache.push((domain, mode)), domain) == Some(mode),
    decreases cache.len(),
{
    let longer = cache.push((domain, mode));
    if cache.len() == 0 {
        assert(longer[0] == (domain, mode));
    } else {
        assert(longer[0] == cache[0]);
        assert(longer.drop_first() =~= cache.drop_first().push((domain, mode)));
        lemma_cached_after_push(cache.drop_first(), domain, mode);
    }
}

/// A domain that no rule matches and that was not classified before is
/// given the default strategy.
pub proof fn lemma_unmatched_gets_default(st: DetectorState, input: Seq<char>)
    requires
        normalized(input).len() > 0,
        cached(st.cache, normalized(input)) is None,
        first_match(st.rules, normalized(input)) is None,
    ensures
        classification(st, input) == Some(st.default_mode),
{
}

/// Classification is stable: once `input` was classified, it is classified
/// the same way ever after, whatever becomes of the rules and the default,
/// as long as the cache only grows.
pub proof fn lemma_classification_is_stable(
    st: DetectorState,
    input: Seq<char>,
    later: DetectorState,
)
    requires
        after_classification(st, input).cache.is_prefix_of(later.cache),
    ensures
        classification(later, input) == classification(st, input),
{
    let d = normalized(input);
    if d.len() > 0 {
        let first = after_classification(st, input);
        if cached(st.cache, d) is None {
            lemma_cached_after_push(st.cache, d, decide(st, d));
        }
        lemma_cached_in_extension(first.cache, later.cache, d);
    }
}

/// Classifying changes neither rules nor default, and the cache only grows.
pub proof fn lemma_classification_keeps_cache(st: DetectorState, input: Seq<char>)
    ensures
        st.cache.is_prefix_of(after_classification(st, input).cache),
        after_classification(st, input).rules == st.rules,
        after_classification(st, input).default_mode == st.default_mode,
{
}

/// The domain that a lowercased domain or URL names.
pub fn domain_from_lowercase(lowered: &str) -> (r: String)
    ensures
        r@ == strip_to_domain(lowered@),
{
    let v = to_chars(lowered);
    let https = to_chars("https://");
    let http = to_chars("http://");
    let www = to_chars("www.");
    let a = if starts_with_at(&v, 0, &https) {
        slice_of(&v, https.len(), v.len())
    } else if starts_with_at(&v, 0, &http) {
        slice_of(&v, http.len(), v.len())
    } else {
        assert(v@.subrange(0, v.len() as int) =~= v@);
        slice_of(&v, 0, v.len())
    };
    let b = if starts_with_at(&a, 0, &www) {
        slice_of(&a, www.len(), a.len())
    } else {
        a
    };
    let slash = find_char(&b, '/', 0);
    let d = slice_of(&b, 0, slash);
    from_chars(&d)
}

/// The normalized form of a domain or URL.
pub fn normalize(input: &str) -> (r: String)
    ensures
        r@ == normalized(input@),
{
    let lowered = str_to_lowercase(input);
    domain_from_lowercase(lowered.as_str())
}

/// Whether `rule` matches the normalized domain `domain`.
pub fn matches_rule(rule: &WhitelistRule, domain: &str) -> (r: bool)
    ensures
        r == rule_matches(rule@, domain@),
{
    let d = to_chars(domain);
    let p = to_chars(rule.pattern.as_str());
    match rule.match_kind {
        MatchKind::Exact => same_chars(&d, &p),
        MatchKind::Subdomain => {
            if same_chars(&d, &p) {
                true
            } else {
                let mut dotted = to_chars(".");
                push_all(&mut dotted, &p);
                ends_with(&d, &dotted)
            }
        },
    }
}

/// Cache entries as mathematics has them.
pub open spec fn cache_views(cache: Seq<(String, FetchMode)>) -> Seq<(Seq<char>, FetchMode)> {
    cache.map_values(|e: (String, FetchMode)| (e.0@, e.1))
}

/// The strategy of the first rule that matches `domain`, if one does.
fn find_match(rules: &Vec<WhitelistRule>, domain: &str) -> (r: Option<FetchMode>)
    ensures
        r == first_match(rule_views(rules@), domain@),
{
    let mut i: usize = 0;
    assert(rule_views(rules@).skip(0) =~= rule_views(rules@));
    while i < rules.len()
        invariant
            i <= rules.len(),
            first_match(rule_views(rules@), domain@) == first_match(
                rule_views(rules@).skip(i as int),
                domain@,
            ),
        decreases rules.len() - i,
    {
        proof {
            let rest = rule_views(rules@).skip(i as int);
            assert(rest[0] == rules@[i as int]@);
            assert(rest.drop_first() =~= rule_views(rules@).skip(i + 1));
        }
        if matches_rule(&rules[i], domain) {
            return Some(rules[i].strategy);
        }
        i += 1;
    }
    None
}

/// What the cache holds for `domain`, if anything.
fn find_cached(cache: &Vec<(String, FetchMode)>, domain: &String) -> (r: Option<FetchMode>)
    ensures
        r == cached(cache_views(cache@), domain@),
{
    let mut i: usize = 0;
    assert(cache_views(cache@).skip(0) =~= cache_views(cache@));
    while i < cache.len()
        invariant
            i <= cache.len(),
            cached(cache_views(cache@), domain@) == cached(
                cache_views(cache@).skip(i as int),
                domain@,
            ),
        decreases cache.len() - i,
    {
        proof {
            let rest = cache_views(cache@).skip(i as int);
            assert(rest[0] == (cache@[i as int].0@, cache@[i as int].1));
            assert(rest.drop_first() =~= cache_views(cache@).skip(i + 1));
        }
        if cache[i].0 == *domain {
            return Some(cache[i].1);
        }
        i += 1;
    }
    None
}

/// Picks the fetch strategy for a domain.
pub struct DomainDetector {
    rules: Vec<WhitelistRule>,
    default_mode: FetchMode,
    cache: Vec<(String, FetchMode)>,
}

impl DomainDetector {
    /// What the classifier knows.
    pub closed spec fn view(self) -> DetectorState {
        DetectorState {
            rules: rule_views(self.rules@),
            default_mode: self.default_mode,
            cache: cache_views(self.cache@),
        }
    }

    /// A classifier without rules, with plain requests as the default.
    pub fn new() -> (r: Self)
        ensures
            r@ == (DetectorState {
                rules: Seq::empty(),
                default_mode: FetchMode::HttpRequest,
                cache: Seq::empty(),
            }),
    {
        let r = DomainDetector {
            rules: Vec::new(),
            default_mode: FetchMode::HttpRequest,
            cache: Vec::new(),
        };
        assert(rule_views(r.rules@) =~= Seq::<Rule>::empty());
        assert(cache_views(r.cache@) =~= Seq::<(Seq<char>, FetchMode)>::empty());
        r
    }

    /// A classifier with the rules `rules`, tried in that order, and the
    /// default `default_mode`.
    pub fn with_rules(rules: Vec<WhitelistRule>, default_mode: FetchMode) -> (r: Self)
        ensures
            r@ == (DetectorState {
                rules: rule_views(rules@),
                default_mode,
                cache: Seq::empty(),
            }),
    {
        let r = DomainDetector { rules, default_mode, cache: Vec::new() };
        assert(cache_views(r.cache@) =~= Seq::<(Seq<char>, FetchMode)>::empty());
        r
    }

    /// A classifier with an exact-match rule for each configured domain:
    /// those fetched by browser first, then those fetched by plain request.
    pub fn from_config(config: DomainConfig) -> (r: Self)
        ensures
            r@ == (DetectorState {
                rules: with_exact_rules(
                    with_exact_rules(Seq::empty(), FetchMode::Chrome, views(config.spa_domains@)),
                    FetchMode::HttpRequest,
                    views(config.ssr_domains@),
                ),
                default_mode: FetchMode::HttpRequest,
                cache: Seq::empty(),
            }),
    {
        let mut detector = Self::new();
        let mut i: usize = 0;
        let ghost spa = views(config.spa_domains@);
        assert(spa.take(0) =~= Seq::<Seq<char>>::empty());
        while i < config.spa_domains.len()
            invariant
                i <= config.spa_domains.len(),
                spa == views(config.spa_domains@),
                detector@ == (DetectorState {
                    rules: with_exact_rules(Seq::empty(), FetchMode::Chrome, spa.take(i as int)),
                    default_mode: FetchMode::HttpRequest,
                    cache: Seq::empty(),
                }),
            decreases config.spa_domains.len() - i,
        {
            assert(spa.take(i + 1).drop_last() =~= spa.take(i as int));
            detector.add_spa_domain(config.spa_domains[i].clone());
            i += 1;
        }
        assert(spa.take(spa.len() as int) =~= spa);
        let ghost base = detector@.rules;
        let mut j: usize = 0;
        let ghost ssr = views(config.ssr_domains@);
        assert(ssr.take(0) =~= Seq::<Seq<char>>::empty());
        while j < config.ssr_domains.len()
            invariant
                j <= config.ssr_domains.len(),
                ssr == views(config.ssr_domains@),
                detector@ == (DetectorState {
                    rules: with_exact_rules(base, FetchMode::HttpRequest, ssr.take(j as int)),
                    default_mode: FetchMode::HttpRequest,
                    cache: Seq::empty(),
                }),
            decreases config.ssr_domains.len() - j,
        {
            assert(ssr.take(j + 1).drop_last() =~= ssr.take(j as int));
            detector.add_ssr_domain(config.ssr_domains[j].clone());
            j += 1;
        }
        assert(ssr.take(ssr.len() as int) =~= ssr);
        detector
    }

    /// A classifier for the whitelist that was loaded, or one without
    /// rules where none could be loaded: a missing whitelist is no error.
    pub fn from_config_or_default(loaded: Option<DomainConfig>) -> (r: Self)
        ensures
            r@ == (DetectorState {
                rules: match loaded {
                    Some(config) => with_exact_rules(
                        with_exact_rules(
                            Seq::empty(),
                            FetchMode::Chrome,
                            views(config.spa_domains@),
                        ),
                        FetchMode::HttpRequest,
                        views(config.ssr_domains@),
                    ),
                    None => Seq::empty(),
                },
                default_mode: FetchMode::HttpRequest,
                cache: Seq::empty(),
            }),
    {
        match loaded {
            Some(config) => Self::from_config(config),
            None => Self::new(),
        }
    }

    /// The normalized form of a domain or URL.
    pub fn normalize_domain(&self, domain: &str) -> (r: String)
        ensures
            r@ == normalized(domain@),
    {
        normalize(domain)
    }

    /// The strategy for the normalized domain `domain`.
    fn decide_for(&self, domain: &String) -> (r: FetchMode)
        ensures
            r == decide(self@, domain@),
    {
        match find_cached(&self.cache, domain) {
            Some(m) => m,
            None => match find_match(&self.rules, domain.as_str()) {
                Some(m) => m,
                None => self.default_mode,
            },
        }
    }

    /// Classifies a domain or URL and remembers the decision. An input
    /// whose normalized form is empty is refused as an invalid domain, and
    /// nothing is remembered.
    pub fn classify(&mut self, domain_or_url: &str) -> (r: Result<FetchMode, CrawlerError>)
        ensures
            final(self)@ == after_classification(old(self)@, domain_or_url@),
            match classification(old(self)@, domain_or_url@) {
                Some(m) => r == Ok::<FetchMode, CrawlerError>(m),
                None => r matches Err(
                    CrawlerError::DomainDetection(DomainDetectionError::InvalidDomain(t)),
                ) && t@ == "Empty domain"@,
            },
    {
        let domain = normalize(domain_or_url);
        if domain.as_str().unicode_len() == 0 {
            return Err(
                CrawlerError::DomainDetection(
                    DomainDetectionError::InvalidDomain(String::from_str("Empty domain")),
                ),
            );
        }
        match find_cached(&self.cache, &domain) {
            Some(m) => Ok(m),
            None => {
                let m = self.decide_for(&domain);
                let ghost before = cache_views(self.cache@);
                self.cache.push((domain, m));
                assert(cache_views(self.cache@) =~= before.push((normalized(domain_or_url@), m)));
                Ok(m)
            },
        }
    }

    /// The strategy for a domain or URL, remembered as by `classify`: what
    /// `classify` returns, and the default where `classify` refuses the
    /// input. Once a domain was looked up, every later lookup of it gives
    /// the same strategy, whatever becomes of the rules.
    pub fn get_fetch_mode(&mut self, domain: &str) -> (r: FetchMode)
        ensures
            final(self)@ == after_classification(old(self)@, domain@),
            r == match classification(old(self)@, domain@) {
                Some(m) => m,
                None => old(self)@.default_mode,
            },
    {
        match self.classify(domain) {
            Ok(m) => m,
            Err(_) => self.default_mode,
        }
    }

    /// Whether `domain` is shaped like a domain.
    pub fn is_valid_domain_format(&self, domain: &str) -> (r: bool)
        ensures
            r == well_formed_domain(domain@),
    {
        if domain.as_bytes().len() > 253 {
            return false;
        }
        let v = to_chars(domain);
        if v.len() == 0 {
            return false;
        }
        let mut i: usize = 0;
        while i < v.len()
            invariant
                i <= v.len(),
                v@ == domain@,
                forall|k: int|
                    0 <= k < i ==> is_alphanumeric_char(#[trigger] v@[k]) || v@[k] == '.' || v@[k]
                        == '-' || v@[k] == '_',
            decreases v.len() - i,
        {
            let c = v[i];
            if !(char_is_alphanumeric(c) || c == '.' || c == '-' || c == '_') {
                return false;
            }
            i += 1;
        }
        true
    }

    /// The strategy for a domain or URL, after checking that it names a
    /// domain: the input must not be empty, its host (or the input itself
    /// where it is no `http` URL with a host) must be shaped like a domain,
    /// and its normalized form must not be empty. The strategy of an input
    /// that passes is remembered as by `classify`; an input that is refused
    /// changes nothing.
    pub fn get_fetch_mode_safe(&mut self, domain: &str) -> (r: Result<FetchMode, CrawlerError>)
        ensures
            final(self)@ == after_checked_lookup(old(self)@, domain@),
            match checked_lookup(old(self)@, domain@) {
                Ok(m) => r == Ok::<FetchMode, CrawlerError>(m),
                Err(text) => r matches Err(
                    CrawlerError::DomainDetection(DomainDetectionError::InvalidDomain(t)),
                ) && t@ == text,
            },
    {
        if domain.unicode_len() == 0 {
            return Err(
                CrawlerError::DomainDetection(
                    DomainDetectionError::InvalidDomain(String::from_str("Empty domain")),
                ),
            );
        }
        let v = to_chars(domain);
        let http = to_chars("http://");
        let https = to_chars("https://");
        let mut host = String::from_str(domain);
        if starts_with_at(&v, 0, &http) || starts_with_at(&v, 0, &https) {
            match split_url(domain) {
                Ok(parts) => match parts.host {
                    Some(h) => {
                        host = h;
                    },
                    None => {},
                },
                Err(_) => {},
            }
        }
        if !self.is_valid_domain_format(host.as_str()) {
            let mut text = String::from_str("Invalid format: ");
            text.append(host.as_str());
            return Err(
                CrawlerError::DomainDetection(DomainDetectionError::InvalidDomain(text)),
            );
        }
        self.classify(domain)
    }

    /// Whether some rule with the strategy `mode` matches the normalized
    /// form of `domain`.
    fn is_listed(&self, mode: FetchMode, domain: &str) -> (r: bool)
        ensures
            r == listed(self@.rules, mode, normalized(domain@)),
    {
        let normal = normalize(domain);
        let mut i: usize = 0;
        while i < self.rules.len()
            invariant
                i <= self.rules.len(),
                normal@ == normalized(domain@),
                forall|k: int|
                    0 <= k < i ==> !((#[trigger] rule_views(self.rules@)[k]).strategy == mode
                        && rule_matches(rule_views(self.rules@)[k], normal@)),
            decreases self.rules.len() - i,
        {
            if self.rules[i].strategy == mode && matches_rule(&self.rules[i], normal.as_str()) {
                assert(rule_views(self.rules@)[i as int] == self.rules@[i as int]@);
                return true;
            }
            i += 1;
        }
        false
    }

    /// Whether a rule sends `domain` to the browser.
    pub fn is_spa_domain(&self, domain: &str) -> (r: bool)
        ensures
            r == listed(self@.rules, FetchMode::Chrome, normalized(domain@)),
    {
        self.is_listed(FetchMode::Chrome, domain)
    }

    /// Whether a rule has `domain` fetched by plain request.
    pub fn is_ssr_domain(&self, domain: &str) -> (r: bool)
        ensures
            r == listed(self@.rules, FetchMode::HttpRequest, normalized(domain@)),
    {
        self.is_listed(FetchMode::HttpRequest, domain)
    }

    /// Adds the exact-match rule for the normalized form of `domain` with
    /// the strategy `mode`, unless it is there already.
    fn add_exact(&mut self, mode: FetchMode, domain: &str)
        ensures
            final(self)@ == (DetectorState {
                rules: with_exact_rule(old(self)@.rules, mode, normalized(domain@)),
                ..old(self)@
            }),
    {
        let normal = normalize(domain);
        let wanted = Ghost(Rule { pattern: normal@, strategy: mode, match_kind: MatchKind::Exact });
        let mut i: usize = 0;
        while i < self.rules.len()
            invariant
                i <= self.rules.len(),
                self@ == old(self)@,
                normal@ == normalized(domain@),
                wanted@ == (Rule { pattern: normal@, strategy: mode, match_kind: MatchKind::Exact }),
                forall|k: int| 0 <= k < i ==> (#[trigger] rule_views(self.rules@)[k]) != wanted@,
            decreases self.rules.len() - i,
        {
            let rule = &self.rules[i];
            if rule.strategy == mode && rule.match_kind == MatchKind::Exact && rule.pattern
                == normal {
                assert(rule_views(self.rules@)[i as int] == wanted@);
                assert(rule_views(self.rules@).contains(wanted@));
                return ;
            }
            i += 1;
        }
        assert(!rule_views(self.rules@).contains(wanted@));
        let ghost before = rule_views(self.rules@);
        self.rules.push(WhitelistRule { pattern: normal, strategy: mode, match_kind: MatchKind::Exact });
        assert(rule_views(self.rules@) =~= before.push(wanted@));
    }

    /// Has `domain` fetched by browser from now on, unless an earlier rule
    /// or an earlier decision says otherwise.
    pub fn add_spa_domain(&mut self, domain: String)
        ensures
            final(self)@ == (DetectorState {
                rules: with_exact_rule(old(self)@.rules, FetchMode::Chrome, normalized(domain@)),
                ..old(self)@
            }),
    {
        self.add_exact(FetchMode::Chrome, domain.as_str());
    }

    /// Has `domain` fetched by plain request from now on, unless an earlier
    /// rule or an earlier decision says otherwise.
    pub fn add_ssr_domain(&mut self, domain: String)
        ensures
            final(self)@ == (DetectorState {
                rules: with_exact_rule(
                    old(self)@.rules,
                    FetchMode::HttpRequest,
                    normalized(domain@),
                ),
                ..old(self)@
            }),
    {
        self.add_exact(FetchMode::HttpRequest, domain.as_str());
    }

    /// Adds `rule` at the end of the rule list.
    pub fn add_rule(&mut self, rule: WhitelistRule)
        ensures
            final(self)@ == (DetectorState { rules: old(self)@.rules.push(rule@), ..old(self)@ }),
    {
        let ghost before = rule_views(self.rules@);
        self.rules.push(rule);
        assert(rule_views(self.rules@) =~= before.push(rule@));
    }

    /// Takes out the rules with the strategy `mode` whose pattern is the
    /// normalized form of `domain`, and says whether there was one.
    fn remove_rules(&mut self, mode: FetchMode, domain: &str) -> (r: bool)
        ensures
            final(self)@ == (DetectorState {
                rules: without(old(self)@.rules, mode, normalized(domain@)),
                ..old(self)@
            }),
            r == (final(self)@.rules.len() < old(self)@.rules.len()),
    {
        let normal = normalize(domain);
        let mut kept: Vec<WhitelistRule> = Vec::new();
        let mut i: usize = 0;
        let ghost all = rule_views(self.rules@);
        assert(all.take(0) =~= Seq::<Rule>::empty());
        assert(rule_views(kept@) =~= Seq::<Rule>::empty());
        while i < self.rules.len()
            invariant
                i <= self.rules.len(),
                self@ == old(self)@,
                all == rule_views(self.rules@),
                normal@ == normalized(domain@),
                rule_views(kept@) == without(all.take(i as int), mode, normal@),
                kept.len() <= i,
            decreases self.rules.len() - i,
        {
            proof {
                assert(all.take(i + 1).drop_last() =~= all.take(i as int));
                assert(all.take(i + 1).last() == self.rules@[i as int]@);
            }
            let rule = &self.rules[i];
            if !(rule.strategy == mode && rule.pattern == normal) {
                let ghost before = rule_views(kept@);
                let copy = WhitelistRule {
                    pattern: rule.pattern.clone(),
                    strategy: rule.strategy,
                    match_kind: rule.match_kind,
                };
                kept.push(copy);
                assert(rule_views(kept@) =~= before.push(self.rules@[i as int]@));
            }
            i += 1;
        }
        assert(all.take(all.len() as int) =~= all);
        let removed = kept.len() < self.rules.len();
        self.rules = kept;
        removed
    }

    /// No longer has `domain` fetched by browser on account of a rule for
    /// it; says whether there was such a rule.
    pub fn remove_spa_domain(&mut self, domain: &str) -> (r: bool)
        ensures
            final(self)@ == (DetectorState {
                rules: without(old(self)@.rules, FetchMode::Chrome, normalized(domain@)),
                ..old(self)@
            }),
            r == (final(self)@.rules.len() < old(self)@.rules.len()),
    {
        self.remove_rules(FetchMode::Chrome, domain)
    }

    /// No longer has `domain` fetched by plain request on account of a rule
    /// for it; says whether there was such a rule.
    pub fn remove_ssr_domain(&mut self, domain: &str) -> (r: bool)
        ensures
            final(self)@ == (DetectorState {
                rules: without(old(self)@.rules, FetchMode::HttpRequest, normalized(domain@)),
                ..old(self)@
            }),
            r == (final(self)@.rules.len() < old(self)@.rules.len()),
    {
        self.remove_rules(FetchMode::HttpRequest, domain)
    }

    /// The patterns of the rules with the strategy `mode`, in rule order.
    fn patterns(&self, mode: FetchMode) -> (r: Vec<String>)
        ensures
            views(r@) == patterns_of(self@.rules, mode),
    {
        let mut r: Vec<String> = Vec::new();
        let mut i: usize = 0;
        let ghost all = rule_views(self.rules@);
        assert(all.take(0) =~= Seq::<Rule>::empty());
        assert(views(r@) =~= Seq::<Seq<char>>::empty());
        while i < self.rules.len()
            invariant
                i <= self.rules.len(),
                all == rule_views(self.rules@),
                views(r@) == patterns_of(all.take(i as int), mode),
            decreases self.rules.len() - i,
        {
            proof {
                assert(all.take(i + 1).drop_last() =~= all.take(i as int));
                assert(all.take(i + 1).last() == self.rules@[i as int]@);
            }
            if self.rules[i].strategy == mode {
                let ghost before = views(r@);
                r.push(self.rules[i].pattern.clone());
                assert(views(r@) =~= before.push(self.rules@[i as int].pattern@));
            }
            i += 1;
        }
        assert(all.take(all.len() as int) =~= all);
        r
    }

    /// The domains that rules send to the browser, in rule order.
    pub fn get_spa_domains(&self) -> (r: Vec<String>)
        ensures
            views(r@) == patterns_of(self@.rules, FetchMode::Chrome),
    {
        self.patterns(FetchMode::Chrome)
    }

    /// The domains that rules have fetched by plain request, in rule order.
    pub fn get_ssr_domains(&self) -> (r: Vec<String>)
        ensures
            views(r@) == patterns_of(self@.rules, FetchMode::HttpRequest),
    {
        self.patterns(FetchMode::HttpRequest)
    }
}

impl Default for DomainDetector {
    fn default() -> (r: Self)
        ensures
            r@ == (DetectorState {
                rules: Seq::empty(),
                default_mode: FetchMode::HttpRequest,
                cache: Seq::empty(),
            }),
    {
        Self::new()
    }
}

} // verus!
