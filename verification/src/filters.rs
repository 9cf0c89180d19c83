//! Which launches are worth buying.
use regex::Regex;
use vstd::prelude::*;
use vstd::string::*;

use crate::base58::base58;
use crate::binary64::{at_most, below, fixed, nought, Binary64, Num};
use crate::config::FilterConfig;
use crate::decimal::{decimal, push_decimal};
use crate::detector::{keys, Launch, LaunchEvent};
use crate::listener::texts;
use crate::pubkey::{
    address_text_round_trip, is_address, pubkey_from_text, Pubkey, PubkeyParseError,
};

verus! {

/// Facts the filter pipeline needs on top of the raw launch event.
/// They are read from the chain before `evaluate` is called.
#[derive(Debug, Clone)]
pub struct LaunchFacts {
    pub initial_liquidity_sol: Binary64,
    pub total_supply: u64,
    pub mint_authority_renounced: bool,
    pub freeze_authority_null: bool,
    pub lp_locked_pct: Binary64,
    pub has_socials: bool,
}

/// The facts of a launch that nothing is known of.
pub open spec fn no_facts() -> LaunchFacts {
    LaunchFacts {
        initial_liquidity_sol: Binary64 { bits: 0 },
        total_supply: 0,
        mint_authority_renounced: false,
        freeze_authority_null: false,
        lp_locked_pct: Binary64 { bits: 0 },
        has_socials: false,
    }
}

impl Default for LaunchFacts {
    fn default() -> (r: LaunchFacts)
        ensures
            r == no_facts(),
    {
        LaunchFacts {
            initial_liquidity_sol: Binary64::zero(),
            total_supply: 0,
            mint_authority_renounced: false,
            freeze_authority_null: false,
            lp_locked_pct: Binary64::zero(),
            has_socials: false,
        }
    }
}

#[derive(Debug, Clone, PartialEq, Eq)]
pub enum FilterVerdict {
    Accept,
    Reject { reason: String },
}

impl View for FilterVerdict {
    type V = Option<Seq<char>>;

    /// The reason of a rejection, nothing for an acceptance.
    open spec fn view(&self) -> Option<Seq<char>> {
        match self {
            FilterVerdict::Accept => None,
            FilterVerdict::Reject { reason } => Some(reason@),
        }
    }
}

impl FilterVerdict {
    pub fn is_accept(&self) -> (r: bool)
        ensures
            r == (self@ is None),
    {
        match self {
            FilterVerdict::Accept => true,
            FilterVerdict::Reject { .. } => false,
        }
    }
}

pub fn reject(reason: &str) -> (r: FilterVerdict)
    ensures
        r@ == Some(reason@),
{
    FilterVerdict::Reject { reason: reason.to_owned() }
}

// ---- regular expressions -------------------------------------------------

/// A compiled regular expression of the `regex` crate.
#[verifier::external_type_specification]
#[verifier::external_body]
pub struct ExRegex(Regex);

/// The pattern that `Regex::new` compiled a regular expression from. An expression that was
/// made in another way, with other options, has none.
pub uninterp spec fn compiled_from(re: Regex) -> Option<Seq<char>>;

/// Whether a pattern matches anywhere in a text.
pub uninterp spec fn regex_matches(pattern: Seq<char>, text: Seq<char>) -> bool;

/// Why a pattern does not compile.
#[derive(Debug, Clone, PartialEq, Eq)]
pub enum PatternError {
    Syntax(String),
    /// The compiled pattern would exceed this many bytes.
    TooBig(usize),
    Other(String),
}

impl PatternError {
    pub open spec fn text(self) -> Seq<char> {
        match self {
            PatternError::Syntax(message) => message@,
            PatternError::TooBig(limit) => "Compiled regex exceeds size limit of "@ + decimal(
                limit as nat,
            ) + " bytes."@,
            PatternError::Other(message) => message@,
        }
    }

    pub fn message(&self) -> (r: String)
        ensures
            r@ == self.text(),
    {
        match self {
            PatternError::Syntax(message) => message.clone(),
            PatternError::TooBig(limit) => {
                let mut out = "Compiled regex exceeds size limit of ".to_owned();
                push_decimal(&mut out, *limit as u64);
                out.append(" bytes.");
                out
            },
            PatternError::Other(message) => message.clone(),
        }
    }
}

/// What the parser of the `regex` crate finds wrong with the syntax of a pattern, if anything.
pub uninterp spec fn syntax_fault(pattern: Seq<char>) -> Option<Seq<char>>;

/// How compiling a pattern can end. A syntax fault is reported in the parser's words. A
/// pattern without one may still be refused, for its size or another limit of the compiler.
pub open spec fn compile_error_fits(
    fault: Option<Seq<char>>,
    error: Option<PatternError>,
) -> bool {
    match (fault, error) {
        (Some(message), Some(PatternError::Syntax(text))) => text@ == message,
        (Some(_), _) => false,
        (None, None) => true,
        (None, Some(PatternError::TooBig(limit))) => limit == 10_485_760,
        (None, Some(PatternError::Syntax(text))) => text@ == "error building NFA"@,
        (None, Some(PatternError::Other(_))) => false,
    }
}

pub open spec fn regex_error(r: Result<Regex, PatternError>) -> Option<PatternError> {
    match r {
        Ok(_) => None,
        Err(e) => Some(e),
    }
}

pub open spec fn pattern_error(r: Result<Pattern, PatternError>) -> Option<PatternError> {
    match r {
        Ok(_) => None,
        Err(e) => Some(e),
    }
}

/// Calls `regex::Regex::new`. A compiled expression belongs to its pattern. The pattern is
/// parsed first, and a fault found there depends on the pattern alone and is reported as it
/// is. Whether a pattern without such a fault exceeds a limit of the compiler, which is ten
/// mebibytes for its size, is left open: sizes are counted in machine words.
#[verifier::external_body]
fn compile_regex(pattern: &str) -> (r: Result<Regex, PatternError>)
    ensures
        r matches Ok(re) ==> compiled_from(re) == Some(pattern@),
        compile_error_fits(syntax_fault(pattern@), regex_error(r)),
{
    match Regex::new(pattern) {
        Ok(re) => Ok(re),
        Err(regex::Error::Syntax(message)) => Err(PatternError::Syntax(message)),
        Err(regex::Error::CompiledTooBig(limit)) => Err(PatternError::TooBig(limit)),
        Err(e) => Err(PatternError::Other(e.to_string())),
    }
}

/// Calls `regex::Regex::is_match`, whose answer depends on the pattern and the text alone
/// where the expression was compiled with the default options.
#[verifier::external_body]
fn regex_is_match(re: &Regex, text: &str) -> (r: bool)
    requires
        compiled_from(*re) is Some,
    ensures
        r == regex_matches(compiled_from(*re)->0, text@),
{
    re.is_match(text)
}

/// Calls `regex::Regex::as_str`, which returns the pattern.
#[verifier::external_body]
fn regex_text(re: &Regex) -> (r: &str)
    requires
        compiled_from(*re) is Some,
    ensures
        r@ == compiled_from(*re)->0,
{
    re.as_str()
}

/// A pattern that has been compiled. Its view is the text of the pattern.
pub struct Pattern {
    re: Regex,
}

impl View for Pattern {
    type V = Seq<char>;

    closed spec fn view(&self) -> Seq<char> {
        compiled_from(self.re)->0
    }
}

impl Pattern {
    #[verifier::type_invariant]
    spec fn compiled(self) -> bool {
        compiled_from(self.re) is Some
    }

    /// Compiles a pattern. A syntax fault is reported; whether a pattern without one keeps
    /// within the limits is up to the regex compiler.
    pub fn compile(pattern: &str) -> (r: Result<Pattern, PatternError>)
        ensures
            r matches Ok(p) ==> p@ == pattern@,
            compile_error_fits(syntax_fault(pattern@), pattern_error(r)),
    {
        match compile_regex(pattern) {
            Ok(re) => Ok(Pattern { re }),
            Err(e) => Err(e),
        }
    }

    pub fn is_match(&self, text: &str) -> (r: bool)
        ensures
            r == regex_matches(self@, text@),
    {
        proof {
            use_type_invariant(self);
        }
        regex_is_match(&self.re, text)
    }

    pub fn as_str(&self) -> (r: &str)
        ensures
            r@ == self@,
    {
        proof {
            use_type_invariant(self);
        }
        regex_text(&self.re)
    }
}

/// The texts of some compiled patterns.
pub open spec fn sources(list: Seq<Pattern>) -> Seq<Seq<char>> {
    list.map_values(|p: Pattern| p@)
}

/// The first pattern from `i` on that matches.
pub open spec fn first_match(patterns: Seq<Seq<char>>, text: Seq<char>, i: int) -> Option<Seq<char>>
    decreases patterns.len() - i,
{
    if i < 0 || i >= patterns.len() {
        None
    } else if regex_matches(patterns[i], text) {
        Some(patterns[i])
    } else {
        first_match(patterns, text, i + 1)
    }
}

/// A list of allowed patterns lets a text pass if it is empty or one of them matches.
pub open spec fn allowed(patterns: Seq<Seq<char>>, text: Seq<char>) -> bool {
    patterns.len() == 0 || exists|i: int|
        0 <= i < patterns.len() && #[trigger] regex_matches(patterns[i], text)
}

// ---- the rules -----------------------------------------------------------

/// What a filter engine checks.
pub struct Rules {
    pub min_liquidity: Num,
    pub max_supply: u64,
    pub need_mint_renounced: bool,
    pub need_freeze_null: bool,
    pub min_lp_locked: Num,
    pub need_socials: bool,
    pub name_allow: Seq<Seq<char>>,
    pub name_deny: Seq<Seq<char>>,
    pub symbol_allow: Seq<Seq<char>>,
    pub allowlist: Seq<Seq<u8>>,
    pub blocklist: Seq<Seq<u8>>,
}

impl Rules {
    /// Why the launch event alone rules a launch out, if it does.
    pub open spec fn prefilter(self, event: Launch) -> Option<Seq<char>> {
        if self.allowlist.len() > 0 && !self.allowlist.contains(event.creator) {
            Some("creator not in dev allowlist"@)
        } else if self.blocklist.contains(event.creator) {
            Some("creator in dev blocklist"@)
        } else if self.name_fault(event) is Some {
            self.name_fault(event)
        } else {
            self.symbol_fault(event)
        }
    }

    /// What is wrong with the name: a denied pattern comes before a missing allowed one.
    pub open spec fn name_fault(self, event: Launch) -> Option<Seq<char>> {
        match event.name {
            None => None,
            Some(name) => match first_match(self.name_deny, name, 0) {
                Some(pattern) => Some("name matches deny regex: "@ + pattern),
                None => if allowed(self.name_allow, name) {
                    None
                } else {
                    Some("name did not match any allow regex"@)
                },
            },
        }
    }

    pub open spec fn symbol_fault(self, event: Launch) -> Option<Seq<char>> {
        match event.symbol {
            None => None,
            Some(symbol) => if allowed(self.symbol_allow, symbol) {
                None
            } else {
                Some("symbol did not match any allow regex"@)
            },
        }
    }

    /// Why the facts rule a launch out, if they do. A threshold of zero is switched off.
    pub open spec fn facts_fault(self, facts: LaunchFacts) -> Option<Seq<char>> {
        if below(nought(), self.min_liquidity) && below(
            facts.initial_liquidity_sol@,
            self.min_liquidity,
        ) {
            Some(
                "liquidity "@ + fixed(facts.initial_liquidity_sol@, 3) + " SOL below min "@ + fixed(
                    self.min_liquidity,
                    3,
                ),
            )
        } else if self.max_supply > 0 && facts.total_supply > self.max_supply {
            Some(
                "supply "@ + decimal(facts.total_supply as nat) + " exceeds max "@ + decimal(
                    self.max_supply as nat,
                ),
            )
        } else if self.need_mint_renounced && !facts.mint_authority_renounced {
            Some("mint authority not renounced"@)
        } else if self.need_freeze_null && !facts.freeze_authority_null {
            Some("freeze authority not null"@)
        } else if below(nought(), self.min_lp_locked) && below(
            facts.lp_locked_pct@,
            self.min_lp_locked,
        ) {
            Some(
                "LP locked "@ + fixed(facts.lp_locked_pct@, 2) + "% below min "@ + fixed(
                    self.min_lp_locked,
                    2,
                ) + "%"@,
            )
        } else if self.need_socials && !facts.has_socials {
            Some("missing required social links"@)
        } else {
            None
        }
    }

    /// Why a launch is ruled out, if it is: the event is checked before the facts.
    pub open spec fn evaluate(self, event: Launch, facts: LaunchFacts) -> Option<Seq<char>> {
        if self.prefilter(event) is Some {
            self.prefilter(event)
        } else {
            self.facts_fault(facts)
        }
    }
}

/// Compiled filter ruleset. Regexes are compiled once at startup.
pub struct FilterEngine {
    cfg: FilterConfig,
    name_allow: Vec<Pattern>,
    name_deny: Vec<Pattern>,
    symbol_allow: Vec<Pattern>,
    allowlist: Vec<Pubkey>,
    blocklist: Vec<Pubkey>,
}

/// The rules of a configuration with the given patterns and addresses.
pub open spec fn rules_of(
    cfg: FilterConfig,
    name_allow: Seq<Seq<char>>,
    name_deny: Seq<Seq<char>>,
    symbol_allow: Seq<Seq<char>>,
    allowlist: Seq<Seq<u8>>,
    blocklist: Seq<Seq<u8>>,
) -> Rules {
    Rules {
        min_liquidity: cfg.min_initial_liquidity_sol@,
        max_supply: cfg.max_supply,
        need_mint_renounced: cfg.require_mint_authority_renounced,
        need_freeze_null: cfg.require_freeze_authority_null,
        min_lp_locked: cfg.min_lp_locked_pct@,
        need_socials: cfg.require_socials,
        name_allow,
        name_deny,
        symbol_allow,
        allowlist,
        blocklist,
    }
}

impl View for FilterEngine {
    type V = Rules;

    closed spec fn view(&self) -> Rules {
        rules_of(
            self.cfg,
            sources(self.name_allow@),
            sources(self.name_deny@),
            sources(self.symbol_allow@),
            keys(self.allowlist@),
            keys(self.blocklist@),
        )
    }
}

/// Which list of the configuration an entry stands in.
#[derive(Debug, Clone, Copy, PartialEq, Eq, Structural)]
pub enum ListName {
    NameAllow,
    NameDeny,
    SymbolAllow,
    DevAllowlist,
    DevBlocklist,
}

/// Why a filter engine cannot be built: the list, the position, and what is wrong there.
#[derive(Debug, Clone, PartialEq, Eq)]
pub enum FilterError {
    Pattern { list: ListName, index: usize, cause: PatternError },
    Creator { list: ListName, index: usize, fault: PubkeyParseError },
}

impl FilterError {
    pub open spec fn text(self) -> Seq<char> {
        match self {
            FilterError::Pattern { cause, .. } => cause.text(),
            FilterError::Creator { fault, .. } => fault.text(),
        }
    }

    pub fn message(&self) -> (r: String)
        ensures
            r@ == self.text(),
    {
        match self {
            FilterError::Pattern { cause, .. } => cause.message(),
            FilterError::Creator { fault, .. } => fault.message(),
        }
    }
}

/// Every text is an address, and these are the addresses.
pub open spec fn addresses(list: Seq<Seq<char>>, found: Seq<Seq<u8>>) -> bool {
    &&& found.len() == list.len()
    &&& forall|i: int|
        0 <= i < list.len() ==> #[trigger] pubkey_from_text(list[i]) == Ok::<
            Seq<u8>,
            PubkeyParseError,
        >(found[i])
}

/// The first text that is no address.
pub open spec fn bad_address(list: Seq<Seq<char>>, index: int, cause: PubkeyParseError) -> bool {
    &&& 0 <= index < list.len()
    &&& pubkey_from_text(list[index]) == Err::<Seq<u8>, PubkeyParseError>(cause)
    &&& forall|i: int| 0 <= i < index ==> #[trigger] pubkey_from_text(list[i]) is Ok
}

/// No pattern has a syntax fault.
pub open spec fn well_written(patterns: Seq<Seq<char>>) -> bool {
    forall|i: int| 0 <= i < patterns.len() ==> #[trigger] syntax_fault(patterns[i]) is None
}

/// The pattern that is reported: what is wrong with it, and no syntax fault before it.
pub open spec fn refused_pattern(
    patterns: Seq<Seq<char>>,
    index: int,
    cause: PatternError,
) -> bool {
    &&& 0 <= index < patterns.len()
    &&& compile_error_fits(syntax_fault(patterns[index]), Some(cause))
    &&& well_written(patterns.take(index))
}

/// Compiles patterns in order, up to the first that is refused.
fn compile_regexes(list: ListName, patterns: &Vec<String>) -> (r: Result<Vec<Pattern>, FilterError>)
    ensures
        r matches Ok(v) ==> sources(v@) == texts(patterns@) && well_written(texts(patterns@)),
        r matches Err(e) ==> (e matches FilterError::Pattern { list: l, index, cause } && l == list
            && refused_pattern(texts(patterns@), index as int, cause)),
{
    let mut out: Vec<Pattern> = Vec::new();
    let mut i: usize = 0;
    while i < patterns.len()
        invariant
            i <= patterns@.len(),
            out@.len() == i,
            forall|k: int| 0 <= k < i ==> (#[trigger] out@[k])@ == patterns@[k]@,
            forall|k: int| 0 <= k < i ==> #[trigger] syntax_fault(texts(patterns@)[k]) is None,
        decreases patterns@.len() - i,
    {
        assert(texts(patterns@)[i as int] == patterns@[i as int]@);
        match Pattern::compile(patterns[i].as_str()) {
            Ok(pattern) => out.push(pattern),
            Err(cause) => {
                return Err(FilterError::Pattern { list, index: i, cause });
            },
        }
        i = i + 1;
    }
    assert(sources(out@) =~= texts(patterns@));
    Ok(out)
}

fn parse_pubkeys(list: ListName, items: &Vec<String>) -> (r: Result<Vec<Pubkey>, FilterError>)
    ensures
        r matches Ok(v) ==> addresses(texts(items@), keys(v@)),
        r matches Err(e) ==> (e matches FilterError::Creator { list: l, index, fault } && l == list
            && bad_address(texts(items@), index as int, fault)),
{
    let mut out: Vec<Pubkey> = Vec::new();
    let mut i: usize = 0;
    while i < items.len()
        invariant
            i <= items@.len(),
            out@.len() == i,
            forall|k: int|
                0 <= k < i ==> #[trigger] pubkey_from_text(texts(items@)[k]) == Ok::<
                    Seq<u8>,
                    PubkeyParseError,
                >(keys(out@)[k]),
        decreases items@.len() - i,
    {
        match Pubkey::parse(items[i].as_str()) {
            Ok(key) => {
                let ghost before = keys(out@);
                out.push(key);
                assert(keys(out@) =~= before.push(key@));
            },
            Err(cause) => {
                assert(texts(items@)[i as int] == items@[i as int]@);
                return Err(FilterError::Creator { list, index: i, fault: cause });
            },
        }
        i = i + 1;
    }
    Ok(out)
}

fn lists(list: &Vec<Pubkey>, key: &Pubkey) -> (r: bool)
    ensures
        r == keys(list@).contains(key@),
{
    let mut i: usize = 0;
    while i < list.len()
        invariant
            i <= list@.len(),
            forall|k: int| 0 <= k < i ==> (#[trigger] list@[k])@ != key@,
        decreases list@.len() - i,
    {
        if list[i].same(key) {
            assert(keys(list@)[i as int] == key@);
            return true;
        }
        i = i + 1;
    }
    assert forall|k: int| 0 <= k < keys(list@).len() implies keys(list@)[k] != key@ by {
        assert(list@[k]@ != key@);
    }
    false
}

fn first_matching(list: &Vec<Pattern>, text: &str) -> (r: Option<usize>)
    ensures
        r is None ==> first_match(sources(list@), text@, 0) is None,
        r matches Some(i) ==> i < list@.len() && first_match(sources(list@), text@, 0) == Some(
            list@[i as int]@,
        ),
{
    let ghost patterns = sources(list@);
    let mut i: usize = 0;
    while i < list.len()
        invariant
            i <= list@.len(),
            patterns == sources(list@),
            first_match(patterns, text@, 0) == first_match(patterns, text@, i as int),
        decreases list@.len() - i,
    {
        assert(patterns[i as int] == list@[i as int]@);
        if list[i].is_match(text) {
            return Some(i);
        }
        i = i + 1;
    }
    None
}

fn passes(list: &Vec<Pattern>, text: &str) -> (r: bool)
    ensures
        r == allowed(sources(list@), text@),
{
    if list.len() == 0 {
        return true;
    }
    let mut i: usize = 0;
    while i < list.len()
        invariant
            i <= list@.len(),
            forall|k: int| 0 <= k < i ==> !#[trigger] regex_matches(sources(list@)[k], text@),
        decreases list@.len() - i,
    {
        if list[i].is_match(text) {
            assert(regex_matches(sources(list@)[i as int], text@));
            return true;
        }
        i = i + 1;
    }
    false
}

impl FilterEngine {
    /// Compiles the patterns and reads the addresses of a configuration. The lists are taken
    /// in order, and the first entry that is refused is reported. Whether a pattern without a
    /// syntax fault keeps within the limits is up to the regex compiler.
    pub fn new(cfg: FilterConfig) -> (r: Result<FilterEngine, FilterError>)
        ensures
            r matches Ok(engine) ==> {
                &&& addresses(texts(cfg.dev_allowlist@), engine@.allowlist)
                &&& addresses(texts(cfg.dev_blocklist@), engine@.blocklist)
                &&& engine@ == rules_of(
                    cfg,
                    texts(cfg.name_allow_regex@),
                    texts(cfg.name_deny_regex@),
                    texts(cfg.symbol_allow_regex@),
                    engine@.allowlist,
                    engine@.blocklist,
                )
            },
            r matches Ok(_) ==> patterns_well_written(cfg),
            r matches Err(e) ==> (match e {
                FilterError::Pattern { list, index, cause } => pattern_refused(
                    cfg,
                    list,
                    index as int,
                    cause,
                ),
                FilterError::Creator { list, index, fault } => patterns_well_written(cfg)
                    && creators_outcome(cfg, list, index as int, fault),
            }),
    {
        let name_allow = compile_regexes(ListName::NameAllow, &cfg.name_allow_regex)?;
        let name_deny = compile_regexes(ListName::NameDeny, &cfg.name_deny_regex)?;
        let symbol_allow = compile_regexes(ListName::SymbolAllow, &cfg.symbol_allow_regex)?;
        FilterEngine::with_patterns(cfg, name_allow, name_deny, symbol_allow)
    }

    /// An engine over patterns that are compiled already. It succeeds exactly when every
    /// listed creator is an address, and else reports the first that is not.
    pub fn with_patterns(
        cfg: FilterConfig,
        name_allow: Vec<Pattern>,
        name_deny: Vec<Pattern>,
        symbol_allow: Vec<Pattern>,
    ) -> (r: Result<FilterEngine, FilterError>)
        ensures
            r matches Ok(engine) ==> {
                &&& addresses(texts(cfg.dev_allowlist@), engine@.allowlist)
                &&& addresses(texts(cfg.dev_blocklist@), engine@.blocklist)
                &&& engine@ == rules_of(
                    cfg,
                    sources(name_allow@),
                    sources(name_deny@),
                    sources(symbol_allow@),
                    engine@.allowlist,
                    engine@.blocklist,
                )
            },
            r matches Err(e) ==> (e matches FilterError::Creator { list, index, fault }
                && creators_outcome(cfg, list, index as int, fault)),
    {
        let allowlist = parse_pubkeys(ListName::DevAllowlist, &cfg.dev_allowlist)?;
        let blocklist = parse_pubkeys(ListName::DevBlocklist, &cfg.dev_blocklist)?;
        Ok(FilterEngine { cfg, name_allow, name_deny, symbol_allow, allowlist, blocklist })
    }

    /// Cheap pre-check that only needs the launch event, no chain reads.
    /// Runs in the hot path; the full `evaluate` runs after enrichment.
    pub fn prefilter(&self, event: &LaunchEvent) -> (r: FilterVerdict)
        ensures
            r@ == self@.prefilter(event@),
    {
        if self.allowlist.len() > 0 && !lists(&self.allowlist, &event.creator) {
            return reject("creator not in dev allowlist");
        }
        if lists(&self.blocklist, &event.creator) {
            return reject("creator in dev blocklist");
        }
        if let Some(name) = &event.name {
            if let Some(i) = first_matching(&self.name_deny, name.as_str()) {
                let mut reason = "name matches deny regex: ".to_owned();
                reason.append(self.name_deny[i].as_str());
                return FilterVerdict::Reject { reason };
            }
            if !passes(&self.name_allow, name.as_str()) {
                return reject("name did not match any allow regex");
            }
        }
        if let Some(symbol) = &event.symbol {
            if !passes(&self.symbol_allow, symbol.as_str()) {
                return reject("symbol did not match any allow regex");
            }
        }
        FilterVerdict::Accept
    }

    /// Full evaluation with rug checks, called after on-chain facts are fetched.
    pub fn evaluate(&self, event: &LaunchEvent, facts: &LaunchFacts) -> (r: FilterVerdict)
        ensures
            r@ == self@.evaluate(event@, *facts),
    {
        let pre = self.prefilter(event);
        if !pre.is_accept() {
            return pre;
        }
        let zero = Binary64::zero();
        if zero.lt(self.cfg.min_initial_liquidity_sol) && facts.initial_liquidity_sol.lt(
            self.cfg.min_initial_liquidity_sol,
        ) {
            let mut reason = "liquidity ".to_owned();
            facts.initial_liquidity_sol.push_fixed(&mut reason, 3);
            reason.append(" SOL below min ");
            self.cfg.min_initial_liquidity_sol.push_fixed(&mut reason, 3);
            return FilterVerdict::Reject { reason };
        }
        if self.cfg.max_supply > 0 && facts.total_supply > self.cfg.max_supply {
            let mut reason = "supply ".to_owned();
            push_decimal(&mut reason, facts.total_supply);
            reason.append(" exceeds max ");
            push_decimal(&mut reason, self.cfg.max_supply);
            return FilterVerdict::Reject { reason };
        }
        if self.cfg.require_mint_authority_renounced && !facts.mint_authority_renounced {
            return reject("mint authority not renounced");
        }
        if self.cfg.require_freeze_authority_null && !facts.freeze_authority_null {
            return reject("freeze authority not null");
        }
        if zero.lt(self.cfg.min_lp_locked_pct) && facts.lp_locked_pct.lt(
            self.cfg.min_lp_locked_pct,
        ) {
            let mut reason = "LP locked ".to_owned();
            facts.lp_locked_pct.push_fixed(&mut reason, 2);
            reason.append("% below min ");
            self.cfg.min_lp_locked_pct.push_fixed(&mut reason, 2);
            reason.append("%");
            return FilterVerdict::Reject { reason };
        }
        if self.cfg.require_socials && !facts.has_socials {
            return reject("missing required social links");
        }
        FilterVerdict::Accept
    }
}

/// No pattern of a configuration has a syntax fault.
pub open spec fn patterns_well_written(cfg: FilterConfig) -> bool {
    &&& well_written(texts(cfg.name_allow_regex@))
    &&& well_written(texts(cfg.name_deny_regex@))
    &&& well_written(texts(cfg.symbol_allow_regex@))
}

/// A pattern of a configuration is refused. The allowed names come first, then the denied
/// names, then the allowed symbols, and nothing before it has a syntax fault.
pub open spec fn pattern_refused(
    cfg: FilterConfig,
    list: ListName,
    index: int,
    cause: PatternError,
) -> bool {
    match list {
        ListName::NameAllow => refused_pattern(texts(cfg.name_allow_regex@), index, cause),
        ListName::NameDeny => {
            &&& well_written(texts(cfg.name_allow_regex@))
            &&& refused_pattern(texts(cfg.name_deny_regex@), index, cause)
        },
        ListName::SymbolAllow => {
            &&& well_written(texts(cfg.name_allow_regex@))
            &&& well_written(texts(cfg.name_deny_regex@))
            &&& refused_pattern(texts(cfg.symbol_allow_regex@), index, cause)
        },
        _ => false,
    }
}

/// A creator list holds something that is no address; the allowlist is read first.
pub open spec fn creators_outcome(
    cfg: FilterConfig,
    list: ListName,
    index: int,
    cause: PubkeyParseError,
) -> bool {
    match list {
        ListName::DevAllowlist => bad_address(texts(cfg.dev_allowlist@), index, cause),
        ListName::DevBlocklist => {
            &&& bad_address(texts(cfg.dev_blocklist@), index, cause)
            &&& forall|i: int|
                0 <= i < cfg.dev_allowlist@.len() ==> (#[trigger] pubkey_from_text(
                    texts(cfg.dev_allowlist@)[i],
                )) is Ok
        },
        _ => false,
    }
}

// ---- laws ----------------------------------------------------------------

/// A launch that the full evaluation accepts would pass the pre-check as well, and a
/// rejection by the pre-check is handed on with its reason unchanged.
pub proof fn prefilter_decides_first(rules: Rules, event: Launch, facts: LaunchFacts)
    ensures
        rules.evaluate(event, facts) is None ==> rules.prefilter(event) is None,
        rules.prefilter(event) is Some ==> rules.evaluate(event, facts) == rules.prefilter(event),
{
}

/// A creator on the blocklist is always rejected, whatever the other rules and the facts say.
pub proof fn blocklisted_creators_are_rejected(rules: Rules, event: Launch, facts: LaunchFacts)
    requires
        rules.blocklist.contains(event.creator),
    ensures
        rules.prefilter(event) is Some,
        rules.evaluate(event, facts) is Some,
{
}

/// With a nonempty allowlist only the creators on it can be accepted.
pub proof fn allowlist_restricts_creators(rules: Rules, event: Launch, facts: LaunchFacts)
    requires
        rules.allowlist.len() > 0,
        rules.evaluate(event, facts) is None || rules.prefilter(event) is None,
    ensures
        rules.allowlist.contains(event.creator),
{
}

/// A name that any denied pattern matches is rejected, whatever the allowed patterns say.
pub proof fn denied_names_are_rejected(rules: Rules, event: Launch, facts: LaunchFacts, i: int)
    requires
        event.name is Some,
        0 <= i < rules.name_deny.len(),
        regex_matches(rules.name_deny[i], event.name->0),
    ensures
        rules.prefilter(event) is Some,
        rules.evaluate(event, facts) is Some,
{
    lemma_first_match_finds(rules.name_deny, event.name->0, 0, i);
}

proof fn lemma_first_match_finds(patterns: Seq<Seq<char>>, text: Seq<char>, from: int, i: int)
    requires
        0 <= from <= i < patterns.len(),
        regex_matches(patterns[i], text),
    ensures
        first_match(patterns, text, from) is Some,
    decreases i - from,
{
    if !regex_matches(patterns[from], text) {
        lemma_first_match_finds(patterns, text, from + 1, i);
    }
}

/// With every threshold at zero and every requirement off, the facts do not matter: the
/// evaluation answers what the pre-check answers.
pub proof fn disabled_thresholds_never_reject(rules: Rules, event: Launch, facts: LaunchFacts)
    requires
        !below(nought(), rules.min_liquidity),
        rules.max_supply == 0,
        !rules.need_mint_renounced,
        !rules.need_freeze_null,
        !below(nought(), rules.min_lp_locked),
        !rules.need_socials,
    ensures
        rules.evaluate(event, facts) == rules.prefilter(event),
{
}

/// A launch is accepted exactly when it breaks no rule. Each threshold that is switched on
/// holds: enough liquidity, no more supply than allowed, the authorities given up, enough of the
/// pool locked, social links present. The creator is on the allowlist where there is one and
/// not on the blocklist, no denied pattern matches the name, and where allowed patterns are
/// configured one of them matches.
pub proof fn accepted_launches_break_no_rule(rules: Rules, event: Launch, facts: LaunchFacts)
    ensures
        rules.evaluate(event, facts) is None <==> {
            &&& below(nought(), rules.min_liquidity) ==> !below(
                facts.initial_liquidity_sol@,
                rules.min_liquidity,
            )
            &&& rules.max_supply > 0 ==> facts.total_supply <= rules.max_supply
            &&& rules.need_mint_renounced ==> facts.mint_authority_renounced
            &&& rules.need_freeze_null ==> facts.freeze_authority_null
            &&& below(nought(), rules.min_lp_locked) ==> !below(
                facts.lp_locked_pct@,
                rules.min_lp_locked,
            )
            &&& rules.need_socials ==> facts.has_socials
            &&& rules.allowlist.len() > 0 ==> rules.allowlist.contains(event.creator)
            &&& !rules.blocklist.contains(event.creator)
            &&& event.name matches Some(name) ==> (forall|i: int|
                0 <= i < rules.name_deny.len() ==> !#[trigger] regex_matches(
                    rules.name_deny[i],
                    name,
                )) && (rules.name_allow.len() > 0 ==> exists|i: int|
                0 <= i < rules.name_allow.len() && #[trigger] regex_matches(
                    rules.name_allow[i],
                    name,
                ))
            &&& event.symbol matches Some(symbol) ==> (rules.symbol_allow.len() > 0 ==> exists|i:
                int|
                0 <= i < rules.symbol_allow.len() && #[trigger] regex_matches(
                    rules.symbol_allow[i],
                    symbol,
                ))
        },
{
    if let Some(name) = event.name {
        first_match_is_first(rules.name_deny, name, 0);
    }
}

/// The pre-check accepts exactly the launches that no rule on the event rejects, whatever the
/// facts turn out to be: with good facts the evaluation accepts the same ones.
pub proof fn prefilter_ignores_the_facts(rules: Rules, event: Launch, facts: LaunchFacts)
    requires
        !below(facts.initial_liquidity_sol@, rules.min_liquidity),
        rules.max_supply == 0 || facts.total_supply <= rules.max_supply,
        facts.mint_authority_renounced,
        facts.freeze_authority_null,
        !below(facts.lp_locked_pct@, rules.min_lp_locked),
        facts.has_socials,
    ensures
        rules.prefilter(event) == rules.evaluate(event, facts),
{
}

/// A launch that is accepted has at least the locked share that is asked for, where both are
/// numbers; a share of nothing is rejected by every positive threshold.
pub proof fn accepted_launches_lock_enough(rules: Rules, event: Launch, facts: LaunchFacts)
    requires
        rules.evaluate(event, facts) is None,
        below(nought(), rules.min_lp_locked),
        facts.lp_locked_pct@ != Num::NaN,
    ensures
        at_most(rules.min_lp_locked, facts.lp_locked_pct@),
        below(nought(), facts.lp_locked_pct@),
{
}

/// Worse facts never help: with no more locked, no more liquidity, no less supply, and no
/// authority given up or social link that was not there before, a rejection stays a rejection.
pub proof fn worse_facts_never_help(
    rules: Rules,
    event: Launch,
    facts: LaunchFacts,
    worse: LaunchFacts,
)
    requires
        at_most(worse.lp_locked_pct@, facts.lp_locked_pct@) || worse.lp_locked_pct
            == facts.lp_locked_pct,
        at_most(worse.initial_liquidity_sol@, facts.initial_liquidity_sol@)
            || worse.initial_liquidity_sol == facts.initial_liquidity_sol,
        worse.total_supply >= facts.total_supply,
        worse.mint_authority_renounced ==> facts.mint_authority_renounced,
        worse.freeze_authority_null ==> facts.freeze_authority_null,
        worse.has_socials ==> facts.has_socials,
    ensures
        rules.evaluate(event, facts) is Some ==> rules.evaluate(event, worse) is Some,
        rules.evaluate(event, worse) is None ==> rules.evaluate(event, facts) is None,
{
}

/// Stricter rules never help: raising a threshold that is on, or asking for more, keeps every
/// rejection by the facts.
pub proof fn stricter_rules_never_help(
    rules: Rules,
    stricter: Rules,
    event: Launch,
    facts: LaunchFacts,
)
    requires
        at_most(rules.min_lp_locked, stricter.min_lp_locked),
        at_most(rules.min_liquidity, stricter.min_liquidity),
        rules.max_supply > 0 ==> 0 < stricter.max_supply <= rules.max_supply,
        rules.need_mint_renounced ==> stricter.need_mint_renounced,
        rules.need_freeze_null ==> stricter.need_freeze_null,
        rules.need_socials ==> stricter.need_socials,
        stricter.name_allow == rules.name_allow,
        stricter.name_deny == rules.name_deny,
        stricter.symbol_allow == rules.symbol_allow,
        stricter.allowlist == rules.allowlist,
        stricter.blocklist == rules.blocklist,
    ensures
        rules.evaluate(event, facts) is Some ==> stricter.evaluate(event, facts) is Some,
{
}

/// The pattern that a match is reported with is the first one in its list that matches.
pub proof fn first_match_is_first(patterns: Seq<Seq<char>>, text: Seq<char>, from: int)
    requires
        0 <= from,
    ensures
        first_match(patterns, text, from) matches Some(pattern) ==> exists|i: int|
            from <= i < patterns.len() && pattern == patterns[i] && #[trigger] regex_matches(
                patterns[i],
                text,
            ) && forall|k: int|
                from <= k < i ==> !#[trigger] regex_matches(patterns[k], text),
        first_match(patterns, text, from) is None ==> forall|i: int|
            from <= i < patterns.len() ==> !#[trigger] regex_matches(patterns[i], text),
    decreases patterns.len() - from,
{
    if from < patterns.len() && !regex_matches(patterns[from], text) {
        first_match_is_first(patterns, text, from + 1);
    }
}

/// The reason that is given is the first one that applies, in this order: the allowlist, the
/// blocklist, a denied name, a name that is not allowed, a symbol that is not allowed.
pub proof fn event_reasons_come_in_order(rules: Rules, event: Launch)
    ensures
        ({
            let why = rules.prefilter(event);
            let unlisted = rules.allowlist.len() > 0 && !rules.allowlist.contains(event.creator);
            let blocked = rules.blocklist.contains(event.creator);
            let denied = |i: int|
                event.name is Some && 0 <= i < rules.name_deny.len() && regex_matches(
                    rules.name_deny[i],
                    event.name->0,
                );
            &&& unlisted ==> why == Some("creator not in dev allowlist"@)
            &&& !unlisted && blocked ==> why == Some("creator in dev blocklist"@)
            &&& forall|i: int|
                !unlisted && !blocked && #[trigger] denied(i) && (forall|k: int|
                    k < i ==> !#[trigger] denied(k)) ==> why == Some(
                    "name matches deny regex: "@ + rules.name_deny[i],
                )
        }),
        ({
            let why = rules.prefilter(event);
            let listed = rules.allowlist.len() == 0 || rules.allowlist.contains(event.creator);
            let clean = event.name matches Some(name) ==> forall|i: int|
                0 <= i < rules.name_deny.len() ==> !#[trigger] regex_matches(
                    rules.name_deny[i],
                    name,
                );
            let named = event.name matches Some(name) ==> rules.name_allow.len() == 0 || exists|
                i: int,
            |
                0 <= i < rules.name_allow.len() && #[trigger] regex_matches(
                    rules.name_allow[i],
                    name,
                );
            let coined = event.symbol matches Some(symbol) ==> rules.symbol_allow.len() == 0
                || exists|i: int|
                0 <= i < rules.symbol_allow.len() && #[trigger] regex_matches(
                    rules.symbol_allow[i],
                    symbol,
                );
            &&& listed && !rules.blocklist.contains(event.creator) && clean && !named ==> why
                == Some("name did not match any allow regex"@)
            &&& listed && !rules.blocklist.contains(event.creator) && clean && named && !coined
                ==> why == Some("symbol did not match any allow regex"@)
        }),
{
    if let Some(name) = event.name {
        first_match_is_first(rules.name_deny, name, 0);
        let denied = |i: int|
            event.name is Some && 0 <= i < rules.name_deny.len() && regex_matches(
                rules.name_deny[i],
                event.name->0,
            );
        assert forall|i: int|
            !(rules.allowlist.len() > 0 && !rules.allowlist.contains(event.creator))
                && !rules.blocklist.contains(event.creator) && #[trigger] denied(i) && (forall|
                k: int,
            |
                k < i ==> !#[trigger] denied(k)) implies rules.prefilter(event) == Some(
            "name matches deny regex: "@ + rules.name_deny[i],
        ) by {
            assert(regex_matches(rules.name_deny[i], name));
            let j = choose|j: int|
                0 <= j < rules.name_deny.len() && first_match(rules.name_deny, name, 0) == Some(
                    rules.name_deny[j],
                ) && #[trigger] regex_matches(rules.name_deny[j], name) && forall|k: int|
                    0 <= k < j ==> !#[trigger] regex_matches(rules.name_deny[k], name);
            assert(denied(j));
            assert(j == i);
        }
    }
}

/// Where the event passes, the first fact that breaks a rule is the reason, in this order:
/// liquidity, supply, mint authority, freeze authority, locked share, social links. Amounts are
/// reported with the threshold that they break.
pub proof fn fact_reasons_come_in_order(rules: Rules, event: Launch, facts: LaunchFacts)
    requires
        rules.prefilter(event) is None,
    ensures
        ({
            let why = rules.evaluate(event, facts);
            let poor = below(nought(), rules.min_liquidity) && below(
                facts.initial_liquidity_sol@,
                rules.min_liquidity,
            );
            let inflated = 0 < rules.max_supply < facts.total_supply;
            let mintable = rules.need_mint_renounced && !facts.mint_authority_renounced;
            let freezable = rules.need_freeze_null && !facts.freeze_authority_null;
            let unlocked = below(nought(), rules.min_lp_locked) && below(
                facts.lp_locked_pct@,
                rules.min_lp_locked,
            );
            let silent = rules.need_socials && !facts.has_socials;
            &&& poor ==> why == Some(
                "liquidity "@ + fixed(facts.initial_liquidity_sol@, 3) + " SOL below min "@
                    + fixed(rules.min_liquidity, 3),
            )
            &&& !poor && inflated ==> why == Some(
                "supply "@ + decimal(facts.total_supply as nat) + " exceeds max "@ + decimal(
                    rules.max_supply as nat,
                ),
            )
            &&& !poor && !inflated && mintable ==> why == Some("mint authority not renounced"@)
            &&& !poor && !inflated && !mintable && freezable ==> why == Some(
                "freeze authority not null"@,
            )
            &&& !poor && !inflated && !mintable && !freezable && unlocked ==> why == Some(
                "LP locked "@ + fixed(facts.lp_locked_pct@, 2) + "% below min "@ + fixed(
                    rules.min_lp_locked,
                    2,
                ) + "%"@,
            )
            &&& !poor && !inflated && !mintable && !freezable && !unlocked && silent ==> why
                == Some("missing required social links"@)
        }),
{
}

/// Rules hold what the configuration says, setting by setting.
pub proof fn rules_hold_the_settings(
    cfg: FilterConfig,
    name_allow: Seq<Seq<char>>,
    name_deny: Seq<Seq<char>>,
    symbol_allow: Seq<Seq<char>>,
    allowlist: Seq<Seq<u8>>,
    blocklist: Seq<Seq<u8>>,
)
    ensures
        ({
            let rules = rules_of(cfg, name_allow, name_deny, symbol_allow, allowlist, blocklist);
            &&& rules.min_liquidity == cfg.min_initial_liquidity_sol@
            &&& rules.max_supply == cfg.max_supply
            &&& rules.need_mint_renounced == cfg.require_mint_authority_renounced
            &&& rules.need_freeze_null == cfg.require_freeze_authority_null
            &&& rules.min_lp_locked == cfg.min_lp_locked_pct@
            &&& rules.need_socials == cfg.require_socials
            &&& rules.name_allow == name_allow && rules.name_deny == name_deny
            &&& rules.symbol_allow == symbol_allow
            &&& rules.allowlist == allowlist && rules.blocklist == blocklist
        }),
{
}

/// A launch of which nothing is known passes no threshold that is on, except that on supply.
pub proof fn unknown_launches_pass_no_threshold(rules: Rules, event: Launch)
    ensures
        rules.evaluate(event, no_facts()) is None ==> {
            &&& !below(nought(), rules.min_liquidity)
            &&& !below(nought(), rules.min_lp_locked)
            &&& !rules.need_mint_renounced && !rules.need_freeze_null && !rules.need_socials
        },
        no_facts().total_supply == 0,
{
}

/// A creator list is read in full and in order: each address is the one that its text spells.
pub proof fn creator_lists_are_read_in_full(list: Seq<String>, found: Seq<Seq<u8>>)
    ensures
        addresses(texts(list), found) <==> found.len() == list.len() && forall|i: int|
            0 <= i < list.len() ==> (#[trigger] found[i]).len() == 32 && base58(found[i])
                == list[i]@,
{
    if found.len() == list.len() {
        assert forall|i: int| 0 <= i < list.len() implies (#[trigger] pubkey_from_text(
            texts(list)[i],
        ) == Ok::<Seq<u8>, PubkeyParseError>(found[i]) <==> found[i].len() == 32 && base58(
            found[i],
        ) == list[i]@) by {
            if found[i].len() == 32 && base58(found[i]) == list[i]@ {
                address_text_round_trip(found[i]);
            }
            if pubkey_from_text(texts(list)[i]) == Ok::<Seq<u8>, PubkeyParseError>(found[i]) {
                assert(exists|key: Seq<u8>| is_address(texts(list)[i], key));
            }
        }
        if addresses(texts(list), found) {
            assert forall|i: int| 0 <= i < list.len() implies (#[trigger] found[i]).len() == 32
                && base58(found[i]) == list[i]@ by {
                assert(pubkey_from_text(texts(list)[i]) == Ok::<Seq<u8>, PubkeyParseError>(
                    found[i],
                ));
            }
        }
        if forall|i: int|
            0 <= i < list.len() ==> (#[trigger] found[i]).len() == 32 && base58(found[i])
                == list[i]@ {
            assert forall|i: int| 0 <= i < texts(list).len() implies #[trigger] pubkey_from_text(
                texts(list)[i],
            ) == Ok::<Seq<u8>, PubkeyParseError>(found[i]) by {
                assert(found[i].len() == 32);
            }
        }
    }
}

/// Either all creators of a configuration are addresses, or one entry is reported: the first of
/// the allowlist that is none, and an entry of the blocklist only where the allowlist has none
/// such. What is reported is never an address.
pub proof fn reported_creators_are_no_addresses(
    cfg: FilterConfig,
    list: ListName,
    index: int,
    cause: PubkeyParseError,
)
    requires
        creators_outcome(cfg, list, index, cause),
    ensures
        list == ListName::DevAllowlist || list == ListName::DevBlocklist,
        ({
            let entries = if list == ListName::DevAllowlist {
                cfg.dev_allowlist@
            } else {
                cfg.dev_blocklist@
            };
            &&& 0 <= index < entries.len()
            &&& forall|key: Seq<u8>| key.len() == 32 ==> #[trigger] base58(key) != entries[index]@
            &&& forall|i: int|
                0 <= i < index ==> pubkey_from_text((#[trigger] entries[i])@) is Ok
        }),
        list == ListName::DevBlocklist ==> forall|i: int|
            0 <= i < cfg.dev_allowlist@.len() ==> pubkey_from_text(
                (#[trigger] cfg.dev_allowlist@[i])@,
            ) is Ok,
{
    let entries = if list == ListName::DevAllowlist {
        cfg.dev_allowlist@
    } else {
        cfg.dev_blocklist@
    };
    assert forall|key: Seq<u8>| key.len() == 32 implies #[trigger] base58(key) != entries[index]@ by {
        address_text_round_trip(key);
        assert(texts(entries)[index] == entries[index]@);
    }
    assert forall|i: int| 0 <= i < index implies pubkey_from_text((#[trigger] entries[i])@) is Ok by {
        assert(pubkey_from_text(texts(entries)[i]) is Ok);
    }
    if list == ListName::DevBlocklist {
        assert forall|i: int| 0 <= i < cfg.dev_allowlist@.len() implies pubkey_from_text(
            (#[trigger] cfg.dev_allowlist@[i])@,
        ) is Ok by {
            assert(pubkey_from_text(texts(cfg.dev_allowlist@)[i]) is Ok);
        }
    }
}

/// A verdict is seen as the reason of a rejection, and as nothing where a launch is accepted.
pub proof fn verdicts_are_seen_as_they_are(verdict: FilterVerdict)
    ensures
        verdict is Accept <==> verdict@ is None,
        verdict matches FilterVerdict::Reject { reason } ==> verdict@ == Some(reason@),
{
}

} // verus!
