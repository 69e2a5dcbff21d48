//! Which log lines are written, and how.
//!
//! The filter comes from the library's own environment variable, else from the
//! standard one, else from a built-in default. A directive that cannot be read
//! never stops anything: the default is used and the failure is reported.
use tracing_subscriber::EnvFilter;
use vstd::prelude::*;
use crate::text;
use crate::words;

verus! {

/// The explicit filter override.
pub const FILTER_ENV: &'static str = "RUST_KNOWLEDGE_LOG";

/// The standard filter variable.
pub const RUST_LOG_ENV: &'static str = "RUST_LOG";

/// The variable that selects the log encoding.
pub const FORMAT_ENV: &'static str = "RUST_KNOWLEDGE_LOG_FORMAT";

/// The built-in default filter.
pub const DEFAULT_FILTER: &'static str = "info,tantivy=warn,rmcp=warn";

/// The built-in default filter of a verbose run.
pub const DEFAULT_FILTER_VERBOSE: &'static str = "debug,tantivy=warn,rmcp=warn";

/// The built-in default filter for the given verbosity.
pub open spec fn default_directive(verbose: bool) -> Seq<char> {
    if verbose {
        DEFAULT_FILTER_VERBOSE@
    } else {
        DEFAULT_FILTER@
    }
}

/// The built-in default filter for the given verbosity.
pub fn default_filter(verbose: bool) -> (r: &'static str)
    ensures
        r@ == default_directive(verbose),
{
    if verbose {
        DEFAULT_FILTER_VERBOSE
    } else {
        DEFAULT_FILTER
    }
}

/// How log lines are encoded.
#[derive(Clone, Copy, Debug, PartialEq, Eq, Structural)]
pub enum LogFormat {
    /// Compact lines for people.
    Human,
    /// One JSON object per line.
    Json,
}

impl Default for LogFormat {
    fn default() -> (r: Self)
        ensures
            r == LogFormat::Human,
    {
        LogFormat::Human
    }
}

/// What the frontends control; everything else comes from the environment.
#[derive(Clone, Copy, Debug, PartialEq, Eq, Structural)]
pub struct TelemetryOptions {
    /// Take the verbose default. Ignored where a variable sets the filter.
    pub verbose: bool,
}

impl Default for TelemetryOptions {
    fn default() -> (r: Self)
        ensures
            !r.verbose,
    {
        TelemetryOptions { verbose: false }
    }
}

/// The place of an additional layer that is not there.
#[derive(Clone, Copy, Debug)]
pub struct NoLayer;

/// Where the filter comes from.
#[derive(Clone, Copy, Debug, PartialEq, Eq, Structural)]
pub enum FilterSource {
    RustKnowledgeLog,
    RustLog,
    Default,
}

/// A filter directive that could not be read.
#[derive(Clone, Debug, PartialEq, Eq)]
pub struct MalformedDirective {
    /// The variable that it comes from.
    pub env: &'static str,
    pub value: String,
    /// Why it could not be read.
    pub error: String,
}

/// The filter in effect.
#[derive(Clone, Debug)]
pub struct ResolvedFilter {
    pub directive: String,
    pub source: FilterSource,
    pub malformed: Option<MalformedDirective>,
}

/// What was decided about logging, and whether it was put in place.
#[derive(Clone, Debug)]
pub struct InitStatus {
    /// Whether the logger was installed; another one may have been there first.
    pub installed: bool,
    pub filter_directive: String,
    pub filter_source: FilterSource,
    pub format: LogFormat,
    pub malformed_directive: Option<MalformedDirective>,
    /// An encoding that was asked for and is not known.
    pub unknown_format: Option<String>,
}

// ---------------------------------------------------------------------------
// The filter
// ---------------------------------------------------------------------------

/// What a string slice that may be missing shows.
pub open spec fn given(value: Option<&str>) -> Option<Seq<char>> {
    match value {
        Some(s) => Some(s@),
        None => None,
    }
}

/// The value of a variable: trimmed, and none where nothing is left.
pub open spec fn nonblank(value: Option<Seq<char>>) -> Option<Seq<char>> {
    match value {
        Some(s) => if text::trim(s).len() > 0 {
            Some(text::trim(s))
        } else {
            None
        },
        None => None,
    }
}

/// The value of a variable: trimmed, and none where nothing is left.
pub fn env_nonempty(value: Option<&str>) -> (r: Option<String>)
    ensures
        words::shown(r) == nonblank(given(value)),
{
    match value {
        Some(s) => {
            let t = text::trimmed(s);
            if t.as_str().is_empty() {
                None
            } else {
                Some(t)
            }
        },
        None => None,
    }
}

/// Why a filter directive is refused; none where it is accepted.
pub uninterp spec fn directive_error(directive: Seq<char>) -> Option<Seq<char>>;

/// What is said of a directive that the parser cannot take.
pub const UNREADABLE: &'static str = "unreadable filter directive";

/// Where the parser stands in one part of a directive, which has the form
/// `target[span{field=value}]=level`.
#[derive(Clone, Copy, Debug, PartialEq, Eq, Structural)]
pub enum PartPhase {
    /// In the target, or in the level where there is no target.
    Target,
    /// Behind `[`.
    Span,
    /// Behind `{`.
    Fields,
    /// Behind the fields or the span.
    Behind,
    /// Behind the `=` of the level.
    Level,
}

/// Where the parser stands behind a character.
pub open spec fn next_phase(phase: PartPhase, c: char) -> PartPhase {
    match phase {
        PartPhase::Target => if c == '=' {
            PartPhase::Level
        } else if c == '[' {
            PartPhase::Span
        } else {
            phase
        },
        PartPhase::Span => if c == ']' {
            PartPhase::Behind
        } else if c == '{' {
            PartPhase::Fields
        } else {
            phase
        },
        PartPhase::Fields => if c == '}' {
            PartPhase::Behind
        } else {
            phase
        },
        PartPhase::Behind => if c == '=' {
            PartPhase::Level
        } else {
            phase
        },
        PartPhase::Level => phase,
    }
}

/// Where the parser stands behind a text.
pub open spec fn phase_behind(s: Seq<char>) -> PartPhase
    decreases s.len(),
{
    if s.len() == 0 {
        PartPhase::Target
    } else {
        next_phase(phase_behind(s.drop_last()), s.last())
    }
}

/// The parser cuts before the character.
pub open spec fn cuts_before(phase: PartPhase, c: char) -> bool {
    next_phase(phase, c) != phase && phase != PartPhase::Behind
}

/// The parser cuts behind the character.
pub open spec fn cuts_behind(phase: PartPhase, c: char) -> bool {
    next_phase(phase, c) != phase && next_phase(phase, c) != PartPhase::Behind
}

/// A character begins at this byte of a text, or the text ends there.
pub open spec fn boundary(s: Seq<char>, byte: nat) -> bool {
    exists|k: int| 0 <= k <= s.len() && #[trigger] text::utf8_len(s.take(k)) == byte
}

/// The parser can take one part of a directive. It finds the places of its cuts in
/// the part without leading white space, and then cuts the part as it is: at each
/// such place a character has to begin.
pub open spec fn readable_part(part: Seq<char>) -> bool {
    let t = text::trim_start(part);
    forall|i: int|
        0 <= i < t.len() ==> {
            &&& cuts_before(phase_behind(t.take(i)), #[trigger] t[i]) ==> boundary(
                part,
                text::utf8_len(t.take(i)),
            )
            &&& cuts_behind(phase_behind(t.take(i)), t[i]) ==> boundary(
                part,
                text::utf8_len(t.take(i)) + 1,
            )
        }
}

/// The part of a directive behind its last comma.
pub open spec fn last_part(directive: Seq<char>) -> Seq<char>
    decreases directive.len(),
{
    if directive.len() == 0 || directive.last() == ',' {
        Seq::empty()
    } else {
        last_part(directive.drop_last()).push(directive.last())
    }
}

/// The parser can take every part of a directive; commas part them.
pub open spec fn readable(directive: Seq<char>) -> bool {
    &&& readable_part(last_part(directive))
    &&& forall|i: int|
        0 <= i < directive.len() && #[trigger] directive[i] == ',' ==> readable_part(
            last_part(directive.take(i)),
        )
}

/// Why a directive is refused, by the parser or because it cannot take it; none
/// where it is accepted.
pub open spec fn refused(directive: Seq<char>) -> Option<Seq<char>> {
    if readable(directive) {
        directive_error(directive)
    } else {
        Some(UNREADABLE@)
    }
}

/// `tracing_subscriber::EnvFilter::try_new`: accepts the directive, or says why
/// not, under the name `directive_error`. Left out are directives on which the
/// parser panics: those with a part that it would cut inside a character, because
/// it found the place of the cut in the trimmed part. How much memory the table of
/// a pattern takes is left aside.
#[verifier::external_body]
fn check_directive(directive: &str) -> (r: Result<(), String>)
    requires
        readable(directive@),
    ensures
        match r {
            Ok(_) => directive_error(directive@) is None,
            Err(error) => directive_error(directive@) == Some(error@),
        },
{
    EnvFilter::try_new(directive).map(|_| ()).map_err(|e| e.to_string())
}

/// Where the parser stands behind a character.
fn advance(phase: PartPhase, c: char) -> (r: PartPhase)
    ensures
        r == next_phase(phase, c),
{
    match phase {
        PartPhase::Target => if c == '=' {
            PartPhase::Level
        } else if c == '[' {
            PartPhase::Span
        } else {
            phase
        },
        PartPhase::Span => if c == ']' {
            PartPhase::Behind
        } else if c == '{' {
            PartPhase::Fields
        } else {
            phase
        },
        PartPhase::Fields => if c == '}' {
            PartPhase::Behind
        } else {
            phase
        },
        PartPhase::Behind => if c == '=' {
            PartPhase::Level
        } else {
            phase
        },
        PartPhase::Level => phase,
    }
}

/// Whether a character begins at this byte of a text, or the text ends there.
fn is_boundary(chars: &Vec<char>, byte: u128) -> (r: bool)
    ensures
        r == boundary(chars@, byte as nat),
{
    let ghost s = chars@;
    let mut bytes: u128 = 0;
    let mut k: usize = 0;
    assert(s.take(0) =~= Seq::<char>::empty());
    while k < chars.len()
        invariant
            k <= chars@.len(),
            s == chars@,
            bytes == text::utf8_len(s.take(k as int)),
            bytes <= 4 * k,
            forall|j: int| 0 <= j < k ==> #[trigger] text::utf8_len(s.take(j)) != byte,
        decreases chars@.len() - k,
    {
        if bytes == byte {
            return true;
        }
        assert(s.take(k + 1).drop_last() == s.take(k as int));
        bytes = bytes + text::width_of(chars[k]) as u128;
        k = k + 1;
    }
    bytes == byte
}

/// Whether the parser can take one part of a directive.
fn is_readable_part(part: &Vec<char>) -> (r: bool)
    ensures
        r == readable_part(part@),
{
    let ghost p = part@;
    let mut from: usize = 0;
    while from < part.len() && text::is_white(part[from])
        invariant
            from <= part@.len(),
            p == part@,
            forall|i: int| 0 <= i < from ==> text::white(p[i]),
        decreases part@.len() - from,
    {
        from = from + 1;
    }
    let ghost t = p.skip(from as int);
    proof {
        text::lemma_trim_start_skip(p, from as int);
        assert(text::trim_start(t) == t);
    }
    let mut phase = PartPhase::Target;
    let mut bytes: u128 = 0;
    let mut i: usize = from;
    assert(t.take(0) =~= Seq::<char>::empty());
    while i < part.len()
        invariant
            from <= i <= part@.len(),
            p == part@,
            t == p.skip(from as int),
            t == text::trim_start(p),
            phase == phase_behind(t.take(i - from)),
            bytes == text::utf8_len(t.take(i - from)),
            bytes <= 4 * i,
            forall|k: int|
                0 <= k < i - from ==> {
                    &&& cuts_before(phase_behind(t.take(k)), #[trigger] t[k]) ==> boundary(
                        p,
                        text::utf8_len(t.take(k)),
                    )
                    &&& cuts_behind(phase_behind(t.take(k)), t[k]) ==> boundary(
                        p,
                        text::utf8_len(t.take(k)) + 1,
                    )
                },
        decreases part@.len() - i,
    {
        let c = part[i];
        let next = advance(phase, c);
        assert(t.take(i - from + 1).drop_last() == t.take(i - from));
        assert(t[i - from] == c);
        if next != phase {
            if phase != PartPhase::Behind && !is_boundary(part, bytes) {
                return false;
            }
            if next != PartPhase::Behind && !is_boundary(part, bytes + 1) {
                return false;
            }
        }
        bytes = bytes + text::width_of(c) as u128;
        phase = next;
        i = i + 1;
    }
    true
}

/// Whether the parser can take a directive.
fn is_readable(directive: &str) -> (r: bool)
    ensures
        r == readable(directive@),
{
    let chars = text::to_chars(directive);
    let ghost d = directive@;
    let mut part: Vec<char> = Vec::new();
    let mut i: usize = 0;
    assert(d.take(0) =~= Seq::<char>::empty());
    while i < chars.len()
        invariant
            i <= chars@.len(),
            d == chars@,
            d == directive@,
            part@ == last_part(d.take(i as int)),
            forall|k: int|
                0 <= k < i && #[trigger] d[k] == ',' ==> readable_part(last_part(d.take(k))),
        decreases chars@.len() - i,
    {
        assert(d.take(i + 1).drop_last() == d.take(i as int));
        let c = chars[i];
        if c == ',' {
            if !is_readable_part(&part) {
                assert(d[i as int] == ',');
                return false;
            }
            part = Vec::new();
        } else {
            part.push(c);
        }
        i = i + 1;
    }
    assert(d.take(d.len() as int) == d);
    is_readable_part(&part)
}

/// Whether a directive is accepted; else why not.
fn verdict_on(directive: &str) -> (r: Result<(), String>)
    ensures
        match r {
            Ok(_) => refused(directive@) is None,
            Err(error) => refused(directive@) == Some(error@),
        },
{
    if is_readable(directive) {
        check_directive(directive)
    } else {
        Err(UNREADABLE.to_owned())
    }
}

/// The directive to take, and where it comes from: the explicit one before the
/// standard one.
pub open spec fn chosen(explicit: Option<Seq<char>>, rust_log: Option<Seq<char>>) -> Option<
    (FilterSource, Seq<char>),
> {
    match nonblank(explicit) {
        Some(d) => Some((FilterSource::RustKnowledgeLog, d)),
        None => match nonblank(rust_log) {
            Some(d) => Some((FilterSource::RustLog, d)),
            None => None,
        },
    }
}

/// The variable behind a source.
pub open spec fn variable(source: FilterSource) -> Seq<char> {
    match source {
        FilterSource::RustKnowledgeLog => FILTER_ENV@,
        _ => RUST_LOG_ENV@,
    }
}

/// What a filter shows; a refused directive as its variable, its value and why
/// it was refused.
pub struct FilterView {
    pub directive: Seq<char>,
    pub source: FilterSource,
    pub malformed: Option<(Seq<char>, Seq<char>, Seq<char>)>,
}

/// What a refused directive shows.
pub open spec fn malformed_view(m: Option<MalformedDirective>) -> Option<
    (Seq<char>, Seq<char>, Seq<char>),
> {
    match m {
        Some(m) => Some((m.env@, m.value@, m.error@)),
        None => None,
    }
}

impl View for ResolvedFilter {
    type V = FilterView;

    open spec fn view(&self) -> FilterView {
        FilterView {
            directive: self.directive@,
            source: self.source,
            malformed: malformed_view(self.malformed),
        }
    }
}

/// The filter for a choice: the directive where it is accepted; else the
/// default, with a report of what was refused and why.
pub open spec fn filter_of(
    choice: Option<(FilterSource, Seq<char>)>,
    error: Option<Seq<char>>,
    verbose: bool,
) -> FilterView {
    match choice {
        Some((source, directive)) => match error {
            None => FilterView { directive, source, malformed: None },
            Some(why) => FilterView {
                directive: default_directive(verbose),
                source: FilterSource::Default,
                malformed: Some((variable(source), directive, why)),
            },
        },
        None => FilterView {
            directive: default_directive(verbose),
            source: FilterSource::Default,
            malformed: None,
        },
    }
}

/// Why the directive of a choice is refused, if it is.
pub open spec fn refusal(choice: Option<(FilterSource, Seq<char>)>) -> Option<Seq<char>> {
    match choice {
        Some((_, directive)) => refused(directive),
        None => None,
    }
}

/// The filter that the values of the variables give.
pub open spec fn resolved(
    explicit: Option<Seq<char>>,
    rust_log: Option<Seq<char>>,
    verbose: bool,
) -> FilterView {
    filter_of(chosen(explicit, rust_log), refusal(chosen(explicit, rust_log)), verbose)
}

/// The filter for a directive from a variable, given whether it is accepted.
pub fn judged_filter(
    env: &'static str,
    source: FilterSource,
    directive: String,
    verdict: Result<(), String>,
    verbose: bool,
) -> (r: ResolvedFilter)
    requires
        env@ == variable(source),
    ensures
        r@ == filter_of(
            Some((source, directive@)),
            match verdict {
                Ok(_) => None,
                Err(error) => Some(error@),
            },
            verbose,
        ),
{
    match verdict {
        Ok(_) => ResolvedFilter { directive, source, malformed: None },
        Err(error) => ResolvedFilter {
            directive: default_filter(verbose).to_owned(),
            source: FilterSource::Default,
            malformed: Some(MalformedDirective { env, value: directive, error }),
        },
    }
}

/// The filter in effect: from the explicit variable, else from the standard one,
/// else the default. Blank values count as unset. A directive that cannot be
/// read falls back to the default, never to the other variable.
pub fn resolve_filter(explicit: Option<&str>, rust_log: Option<&str>, verbose: bool) -> (r:
    ResolvedFilter)
    ensures
        r@ == resolved(given(explicit), given(rust_log), verbose),
{
    if let Some(directive) = env_nonempty(explicit) {
        let verdict = verdict_on(directive.as_str());
        return judged_filter(
            FILTER_ENV,
            FilterSource::RustKnowledgeLog,
            directive,
            verdict,
            verbose,
        );
    }
    if let Some(directive) = env_nonempty(rust_log) {
        let verdict = verdict_on(directive.as_str());
        return judged_filter(RUST_LOG_ENV, FilterSource::RustLog, directive, verdict, verbose);
    }
    ResolvedFilter {
        directive: default_filter(verbose).to_owned(),
        source: FilterSource::Default,
        malformed: None,
    }
}

impl InitStatus {
    /// The filter in effect.
    pub open spec fn filter(self) -> FilterView {
        FilterView {
            directive: self.filter_directive@,
            source: self.filter_source,
            malformed: malformed_view(self.malformed_directive),
        }
    }

    /// The status once it is known whether the logger could be installed.
    pub fn with_installed(self, installed: bool) -> (r: InitStatus)
        ensures
            r == (InitStatus { installed, ..self }),
    {
        InitStatus {
            installed,
            filter_directive: self.filter_directive,
            filter_source: self.filter_source,
            format: self.format,
            malformed_directive: self.malformed_directive,
            unknown_format: self.unknown_format,
        }
    }
}

// ---------------------------------------------------------------------------
// The encoding
// ---------------------------------------------------------------------------

/// The encoding that a value asks for, and the value where it is not known.
pub open spec fn format_of(value: Option<Seq<char>>) -> (LogFormat, Option<Seq<char>>) {
    match nonblank(value) {
        None => (LogFormat::Human, None),
        Some(s) => if text::ascii_lowercase(s) == "human"@ {
            (LogFormat::Human, None)
        } else if text::ascii_lowercase(s) == "json"@ {
            (LogFormat::Json, None)
        } else {
            (LogFormat::Human, Some(s))
        },
    }
}

/// The encoding: `json` or `human`, in any case; anything else is `human`, and
/// is handed back to be reported.
pub fn resolve_format(raw: Option<&str>) -> (r: (LogFormat, Option<String>))
    ensures
        (r.0, words::shown(r.1)) == format_of(given(raw)),
{
    match env_nonempty(raw) {
        None => (LogFormat::Human, None),
        Some(value) => {
            let lower = text::to_ascii_lower(value.as_str());
            if text::same_text(lower.as_str(), "human") {
                (LogFormat::Human, None)
            } else if text::same_text(lower.as_str(), "json") {
                (LogFormat::Json, None)
            } else {
                (LogFormat::Human, Some(value))
            }
        },
    }
}

/// What is to be installed, from the options and the values of the variables.
/// Nothing is installed yet.
pub fn init(
    options: &TelemetryOptions,
    explicit: Option<&str>,
    rust_log: Option<&str>,
    format: Option<&str>,
) -> (r: InitStatus)
    ensures
        !r.installed,
        r.filter() == resolved(given(explicit), given(rust_log), options.verbose),
        (r.format, words::shown(r.unknown_format)) == format_of(given(format)),
{
    let resolved = resolve_filter(explicit, rust_log, options.verbose);
    let (format, unknown_format) = resolve_format(format);
    InitStatus {
        installed: false,
        filter_directive: resolved.directive,
        filter_source: resolved.source,
        format,
        malformed_directive: resolved.malformed,
        unknown_format,
    }
}

// ---------------------------------------------------------------------------
// Laws
// ---------------------------------------------------------------------------

/// The explicit variable wins: what the standard one holds does not matter.
pub proof fn law_explicit_wins(
    explicit: Seq<char>,
    a: Option<Seq<char>>,
    b: Option<Seq<char>>,
    verbose: bool,
)
    requires
        text::trim(explicit).len() > 0,
    ensures
        resolved(Some(explicit), a, verbose) == resolved(Some(explicit), b, verbose),
{
}

/// A blank explicit variable counts as unset.
pub proof fn law_blank_counts_as_unset(
    explicit: Seq<char>,
    rust_log: Option<Seq<char>>,
    verbose: bool,
)
    requires
        text::trim(explicit).len() == 0,
    ensures
        resolved(Some(explicit), rust_log, verbose) == resolved(None, rust_log, verbose),
{
}

/// A directive that is accepted is in effect, whatever the verbosity.
pub proof fn law_verbosity_only_moves_the_default(
    explicit: Option<Seq<char>>,
    rust_log: Option<Seq<char>>,
)
    requires
        chosen(explicit, rust_log) is Some,
        refusal(chosen(explicit, rust_log)) is None,
    ensures
        resolved(explicit, rust_log, true) == resolved(explicit, rust_log, false),
        resolved(explicit, rust_log, true).directive == (chosen(explicit, rust_log)->0).1,
{
}

/// A directive that is refused falls back to the default, never to the other
/// variable, and is reported.
pub proof fn law_refused_falls_back_to_default(
    explicit: Option<Seq<char>>,
    rust_log: Option<Seq<char>>,
    verbose: bool,
)
    requires
        refusal(chosen(explicit, rust_log)) is Some,
    ensures
        resolved(explicit, rust_log, verbose).directive == default_directive(verbose),
        resolved(explicit, rust_log, verbose).source is Default,
        resolved(explicit, rust_log, verbose).malformed is Some,
{
}

/// A text of ASCII characters.
pub open spec fn ascii(s: Seq<char>) -> bool {
    forall|i: int| 0 <= i < s.len() ==> (#[trigger] s[i] as u32) < 128
}

/// The parser can take every part that does not begin with white space.
pub proof fn law_part_without_leading_blank(part: Seq<char>)
    requires
        part.len() > 0 ==> !text::white(part[0]),
    ensures
        readable_part(part),
{
    let t = text::trim_start(part);
    assert(t == part);
    assert forall|i: int| 0 <= i < t.len() implies {
        &&& cuts_before(phase_behind(t.take(i)), #[trigger] t[i]) ==> boundary(
            part,
            text::utf8_len(t.take(i)),
        )
        &&& cuts_behind(phase_behind(t.take(i)), t[i]) ==> boundary(
            part,
            text::utf8_len(t.take(i)) + 1,
        )
    } by {
        assert(text::utf8_len(part.take(i)) == text::utf8_len(t.take(i)));
        assert(part.take(i + 1).drop_last() == part.take(i));
        assert(part.take(i + 1).last() == t[i]);
        assert(text::utf8_len(part.take(i + 1)) == text::utf8_len(part.take(i)) + text::char_width(
            t[i],
        ));
    }
}

/// Every ASCII directive is left to the parser: it is refused just when the parser
/// refuses it.
pub proof fn law_ascii_is_left_to_the_parser(directive: Seq<char>)
    requires
        ascii(directive),
    ensures
        readable(directive),
        refused(directive) == directive_error(directive),
{
    lemma_ascii_last_part(directive);
    assert forall|i: int| 0 <= i < directive.len() && #[trigger] directive[i] == ',' implies readable_part(
        last_part(directive.take(i)),
    ) by {
        let head = directive.take(i);
        assert forall|k: int| 0 <= k < head.len() implies (#[trigger] head[k] as u32) < 128 by {
            assert((directive[k] as u32) < 128);
        }
        lemma_ascii_last_part(head);
    }
}

/// The last part of an ASCII text is ASCII, and the parser can take it.
proof fn lemma_ascii_last_part(s: Seq<char>)
    requires
        ascii(s),
    ensures
        ascii(last_part(s)),
        readable_part(last_part(s)),
    decreases s.len(),
{
    let part = last_part(s);
    if s.len() > 0 && s.last() != ',' {
        let init = s.drop_last();
        assert forall|k: int| 0 <= k < init.len() implies (#[trigger] init[k] as u32) < 128 by {
            assert((s[k] as u32) < 128);
        }
        lemma_ascii_last_part(init);
        assert((s[s.len() - 1] as u32) < 128);
    }
    let t = text::trim_start(part);
    let n = text::lemma_trim_start_part(part);
    assert(t == part.skip(n));
    assert forall|i: int| 0 <= i < t.len() implies {
        &&& cuts_before(phase_behind(t.take(i)), #[trigger] t[i]) ==> boundary(
            part,
            text::utf8_len(t.take(i)),
        )
        &&& cuts_behind(phase_behind(t.take(i)), t[i]) ==> boundary(
            part,
            text::utf8_len(t.take(i)) + 1,
        )
    } by {
        assert forall|k: int| 0 <= k < t.len() implies (#[trigger] t[k] as u32) < 128 by {
            assert((part[k + n] as u32) < 128);
        }
        lemma_ascii_len(t, i);
        lemma_ascii_len(part, i);
        lemma_ascii_len(part, i + 1);
        assert(text::utf8_len(part.take(i)) == i);
        assert(text::utf8_len(part.take(i + 1)) == i + 1);
    }
}

/// ASCII characters take one byte each.
proof fn lemma_ascii_len(s: Seq<char>, n: int)
    requires
        ascii(s),
        0 <= n <= s.len(),
    ensures
        text::utf8_len(s.take(n)) == n,
    decreases n,
{
    if n > 0 {
        lemma_ascii_len(s, n - 1);
        assert(s.take(n).drop_last() == s.take(n - 1));
        assert((s[n - 1] as u32) < 128);
    }
}

} // verus!
