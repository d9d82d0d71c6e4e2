//! Which panes run a coding agent, and what the agent is doing.
//!
//! A pane is classified anew from every sample of its screen. An agent that waits for an
//! answer prints nothing, precisely because it waits; but its question is still on the
//! screen, so it never looks idle.

use crate::layout::{copy_opt, opt_text, texts};
use crate::screen::{sub0, Cell, Row, Screen};
use crate::text::{append, chars_of, decimal, decimal_string, push_char, same_text};
use vstd::prelude::*;

verus! {

// ---------------------------------------------------------------------------
// Patterns
// ---------------------------------------------------------------------------

/// Whether `regex::Regex::new` accepts a pattern, with the limits that the crate sets by
/// default.
pub uninterp spec fn regex_compiles(pattern: Seq<char>) -> bool;

/// Whether the regular expression made of a pattern matches anywhere in a text, as
/// `regex::Regex::is_match` finds it; false for a pattern that is none.
pub uninterp spec fn regex_finds(pattern: Seq<char>, text: Seq<char>) -> bool;

/// `regex::Regex::new`: whether the pattern is a regular expression. It depends on the
/// pattern alone.
#[verifier::external_body]
fn is_regex(pattern: &str) -> (r: bool)
    ensures
        r == regex_compiles(pattern@),
{
    regex::Regex::new(pattern).is_ok()
}

/// `regex::Regex::is_match`: whether the regular expression made of the pattern matches
/// anywhere in the text. It depends on the pattern and the text alone.
#[verifier::external_body]
fn regex_matches(pattern: &str, text: &str) -> (r: bool)
    ensures
        r == regex_finds(pattern@, text@),
{
    match regex::Regex::new(pattern) {
        Ok(re) => re.is_match(text),
        Err(_) => false,
    }
}

/// A text in quotation marks, with escapes, as the standard library's `Debug` writes it.
pub uninterp spec fn debug_text(text: Seq<char>) -> Seq<char>;

/// `<str as Debug>::fmt`: the text in quotation marks, with escapes. It depends on the
/// text alone.
#[verifier::external_body]
fn quoted(text: &str) -> (r: String)
    ensures
        r@ == debug_text(text@),
{
    format!("{text:?}")
}

/// A pattern as it is configured.
#[derive(Debug)]
pub struct AgentPattern {
    pub name: String,
    /// The agent that the pattern is for; none for all of them.
    pub command: Option<String>,
    pub regex: String,
}

/// A pattern as a mathematical value.
pub struct PatternView {
    pub name: Seq<char>,
    pub command: Option<Seq<char>>,
    pub regex: Seq<char>,
}

impl View for AgentPattern {
    type V = PatternView;

    open spec fn view(&self) -> PatternView {
        PatternView { name: self.name@, command: opt_text(self.command), regex: self.regex@ }
    }
}

/// The patterns of a list.
pub open spec fn pattern_views(v: Seq<AgentPattern>) -> Seq<PatternView> {
    Seq::new(v.len(), |i: int| v[i]@)
}

impl PatternView {
    /// The pattern is for this agent.
    pub open spec fn applies(self, command: Seq<char>) -> bool {
        self.command is None || self.command == Some(command)
    }

    /// The pattern is found on one of the lines.
    pub open spec fn found(self, lines: Seq<Seq<char>>) -> bool {
        exists|i: int| 0 <= i < lines.len() && regex_finds(self.regex, #[trigger] lines[i])
    }
}

impl AgentPattern {
    fn applies(&self, command: &str) -> (r: bool)
        ensures
            r == self@.applies(command@),
    {
        match &self.command {
            Some(c) => same_text(c, command),
            None => true,
        }
    }

    fn found(&self, lines: &[String]) -> (r: bool)
        ensures
            r == self@.found(texts(lines@)),
    {
        let mut i: usize = 0;
        while i < lines.len()
            invariant
                i <= lines.len(),
                forall|k: int|
                    0 <= k < i ==> !regex_finds(self@.regex, #[trigger] texts(lines@)[k]),
            decreases lines.len() - i,
        {
            assert(texts(lines@)[i as int] == lines@[i as int]@);
            if regex_matches(&self.regex, &lines[i]) {
                return true;
            }
            i += 1;
        }
        false
    }

    fn duplicate(&self) -> (r: AgentPattern)
        ensures
            r@ == self@,
    {
        AgentPattern {
            name: self.name.clone(),
            command: copy_opt(&self.command),
            regex: self.regex.clone(),
        }
    }
}

// ---------------------------------------------------------------------------
// Rules
// ---------------------------------------------------------------------------

/// The configuration of the agents.
#[derive(Debug)]
pub struct AgentsConfig {
    /// The commands that are agents.
    pub commands: Vec<String>,
    /// How long output counts as recent, in milliseconds.
    pub working_ms: u64,
    /// How many lines of the screen are looked at.
    pub scan_rows: u32,
    pub pattern: Vec<AgentPattern>,
}

/// The agent commands and the patterns, ready to match.
#[derive(Debug)]
pub struct AgentRules {
    pub commands: Vec<String>,
    pub patterns: Vec<AgentPattern>,
    /// How long output counts as recent, in nanoseconds.
    pub working_nanos: u128,
    pub scan_rows: usize,
}

/// Rules as a mathematical value.
#[verifier::ext_equal]
pub struct RulesView {
    pub commands: Seq<Seq<char>>,
    pub patterns: Seq<PatternView>,
    pub working_nanos: u128,
    pub scan_rows: usize,
}

impl View for AgentRules {
    type V = RulesView;

    open spec fn view(&self) -> RulesView {
        RulesView {
            commands: texts(self.commands@),
            patterns: pattern_views(self.patterns@),
            working_nanos: self.working_nanos,
            scan_rows: self.scan_rows,
        }
    }
}

/// Those of the first `n` patterns that are marked valid.
pub open spec fn kept(patterns: Seq<PatternView>, valid: Seq<bool>, n: int) -> Seq<PatternView>
    decreases n,
{
    if n <= 0 {
        Seq::empty()
    } else if valid[n - 1] {
        kept(patterns, valid, n - 1).push(patterns[n - 1])
    } else {
        kept(patterns, valid, n - 1)
    }
}

/// Which of the patterns are regular expressions.
pub open spec fn validity(patterns: Seq<PatternView>) -> Seq<bool> {
    Seq::new(patterns.len(), |i: int| regex_compiles(patterns[i].regex))
}

/// The rules of a configuration, with the patterns that are marked valid.
pub open spec fn ruled(cfg: AgentsConfig, valid: Seq<bool>) -> RulesView {
    RulesView {
        commands: texts(cfg.commands@),
        patterns: kept(pattern_views(cfg.pattern@), valid, cfg.pattern@.len() as int),
        working_nanos: (cfg.working_ms * 1_000_000) as u128,
        scan_rows: cfg.scan_rows as usize,
    }
}

/// The name part of a path: what comes after the last slash.
pub open spec fn base_name(path: Seq<char>) -> Seq<char>
    decreases path.len(),
{
    if path.len() == 0 || path.last() == '/' {
        Seq::empty()
    } else {
        base_name(path.drop_last()).push(path.last())
    }
}

/// The name part of an `argv[0]`, if there is any.
pub open spec fn argv0_base(argv0: Option<Seq<char>>) -> Option<Seq<char>> {
    match argv0 {
        Some(a) => if base_name(a).len() > 0 {
            Some(base_name(a))
        } else {
            None
        },
        None => None,
    }
}

/// The index of the first command that is `name`, from `i` on.
pub open spec fn command_index(commands: Seq<Seq<char>>, name: Seq<char>, i: int) -> Option<int>
    decreases commands.len() - i,
{
    if i < 0 || i >= commands.len() {
        None
    } else if commands[i] == name {
        Some(i)
    } else {
        command_index(commands, name, i + 1)
    }
}

/// The configured command that a process runs. What the system calls the process is
/// tried first, then the name part of its `argv[0]`.
pub open spec fn matched(
    commands: Seq<Seq<char>>,
    name: Seq<char>,
    argv0: Option<Seq<char>>,
) -> Option<Seq<char>> {
    match command_index(commands, name, 0) {
        Some(i) => Some(commands[i]),
        None => match argv0_base(argv0) {
            Some(b) => match command_index(commands, b, 0) {
                Some(i) => Some(commands[i]),
                None => None,
            },
            None => None,
        },
    }
}

/// The name part of an `argv[0]`. Nothing but the path is taken away: the dash of a
/// login shell stays.
pub fn argv0_name(argv0: &str) -> (r: Option<String>)
    ensures
        opt_text(r) == argv0_base(Some(argv0@)),
{
    let chars = chars_of(argv0);
    let mut i: usize = chars.len();
    assert(chars@.skip(i as int) =~= Seq::empty());
    assert(chars@.take(i as int) =~= chars@);
    assert(base_name(chars@) =~= base_name(chars@.take(i as int)) + chars@.skip(i as int));
    while i > 0 && chars[i - 1] != '/'
        invariant
            i <= chars.len(),
            base_name(chars@) == base_name(chars@.take(i as int)) + chars@.skip(i as int),
        decreases i,
    {
        let ghost before = chars@.take(i as int);
        i -= 1;
        assert(before.drop_last() =~= chars@.take(i as int));
        assert(base_name(chars@.take(i as int)).push(chars@[i as int]) + chars@.skip(i + 1)
            =~= base_name(chars@.take(i as int)) + chars@.skip(i as int));
    }
    assert(base_name(chars@.take(i as int)) =~= Seq::empty());
    assert(base_name(chars@) =~= chars@.skip(i as int));
    if i == chars.len() {
        return None;
    }
    let mut name = String::new();
    let start: usize = i;
    while i < chars.len()
        invariant
            start <= i <= chars.len(),
            name@ == chars@.subrange(start as int, i as int),
        decreases chars.len() - i,
    {
        push_char(&mut name, chars[i]);
        i += 1;
        assert(name@ =~= chars@.subrange(start as int, i as int));
    }
    assert(name@ =~= chars@.skip(start as int));
    Some(name)
}

/// What the system calls a process, and its `argv[0]`.
#[derive(Debug)]
pub struct ProcessNames {
    pub name: String,
    pub argv0: Option<String>,
}

impl AgentRules {
    /// The rules of a configuration. A pattern that is no regular expression is left
    /// out; the others still count.
    pub fn from_config(cfg: &AgentsConfig) -> (r: AgentRules)
        ensures
            r@ == ruled(*cfg, validity(pattern_views(cfg.pattern@))),
    {
        let mut valid: Vec<bool> = Vec::new();
        let mut i: usize = 0;
        while i < cfg.pattern.len()
            invariant
                i <= cfg.pattern.len(),
                valid.len() == i,
                forall|k: int|
                    0 <= k < i ==> valid@[k] == regex_compiles(
                        (#[trigger] cfg.pattern@[k])@.regex,
                    ),
            decreases cfg.pattern.len() - i,
        {
            valid.push(is_regex(&cfg.pattern[i].regex));
            i += 1;
        }
        assert(valid@ =~= validity(pattern_views(cfg.pattern@)));
        AgentRules::with_patterns(cfg, &valid)
    }

    /// The rules of a configuration, with the patterns that are marked valid.
    pub fn with_patterns(cfg: &AgentsConfig, valid: &Vec<bool>) -> (r: AgentRules)
        requires
            valid@.len() == cfg.pattern@.len(),
        ensures
            r@ == ruled(*cfg, valid@),
    {
        let mut patterns: Vec<AgentPattern> = Vec::new();
        let ghost all = pattern_views(cfg.pattern@);
        assert(pattern_views(patterns@) =~= Seq::empty());
        let mut i: usize = 0;
        while i < cfg.pattern.len()
            invariant
                i <= cfg.pattern.len(),
                valid@.len() == cfg.pattern@.len(),
                all == pattern_views(cfg.pattern@),
                pattern_views(patterns@) == kept(all, valid@, i as int),
            decreases cfg.pattern.len() - i,
        {
            if valid[i] {
                let ghost before = patterns@;
                patterns.push(cfg.pattern[i].duplicate());
                assert(pattern_views(patterns@) =~= pattern_views(before).push(
                    cfg.pattern@[i as int]@,
                ));
            }
            i += 1;
        }
        let commands = crate::layout::copy_names(&cfg.commands);
        assert(texts(commands@) =~= texts(cfg.commands@));
        assert(cfg.working_ms as int * 1_000_000 <= u128::MAX);
        AgentRules {
            commands,
            patterns,
            working_nanos: cfg.working_ms as u128 * 1_000_000,
            scan_rows: cfg.scan_rows as usize,
        }
    }

    fn find_command(&self, name: &str) -> (r: Option<usize>)
        ensures
            match r {
                Some(i) => i < self.commands.len() && command_index(self@.commands, name@, 0)
                    == Some(i as int),
                None => command_index(self@.commands, name@, 0) is None,
            },
    {
        let mut i: usize = 0;
        while i < self.commands.len()
            invariant
                i <= self.commands.len(),
                command_index(self@.commands, name@, 0) == command_index(
                    self@.commands,
                    name@,
                    i as int,
                ),
            decreases self.commands.len() - i,
        {
            assert(self@.commands[i as int] == self.commands@[i as int]@);
            if same_text(&self.commands[i], name) {
                return Some(i);
            }
            i += 1;
        }
        None
    }

    /// The configured command that this process runs, in its configured spelling.
    pub fn match_command(&self, name: &str, argv0: Option<&str>) -> (r: Option<&str>)
        ensures
            crate::state::opt_str(r) == matched(
                self@.commands,
                name@,
                crate::state::opt_str(argv0),
            ),
    {
        match self.find_command(name) {
            Some(i) => {
                return Some(self.commands[i].as_str());
            },
            None => {},
        }
        let base: String = match argv0 {
            Some(a) => match argv0_name(a) {
                Some(b) => b,
                None => {
                    return None;
                },
            },
            None => {
                return None;
            },
        };
        match self.find_command(&base) {
            Some(i) => Some(self.commands[i].as_str()),
            None => None,
        }
    }

    /// Whether no command is configured, so that there is nothing to detect.
    pub fn is_empty(&self) -> (r: bool)
        ensures
            r == (self@.commands.len() == 0),
    {
        self.commands.len() == 0
    }
}

// ---------------------------------------------------------------------------
// Classification
// ---------------------------------------------------------------------------

/// What an agent is doing.
#[derive(Clone, Copy, Debug, PartialEq, Eq, Structural)]
pub enum AgentState {
    /// It waits for an answer.
    NeedsInput,
    Working,
    Idle,
}

/// Why a pane is in the state that it is in, without what changes from one sample to the
/// next.
#[derive(Debug, Clone, PartialEq, Eq)]
pub enum Reason {
    /// The pattern with this name was found.
    Pattern(String),
    /// There was output a moment ago.
    RecentOutput,
    /// Neither.
    Silent,
}

/// What was concluded of a pane.
#[derive(Debug, Clone, PartialEq, Eq)]
pub struct Verdict {
    pub state: AgentState,
    /// The explanation, with the details of this sample.
    pub why: String,
    pub reason: Reason,
}

/// A reason as a mathematical value.
pub enum ReasonView {
    Pattern(Seq<char>),
    RecentOutput,
    Silent,
}

/// A verdict as a mathematical value.
#[verifier::ext_equal]
pub struct VerdictView {
    pub state: AgentState,
    pub why: Seq<char>,
    pub reason: ReasonView,
}

impl View for Reason {
    type V = ReasonView;

    open spec fn view(&self) -> ReasonView {
        match self {
            Reason::Pattern(s) => ReasonView::Pattern(s@),
            Reason::RecentOutput => ReasonView::RecentOutput,
            Reason::Silent => ReasonView::Silent,
        }
    }
}

impl View for Verdict {
    type V = VerdictView;

    open spec fn view(&self) -> VerdictView {
        VerdictView { state: self.state, why: self.why@, reason: self.reason@ }
    }
}

/// The index of the first pattern for the agent that was found, from `i` on.
pub open spec fn first_hit(
    patterns: Seq<PatternView>,
    command: Seq<char>,
    hits: Seq<bool>,
    i: int,
) -> Option<int>
    decreases patterns.len() - i,
{
    if i < 0 || i >= patterns.len() {
        None
    } else if patterns[i].applies(command) && hits[i] {
        Some(i)
    } else {
        first_hit(patterns, command, hits, i + 1)
    }
}

/// What is concluded of a pane: a pattern that is found means that the agent waits,
/// whatever else happens; else output within the window means that it works; else it is
/// idle.
pub open spec fn judged(
    rules: RulesView,
    command: Seq<char>,
    hits: Seq<bool>,
    since_nanos: u128,
) -> VerdictView {
    match first_hit(rules.patterns, command, hits, 0) {
        Some(i) => VerdictView {
            state: AgentState::NeedsInput,
            why: "matched pattern "@ + debug_text(rules.patterns[i].name),
            reason: ReasonView::Pattern(rules.patterns[i].name),
        },
        None => if since_nanos <= rules.working_nanos {
            VerdictView {
                state: AgentState::Working,
                why: "output "@ + decimal((since_nanos / 1_000_000) as nat) + "ms ago"@,
                reason: ReasonView::RecentOutput,
            }
        } else {
            VerdictView {
                state: AgentState::Idle,
                why: "no pattern matched; silent for "@ + decimal(
                    (since_nanos / 1_000_000) as nat,
                ) + "ms"@,
                reason: ReasonView::Silent,
            }
        },
    }
}

/// Which of the patterns are found on the lines.
pub open spec fn found_on(patterns: Seq<PatternView>, lines: Seq<Seq<char>>) -> Seq<bool> {
    Seq::new(patterns.len(), |i: int| patterns[i].found(lines))
}

fn join(a: &str, b: &str, c: &str) -> (r: String)
    ensures
        r@ == a@ + b@ + c@,
{
    let mut r = a.to_owned();
    append(&mut r, b);
    append(&mut r, c);
    r
}

proof fn lemma_same_hit(
    patterns: Seq<PatternView>,
    command: Seq<char>,
    a: Seq<bool>,
    b: Seq<bool>,
    i: int,
    stop: int,
)
    requires
        0 <= i <= stop <= patterns.len(),
        a.len() == patterns.len(),
        b.len() == patterns.len(),
        forall|k: int|
            0 <= k < stop && #[trigger] patterns[k].applies(command) ==> a[k] == b[k],
        stop < patterns.len() ==> patterns[stop].applies(command) && a[stop] && b[stop],
    ensures
        first_hit(patterns, command, a, i) == first_hit(patterns, command, b, i),
    decreases stop - i,
{
    if i < stop {
        lemma_same_hit(patterns, command, a, b, i + 1, stop);
    }
}

impl AgentRules {
    /// What is concluded of a pane, given which patterns are found on it.
    pub fn judge(&self, command: &str, hits: &Vec<bool>, since_nanos: u128) -> (r: Verdict)
        requires
            hits@.len() == self@.patterns.len(),
        ensures
            r@ == judged(self@, command@, hits@, since_nanos),
    {
        let mut i: usize = 0;
        while i < self.patterns.len()
            invariant
                i <= self.patterns.len(),
                hits@.len() == self.patterns@.len(),
                first_hit(self@.patterns, command@, hits@, 0) == first_hit(
                    self@.patterns,
                    command@,
                    hits@,
                    i as int,
                ),
            decreases self.patterns.len() - i,
        {
            assert(self@.patterns[i as int] == self.patterns@[i as int]@);
            if hits[i] && self.patterns[i].applies(command) {
                let name: &String = &self.patterns[i].name;
                let quote = quoted(name);
                proof {
                    reveal_strlit("");
                }
                let why = join("matched pattern ", &quote, "");
                assert(why@ =~= "matched pattern "@ + quote@);
                return Verdict {
                    state: AgentState::NeedsInput,
                    why,
                    reason: Reason::Pattern(name.clone()),
                };
            }
            i += 1;
        }
        let ms = decimal_string(since_nanos / 1_000_000);
        if since_nanos <= self.working_nanos {
            Verdict {
                state: AgentState::Working,
                why: join("output ", &ms, "ms ago"),
                reason: Reason::RecentOutput,
            }
        } else {
            Verdict {
                state: AgentState::Idle,
                why: join("no pattern matched; silent for ", &ms, "ms"),
                reason: Reason::Silent,
            }
        }
    }

    /// Classify a pane that runs an agent. `bottom` is the visible bottom of its live
    /// screen, and `since_nanos` is how long ago there was output. No pattern is tried
    /// behind the first one that is found.
    pub fn classify(&self, command: &str, bottom: &[String], since_nanos: u128) -> (r: Verdict)
        ensures
            r@ == judged(
                self@,
                command@,
                found_on(self@.patterns, texts(bottom@)),
                since_nanos,
            ),
    {
        let ghost patterns = self@.patterns;
        let ghost found = found_on(patterns, texts(bottom@));
        let mut hits: Vec<bool> = Vec::new();
        let mut hit = false;
        let mut i: usize = 0;
        let ghost mut stop: int = patterns.len() as int;
        while i < self.patterns.len()
            invariant
                i <= self.patterns.len(),
                patterns == self@.patterns,
                found == found_on(patterns, texts(bottom@)),
                hits.len() == i,
                0 <= stop <= patterns.len(),
                hit == (stop < patterns.len()),
                hit ==> stop < i && patterns[stop].applies(command@) && found[stop]
                    && hits@[stop],
                forall|k: int|
                    0 <= k < i && k < stop && #[trigger] patterns[k].applies(command@)
                        ==> hits@[k] == found[k],
            decreases self.patterns.len() - i,
        {
            assert(patterns[i as int] == self.patterns@[i as int]@);
            let now: bool = !hit && self.patterns[i].applies(command) && self.patterns[i].found(
                bottom,
            );
            hits.push(now);
            if now {
                hit = true;
                proof {
                    stop = i as int;
                }
            }
            i += 1;
        }
        proof {
            lemma_same_hit(patterns, command@, hits@, found, 0, stop);
        }
        self.judge(command, &hits, since_nanos)
    }
}

// ---------------------------------------------------------------------------
// The screen
// ---------------------------------------------------------------------------

/// The characters of a cell: the glyph with its marks, or nothing behind a wide glyph.
pub open spec fn cell_text(cell: Cell) -> Seq<char> {
    if cell.width == 0 {
        Seq::empty()
    } else {
        seq![cell.c] + cell.combining@
    }
}

/// The characters of the first `n` cells of a row, blanks at the end included.
pub open spec fn cells_text(cells: Seq<Cell>, n: int) -> Seq<char>
    decreases n,
{
    if n <= 0 {
        Seq::empty()
    } else {
        cells_text(cells, n - 1) + cell_text(cells[n - 1])
    }
}

/// The text without the spaces at its end.
pub open spec fn unpadded(s: Seq<char>) -> Seq<char>
    decreases s.len(),
{
    if s.len() > 0 && s.last() == ' ' {
        unpadded(s.drop_last())
    } else {
        s
    }
}

/// The first `n` rows as lines: those that are finished, and the text of one that goes
/// on in the next row.
pub open spec fn lines_upto(rows: Seq<Row>, n: int) -> (Seq<Seq<char>>, Option<Seq<char>>)
    decreases n,
{
    if n <= 0 {
        (Seq::empty(), None)
    } else {
        let (lines, open) = lines_upto(rows, n - 1);
        let row = rows[n - 1];
        let own = cells_text(row.cells@, row.cells@.len() as int);
        let text = match open {
            Some(t) => t + own,
            None => own,
        };
        if row.wrapped {
            (lines, Some(text))
        } else {
            (lines.push(unpadded(text)), None)
        }
    }
}

/// The rows as lines: what did not fit into one row is put together again, and the
/// spaces at the end of a line are dropped.
pub open spec fn logical_lines(rows: Seq<Row>) -> Seq<Seq<char>> {
    let (lines, open) = lines_upto(rows, rows.len() as int);
    match open {
        Some(t) => lines.push(unpadded(t)),
        None => lines,
    }
}

/// The number of lines up to the last one with anything on it, of the first `n`.
pub open spec fn filled(lines: Seq<Seq<char>>, n: int) -> int
    decreases n,
{
    if n <= 0 {
        0
    } else if lines[n - 1].len() > 0 {
        n
    } else {
        filled(lines, n - 1)
    }
}

/// The last lines with anything on them, `most` of them at most.
pub open spec fn bottom_lines(lines: Seq<Seq<char>>, most: usize) -> Seq<Seq<char>> {
    let end = filled(lines, lines.len() as int);
    lines.subrange(sub0(end, most as int), end)
}

/// The text of a row, blanks at its end included: in a row that goes on they are part of
/// the line.
fn row_text(row: &Row) -> (r: String)
    ensures
        r@ == cells_text(row.cells@, row.cells@.len() as int),
{
    let mut s = String::new();
    let mut i: usize = 0;
    while i < row.cells.len()
        invariant
            i <= row.cells.len(),
            s@ == cells_text(row.cells@, i as int),
        decreases row.cells.len() - i,
    {
        let cell = &row.cells[i];
        let ghost before = s@;
        if cell.width != 0 {
            push_char(&mut s, cell.c);
            let mut k: usize = 0;
            assert(s@ =~= before + (seq![cell.c] + cell.combining@.take(0)));
            while k < cell.combining.len()
                invariant
                    k <= cell.combining.len(),
                    s@ == before + (seq![cell.c] + cell.combining@.take(k as int)),
                decreases cell.combining.len() - k,
            {
                push_char(&mut s, cell.combining[k]);
                k += 1;
                assert(s@ =~= before + (seq![cell.c] + cell.combining@.take(k as int)));
            }
            assert(cell.combining@.take(k as int) =~= cell.combining@);
        } else {
            assert(before + Seq::<char>::empty() =~= before);
        }
        i += 1;
    }
    s
}

/// Drop the spaces at the end of a line.
fn trim_line_end(s: &str) -> (r: String)
    ensures
        r@ == unpadded(s@),
{
    let mut chars = chars_of(s);
    while chars.len() > 0 && chars[chars.len() - 1] == ' '
        invariant
            unpadded(chars@) == unpadded(s@),
        decreases chars.len(),
    {
        let ghost before = chars@;
        chars.pop();
        assert(chars@ =~= before.drop_last());
    }
    crate::text::string_of(&chars)
}

proof fn lemma_filled(lines: Seq<Seq<char>>, n: int)
    requires
        0 <= n <= lines.len(),
    ensures
        0 <= filled(lines, n) <= n,
    decreases n,
{
    if n > 0 && lines[n - 1].len() == 0 {
        lemma_filled(lines, n - 1);
    }
}

impl AgentRules {
    /// The lines that a pane is classified by: the last ones of the live screen that
    /// have anything on them, never the history. What did not fit into one row is one
    /// line.
    pub fn visible_bottom(&self, screen: &Screen) -> (r: Vec<String>)
        ensures
            texts(r@) == bottom_lines(logical_lines(screen.grid@), self@.scan_rows),
    {
        let mut lines: Vec<String> = Vec::new();
        let mut current = String::new();
        let mut continuing = false;
        assert(texts(lines@) =~= Seq::empty());
        let mut i: usize = 0;
        while i < screen.grid.len()
            invariant
                i <= screen.grid.len(),
                (
                    texts(lines@),
                    if continuing {
                        Some(current@)
                    } else {
                        None
                    },
                ) == lines_upto(screen.grid@, i as int),
            decreases screen.grid.len() - i,
        {
            let row = &screen.grid[i];
            let text = row_text(row);
            if continuing {
                append(&mut current, &text);
            } else {
                current = text;
            }
            continuing = row.wrapped;
            if !continuing {
                let ghost before = lines@;
                let line = trim_line_end(&current);
                lines.push(line);
                assert(texts(lines@) =~= texts(before).push(unpadded(current@)));
            }
            i += 1;
        }
        if continuing {
            let ghost before = lines@;
            let line = trim_line_end(&current);
            lines.push(line);
            assert(texts(lines@) =~= texts(before).push(unpadded(current@)));
        }
        let ghost all = texts(lines@);
        assert(all =~= logical_lines(screen.grid@));
        let mut end: usize = lines.len();
        while end > 0 && crate::text::no_text(&lines[end - 1])
            invariant
                end <= lines.len(),
                all == texts(lines@),
                filled(all, all.len() as int) == filled(all, end as int),
            decreases end,
        {
            assert(all[end - 1] == lines@[end - 1]@);
            end -= 1;
        }
        proof {
            if end > 0 {
                assert(all[end - 1] == lines@[end - 1]@);
            }
            assert(filled(all, end as int) == end);
        }
        let start: usize = end.saturating_sub(self.scan_rows);
        let mut out: Vec<String> = Vec::new();
        let mut k: usize = start;
        while k < end
            invariant
                start <= k <= end <= lines.len(),
                all == texts(lines@),
                texts(out@) == all.subrange(start as int, k as int),
            decreases end - k,
        {
            let ghost before = out@;
            let line = lines[k].clone();
            out.push(line);
            assert(all[k as int] == lines@[k as int]@);
            assert(texts(out@) =~= texts(before).push(all[k as int]));
            k += 1;
            assert(texts(out@) =~= all.subrange(start as int, k as int));
        }
        out
    }
}

// ---------------------------------------------------------------------------
// Laws
// ---------------------------------------------------------------------------

/// An agent that waits for an answer waits however long it is silent, and whatever it
/// still prints: as long as its question is on the screen the verdict has the same state
/// and the same reason.
pub proof fn law_waiting_never_decays(
    rules: RulesView,
    command: Seq<char>,
    hits: Seq<bool>,
    a: u128,
    b: u128,
)
    requires
        first_hit(rules.patterns, command, hits, 0) is Some,
    ensures
        judged(rules, command, hits, a).state == AgentState::NeedsInput,
        judged(rules, command, hits, a) == judged(rules, command, hits, b),
{
}

/// Two samples of a pane on which nothing changed give the same reason, though not the
/// same explanation.
pub proof fn law_an_unchanged_pane_has_the_same_reason(
    rules: RulesView,
    command: Seq<char>,
    hits: Seq<bool>,
    a: u128,
    b: u128,
)
    requires
        (a <= rules.working_nanos) == (b <= rules.working_nanos),
    ensures
        judged(rules, command, hits, a).reason == judged(rules, command, hits, b).reason,
        judged(rules, command, hits, a).state == judged(rules, command, hits, b).state,
{
}

/// A process whose own name is configured is decided by it, whatever its `argv[0]` is.
/// What comes back is always a configured command.
pub proof fn law_the_process_name_comes_first(
    commands: Seq<Seq<char>>,
    name: Seq<char>,
    argv0: Option<Seq<char>>,
)
    ensures
        commands.contains(name) ==> matched(commands, name, argv0) == Some(name),
        matched(commands, name, argv0) matches Some(c) ==> commands.contains(c),
{
    lemma_command_index(commands, name, 0);
    if let Some(b) = argv0_base(argv0) {
        lemma_command_index(commands, b, 0);
    }
}

proof fn lemma_command_index(commands: Seq<Seq<char>>, name: Seq<char>, i: int)
    requires
        0 <= i,
    ensures
        match command_index(commands, name, i) {
            Some(k) => i <= k < commands.len() && commands[k] == name,
            None => forall|k: int| i <= k < commands.len() ==> #[trigger] commands[k] != name,
        },
    decreases commands.len() - i,
{
    if i < commands.len() && commands[i] != name {
        lemma_command_index(commands, name, i + 1);
    }
}

/// No more lines are looked at than configured, and there is something on the last one.
pub proof fn law_the_scan_ends_where_the_output_ends(lines: Seq<Seq<char>>, most: usize)
    ensures
        bottom_lines(lines, most).len() <= most,
        bottom_lines(lines, most).len() > 0 ==> bottom_lines(lines, most).last().len() > 0,
        bottom_lines(lines, most).len() == 0 && most > 0 ==> forall|i: int|
            0 <= i < lines.len() ==> (#[trigger] lines[i]).len() == 0,
{
    lemma_filled(lines, lines.len() as int);
    lemma_filled_last(lines, lines.len() as int);
}

proof fn lemma_filled_last(lines: Seq<Seq<char>>, n: int)
    requires
        0 <= n <= lines.len(),
    ensures
        filled(lines, n) > 0 ==> lines[filled(lines, n) - 1].len() > 0,
        forall|i: int| filled(lines, n) <= i < n ==> (#[trigger] lines[i]).len() == 0,
    decreases n,
{
    if n > 0 && lines[n - 1].len() == 0 {
        lemma_filled_last(lines, n - 1);
    }
}

proof fn lemma_cells_joined(a: Seq<Cell>, b: Seq<Cell>, n: int)
    requires
        0 <= n <= b.len(),
    ensures
        cells_text(a + b, a.len() + n) == cells_text(a, a.len() as int) + cells_text(b, n),
    decreases n,
{
    if n > 0 {
        lemma_cells_joined(a, b, n - 1);
        assert(cells_text(a, a.len() as int) + cells_text(b, n) =~= cells_text(a, a.len() as int)
            + cells_text(b, n - 1) + cell_text(b[n - 1]));
    } else {
        lemma_cells_prefix(a, b, a.len() as int);
        assert(cells_text(a, a.len() as int) + Seq::<char>::empty() =~= cells_text(
            a,
            a.len() as int,
        ));
    }
}

proof fn lemma_cells_prefix(a: Seq<Cell>, b: Seq<Cell>, n: int)
    requires
        0 <= n <= a.len(),
    ensures
        cells_text(a + b, n) == cells_text(a, n),
    decreases n,
{
    if n > 0 {
        lemma_cells_prefix(a, b, n - 1);
    }
}

/// Where a line breaks because the pane is narrow makes no difference: a row that goes
/// on in the next one reads as if the two were one row.
pub proof fn law_a_wrapped_line_reads_as_one(
    before: Seq<Row>,
    first: Row,
    second: Row,
    whole: Row,
    behind: Seq<Row>,
)
    requires
        first.wrapped,
        whole.wrapped == second.wrapped,
        whole.cells@ == first.cells@ + second.cells@,
    ensures
        logical_lines(before + seq![first, second] + behind) == logical_lines(
            before + seq![whole] + behind,
        ),
{
    lemma_wrapped(before, first, second, whole, behind, behind.len() as int);
    assert((before + seq![first, second] + behind).len() == before.len() + 2 + behind.len());
    assert((before + seq![whole] + behind).len() == before.len() + 1 + behind.len());
}

proof fn lemma_lines_prefix(a: Seq<Row>, b: Seq<Row>, n: int)
    requires
        0 <= n <= a.len(),
    ensures
        lines_upto(a + b, n) == lines_upto(a, n),
    decreases n,
{
    if n > 0 {
        lemma_lines_prefix(a, b, n - 1);
    }
}

proof fn lemma_wrapped(
    before: Seq<Row>,
    first: Row,
    second: Row,
    whole: Row,
    behind: Seq<Row>,
    n: int,
)
    requires
        0 <= n <= behind.len(),
        first.wrapped,
        whole.wrapped == second.wrapped,
        whole.cells@ == first.cells@ + second.cells@,
    ensures
        lines_upto(before + seq![first, second] + behind, before.len() + 2 + n) == lines_upto(
            before + seq![whole] + behind,
            before.len() + 1 + n,
        ),
    decreases n,
{
    let a = before + seq![first, second] + behind;
    let b = before + seq![whole] + behind;
    let m = before.len() as int;
    if n == 0 {
        assert(a =~= before + (seq![first, second] + behind));
        assert(b =~= before + (seq![whole] + behind));
        lemma_lines_prefix(before, seq![first, second] + behind, m);
        lemma_lines_prefix(before, seq![whole] + behind, m);
        assert(a[m] == first && a[m + 1] == second && b[m] == whole);
        lemma_cells_joined(first.cells@, second.cells@, second.cells@.len() as int);
        let x = cells_text(first.cells@, first.cells@.len() as int);
        let y = cells_text(second.cells@, second.cells@.len() as int);
        let (lines, open) = lines_upto(before, m);
        assert(lines_upto(a, m) == lines_upto(b, m));
        assert(lines_upto(a, m + 1) == (
            lines,
            Some(
                match open {
                    Some(t) => t + x,
                    None => x,
                },
            ),
        ));
        if let Some(t) = open {
            assert((t + x) + y =~= t + (x + y));
        }
    } else {
        lemma_wrapped(before, first, second, whole, behind, n - 1);
        assert(a[m + 2 + n - 1] == behind[n - 1]);
        assert(b[m + 1 + n - 1] == behind[n - 1]);
    }
}

} // verus!
