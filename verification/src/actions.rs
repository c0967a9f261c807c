//! Actions: a compiled include pattern, optional exclude patterns, and the
//! chain of steps to run for a path that the patterns let through.

use crate::command::{step_of_line, step_views, Step, StepView};
use crate::config::{CommandConfig, CommandConfigView, Config};
use regex::RegexSet;
use vstd::prelude::*;

verus! {

/// A compiled set of regular expressions of the `regex` crate.
#[verifier::external_type_specification]
#[verifier::external_body]
pub struct ExRegexSet(regex::RegexSet);

/// The error with which the `regex` crate refuses a pattern.
#[verifier::external_type_specification]
#[verifier::external_body]
pub struct ExRegexError(regex::Error);

/// The patterns that a set was compiled from, in the order in which they
/// were given: what `RegexSet::patterns` returns.
pub uninterp spec fn set_patterns(set: RegexSet) -> Seq<Seq<char>>;

/// Whether a set was compiled with the options of `RegexSet::new`, and not
/// with others that a `RegexSetBuilder` can set (case-insensitive matching
/// and the like). Two sets of the same patterns answer alike only where
/// both were compiled with the same options.
pub uninterp spec fn set_plain(set: RegexSet) -> bool;

/// Whether `RegexSet::new` accepts the patterns.
pub uninterp spec fn patterns_compile(patterns: Seq<Seq<char>>) -> bool;

/// Whether a set compiled by `RegexSet::new` from `patterns` matches
/// somewhere in `text`: what `RegexSet::is_match` returns on such a set,
/// true when at least one pattern matches.
pub uninterp spec fn patterns_match(patterns: Seq<Seq<char>>, text: Seq<char>) -> bool;

/// Calls `RegexSet::new`. It succeeds on the patterns that the crate
/// accepts, a property of the patterns alone; the set is then compiled with
/// the options of `RegexSet::new` and holds the patterns as they were given.
#[verifier::external_body]
fn compile_patterns(patterns: &Vec<String>) -> (out: Result<RegexSet, regex::Error>)
    ensures
        out is Ok <==> patterns_compile(patterns.deep_view()),
        out matches Ok(set) ==> set_plain(set) && set_patterns(set) == patterns.deep_view(),
{
    RegexSet::new(patterns)
}

/// `RegexSet::is_match` tells whether one of the set's patterns matches
/// somewhere in the text. For a set compiled with the options of
/// `RegexSet::new` that is a property of the patterns and the text alone;
/// of a set compiled with other options nothing is claimed.
pub assume_specification[ RegexSet::is_match ](set: &RegexSet, haystack: &str) -> (hit: bool)
    ensures
        set_plain(*set) ==> hit == patterns_match(set_patterns(*set), haystack@),
;

/// Something that a changed path may set off.
pub trait Action {
    /// Whether a change of `path` makes the action run.
    spec fn triggers_on(&self, path: Seq<char>) -> bool;

    /// Decides whether a change of `path` makes the action run.
    fn matches(&self, path: &str) -> (hit: bool)
        ensures
            hit == self.triggers_on(path@),
    ;
}

/// An action that runs a chain of commands.
#[derive(Debug)]
pub struct CommandAction {
    pattern: RegexSet,
    exclude: Option<RegexSet>,
    steps: Vec<Step>,
}

/// The mathematical value of a `CommandAction`.
pub struct ActionView {
    /// The include patterns: exactly one in an action built by `new`.
    pub pattern: Seq<Seq<char>>,
    /// The exclude patterns, where the action has any.
    pub exclude: Option<Seq<Seq<char>>>,
    /// The chain, in the order in which it runs.
    pub steps: Seq<StepView>,
}

impl ActionView {
    /// Whether the path matches the include pattern.
    pub open spec fn includes(self, path: Seq<char>) -> bool {
        patterns_match(self.pattern, path)
    }

    /// Whether the path matches an exclude pattern.
    pub open spec fn excludes(self, path: Seq<char>) -> bool {
        match self.exclude {
            Some(patterns) => patterns_match(patterns, path),
            None => false,
        }
    }

    /// Whether a change of `path` runs the chain: the path is not excluded,
    /// and it is included.
    pub open spec fn triggers_on(self, path: Seq<char>) -> bool {
        !self.excludes(path) && self.includes(path)
    }
}

/// Why a configured action was refused.
#[derive(Debug)]
pub enum ActionError {
    /// The include pattern is no regular expression.
    InvalidInclude { message: String },
    /// One of the exclude patterns is no regular expression.
    InvalidExclude { message: String },
    /// The command line at `index` holds no program.
    EmptyCommand { index: usize },
}

/// The steps that a list of command lines stands for.
pub open spec fn steps_of_lines(lines: Seq<Seq<char>>) -> Seq<StepView> {
    Seq::new(lines.len(), |i: int| step_of_line(lines[i])->0)
}

/// Whether a configured action can be compiled: its patterns are regular
/// expressions, and each of its command lines holds a program.
pub open spec fn acceptable(config: CommandConfigView) -> bool {
    &&& patterns_compile(seq![config.regex])
    &&& config.exclude matches Some(patterns) ==> patterns_compile(patterns)
    &&& forall|i: int|
        0 <= i < config.command_lines().len() ==> step_of_line(
            #[trigger] config.command_lines()[i],
        ) is Some
}

/// The action that an acceptable configuration compiles to.
pub open spec fn compiled(config: CommandConfigView) -> ActionView {
    ActionView {
        pattern: seq![config.regex],
        exclude: config.exclude,
        steps: steps_of_lines(config.command_lines()),
    }
}

/// What compiling a configured action gives: the action, or the first
/// reason to refuse it. The include pattern is looked at first, then the
/// exclude patterns, then the command lines in order.
pub open spec fn compiles_to(config: CommandConfigView, out: Result<ActionView, ActionError>) -> bool {
    let lines = config.command_lines();
    let patterns_ok = patterns_compile(seq![config.regex]) && (config.exclude matches Some(
        patterns,
    ) ==> patterns_compile(patterns));
    match out {
        Ok(action) => acceptable(config) && action == compiled(config),
        Err(ActionError::InvalidInclude { .. }) => !patterns_compile(seq![config.regex]),
        Err(ActionError::InvalidExclude { .. }) => {
            &&& patterns_compile(seq![config.regex])
            &&& config.exclude matches Some(patterns)
            &&& !patterns_compile(patterns)
        },
        Err(ActionError::EmptyCommand { index }) => {
            &&& patterns_ok
            &&& index < lines.len()
            &&& step_of_line(lines[index as int]) is None
            &&& forall|i: int| 0 <= i < index ==> step_of_line(#[trigger] lines[i]) is Some
        },
    }
}

/// The outcome of compiling, with the action taken by its value.
pub open spec fn outcome_view(out: Result<CommandAction, ActionError>) -> Result<
    ActionView,
    ActionError,
> {
    match out {
        Ok(action) => Ok(action@),
        Err(e) => Err(e),
    }
}

/// Why the configuration as a whole was refused: the position of the first
/// action that cannot be compiled, and the reason.
#[derive(Debug)]
pub struct StartupError {
    pub action: usize,
    pub reason: ActionError,
}

impl CommandAction {
    /// An action holds exactly one include pattern, and its sets are
    /// compiled with the options of `RegexSet::new`.
    #[verifier::type_invariant]
    spec fn well_formed(self) -> bool {
        &&& set_patterns(self.pattern).len() == 1
        &&& set_plain(self.pattern)
        &&& self.exclude matches Some(set) ==> set_plain(set)
    }
}

impl View for CommandAction {
    type V = ActionView;

    closed spec fn view(&self) -> ActionView {
        ActionView {
            pattern: set_patterns(self.pattern),
            exclude: match self.exclude {
                Some(set) => Some(set_patterns(set)),
                None => None,
            },
            steps: step_views(self.steps@),
        }
    }
}

/// Reads the steps of a chain; on the first line without a program, its
/// position.
fn parse_steps(lines: &Vec<String>) -> (out: Result<Vec<Step>, usize>)
    ensures
        match out {
            Ok(steps) => {
                &&& forall|i: int|
                    0 <= i < lines.len() ==> step_of_line(#[trigger] lines.deep_view()[i]) is Some
                &&& step_views(steps@) == steps_of_lines(lines.deep_view())
            },
            Err(index) => {
                &&& index < lines.len()
                &&& step_of_line(lines.deep_view()[index as int]) is None
                &&& forall|i: int|
                    0 <= i < index ==> step_of_line(#[trigger] lines.deep_view()[i]) is Some
            },
        },
{
    let mut steps: Vec<Step> = Vec::new();
    let mut i: usize = 0;
    while i < lines.len()
        invariant
            i <= lines.len(),
            steps.len() == i,
            forall|j: int| 0 <= j < i ==> step_of_line(#[trigger] lines.deep_view()[j]) == Some(steps[j]@),
        decreases lines.len() - i,
    {
        assert(lines.deep_view()[i as int] == lines[i as int]@);
        match Step::parse(lines[i].as_str()) {
            Some(step) => {
                steps.push(step);
            },
            None => {
                return Err(i);
            },
        }
        i += 1;
    }
    assert(step_views(steps@) =~= steps_of_lines(lines.deep_view()));
    Ok(steps)
}

impl CommandAction {
    /// Compiles a configured action.
    pub fn new(config: CommandConfig) -> (out: Result<CommandAction, ActionError>)
        ensures
            compiles_to(config@, outcome_view(out)),
    {
        CommandAction::compile(&config)
    }

    /// Compiles a configured action that the caller keeps.
    pub fn compile(config: &CommandConfig) -> (out: Result<CommandAction, ActionError>)
        ensures
            compiles_to(config@, outcome_view(out)),
    {
        let wanted = vec![config.regex.clone()];
        assert(wanted.deep_view() =~= seq![config.regex@]);
        let pattern = match compile_patterns(&wanted) {
            Ok(set) => set,
            Err(e) => {
                return Err(ActionError::InvalidInclude { message: e.to_string() });
            },
        };
        let exclude = match &config.exclude {
            Some(patterns) => match compile_patterns(patterns) {
                Ok(set) => Some(set),
                Err(e) => {
                    return Err(ActionError::InvalidExclude { message: e.to_string() });
                },
            },
            None => None,
        };
        let lines = config.command_lines();
        let steps = match parse_steps(&lines) {
            Ok(steps) => steps,
            Err(index) => {
                return Err(ActionError::EmptyCommand { index });
            },
        };
        Ok(CommandAction { pattern, exclude, steps })
    }

    /// The number of steps in the chain.
    pub fn step_count(&self) -> (n: usize)
        ensures
            n == self@.steps.len(),
    {
        self.steps.len()
    }

    /// The step at position `index` of the chain.
    pub fn step(&self, index: usize) -> (step: Option<&Step>)
        ensures
            match step {
                Some(s) => index < self@.steps.len() && s@ == self@.steps[index as int],
                None => index >= self@.steps.len(),
            },
    {
        if index < self.steps.len() {
            Some(&self.steps[index])
        } else {
            None
        }
    }
}

impl Action for CommandAction {
    open spec fn triggers_on(&self, path: Seq<char>) -> bool {
        self@.triggers_on(path)
    }

    fn matches(&self, path: &str) -> (hit: bool) {
        proof {
            use_type_invariant(self);
        }
        let excluded = match &self.exclude {
            Some(set) => set.is_match(path),
            None => false,
        };
        !excluded && self.pattern.is_match(path)
    }
}

/// Compiles every action of the configuration, in order. The first action
/// that is refused ends the attempt: a configuration is taken whole or not
/// at all.
pub fn compile_actions(config: &Config) -> (out: Result<Vec<CommandAction>, StartupError>)
    ensures
        match out {
            Ok(actions) => {
                &&& actions.len() == config@.commands.len()
                &&& forall|i: int|
                    0 <= i < actions.len() ==> acceptable(#[trigger] config@.commands[i])
                        && actions[i]@ == compiled(config@.commands[i])
            },
            Err(e) => {
                &&& e.action < config@.commands.len()
                &&& compiles_to(config@.commands[e.action as int], Err(e.reason))
                &&& forall|i: int| 0 <= i < e.action ==> acceptable(#[trigger] config@.commands[i])
            },
        },
{
    let mut actions: Vec<CommandAction> = Vec::new();
    let mut i: usize = 0;
    while i < config.commands.len()
        invariant
            i <= config.commands.len(),
            actions.len() == i,
            forall|j: int|
                0 <= j < i ==> acceptable(#[trigger] config@.commands[j]) && actions[j]@
                    == compiled(config@.commands[j]),
        decreases config.commands.len() - i,
    {
        assert(config@.commands[i as int] == config.commands[i as int]@);
        match CommandAction::compile(&config.commands[i]) {
            Ok(action) => {
                actions.push(action);
            },
            Err(reason) => {
                return Err(StartupError { action: i, reason });
            },
        }
        i += 1;
    }
    Ok(actions)
}

/// A path that matches an exclude pattern never runs the chain, whether or
/// not it also matches the include pattern.
pub proof fn lemma_excluded_path_never_triggers(action: ActionView, path: Seq<char>)
    requires
        action.excludes(path),
    ensures
        !action.triggers_on(path),
{
}

/// Without exclude patterns, the chain runs for exactly the paths that match
/// the include pattern.
pub proof fn lemma_unfiltered_action_triggers_iff_included(action: ActionView, path: Seq<char>)
    requires
        action.exclude is None,
    ensures
        action.triggers_on(path) <==> action.includes(path),
{
}

} // verus!
