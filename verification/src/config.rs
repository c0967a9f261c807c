//! The configuration: which roots to watch, and which commands to run for
//! which paths.

use vstd::prelude::*;

verus! {

/// One configured action, as the configuration file gives it.
#[derive(Debug)]
pub struct CommandConfig {
    /// The include pattern: a path must match it for the action to run.
    pub regex: String,
    /// Exclude patterns: a path that matches one of them never runs the action.
    pub exclude: Option<Vec<String>>,
    /// A single command line.
    pub cmd: Option<String>,
    /// Several command lines, run in order.
    pub chain: Option<Vec<String>>,
}

/// The mathematical value of a `CommandConfig`.
pub struct CommandConfigView {
    pub regex: Seq<char>,
    pub exclude: Option<Seq<Seq<char>>>,
    pub cmd: Option<Seq<char>>,
    pub chain: Option<Seq<Seq<char>>>,
}

impl View for CommandConfig {
    type V = CommandConfigView;

    open spec fn view(&self) -> CommandConfigView {
        CommandConfigView {
            regex: self.regex@,
            exclude: self.exclude.deep_view(),
            cmd: self.cmd.deep_view(),
            chain: self.chain.deep_view(),
        }
    }
}

impl CommandConfigView {
    /// The command lines of the action, in the order in which they run:
    /// `cmd` alone where it is given, else the lines of `chain`, else none.
    pub open spec fn command_lines(self) -> Seq<Seq<char>> {
        match (self.cmd, self.chain) {
            (Some(line), _) => seq![line],
            (None, Some(lines)) => lines,
            (None, None) => Seq::empty(),
        }
    }
}

/// The whole configuration.
#[derive(Debug)]
pub struct Config {
    /// The roots to watch; the current directory where none is given.
    pub paths: Option<Vec<String>>,
    /// The actions, in the order in which they are tried.
    pub commands: Vec<CommandConfig>,
}

/// The mathematical value of a `Config`.
pub struct ConfigView {
    pub paths: Option<Seq<Seq<char>>>,
    pub commands: Seq<CommandConfigView>,
}

impl View for Config {
    type V = ConfigView;

    open spec fn view(&self) -> ConfigView {
        ConfigView {
            paths: self.paths.deep_view(),
            commands: Seq::new(self.commands.len() as nat, |i: int| self.commands[i]@),
        }
    }
}

impl ConfigView {
    /// The roots to watch: those configured, or the current directory alone.
    pub open spec fn watch_roots(self) -> Seq<Seq<char>> {
        match self.paths {
            Some(roots) => roots,
            None => seq!["."@],
        }
    }
}

/// A copy of a list of strings.
pub fn copy_strings(list: &Vec<String>) -> (out: Vec<String>)
    ensures
        out.deep_view() == list.deep_view(),
{
    let mut out: Vec<String> = Vec::new();
    let mut i: usize = 0;
    while i < list.len()
        invariant
            i <= list.len(),
            out.len() == i,
            forall|j: int| 0 <= j < i ==> out[j]@ == list[j]@,
        decreases list.len() - i,
    {
        out.push(list[i].clone());
        i += 1;
    }
    assert(out.deep_view() =~= list.deep_view());
    out
}

impl CommandConfig {
    /// The command lines of the action, in the order in which they run.
    pub fn command_lines(&self) -> (lines: Vec<String>)
        ensures
            lines.deep_view() == self@.command_lines(),
    {
        match &self.cmd {
            Some(line) => {
                let lines = vec![line.clone()];
                assert(lines.deep_view() =~= seq![line@]);
                lines
            },
            None => match &self.chain {
                Some(chain) => copy_strings(chain),
                None => {
                    let lines: Vec<String> = Vec::new();
                    assert(lines.deep_view() =~= Seq::<Seq<char>>::empty());
                    lines
                },
            },
        }
    }
}

impl Config {
    /// The roots to watch.
    pub fn watch_roots(&self) -> (roots: Vec<String>)
        ensures
            roots.deep_view() == self@.watch_roots(),
    {
        match &self.paths {
            Some(paths) => copy_strings(paths),
            None => {
                let roots = vec![".".to_owned()];
                assert(roots.deep_view() =~= seq!["."@]);
                roots
            },
        }
    }
}

} // verus!
