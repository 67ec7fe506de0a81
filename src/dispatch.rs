//! Dispatch of a chat line over a set of commands: which command runs, with which
//! arguments, and which help texts are shown on the way.

use vstd::prelude::*;
use crate::command::{extract_spec, Args, Command, ExtractResult, Extracted, Schema};

verus! {

/// What the caller is to do for a line.
#[derive(Debug)]
pub enum Action {
    /// Reply with the help text of the command at this index.
    Help(usize),
    /// Reply that the sender may not run the command at this index.
    Denied(usize),
    /// Run the command at this index with these arguments.
    Run(usize, Args),
}

/// An action as a mathematical value.
pub enum Step {
    Help(nat),
    Denied(nat),
    Run(nat, Seq<(Seq<char>, Seq<char>)>),
}

impl View for Action {
    type V = Step;

    open spec fn view(&self) -> Step {
        match self {
            Action::Help(i) => Step::Help(*i as nat),
            Action::Denied(i) => Step::Denied(*i as nat),
            Action::Run(i, a) => Step::Run(*i as nat, a@),
        }
    }
}

/// The actions for `line` from the command at index `i` on: a command whose required
/// argument is missing adds its help and the search goes on; the first command that
/// matches ends it, run or, when it is elevated and the sender is not privileged, denied.
pub open spec fn decide(cmds: Seq<Schema>, i: int, line: Seq<char>, privileged: bool) -> Seq<Step>
    decreases cmds.len() - i,
{
    if i < 0 || i >= cmds.len() {
        Seq::empty()
    } else {
        match extract_spec(cmds[i].name, cmds[i].slots, line) {
            Extracted::NoMatch => decide(cmds, i + 1, line, privileged),
            Extracted::Required => seq![Step::Help(i as nat)] + decide(
                cmds,
                i + 1,
                line,
                privileged,
            ),
            Extracted::Found(m) => if cmds[i].elevated && !privileged {
                seq![Step::Denied(i as nat)]
            } else {
                seq![Step::Run(i as nat, m)]
            },
        }
    }
}

/// The commands, tried in the order they were added.
pub struct CommandDispatch {
    commands: Vec<Command>,
}

impl View for CommandDispatch {
    type V = Seq<Schema>;

    closed spec fn view(&self) -> Seq<Schema> {
        self.commands@.map_values(|c: Command| c@)
    }
}

impl CommandDispatch {
    /// A dispatcher without commands.
    pub fn new() -> (r: Self)
        ensures
            r@ == Seq::<Schema>::empty(),
    {
        let r = CommandDispatch { commands: Vec::new() };
        assert(r@ =~= Seq::<Schema>::empty());
        r
    }

    /// Adds `cmd` after the commands already there.
    pub fn add(&mut self, cmd: Command)
        ensures
            final(self)@ == old(self)@.push(cmd@),
    {
        let ghost before = self@;
        self.commands.push(cmd);
        assert(self@ =~= before.push(cmd@));
    }

    /// The commands, in order.
    pub fn commands(&self) -> (r: &Vec<Command>)
        ensures
            r@.map_values(|c: Command| c@) == self@,
    {
        &self.commands
    }

    /// What to do for `line`, sent by a privileged user or not.
    pub fn call(&self, line: &str, privileged: bool) -> (r: Vec<Action>)
        ensures
            r@.map_values(|a: Action| a@) == decide(self@, 0, line@, privileged),
    {
        let ghost cmds = self@;
        let mut out: Vec<Action> = Vec::new();
        let mut i: usize = 0;
        assert(out@.map_values(|a: Action| a@) =~= Seq::<Step>::empty());
        while i < self.commands.len()
            invariant_except_break
                decide(cmds, 0, line@, privileged) == out@.map_values(|a: Action| a@) + decide(
                    cmds,
                    i as int,
                    line@,
                    privileged,
                ),
            invariant
                0 <= i <= self.commands.len(),
                cmds == self@,
                cmds.len() == self.commands.len(),
            ensures
                decide(cmds, 0, line@, privileged) == out@.map_values(|a: Action| a@),
            decreases self.commands.len() - i,
        {
            let ghost before = out@.map_values(|a: Action| a@);
            assert(cmds[i as int] == self.commands@[i as int]@);
            match self.commands[i].extract(line) {
                ExtractResult::NoMatch => {},
                ExtractResult::Required => {
                    out.push(Action::Help(i));
                    assert(out@.map_values(|a: Action| a@) =~= before + seq![
                        Step::Help(i as nat),
                    ]);
                },
                ExtractResult::Found(args) => {
                    if self.commands[i].is_elevated() && !privileged {
                        out.push(Action::Denied(i));
                    } else {
                        out.push(Action::Run(i, args));
                    }
                    assert(out@.map_values(|a: Action| a@) =~= before + decide(
                        cmds,
                        i as int,
                        line@,
                        privileged,
                    ));
                    break ;
                },
            }
            i += 1;
        }
        out
    }
}

} // verus!
