//! The commands that are sent to the window manager, and the batch that
//! carries several of them in one request.

use crate::text::{decimal, integer_text, join, joined};
use vstd::prelude::*;
use vstd::string::*;

verus! {

/// Commands collected for one request to the window manager.
///
/// The window manager runs the commands of one request in order, so a batch
/// is seen as a single change of state.
#[derive(Debug)]
pub struct BatchBuilder {
    cmds: Vec<String>,
}

impl View for BatchBuilder {
    type V = Seq<Seq<char>>;

    /// The commands pushed so far, oldest first.
    closed spec fn view(&self) -> Seq<Seq<char>> {
        self.cmds@.map_values(|cmd: String| cmd@)
    }
}

impl BatchBuilder {
    /// A batch without commands.
    pub fn new() -> (batch: BatchBuilder)
        ensures
            batch@ == Seq::<Seq<char>>::empty(),
    {
        let batch = BatchBuilder { cmds: Vec::new() };
        assert(batch@ =~= Seq::<Seq<char>>::empty());
        batch
    }

    /// Adds a command after those already in the batch.
    pub fn push(&mut self, cmd: &str)
        ensures
            final(self)@ == old(self)@.push(cmd@),
    {
        self.cmds.push(String::from_str(cmd));
        assert(self@ =~= old(self)@.push(cmd@));
    }

    /// The number of commands in the batch.
    pub fn len(&self) -> (n: usize)
        ensures
            n == self@.len(),
    {
        self.cmds.len()
    }

    /// The request text: the commands in order, with `;` between them.
    pub fn build(&self) -> (request: String)
        ensures
            request@ == joined(self@, ";"@),
    {
        join(&self.cmds, ";")
    }
}

/// The command that focuses the container with the given identifier.
pub open spec fn focus_command_text(id: int) -> Seq<char> {
    "[con_id=\""@ + decimal(id) + "\"] focus"@
}

/// The command that focuses the window with the given X11 identifier.
pub open spec fn focus_window_command_text(id: int) -> Seq<char> {
    "[id=\""@ + decimal(id) + "\"] focus"@
}

/// The command that focuses a container. Every node of the tree has a
/// container identifier.
pub fn focus_command(id: i64) -> (cmd: String)
    ensures
        cmd@ == focus_command_text(id as int),
{
    let mut cmd = String::from_str("[con_id=\"");
    cmd.append(integer_text(id).as_str());
    cmd.append("\"] focus");
    cmd
}

/// The command that focuses a window by its X11 identifier.
pub fn focus_window_command(id: i32) -> (cmd: String)
    ensures
        cmd@ == focus_window_command_text(id as int),
{
    let mut cmd = String::from_str("[id=\"");
    cmd.append(integer_text(id as i64).as_str());
    cmd.append("\"] focus");
    cmd
}

} // verus!
