//! The command line of a tool server and the table that names it.

use vstd::prelude::*;

verus! {

/// What is needed to start a child tool server: the executable, its arguments
/// in order, and the environment variables to set for it.
#[derive(Debug)]
pub struct Command {
    pub executable: String,
    pub args: Vec<String>,
    pub env: Vec<(String, String)>,
}

/// The mathematical value of a [`Command`].
pub struct CommandView {
    pub executable: Seq<char>,
    pub args: Seq<Seq<char>>,
    pub env: Seq<(Seq<char>, Seq<char>)>,
}

impl View for Command {
    type V = CommandView;

    open spec fn view(&self) -> CommandView {
        CommandView {
            executable: self.executable@,
            args: Seq::new(self.args@.len(), |i: int| self.args@[i]@),
            env: Seq::new(self.env@.len(), |i: int| (self.env@[i].0@, self.env@[i].1@)),
        }
    }
}

/// A lookup of a server identifier failed.
#[derive(Debug)]
pub enum LookupError {
    /// The table holds no server of this identifier.
    UnknownServerId(String),
}

/// The identifier of the virtualization tool server.
pub open spec fn virtualization_server_id() -> Seq<char> {
    "virtualization-mcp"@
}

/// The command that starts the virtualization tool server.
pub open spec fn virtualization_command() -> CommandView {
    CommandView {
        executable: "uv"@,
        args: seq!["run"@, "virtualization_mcp.all_tools_server:main"@],
        env: Seq::empty(),
    }
}

/// The table of known servers: the command of `id`, if it names one.
pub open spec fn command_table(id: Seq<char>) -> Option<CommandView> {
    if id == virtualization_server_id() {
        Some(virtualization_command())
    } else {
        None
    }
}

/// Looks up the command that starts the server named `id`.
pub fn context_server_command(id: &str) -> (res: Result<Command, LookupError>)
    ensures
        match res {
            Ok(cmd) => command_table(id@) == Some(cmd@),
            Err(LookupError::UnknownServerId(name)) => command_table(id@).is_none() && name@ == id@,
        },
{
    let name = id.to_owned();
    if name == "virtualization-mcp".to_owned() {
        let mut args: Vec<String> = Vec::new();
        args.push("run".to_owned());
        args.push("virtualization_mcp.all_tools_server:main".to_owned());
        let cmd = Command { executable: "uv".to_owned(), args, env: Vec::new() };
        assert(cmd@.args =~= virtualization_command().args);
        assert(cmd@.env =~= virtualization_command().env);
        Ok(cmd)
    } else {
        Err(LookupError::UnknownServerId(name))
    }
}

} // verus!
