//! The messages that sessions send about terminals, the name under which a
//! terminal is kept, and the output that is held back for a session that
//! is away.

use vstd::prelude::*;
use vstd::string::StringExecFns;
use std::collections::VecDeque;

verus! {

/// The number of chunks of output that are held back at most.
pub const MAX_TERMINAL_BUFFER: usize = 500;

/// The rows of a terminal whose size was not asked for.
pub const DEFAULT_ROWS: u16 = 30;

/// The columns of a terminal whose size was not asked for.
pub const DEFAULT_COLS: u16 = 80;

/// A session starts a terminal, or comes back to one.
#[derive(Debug, Clone)]
pub struct TerminalStartRequest {
    pub name: String,
    pub session: String,
    pub cmd: Option<String>,
    pub rows: Option<u16>,
    pub cols: Option<u16>,
}

/// A session types into a terminal.
#[derive(Debug, Clone)]
pub struct TerminalInputRequest {
    pub name: String,
    pub input: String,
    pub session: String,
}

/// A session resizes a terminal.
#[derive(Debug, Clone)]
pub struct TerminalResizeRequest {
    pub name: String,
    pub session: String,
    pub cols: u16,
    pub rows: u16,
}

/// A session closes a terminal.
#[derive(Debug, Clone)]
pub struct TerminalCloseRequest {
    pub name: String,
    pub session: String,
}

/// A session comes back to a terminal.
#[derive(Debug, Clone)]
pub struct TerminalReconnectRequest {
    pub name: String,
    pub session: String,
}

/// The name under which the terminal `name` of the session `session` is
/// kept: the session, a hyphen and the name.
pub open spec fn terminal_key(session: Seq<char>, name: Seq<char>) -> Seq<char> {
    session + "-"@ + name
}

/// The name under which the terminal `name` of the session `session` is
/// kept.
pub fn terminal_id(session: &str, name: &str) -> (id: String)
    ensures
        id@ == terminal_key(session@, name@),
{
    let mut id = session.to_string();
    id.append("-");
    id.append(name);
    id
}

/// The channel on which the output of the terminal `name` is sent.
pub fn data_channel(name: &str) -> (channel: String)
    ensures
        channel@ == "terminal:data:"@ + name@,
{
    let mut channel = "terminal:data:".to_string();
    channel.append(name);
    channel
}

impl TerminalStartRequest {
    /// The name under which the terminal is kept.
    pub fn id(&self) -> (id: String)
        ensures
            id@ == terminal_key(self.session@, self.name@),
    {
        terminal_id(self.session.as_str(), self.name.as_str())
    }

    /// The rows and columns of the terminal: those asked for, else 30 rows
    /// and 80 columns.
    pub fn size(&self) -> (r: (u16, u16))
        ensures
            r.0 == match self.rows {
                Some(rows) => rows,
                None => DEFAULT_ROWS,
            },
            r.1 == match self.cols {
                Some(cols) => cols,
                None => DEFAULT_COLS,
            },
    {
        let rows = match self.rows {
            Some(rows) => rows,
            None => DEFAULT_ROWS,
        };
        let cols = match self.cols {
            Some(cols) => cols,
            None => DEFAULT_COLS,
        };
        (rows, cols)
    }
}

impl TerminalInputRequest {
    /// The name under which the terminal is kept.
    pub fn id(&self) -> (id: String)
        ensures
            id@ == terminal_key(self.session@, self.name@),
    {
        terminal_id(self.session.as_str(), self.name.as_str())
    }
}

impl TerminalResizeRequest {
    /// The name under which the terminal is kept.
    pub fn id(&self) -> (id: String)
        ensures
            id@ == terminal_key(self.session@, self.name@),
    {
        terminal_id(self.session.as_str(), self.name.as_str())
    }
}

impl TerminalCloseRequest {
    /// The name under which the terminal is kept.
    pub fn id(&self) -> (id: String)
        ensures
            id@ == terminal_key(self.session@, self.name@),
    {
        terminal_id(self.session.as_str(), self.name.as_str())
    }
}

impl TerminalReconnectRequest {
    /// The name under which the terminal is kept.
    pub fn id(&self) -> (id: String)
        ensures
            id@ == terminal_key(self.session@, self.name@),
    {
        terminal_id(self.session.as_str(), self.name.as_str())
    }
}

/// The shells that are looked for where none is named, in this order.
pub const COMMON_SHELLS: [&'static str; 3] = ["/bin/zsh", "/bin/bash", "/bin/sh"];

/// The shell that a terminal runs where its request names no command, on a
/// platform that is not Windows: the shell that the environment names;
/// else the first of `COMMON_SHELLS` that is installed; else `/bin/sh`.
/// `installed` tells for each of `COMMON_SHELLS` whether it is there.
pub open spec fn shell_for(shell_var: Option<Seq<char>>, installed: Seq<bool>) -> Seq<char> {
    match shell_var {
        Some(shell) => shell,
        None => if installed.len() > 0 && installed[0] {
            "/bin/zsh"@
        } else if installed.len() > 1 && installed[1] {
            "/bin/bash"@
        } else {
            "/bin/sh"@
        },
    }
}

/// The shell that a terminal runs where its request names no command:
/// `cmd.exe` on Windows, else what `shell_for` says.
pub fn default_shell(windows: bool, shell_var: Option<String>, installed: &Vec<bool>) -> (shell:
    String)
    ensures
        shell@ == if windows {
            "cmd.exe"@
        } else {
            shell_for(
                match shell_var {
                    Some(s) => Some(s@),
                    None => None,
                },
                installed@,
            )
        },
{
    if windows {
        return "cmd.exe".to_string();
    }
    match shell_var {
        Some(shell) => shell,
        None => {
            if installed.len() > 0 && installed[0] {
                "/bin/zsh".to_string()
            } else if installed.len() > 1 && installed[1] {
                "/bin/bash".to_string()
            } else {
                "/bin/sh".to_string()
            }
        },
    }
}

/// Whether a chunk of output has to be held back: no session is attached,
/// or not every attached session took the chunk. `deliveries` tells for
/// each attached session whether it took the chunk.
pub fn needs_buffer(deliveries: &Vec<bool>) -> (r: bool)
    ensures
        r == (deliveries@.len() == 0 || exists|i: int|
            0 <= i < deliveries@.len() && !deliveries@[i]),
{
    if deliveries.len() == 0 {
        return true;
    }
    let mut i: usize = 0;
    while i < deliveries.len()
        invariant
            0 <= i <= deliveries@.len(),
            forall|j: int| 0 <= j < i ==> deliveries@[j],
        decreases deliveries@.len() - i,
    {
        if !deliveries[i] {
            return true;
        }
        i += 1;
    }
    false
}

/// The last `MAX_TERMINAL_BUFFER` chunks of `chunks`.
pub open spec fn capped(chunks: Seq<String>) -> Seq<String> {
    if chunks.len() > MAX_TERMINAL_BUFFER {
        chunks.skip(chunks.len() - MAX_TERMINAL_BUFFER)
    } else {
        chunks
    }
}

/// Holds a chunk of output back: it goes to the end of the buffer, and the
/// oldest chunks leave until no more than `MAX_TERMINAL_BUFFER` are held.
pub fn buffer_output(buffer: &mut VecDeque<String>, output: String)
    ensures
        final(buffer)@ == capped(old(buffer)@.push(output)),
{
    buffer.push_back(output);
    let ghost pushed = buffer@;
    proof {
        assert(buffer@ =~= pushed.skip(0));
    }
    while buffer.len() > MAX_TERMINAL_BUFFER
        invariant
            buffer@.len() <= pushed.len(),
            pushed.len() <= MAX_TERMINAL_BUFFER ==> buffer@.len() == pushed.len(),
            pushed.len() > MAX_TERMINAL_BUFFER ==> buffer@.len() >= MAX_TERMINAL_BUFFER,
            buffer@ == pushed.skip(pushed.len() - buffer@.len()),
        decreases buffer@.len(),
    {
        let ghost held = buffer@;
        let _ = buffer.pop_front();
        proof {
            assert(buffer@ =~= pushed.skip(pushed.len() - buffer@.len()));
        }
    }
    proof {
        if pushed.len() <= MAX_TERMINAL_BUFFER {
            assert(buffer@ =~= pushed);
        }
    }
}

/// Hands out all the output that was held back, oldest first, and leaves
/// the buffer empty.
pub fn drain_output(buffer: &mut VecDeque<String>) -> (chunks: Vec<String>)
    ensures
        chunks@ == old(buffer)@,
        final(buffer)@.len() == 0,
{
    let mut chunks: Vec<String> = Vec::new();
    while buffer.len() > 0
        invariant
            chunks@ + buffer@ == old(buffer)@,
        decreases buffer@.len(),
    {
        let ghost taken = chunks@;
        let ghost held = buffer@;
        match buffer.pop_front() {
            Some(chunk) => {
                chunks.push(chunk);
                proof {
                    assert(chunks@ + buffer@ =~= taken + held);
                }
            },
            None => {},
        }
    }
    proof {
        assert(chunks@ + buffer@ =~= chunks@);
    }
    chunks
}

} // verus!
