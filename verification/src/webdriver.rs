//! The automation listener's decision core. Commands arrive from a remote
//! client on a listener thread; the handler decides the protocol response and
//! the navigation to marshal onto the UI-affinity thread. Only the session
//! commands and navigation are implemented; anything else fails that one
//! request loudly.

use vstd::prelude::*;
use crate::error::Error;

verus! {

/// The protocol commands the listener understands; anything else is
/// `Unsupported`.
pub enum Command {
    NewSession,
    DeleteSession,
    /// Navigate the active window to this location.
    Get(String),
    Unsupported,
}

/// The reply sent back for one command.
pub enum CommandResponse {
    /// The fresh session id.
    NewSession(String),
    DeleteSession,
    Void,
}

/// A navigation to marshal onto the UI-affinity thread.
pub struct NavAction {
    pub url: String,
    pub record_history: bool,
}

/// One automation session at a time: its id, when one is open.
pub struct Handler {
    session_id: Option<String>,
}

impl Handler {
    /// The open session's id.
    pub closed spec fn session(&self) -> Option<Seq<char>> {
        self.session_id.deep_view()
    }

    pub fn new() -> (r: Handler)
        ensures
            r.session() is None,
    {
        Handler { session_id: None }
    }

    /// Decides one command. `fresh_session_id` is the randomly allocated id
    /// the caller supplies for a new session; it is used only then.
    pub fn handle_command(&mut self, cmd: Command, fresh_session_id: String) -> (r: Result<
        (CommandResponse, Option<NavAction>),
        Error,
    >)
        ensures
            match cmd {
                Command::NewSession => (r matches Ok((CommandResponse::NewSession(id), a))
                    && id@ == fresh_session_id@ && a is None) && final(self).session() == Some(
                    fresh_session_id@,
                ),
                Command::DeleteSession => (r matches Ok((CommandResponse::DeleteSession, a))
                    && a is None) && *final(self) == *old(self),
                Command::Get(url) => (r matches Ok((CommandResponse::Void, Some(act))) && act.url@
                    == url@ && act.record_history) && *final(self) == *old(self),
                Command::Unsupported => (r matches Err(Error::UnimplementedCommandError))
                    && *final(self) == *old(self),
            },
    {
        match cmd {
            Command::NewSession => {
                self.session_id = Some(fresh_session_id.clone());
                Ok((CommandResponse::NewSession(fresh_session_id), None))
            },
            Command::DeleteSession => Ok((CommandResponse::DeleteSession, None)),
            Command::Get(url) => Ok(
                (CommandResponse::Void, Some(NavAction { url, record_history: true })),
            ),
            Command::Unsupported => Err(Error::UnimplementedCommandError),
        }
    }

    /// Clears the session when it is torn down.
    pub fn teardown_session(&mut self)
        ensures
            final(self).session() is None,
    {
        self.session_id = None;
    }
}

/// The window a remote command goes to: the first window that has the
/// toolkit's focus, else the first registered one. The windows are given as
/// (window id, has focus), in registration order.
pub fn active_window(windows: &Vec<(u64, bool)>) -> (r: Option<u64>)
    ensures
        windows@.len() == 0 ==> r is None,
        windows@.len() > 0 ==> (r matches Some(w) && {
            ||| exists|i: int|
                0 <= i < windows@.len() && (#[trigger] windows@[i]).1 && windows@[i].0 == w && (
                forall|j: int| 0 <= j < i ==> !(#[trigger] windows@[j]).1)
            ||| (forall|j: int| 0 <= j < windows@.len() ==> !(#[trigger] windows@[j]).1) && w
                == windows@[0].0
        }),
{
    let n = windows.len();
    if n == 0 {
        return None;
    }
    let mut i: usize = 0;
    while i < n
        invariant
            0 <= i <= n,
            n == windows@.len(),
            forall|j: int| 0 <= j < i ==> !(#[trigger] windows@[j]).1,
        decreases n - i,
    {
        if windows[i].1 {
            return Some(windows[i].0);
        }
        i += 1;
    }
    Some(windows[0].0)
}

} // verus!
