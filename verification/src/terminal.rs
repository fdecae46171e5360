//! How a terminal window is started.

use vstd::prelude::*;
use vstd::utf8::encode_utf8;
use crate::config::AuthType;
use crate::config::protected_mem::ProtectedMemory;
use crate::text::same_text;

verus! {

/// What a terminal window connects to.
#[derive(Debug, Clone)]
pub enum TerminalInit {
    /// A saved host, by name.
    SavedHost(String),
    /// A one-off SSH connection.
    QuickSsh { address: String, port: u16, user: String, pass: String },
    /// A saved bridge, by id.
    Bridge(String),
}

impl Default for TerminalInit {
    fn default() -> (t: TerminalInit)
        ensures
            t matches TerminalInit::SavedHost(name) && name@.len() == 0,
    {
        TerminalInit::SavedHost(String::new())
    }
}

/// Whether a terminal may be opened for a saved host or bridge: always when
/// several sessions per target are allowed, otherwise only when no session
/// for that target is still running; the refusal names a host or a bridge.
pub fn session_allowed(allow_multiple: bool, running: bool, bridge: bool) -> (r: Result<(), String>)
    ensures
        r is Ok <==> allow_multiple || !running,
        r matches Err(e) ==> e@ == (if bridge { "Uma sessão para esta ponte já está aberta."@ }
            else { "Uma sessão para este host já está aberta."@ }),
{
    if allow_multiple || !running {
        Ok(())
    } else if bridge {
        Err("Uma sessão para esta ponte já está aberta.".to_owned())
    } else {
        Err("Uma sessão para este host já está aberta.".to_owned())
    }
}

/// How a quick connection authenticates: the password `none` means no
/// authentication; any other text is the password, kept in protected
/// memory.
pub fn quick_connect_auth(pass: &str) -> (a: AuthType)
    requires
        encode_utf8(pass@).len() + 16 <= usize::MAX,
    ensures
        pass@ == "none"@ ==> a is NoAuth,
        pass@ != "none"@ ==> (a matches AuthType::Password(p) && p.text() == Some(pass@)),
{
    if same_text(pass, "none") {
        AuthType::NoAuth
    } else {
        match ProtectedMemory::new(pass) {
            Ok(p) => AuthType::Password(p),
            Err(_) => AuthType::NoAuth,
        }
    }
}

} // verus!
