//! Events and commands exchanged between the interface and a connection.

use vstd::prelude::*;
use crate::text::{chars_of, string_from_chars};
use crate::window::framed;

verus! {

/// Events sent from a connection to the interface.  Every `String` is a
/// message meant to be shown to the user.
#[derive(Debug, Clone)]
pub enum NetworkEvent {
    /// The connection was established.
    Connected(String),
    /// Bytes received from the remote host.
    DataReceived(Vec<u8>),
    /// The connection was closed normally.
    Disconnected(String),
    /// An error that ended the connection or must be shown.
    Error(String),
}

/// The common ground of the protocol implementations (SSH, Telnet, serial).
pub trait ProtocolConnection {
}

/// Handler of the SSH server's unsolicited events.
pub struct SshClientHandler;

// ─── SSH session decisions ──────────────────────────────────────────────────

/// The decimal digit for a value below 10.
pub open spec fn digit_char(d: nat) -> char {
    (48 + d) as char
}

/// The decimal text of a number, without leading zeros.
pub open spec fn decimal(n: nat) -> Seq<char>
    decreases n,
{
    if n < 10 {
        seq![digit_char(n)]
    } else {
        decimal(n / 10).push(digit_char(n % 10))
    }
}

fn push_decimal(v: &mut Vec<char>, n: u32)
    ensures
        final(v)@ == old(v)@ + decimal(n as nat),
    decreases n,
{
    if n >= 10 {
        push_decimal(v, n / 10);
    }
    let d: u32 = n % 10;
    let c: char = if d == 0 { '0' } else if d == 1 { '1' } else if d == 2 { '2' } else if d == 3 { '3' }
        else if d == 4 { '4' } else if d == 5 { '5' } else if d == 6 { '6' } else if d == 7 { '7' }
        else if d == 8 { '8' } else { '9' };
    assert(c == digit_char(d as nat));
    v.push(c);
}

/// The decimal text of `n` (see `decimal`).
pub fn decimal_text(n: u32) -> (s: String)
    ensures
        s@ == decimal(n as nat),
{
    let mut v: Vec<char> = Vec::new();
    push_decimal(&mut v, n);
    assert(v@ =~= decimal(n as nat));
    string_from_chars(&v)
}

/// The address a connection dials: `host:port`, with an IPv6 host (one
/// that holds `:` and is not already bracketed) put in brackets.
pub open spec fn ssh_address(host: Seq<char>, port: u16) -> Seq<char> {
    if host.contains(':') && !(host.len() > 0 && host[0] == '[') {
        seq!['['] + host + "]:"@ + decimal(port as nat)
    } else {
        host + seq![':'] + decimal(port as nat)
    }
}

/// The number that the decimal digits `s` write.
pub open spec fn decimal_value(s: Seq<char>) -> int
    decreases s.len(),
{
    if s.len() == 0 { 0 } else { decimal_value(s.drop_last()) * 10 + (s.last() as int - 48) }
}

proof fn lemma_decimal_value(n: nat)
    ensures
        decimal(n).len() >= 1,
        forall|i: int| 0 <= i < decimal(n).len() ==> '0' <= #[trigger] decimal(n)[i] <= '9',
        decimal_value(decimal(n)) == n,
    decreases n,
{
    let d = decimal(n);
    let last = (n % 10) as nat;
    assert(digit_char(last) as int == 48 + last);
    assert(d.last() == digit_char(last));
    if n >= 10 {
        lemma_decimal_value(n / 10);
        assert(d.drop_last() =~= decimal(n / 10));
        assert(decimal_value(d) == decimal_value(d.drop_last()) * 10 + (d.last() as int - 48));
        assert(n == (n / 10) * 10 + n % 10);
        assert forall|i: int| 0 <= i < d.len() implies '0' <= #[trigger] d[i] <= '9' by {
            if i < d.len() - 1 {
                assert(d[i] == decimal(n / 10)[i]);
            }
        }
    } else {
        assert(d.drop_last() =~= Seq::<char>::empty());
        assert(decimal_value(d) == decimal_value(d.drop_last()) * 10 + (d.last() as int - 48));
    }
}

/// The dialled address is the host, then `:`, then the port in decimal
/// digits that read back as the port.  The host is written as given, except
/// that an IPv6 address (a host holding `:` that is not already in
/// brackets) is put in `[` `]` so that its last `:` is not taken for the
/// port separator.
pub proof fn law_dial_address_reads_back(host: Seq<char>, port: u16)
    ensures
        exists|h: Seq<char>, d: Seq<char>|
            #![trigger decimal_value(d), h.len()]
            ssh_address(host, port) == h + seq![':'] + d
            && d.len() > 0 && (forall|i: int| 0 <= i < d.len() ==> '0' <= #[trigger] d[i] <= '9')
            && decimal_value(d) == port
            && h == (if host.contains(':') && !(host.len() > 0 && host[0] == '[') {
                    seq!['['] + host + seq![']'] } else { host }),
{
    lemma_decimal_value(port as nat);
    reveal_strlit("]:");
    let d = decimal(port as nat);
    let h = if host.contains(':') && !(host.len() > 0 && host[0] == '[') { seq!['['] + host + seq![']'] } else { host };
    assert(ssh_address(host, port) =~= h + seq![':'] + d);
    assert(decimal_value(d) == port && h.len() == h.len());
}

/// The address to dial for `host` and `port` (see `ssh_address`).
pub fn dial_address(host: &str, port: u16) -> (s: String)
    ensures
        s@ == ssh_address(host@, port),
{
    let chars = chars_of(host);
    let mut has_colon = false;
    let mut i: usize = 0;
    while i < chars.len()
        invariant
            i <= chars@.len(),
            chars@ == host@,
            has_colon == exists|k: int| 0 <= k < i && chars@[k] == ':',
        decreases chars@.len() - i,
    {
        if chars[i] == ':' {
            has_colon = true;
        }
        i = i + 1;
    }
    proof {
        if has_colon {
            let k = choose|k: int| 0 <= k < chars@.len() && chars@[k] == ':';
            assert(host@.contains(':')) by { assert(host@[k] == ':'); }
        } else {
            assert(!host@.contains(':'));
        }
    }
    proof {
        reveal_strlit("");
        reveal_strlit("[");
        reveal_strlit(":");
    }
    let bracketed = chars.len() > 0 && chars[0] == '[';
    let port_text = decimal_text(port as u32);
    let host_text = string_from_chars(&chars);
    if has_colon && !bracketed {
        let s = framed("[", &host_text, "]:");
        let out = framed("", &s, port_text.as_str());
        assert(out@ =~= ssh_address(host@, port));
        out
    } else {
        let out = framed("", &host_text, ":");
        let out2 = framed("", &out, port_text.as_str());
        assert(out2@ =~= ssh_address(host@, port));
        out2
    }
}

/// What the remote channel reports during a session.
pub enum ChannelMessage {
    /// Output of the remote process.
    Data(Vec<u8>),
    /// Error output of the remote process.
    ExtendedData(Vec<u8>),
    /// The remote process ended with this status.
    ExitStatus(u32),
    /// The server closed its side.
    Eof,
    /// The channel is gone.
    Closed,
    /// Any other protocol message.
    Other,
}

/// What a channel message makes the session do: the event passed on to the
/// interface, if any, and whether the session ends.  Output (normal or
/// error) is passed on; an exit status, an end of file or a closed channel
/// end the session with a message; anything else is ignored.
pub fn channel_message_step(m: ChannelMessage) -> (r: (Option<NetworkEvent>, bool))
    ensures
        match m {
            ChannelMessage::Data(d) => (r.0 matches Some(NetworkEvent::DataReceived(x)) && x@ == d@) && !r.1,
            ChannelMessage::ExtendedData(d) => (r.0 matches Some(NetworkEvent::DataReceived(x)) && x@ == d@) && !r.1,
            ChannelMessage::ExitStatus(c) => (r.0 matches Some(NetworkEvent::Disconnected(s))
                && s@ == "SSH: Processo encerrado com código "@ + decimal(c as nat)) && r.1,
            ChannelMessage::Eof => (r.0 matches Some(NetworkEvent::Disconnected(s))
                && s@ == "SSH: Servidor encerrou a conexão (EOF)."@) && r.1,
            ChannelMessage::Closed => (r.0 matches Some(NetworkEvent::Disconnected(s)) && s@ == "SSH: Canal fechado."@) && r.1,
            ChannelMessage::Other => r.0 is None && !r.1,
        },
{
    match m {
        ChannelMessage::Data(d) => (Some(NetworkEvent::DataReceived(d)), false),
        ChannelMessage::ExtendedData(d) => (Some(NetworkEvent::DataReceived(d)), false),
        ChannelMessage::ExitStatus(c) => {
            let code = decimal_text(c);
            proof { reveal_strlit(""); }
            let msg = framed("SSH: Processo encerrado com código ", &code, "");
            assert(msg@ =~= "SSH: Processo encerrado com código "@ + decimal(c as nat));
            (Some(NetworkEvent::Disconnected(msg)), true)
        },
        ChannelMessage::Eof => (Some(NetworkEvent::Disconnected("SSH: Servidor encerrou a conexão (EOF).".to_owned())), true),
        ChannelMessage::Closed => (Some(NetworkEvent::Disconnected("SSH: Canal fechado.".to_owned())), true),
        ChannelMessage::Other => (None, false),
    }
}

/// What the interface asks of a running session.
pub enum SessionCommand {
    /// Bytes typed or pasted, for the remote side.
    SendData(Vec<u8>),
    /// The terminal's new size.
    ResizePty { cols: u16, rows: u16 },
    /// Close the session.
    Disconnect,
    /// A new connection (meaningless while a session runs).
    ConnectSsh,
}

/// What a running session does with a command.
pub enum CommandStep {
    /// Write these bytes to the channel.
    Write(Vec<u8>),
    /// Report the new size to the server.
    WindowChange { cols: u16, rows: u16 },
    /// Send end-of-file, tell the interface, and end the session.
    Close(NetworkEvent),
    /// Nothing to do.
    Ignore,
}

/// The session's answer to a command from the interface (`None` when the
/// interface is gone): data is written, a resize is reported, a disconnect
/// or a vanished interface closes the session, and a new connection request
/// is ignored.
pub fn command_step(cmd: Option<SessionCommand>) -> (r: CommandStep)
    ensures
        match cmd {
            Some(SessionCommand::SendData(d)) => r matches CommandStep::Write(x) && x@ == d@,
            Some(SessionCommand::ResizePty { cols, rows }) => r == (CommandStep::WindowChange { cols, rows }),
            Some(SessionCommand::Disconnect) | None =>
                r matches CommandStep::Close(NetworkEvent::Disconnected(m)) && m@ == "SSH: Desconectado."@,
            Some(SessionCommand::ConnectSsh) => r is Ignore,
        },
{
    match cmd {
        Some(SessionCommand::SendData(d)) => CommandStep::Write(d),
        Some(SessionCommand::ResizePty { cols, rows }) => CommandStep::WindowChange { cols, rows },
        Some(SessionCommand::Disconnect) | None => CommandStep::Close(NetworkEvent::Disconnected("SSH: Desconectado.".to_owned())),
        Some(SessionCommand::ConnectSsh) => CommandStep::Ignore,
    }
}

/// The event that ends a session when writing to the channel failed, with
/// the error's text.
pub fn send_failed(err: &String) -> (ev: NetworkEvent)
    ensures
        ev matches NetworkEvent::Error(m) && m@ == "Falha ao enviar dados: "@ + err@,
{
    proof { reveal_strlit(""); }
    let m = framed("Falha ao enviar dados: ", err, "");
    assert(m@ =~= "Falha ao enviar dados: "@ + err@);
    NetworkEvent::Error(m)
}

/// The result of an authentication attempt, by password or by key: the
/// server's refusal and a failed exchange (`Err`, with the error's text)
/// become the messages shown to the user.
pub fn auth_outcome(by_key: bool, outcome: Result<bool, String>) -> (r: Result<(), String>)
    ensures
        match outcome {
            Ok(true) => r is Ok,
            Ok(false) => r matches Err(e) && e@ == (if by_key { "Autenticação por chave falhou."@ }
                else { "Autenticação SSH falhou: credenciais inválidas."@ }),
            Err(x) => r matches Err(e) && e@ == (if by_key { "Erro de autenticação por chave: "@ }
                else { "Erro de autenticação: "@ }) + x@,
        },
{
    match outcome {
        Ok(true) => Ok(()),
        Ok(false) => if by_key {
            Err("Autenticação por chave falhou.".to_owned())
        } else {
            Err("Autenticação SSH falhou: credenciais inválidas.".to_owned())
        },
        Err(x) => {
            proof { reveal_strlit(""); }
            let e = if by_key { framed("Erro de autenticação por chave: ", &x, "") } else { framed("Erro de autenticação: ", &x, "") };
            assert(e@ =~= (if by_key { "Erro de autenticação por chave: "@ } else { "Erro de autenticação: "@ }) + x@);
            Err(e)
        },
    }
}

} // verus!
