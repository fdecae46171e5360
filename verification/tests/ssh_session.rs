use rustty::net::{auth_outcome, channel_message_step, command_step, decimal_text, dial_address, send_failed, ChannelMessage, CommandStep, NetworkEvent, SessionCommand};

#[test]
fn decimal_text_of_numbers() {
    assert_eq!(decimal_text(0), "0");
    assert_eq!(decimal_text(7), "7");
    assert_eq!(decimal_text(10), "10");
    assert_eq!(decimal_text(2222), "2222");
    assert_eq!(decimal_text(u32::MAX), "4294967295");
}

#[test]
fn dial_address_brackets_ipv6_hosts() {
    assert_eq!(dial_address("10.0.0.1", 22), "10.0.0.1:22");
    assert_eq!(dial_address("srv.example.com", 2222), "srv.example.com:2222");
    assert_eq!(dial_address("fe80::1", 22), "[fe80::1]:22");
    assert_eq!(dial_address("[::1]", 22), "[::1]:22");
    assert_eq!(dial_address("", 0), ":0");
}

#[test]
fn channel_messages_drive_the_session() {
    match channel_message_step(ChannelMessage::Data(vec![104, 105])) {
        (Some(NetworkEvent::DataReceived(d)), false) => assert_eq!(d, vec![104, 105]),
        _ => panic!("data is passed on"),
    }
    match channel_message_step(ChannelMessage::ExtendedData(vec![1])) {
        (Some(NetworkEvent::DataReceived(d)), false) => assert_eq!(d, vec![1]),
        _ => panic!("error output is passed on"),
    }
    match channel_message_step(ChannelMessage::ExitStatus(127)) {
        (Some(NetworkEvent::Disconnected(m)), true) => assert_eq!(m, "SSH: Processo encerrado com código 127"),
        _ => panic!("exit ends the session"),
    }
    match channel_message_step(ChannelMessage::Eof) {
        (Some(NetworkEvent::Disconnected(m)), true) => assert_eq!(m, "SSH: Servidor encerrou a conexão (EOF)."),
        _ => panic!("eof ends the session"),
    }
    match channel_message_step(ChannelMessage::Closed) {
        (Some(NetworkEvent::Disconnected(m)), true) => assert_eq!(m, "SSH: Canal fechado."),
        _ => panic!("a closed channel ends the session"),
    }
    assert!(matches!(channel_message_step(ChannelMessage::Other), (None, false)));
}

#[test]
fn authentication_outcomes() {
    assert_eq!(auth_outcome(false, Ok(true)), Ok(()));
    assert_eq!(auth_outcome(true, Ok(true)), Ok(()));
    assert_eq!(auth_outcome(false, Ok(false)), Err("Autenticação SSH falhou: credenciais inválidas.".to_string()));
    assert_eq!(auth_outcome(true, Ok(false)), Err("Autenticação por chave falhou.".to_string()));
    assert_eq!(auth_outcome(false, Err("timeout".to_string())), Err("Erro de autenticação: timeout".to_string()));
    assert_eq!(
        auth_outcome(true, Err("bad key".to_string())),
        Err("Erro de autenticação por chave: bad key".to_string())
    );
}

#[test]
fn commands_during_a_session() {
    use_commands();
}

fn use_commands() {
    use_cmd(Some(SessionCommand::SendData(vec![3])), |s| matches!(s, CommandStep::Write(ref d) if *d == vec![3]));
    use_cmd(Some(SessionCommand::ResizePty { cols: 80, rows: 24 }), |s| {
        matches!(s, CommandStep::WindowChange { cols: 80, rows: 24 })
    });
    for cmd in [Some(SessionCommand::Disconnect), None] {
        match command_step(cmd) {
            CommandStep::Close(NetworkEvent::Disconnected(m)) => assert_eq!(m, "SSH: Desconectado."),
            _ => panic!("a disconnect closes the session"),
        }
    }
    use_cmd(Some(SessionCommand::ConnectSsh), |s| matches!(s, CommandStep::Ignore));
    match send_failed(&"broken pipe".to_string()) {
        NetworkEvent::Error(m) => assert_eq!(m, "Falha ao enviar dados: broken pipe"),
        _ => panic!("a write failure is an error"),
    }
}

fn use_cmd(cmd: Option<SessionCommand>, ok: impl Fn(&CommandStep) -> bool) {
    assert!(ok(&command_step(cmd)));
}
