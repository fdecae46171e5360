use rustty::config::{generate_node_id, AppConfig, AuthType, ConfigNode, HostProfile};

fn host(id: &str, name: &str, address: &str, username: &str, icon: Option<&str>) -> HostProfile {
    HostProfile {
        id: id.to_string(),
        name: name.into(),
        address: address.into(),
        port: 22,
        username: username.into(),
        auth: AuthType::NoAuth,
        enable_icmp: true,
        bridge_id: None,
        legacy_ssh: false,
        icon: icon.map(|s| s.to_string()),
    }
}

fn names(nodes: &[ConfigNode]) -> Vec<String> {
    nodes
        .iter()
        .map(|n| match n {
            ConfigNode::Host(h) => h.name.clone(),
            _ => String::new(),
        })
        .collect()
}

#[test]
fn test_reorder_hosts_and_deletion_lifecycle() {
    let mut config = AppConfig::default();

    let host_a = host(&generate_node_id(), "Host A", "1.1.1.1", "u1", Some("terminal"));
    let host_b = host(&generate_node_id(), "Host B", "2.2.2.2", "u2", Some("server"));
    let host_c = host(&generate_node_id(), "Host C", "3.3.3.3", "u3", Some("gpu"));

    config.root_nodes.push(ConfigNode::Host(host_a));
    config.root_nodes.push(ConfigNode::Host(host_b));
    config.root_nodes.push(ConfigNode::Host(host_c));

    assert_eq!(config.root_nodes.len(), 3);

    let from = 0;
    let to = 2;
    let moved = config.root_nodes.remove(from);
    config.root_nodes.insert(to, moved);

    assert_eq!(names(&config.root_nodes), vec!["Host B", "Host C", "Host A"]);

    config.root_nodes.remove(1);

    assert_eq!(names(&config.root_nodes), vec!["Host B", "Host A"]);
    assert_eq!(config.root_nodes.len(), 2);
}

#[test]
fn test_folder_depth_limit_enforced() {
    let mut config = AppConfig::default();

    let root_folder_id = config
        .add_folder(None, "Produção".to_string(), Some("server".to_string()), Some("#FF7300".to_string()))
        .expect("Deve permitir criar pasta principal");
    assert_eq!(config.root_nodes.len(), 1);

    let subfolder_id = config
        .add_folder(Some(&root_folder_id), "Web Servers".to_string(), Some("globe".to_string()), None)
        .expect("Deve permitir criar subpasta dentro da pasta principal");

    let result = config.add_folder(Some(&subfolder_id), "Nível Proibido".to_string(), None, None);
    assert!(result.is_err(), "Não deve permitir criar mais de uma subpasta em cadeia");
    assert!(result.unwrap_err().contains("Limite atingido"));
}

#[test]
fn test_move_host_lifecycle() {
    let mut config = AppConfig::default();

    let host_id = "test-host-123".to_string();
    config.root_nodes.push(ConfigNode::Host(host(&host_id, "Servidor DB", "192.168.1.50", "admin", Some("hard-drive"))));

    let folder_a = config.add_folder(None, "Infra".into(), None, None).unwrap();
    let folder_b = config.add_folder(Some(&folder_a), "Bancos".into(), None, None).unwrap();

    config.move_host(&host_id, Some(&folder_a), None).expect("Deve mover para pasta principal");
    assert_eq!(config.root_nodes.len(), 1);

    config.move_host(&host_id, Some(&folder_b), None).expect("Deve mover para subpasta");

    let found = config.find_host(&host_id);
    assert!(found.is_some());
    assert_eq!(found.unwrap().name, "Servidor DB");

    config.move_host(&host_id, None, None).expect("Deve mover de volta para a raiz");
    assert_eq!(config.root_nodes.len(), 2);
}

#[test]
fn test_delete_folder_preserve_hosts() {
    let mut config = AppConfig::default();

    let folder_id = config.add_folder(None, "Clusters".into(), None, None).unwrap();
    let h = host("k8s-node", "K8s Worker", "10.0.0.1", "root", None);
    config.move_host("k8s-node", Some(&folder_id), None).unwrap_err();
    config.root_nodes.push(ConfigNode::Host(h));
    config.move_host("k8s-node", Some(&folder_id), None).unwrap();

    config.delete_folder(&folder_id, true).expect("Deve excluir pasta preservando hosts");
    assert_eq!(config.root_nodes.len(), 1);
    assert!(matches!(&config.root_nodes[0], ConfigNode::Host(h) if h.id == "k8s-node"));
}

#[test]
fn test_reorder_folders_and_subfolders() {
    let mut config = AppConfig::default();
    let f1 = config.add_folder(None, "Pasta 1".into(), None, None).unwrap();
    let f2 = config.add_folder(None, "Pasta 2".into(), None, None).unwrap();
    let f3 = config.add_folder(None, "Pasta 3".into(), None, None).unwrap();

    config.reorder_nodes(None, &[f3.clone(), f1.clone(), f2.clone()]).unwrap();
    assert_eq!(config.root_nodes[0].id(), f3);
    assert_eq!(config.root_nodes[1].id(), f1);
    assert_eq!(config.root_nodes[2].id(), f2);

    let sub1 = config.add_folder(Some(&f3), "Sub 1".into(), None, None).unwrap();
    let sub2 = config.add_folder(Some(&f3), "Sub 2".into(), None, None).unwrap();

    config.reorder_nodes(Some(&f3), &[sub2.clone(), sub1.clone()]).unwrap();
    if let ConfigNode::Folder { children, .. } = &config.root_nodes[0] {
        assert_eq!(children[0].id(), sub2);
        assert_eq!(children[1].id(), sub1);
    } else {
        panic!("Esperado pasta f3 na posição 0");
    }
}

// ─── Further cases ─────────────────────────────────────────────────────────

#[test]
fn add_folder_rejects_blank_names_and_trims() {
    let mut config = AppConfig::default();
    let err = config.add_folder(None, "   ".into(), None, None).unwrap_err();
    assert_eq!(err, "O nome da pasta não pode ser vazio.");
    assert!(config.root_nodes.is_empty());

    let id = config.add_folder(None, "  Infra \n".into(), None, None).unwrap();
    assert_eq!(id.len(), 36);
    match &config.root_nodes[0] {
        ConfigNode::Folder { name, children, .. } => {
            assert_eq!(name, "Infra");
            assert!(children.is_empty());
        }
        _ => panic!("expected a folder"),
    }
    let missing = config.add_folder(Some("nope"), "X".into(), None, None).unwrap_err();
    assert_eq!(missing, "Pasta pai não encontrada.");
}

#[test]
fn delete_host_by_id_finds_nested_hosts() {
    let mut config = AppConfig::default();
    let f = config.add_folder(None, "F".into(), None, None).unwrap();
    config.root_nodes.push(ConfigNode::Host(host("h1", "One", "1.1.1.1", "u", None)));
    config.move_host("h1", Some(&f), None).unwrap();
    assert!(config.find_host("h1").is_some());
    config.delete_host_by_id("h1").unwrap();
    assert!(config.find_host("h1").is_none());
    assert_eq!(config.delete_host_by_id("h1").unwrap_err(), "Host não encontrado para exclusão.");
}

#[test]
fn move_to_missing_folder_parks_host_at_root() {
    let mut config = AppConfig::default();
    let f = config.add_folder(None, "F".into(), None, None).unwrap();
    config.root_nodes.insert(0, ConfigNode::Host(host("h1", "One", "1.1.1.1", "u", None)));
    let err = config.move_host("h1", Some("missing"), None).unwrap_err();
    assert_eq!(err, "Pasta de destino não encontrada.");
    assert_eq!(config.root_nodes[0].id(), f);
    assert_eq!(config.root_nodes[1].id(), "h1");
    assert_eq!(config.move_host("nobody", None, None).unwrap_err(), "Host não encontrado.");
}

#[test]
fn move_host_with_index_inserts_there() {
    let mut config = AppConfig::default();
    config.root_nodes.push(ConfigNode::Host(host("a", "A", "1.1.1.1", "u", None)));
    config.root_nodes.push(ConfigNode::Host(host("b", "B", "1.1.1.2", "u", None)));
    config.root_nodes.push(ConfigNode::Host(host("c", "C", "1.1.1.3", "u", None)));
    config.move_host("c", None, Some(0)).unwrap();
    assert_eq!(names(&config.root_nodes), vec!["C", "A", "B"]);
    config.move_host("c", None, Some(99)).unwrap();
    assert_eq!(names(&config.root_nodes), vec!["A", "B", "C"]);
}

#[test]
fn delete_folder_without_keeping_drops_contents() {
    let mut config = AppConfig::default();
    let f = config.add_folder(None, "F".into(), None, None).unwrap();
    let sub = config.add_folder(Some(&f), "S".into(), None, None).unwrap();
    config.root_nodes.push(ConfigNode::Host(host("h", "H", "1.1.1.1", "u", None)));
    config.move_host("h", Some(&sub), None).unwrap();
    config.delete_folder(&sub, false).unwrap();
    assert!(config.find_host("h").is_none());
    match &config.root_nodes[0] {
        ConfigNode::Folder { children, .. } => assert!(children.is_empty()),
        _ => panic!("expected a folder"),
    }
    assert_eq!(config.delete_folder("gone", true).unwrap_err(), "Pasta não encontrada.");
}

#[test]
fn update_folder_renames_nested_folder() {
    let mut config = AppConfig::default();
    let f = config.add_folder(None, "F".into(), None, None).unwrap();
    let sub = config.add_folder(Some(&f), "S".into(), None, None).unwrap();
    config.update_folder(&sub, " Novo ".into(), Some("globe".into()), None).unwrap();
    match &config.root_nodes[0] {
        ConfigNode::Folder { children, .. } => match &children[0] {
            ConfigNode::Folder { name, icon, .. } => {
                assert_eq!(name, "Novo");
                assert_eq!(icon.as_deref(), Some("globe"));
            }
            _ => panic!("expected a folder"),
        },
        _ => panic!("expected a folder"),
    }
    assert_eq!(config.update_folder("x", "N".into(), None, None).unwrap_err(), "Pasta não encontrada.");
    assert_eq!(config.update_folder(&sub, " ".into(), None, None).unwrap_err(), "O nome da pasta não pode ser vazio.");
}

#[test]
fn reorder_keeps_unlisted_nodes_at_the_end() {
    let mut config = AppConfig::default();
    for id in ["a", "b", "c", "d"] {
        config.root_nodes.push(ConfigNode::Host(host(id, id, "1.1.1.1", "u", None)));
    }
    config.reorder_nodes(None, &["c".to_string(), "zzz".to_string(), "a".to_string()]).unwrap();
    let ids: Vec<&str> = config.root_nodes.iter().map(|n| n.id()).collect();
    assert_eq!(ids, vec!["c", "a", "b", "d"]);
    assert_eq!(
        config.reorder_nodes(Some("none"), &[]).unwrap_err(),
        "Pasta não encontrada para reordenação."
    );
}

#[test]
fn hosts_with_paths_follow_tree_order() {
    let mut config = AppConfig::default();
    let infra = config.add_folder(None, "Infra".into(), None, None).unwrap();
    let aws = config.add_folder(Some(&infra), "AWS".into(), None, None).unwrap();
    config.root_nodes.push(ConfigNode::Host(host("x", "X", "1.1.1.1", "u", None)));
    config.root_nodes.push(ConfigNode::Host(host("y", "Y", "1.1.1.2", "u", None)));
    config.move_host("x", Some(&aws), None).unwrap();
    let all = config.get_all_hosts_with_path();
    assert_eq!(all.len(), 2);
    assert_eq!(all[0].0.id, "x");
    assert_eq!(all[0].1, vec!["Infra".to_string(), "AWS".to_string()]);
    assert_eq!(all[1].0.id, "y");
    assert!(all[1].1.is_empty());
}

#[test]
fn terminal_targets_are_found_by_name_and_bridge_id() {
    let mut config = AppConfig::default();
    let folder = config.add_folder(None, "Infra".into(), None, None).unwrap();
    config.root_nodes.push(ConfigNode::Host(host("h-root", "db", "10.0.0.1", "root", None)));
    config
        .move_host("missing", Some(&folder), None)
        .unwrap_err();
    config.root_nodes.insert(0, ConfigNode::Host(host("h-first", "web", "10.0.0.2", "www", None)));
    config.root_nodes.push(ConfigNode::Host(host("h-dup", "db", "10.0.0.3", "admin", None)));
    config.move_host("h-root", Some(&folder), None).unwrap();

    // Tree order: "web" (root), the folder holding the first "db", then the second "db".
    let found = config.find_host_by_name("db").unwrap();
    assert_eq!(found.id, "h-root");
    assert_eq!(config.find_host_by_name("web").unwrap().id, "h-first");
    assert!(config.find_host_by_name("nope").is_none());
    assert!(config.find_host_by_name("").is_none());

    let id_a = uuid::Uuid::new_v4();
    let id_b = uuid::Uuid::new_v4();
    for (id, name) in [(id_a, "ponte-a"), (id_b, "ponte-b")] {
        config.bridges.push(rustty::config::BridgeProfile {
            id,
            name: name.into(),
            address: "192.168.0.1".into(),
            port: 22,
            username: "jump".into(),
            auth: AuthType::NoAuth,
        });
    }
    assert_eq!(config.find_bridge(&id_b).unwrap().name, "ponte-b");
    assert_eq!(config.find_bridge(&id_a).unwrap().name, "ponte-a");
    assert!(config.find_bridge(&uuid::Uuid::nil()).is_none());
}

#[test]
fn quick_connect_password_none_means_no_auth() {
    assert!(matches!(rustty::terminal::quick_connect_auth("none"), AuthType::NoAuth));
    match rustty::terminal::quick_connect_auth("s3cr3t") {
        AuthType::Password(p) => assert_eq!(p.unprotect().unwrap(), "s3cr3t"),
        _ => panic!("a password is kept"),
    }
    match rustty::terminal::quick_connect_auth("") {
        AuthType::Password(p) => assert_eq!(p.unprotect().unwrap(), ""),
        _ => panic!("an empty password is still a password"),
    }
}

fn host_input(name: &str, address: &str, user: &str, password: &str) -> rustty::config::edit::HostInput {
    rustty::config::edit::HostInput {
        name: name.into(),
        address: address.into(),
        port: 22,
        username: user.into(),
        password: password.into(),
        allow_domain: false,
        enable_icmp: true,
        bridge_id: None,
        legacy_ssh: false,
        icon: None,
    }
}

#[test]
fn saving_and_editing_hosts_from_the_form() {
    let mut config = AppConfig::default();
    assert_eq!(
        config.save_host(host_input("  ", "10.0.0.1", "root", ""), true, None),
        Err("O nome/apelido do host é obrigatório.".to_string())
    );
    assert_eq!(
        config.save_host(host_input("db", "db.local", "root", ""), false, None),
        Err("Somente IPs numéricos são aceitos. Marque \"Permitir domínio\" para usar nomes DNS.".to_string())
    );
    assert!(config.root_nodes.is_empty());

    config.save_host(host_input(" db ", " 10.0.0.1 ", " root ", "s3cr3t"), true, None).unwrap();
    let id = match &config.root_nodes[0] {
        ConfigNode::Host(h) => {
            assert_eq!((h.name.as_str(), h.address.as_str(), h.username.as_str()), ("db", "10.0.0.1", "root"));
            assert_eq!(h.id.len(), 36);
            h.id.clone()
        }
        _ => panic!("a host is saved"),
    };

    // Editing with a blank password keeps the id and the stored password.
    config.save_host(host_input("db2", "10.0.0.2", "admin", ""), true, Some(0)).unwrap();
    match &config.root_nodes[0] {
        ConfigNode::Host(h) => {
            assert_eq!(h.id, id);
            assert_eq!(h.name, "db2");
            match &h.auth {
                AuthType::Password(p) => assert_eq!(p.unprotect().unwrap(), "s3cr3t"),
                _ => panic!("the password is kept"),
            }
        }
        _ => panic!("still a host"),
    }
    // A new password replaces it; an index past the end changes nothing.
    config.save_host(host_input("db2", "10.0.0.2", "admin", "novo"), true, Some(0)).unwrap();
    match &config.root_nodes[0] {
        ConfigNode::Host(h) => match &h.auth {
            AuthType::Password(p) => assert_eq!(p.unprotect().unwrap(), "novo"),
            _ => panic!("new password"),
        },
        _ => panic!("still a host"),
    }
    config.save_host(host_input("x", "10.0.0.3", "u", ""), true, Some(5)).unwrap();
    assert_eq!(config.root_nodes.len(), 1);

    config.delete_root_node(3);
    assert_eq!(config.root_nodes.len(), 1);
    config.delete_root_node(0);
    assert!(config.root_nodes.is_empty());
}

#[test]
fn saving_and_editing_bridges_from_the_form() {
    let mut config = AppConfig::default();
    let input = |name: &str, password: &str| rustty::config::edit::BridgeInput {
        name: name.into(),
        address: "192.168.0.1".into(),
        port: 2222,
        username: "jump".into(),
        password: password.into(),
        allow_domain: false,
    };
    assert_eq!(config.save_bridge(input("", ""), true, None), Err("O nome da ponte é obrigatório.".to_string()));
    config.save_bridge(input("ponte", "pw"), true, None).unwrap();
    let id = config.bridges[0].id;
    config.save_bridge(input("ponte-2", ""), true, Some(0)).unwrap();
    assert_eq!(config.bridges.len(), 1);
    assert_eq!(config.bridges[0].id, id);
    assert_eq!(config.bridges[0].name, "ponte-2");
    match &config.bridges[0].auth {
        AuthType::Password(p) => assert_eq!(p.unprotect().unwrap(), "pw"),
        _ => panic!("blank password keeps the credentials"),
    }
    config.save_bridge(input("z", ""), true, Some(9)).unwrap();
    assert_eq!(config.bridges.len(), 1);
}

#[test]
fn a_second_session_needs_multiple_access() {
    let session_allowed = rustty::terminal::session_allowed;
    assert_eq!(session_allowed(false, false, false), Ok(()));
    assert_eq!(session_allowed(true, true, false), Ok(()));
    assert_eq!(session_allowed(false, true, false), Err("Uma sessão para este host já está aberta.".to_string()));
    assert_eq!(session_allowed(false, true, true), Err("Uma sessão para esta ponte já está aberta.".to_string()));
}

#[test]
fn replacing_a_host_keeps_its_place() {
    let mut config = AppConfig::default();
    let folder = config.add_folder(None, "Infra".into(), None, None).unwrap();
    config.root_nodes.push(ConfigNode::Host(host("h1", "web", "10.0.0.1", "www", None)));
    config.root_nodes.push(ConfigNode::Host(host("h2", "db", "10.0.0.2", "root", None)));
    config.move_host("h2", Some(&folder), None).unwrap();

    let mut updated = host("h2", "db-novo", "10.0.0.9", "admin", Some("server"));
    updated.port = 2222;
    assert!(config.replace_host("h2", updated).is_ok());
    let found = config.find_host("h2").unwrap();
    assert_eq!((found.name.as_str(), found.address.as_str(), found.port), ("db-novo", "10.0.0.9", 2222));
    match &config.root_nodes[0] {
        ConfigNode::Folder { children, .. } => assert_eq!(children.len(), 1),
        _ => panic!("the host stays in its folder"),
    }
    assert_eq!(names(&config.root_nodes), vec!["", "web"]);

    let missing = host("zz", "x", "10.0.0.3", "u", None);
    match config.replace_host("zz", missing) {
        Err(back) => assert_eq!(back.name, "x"),
        Ok(()) => panic!("no host zz"),
    }
}
