//! Saving the host and bridge forms: validation, then adding a new entry or
//! editing an existing one.

use vstd::prelude::*;
use vstd::utf8::encode_utf8;
use crate::text::{trim, trimmed};
use crate::config::{AppConfig, AuthType, BridgeProfile, ConfigNode, HostProfile, generate_node_id};
use crate::config::client::new_uuid;
use crate::config::protected_mem::ProtectedMemory;
use crate::validation::{profile_error, validate_host_fields, validate_bridge_fields};

verus! {

/// What the host form sends.  The name, address and user name are trimmed
/// when saved; the password is taken as typed.
pub struct HostInput {
    pub name: String,
    pub address: String,
    pub port: u16,
    pub username: String,
    pub password: String,
    pub allow_domain: bool,
    pub enable_icmp: bool,
    pub bridge_id: Option<uuid::Uuid>,
    pub legacy_ssh: bool,
    pub icon: Option<String>,
}

/// What the bridge form sends (trimmed as for hosts).
pub struct BridgeInput {
    pub name: String,
    pub address: String,
    pub port: u16,
    pub username: String,
    pub password: String,
    pub allow_domain: bool,
}

/// The credentials a typed password gives: none for an empty password,
/// otherwise the password in protected memory.
pub open spec fn auth_of_password(a: AuthType, password: Seq<char>) -> bool {
    if password.len() == 0 {
        a is NoAuth
    } else {
        a matches AuthType::Password(p) && p.text() == Some(password)
    }
}

/// The host holds the form's fields (trimmed where the form is trimmed).
pub open spec fn host_from_input(h: HostProfile, f: HostInput) -> bool {
    &&& h.name@ == trim(f.name@)
    &&& h.address@ == trim(f.address@)
    &&& h.port == f.port
    &&& h.username@ == trim(f.username@)
    &&& h.enable_icmp == f.enable_icmp
    &&& h.bridge_id == f.bridge_id
    &&& h.legacy_ssh == f.legacy_ssh
    &&& h.icon == f.icon
}

/// The bridge holds the form's fields.
pub open spec fn bridge_from_input(b: BridgeProfile, f: BridgeInput) -> bool {
    &&& b.name@ == trim(f.name@)
    &&& b.address@ == trim(f.address@)
    &&& b.port == f.port
    &&& b.username@ == trim(f.username@)
}

/// What is wrong with a host form, if anything (see `profile_error`).
pub open spec fn host_input_error(f: HostInput, is_ip: bool) -> Option<Seq<char>> {
    profile_error("O nome/apelido do host é obrigatório."@, trim(f.name@), trim(f.address@), trim(f.username@),
        f.port, f.allow_domain, is_ip)
}

/// What is wrong with a bridge form, if anything (see `profile_error`).
pub open spec fn bridge_input_error(f: BridgeInput, is_ip: bool) -> Option<Seq<char>> {
    profile_error("O nome da ponte é obrigatório."@, trim(f.name@), trim(f.address@), trim(f.username@),
        f.port, f.allow_domain, is_ip)
}

fn protect_password(password: &str) -> (a: AuthType)
    requires
        encode_utf8(password@).len() + 16 <= usize::MAX,
    ensures
        auth_of_password(a, password@),
{
    if password.is_empty() {
        AuthType::NoAuth
    } else {
        match ProtectedMemory::new(password) {
            Ok(p) => AuthType::Password(p),
            Err(_) => AuthType::NoAuth,
        }
    }
}

/// The root nodes after saving a valid host form: appended with a fresh id
/// and the typed credentials; or, editing the node at `edit_index`, that node
/// replaced by the host, which keeps an edited host's id and (for a blank
/// password) its credentials; or unchanged for an index past the end.
pub open spec fn host_saved(before: Seq<ConfigNode>, after: Seq<ConfigNode>, f: HostInput, edit_index: Option<usize>) -> bool {
    match edit_index {
        None => after.len() == before.len() + 1
            && after.take(before.len() as int) == before
            && (after.last() matches ConfigNode::Host(h)
                && host_from_input(h, f) && h.id@.len() == 36 && auth_of_password(h.auth, f.password@)),
        Some(i) => if i < before.len() {
            after.len() == before.len()
            && (forall|j: int| 0 <= j < before.len() && j != i ==> #[trigger] after[j] == before[j])
            && (after[i as int] matches ConfigNode::Host(h) && host_from_input(h, f)
                && match before[i as int] {
                    ConfigNode::Host(e) => h.id == e.id
                        && (if f.password@.len() == 0 { h.auth == e.auth } else { auth_of_password(h.auth, f.password@) }),
                    ConfigNode::Folder { .. } => h.id@.len() == 36 && auth_of_password(h.auth, f.password@),
                })
        } else {
            after == before
        },
    }
}

/// The host of a form with the given id, trimmed texts and credentials.
fn host_of(f: HostInput, id: String, name: String, address: String, username: String, auth: AuthType) -> (h: HostProfile)
    requires
        name@ == trim(f.name@),
        address@ == trim(f.address@),
        username@ == trim(f.username@),
    ensures
        host_from_input(h, f),
        h.id == id,
        h.auth == auth,
{
    HostProfile {
        id, name, address, port: f.port, username, auth,
        enable_icmp: f.enable_icmp, bridge_id: f.bridge_id, legacy_ssh: f.legacy_ssh, icon: f.icon,
    }
}

impl AppConfig {
    /// Saves the host form among the root nodes.  A form with an error (see
    /// `host_input_error`; `is_ip` says whether the trimmed address reads as
    /// an IP address) changes nothing.  Without `edit_index` the host is
    /// appended with a fresh id.  With it, the root node at that index is
    /// replaced by the host: an edited host keeps its id, and keeps its
    /// stored credentials when the password was left blank; an index past
    /// the end changes nothing.
    pub fn save_host(&mut self, f: HostInput, is_ip: bool, edit_index: Option<usize>) -> (r: Result<(), String>)
        requires
            encode_utf8(f.password@).len() + 16 <= usize::MAX,
        ensures
            final(self).bridges == old(self).bridges,
            match host_input_error(f, is_ip) {
                Some(e) => (r matches Err(x) && x@ == e) && final(self).root_nodes@ == old(self).root_nodes@,
                None => r is Ok && host_saved(old(self).root_nodes@, final(self).root_nodes@, f, edit_index),
            },
    {
        let name = trimmed(f.name.as_str());
        let address = trimmed(f.address.as_str());
        let username = trimmed(f.username.as_str());
        if let Err(e) = validate_host_fields(name.as_str(), address.as_str(), username.as_str(), f.port, f.allow_domain, is_ip) {
            return Err(e);
        }
        let auth = protect_password(f.password.as_str());
        let blank = f.password.as_str().is_empty();
        match edit_index {
            None => {
                let h = host_of(f, generate_node_id(), name, address, username, auth);
                let ghost before = self.root_nodes@;
                self.root_nodes.push(ConfigNode::Host(h));
                assert(self.root_nodes@.take(before.len() as int) =~= before);
                Ok(())
            },
            Some(i) => {
                if i >= self.root_nodes.len() {
                    return Ok(());
                }
                let ghost before = self.root_nodes@;
                let existing = self.root_nodes.remove(i);
                let (id, auth) = match existing {
                    ConfigNode::Host(e) => {
                        if blank { (e.id, e.auth) } else { (e.id, auth) }
                    },
                    ConfigNode::Folder { .. } => (generate_node_id(), auth),
                };
                let h = host_of(f, id, name, address, username, auth);
                let ghost hh = h;
                self.root_nodes.insert(i, ConfigNode::Host(h));
                assert(self.root_nodes@[i as int] == ConfigNode::Host(hh));
                assert forall|j: int| 0 <= j < before.len() && j != i implies #[trigger] self.root_nodes@[j] == before[j] by {
                    assert(self.root_nodes@[j] == before[j]);
                }
                Ok(())
            },
        }
    }

    /// Saves the bridge form.  A form with an error (see
    /// `bridge_input_error`) changes nothing.  Without `edit_index` the
    /// bridge is appended with a fresh random id and the typed credentials.
    /// With it, the bridge at that index is replaced: it keeps its id, and
    /// its stored credentials when the password was left blank; an index
    /// past the end changes nothing.
    pub fn save_bridge(&mut self, f: BridgeInput, is_ip: bool, edit_index: Option<usize>) -> (r: Result<(), String>)
        requires
            encode_utf8(f.password@).len() + 16 <= usize::MAX,
        ensures
            final(self).root_nodes == old(self).root_nodes,
            match bridge_input_error(f, is_ip) {
                Some(e) => (r matches Err(x) && x@ == e) && final(self).bridges@ == old(self).bridges@,
                None => r is Ok && match edit_index {
                    None => final(self).bridges@.len() == old(self).bridges@.len() + 1
                        && final(self).bridges@.take(old(self).bridges@.len() as int) == old(self).bridges@
                        && bridge_from_input(final(self).bridges@.last(), f)
                        && auth_of_password(final(self).bridges@.last().auth, f.password@),
                    Some(i) => if i < old(self).bridges@.len() {
                        final(self).bridges@.len() == old(self).bridges@.len()
                        && (forall|j: int| 0 <= j < old(self).bridges@.len() && j != i
                            ==> #[trigger] final(self).bridges@[j] == old(self).bridges@[j])
                        && bridge_from_input(final(self).bridges@[i as int], f)
                        && final(self).bridges@[i as int].id == old(self).bridges@[i as int].id
                        && (if f.password@.len() == 0 {
                            final(self).bridges@[i as int].auth == old(self).bridges@[i as int].auth
                        } else {
                            auth_of_password(final(self).bridges@[i as int].auth, f.password@)
                        })
                    } else {
                        final(self).bridges@ == old(self).bridges@
                    },
                },
            },
    {
        let name = trimmed(f.name.as_str());
        let address = trimmed(f.address.as_str());
        let username = trimmed(f.username.as_str());
        if let Err(e) = validate_bridge_fields(name.as_str(), address.as_str(), username.as_str(), f.port, f.allow_domain, is_ip) {
            return Err(e);
        }
        let auth = protect_password(f.password.as_str());
        match edit_index {
            None => {
                let b = BridgeProfile { id: new_uuid(), name, address, port: f.port, username, auth };
                self.bridges.push(b);
                Ok(())
            },
            Some(i) => {
                if i >= self.bridges.len() {
                    return Ok(());
                }
                let ghost before = self.bridges@;
                let existing = self.bridges.remove(i);
                let auth = if f.password.as_str().is_empty() { existing.auth } else { auth };
                let b = BridgeProfile { id: existing.id, name, address, port: f.port, username, auth };
                self.bridges.insert(i, b);
                assert forall|j: int| 0 <= j < before.len() && j != i implies #[trigger] self.bridges@[j] == before[j] by {
                    assert(self.bridges@[j] == before[j]);
                }
                Ok(())
            },
        }
    }

    /// Removes the root node at `index` (nothing happens past the end).
    pub fn delete_root_node(&mut self, index: usize)
        ensures
            final(self).bridges == old(self).bridges,
            final(self).root_nodes@ == if index < old(self).root_nodes@.len() {
                old(self).root_nodes@.remove(index as int)
            } else {
                old(self).root_nodes@
            },
    {
        if index < self.root_nodes.len() {
            let _ = self.root_nodes.remove(index);
        }
    }
}

} // verus!
