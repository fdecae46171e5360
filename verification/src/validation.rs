//! Checks on what the user types into the host and bridge forms.

use vstd::prelude::*;
use vstd::utf8::encode_utf8;
use crate::text::{chars_of, string_from_chars, trim, trimmed};

verus! {

/// `s` split at each `sep`: the texts before, between and after them (one
/// empty text for an empty `s`).
pub open spec fn split_on(s: Seq<char>, sep: char) -> Seq<Seq<char>>
    decreases s.len(),
{
    if s.len() == 0 {
        seq![seq![]]
    } else {
        let r = split_on(s.drop_last(), sep);
        if s.last() == sep {
            r.push(seq![])
        } else {
            r.update(r.len() - 1, r.last().push(s.last()))
        }
    }
}

proof fn lemma_split_on_len(s: Seq<char>, sep: char)
    ensures
        split_on(s, sep).len() >= 1,
    decreases s.len(),
{
    if s.len() > 0 {
        lemma_split_on_len(s.drop_last(), sep);
    }
}

/// A text takes at least one and at most four bytes per character in UTF-8.
proof fn lemma_utf8_len(s: Seq<char>)
    ensures
        s.len() <= encode_utf8(s).len() <= 4 * s.len(),
    decreases s.len(),
{
    if s.len() > 0 {
        lemma_utf8_len(s.drop_first());
    }
}

/// A letter or digit of ASCII, or a hyphen.
pub open spec fn is_label_char(c: char) -> bool {
    ('a' <= c && c <= 'z') || ('A' <= c && c <= 'Z') || ('0' <= c && c <= '9') || c == '-'
}

/// `"` + `label` + `"`, between `before` and `after`.
pub open spec fn quoted(before: Seq<char>, label: Seq<char>, after: Seq<char>) -> Seq<char> {
    before + label + after
}

/// What is wrong with one label of a domain name, if anything: it must be 1
/// to 63 bytes long, not start or end with a hyphen, and hold only ASCII
/// letters, digits and hyphens.
pub open spec fn label_error(label: Seq<char>) -> Option<Seq<char>> {
    if label.len() == 0 || encode_utf8(label).len() > 63 {
        Some(quoted("Label de domínio inválida: \""@, label, "\""@))
    } else if label[0] == '-' || label.last() == '-' {
        Some(quoted("Label \""@, label, "\" não pode começar ou terminar com hífen."@))
    } else if exists|i: int| 0 <= i < label.len() && !is_label_char(#[trigger] label[i]) {
        Some(quoted("Label \""@, label, "\" contém caracteres inválidos."@))
    } else {
        None
    }
}

/// The error of the first bad label of `labels` from index `i` on.
pub open spec fn first_label_error(labels: Seq<Seq<char>>, i: int) -> Option<Seq<char>>
    decreases labels.len() - i,
{
    if i < 0 || i >= labels.len() {
        None
    } else {
        match label_error(labels[i]) {
            Some(e) => Some(e),
            None => first_label_error(labels, i + 1),
        }
    }
}

/// What is wrong with an address (already trimmed), if anything.  An IP
/// address (`is_ip`: it reads as one) is always accepted; a domain name only
/// when allowed, at most 253 bytes long, with at least two labels, each
/// valid (see `label_error`).
pub open spec fn address_error(addr: Seq<char>, is_ip: bool, allow_domain: bool) -> Option<Seq<char>> {
    if addr.len() == 0 {
        Some("Endereço não pode ser vazio."@)
    } else if is_ip {
        None
    } else if !allow_domain {
        Some("Somente IPs numéricos são aceitos. Marque \"Permitir domínio\" para usar nomes DNS."@)
    } else if encode_utf8(addr).len() > 253 {
        Some("Domínio excede o limite de 253 caracteres."@)
    } else if split_on(addr, '.').len() < 2 {
        Some("Domínio inválido — deve ter pelo menos um ponto."@)
    } else {
        first_label_error(split_on(addr, '.'), 0)
    }
}

/// A domain label as DNS writes it: 1 to 63 bytes of ASCII letters, digits
/// and hyphens, not starting or ending with a hyphen.
pub open spec fn plain_dns_label(l: Seq<char>) -> bool {
    &&& 1 <= l.len()
    &&& encode_utf8(l).len() <= 63
    &&& l[0] != '-'
    &&& l.last() != '-'
    &&& forall|i: int| 0 <= i < l.len() ==>
            ('a' <= #[trigger] l[i] && l[i] <= 'z') || ('A' <= l[i] && l[i] <= 'Z') || ('0' <= l[i] && l[i] <= '9') || l[i] == '-'
}

proof fn lemma_plain_labels_pass(labels: Seq<Seq<char>>, i: int)
    requires
        0 <= i,
        forall|k: int| 0 <= k < labels.len() ==> plain_dns_label(#[trigger] labels[k]),
    ensures
        first_label_error(labels, i) is None,
    decreases labels.len() - i,
{
    if i < labels.len() {
        let l = labels[i];
        assert(plain_dns_label(l));
        assert(!exists|j: int| 0 <= j < l.len() && !is_label_char(#[trigger] l[j]));
        assert(label_error(l) is None);
        lemma_plain_labels_pass(labels, i + 1);
    }
}

/// A domain name of at least two labels, at most 253 bytes, whose labels
/// are all plain DNS labels (letters, digits and inner hyphens), is accepted
/// when domains are allowed.
pub proof fn law_plain_domain_accepted(addr: Seq<char>)
    requires
        addr.len() > 0,
        encode_utf8(addr).len() <= 253,
        split_on(addr, '.').len() >= 2,
        forall|k: int| 0 <= k < split_on(addr, '.').len() ==> plain_dns_label(#[trigger] split_on(addr, '.')[k]),
    ensures
        address_error(addr, false, true) is None,
{
    lemma_plain_labels_pass(split_on(addr, '.'), 0);
}

proof fn lemma_bad_label_fails(labels: Seq<Seq<char>>, i: int, k: int)
    requires
        0 <= i <= k < labels.len(),
        label_error(labels[k]) is Some,
    ensures
        first_label_error(labels, i) is Some,
    decreases k - i,
{
    if i < k && label_error(labels[i]) is None {
        lemma_bad_label_fails(labels, i + 1, k);
    }
}

/// The address check refuses an empty address and accepts any address that
/// reads as an IP.  Any other address is refused when domain names are not
/// allowed, and otherwise whenever one of its dot-separated labels is empty,
/// is longer than 63 bytes, starts or ends with a hyphen, or holds a
/// character other than an ASCII letter, digit or hyphen.
pub proof fn law_address_refusals(addr: Seq<char>, is_ip: bool, allow_domain: bool, k: int, j: int)
    ensures
        addr.len() == 0 ==> address_error(addr, is_ip, allow_domain) is Some,
        addr.len() > 0 && is_ip ==> address_error(addr, is_ip, allow_domain) is None,
        addr.len() > 0 && !is_ip && !allow_domain ==> address_error(addr, is_ip, allow_domain) is Some,
        ({
            let labels = split_on(addr, '.');
            let l = labels[k];
            (addr.len() > 0 && !is_ip && allow_domain && 0 <= k < labels.len() && (
                l.len() == 0 || encode_utf8(l).len() > 63 || l[0] == '-' || l.last() == '-'
                || (0 <= j < l.len() && !(l[j] == '-' || ('0' <= l[j] && l[j] <= '9')
                    || ('A' <= l[j] && l[j] <= 'Z') || ('a' <= l[j] && l[j] <= 'z')))))
            ==> address_error(addr, is_ip, allow_domain) is Some
        }),
{
    let labels = split_on(addr, '.');
    if addr.len() > 0 && !is_ip && allow_domain && 0 <= k < labels.len() {
        let l = labels[k];
        if 0 <= j < l.len() && !(l[j] == '-' || ('0' <= l[j] && l[j] <= '9')
            || ('A' <= l[j] && l[j] <= 'Z') || ('a' <= l[j] && l[j] <= 'z')) {
            assert(!is_label_char(l[j]));
        }
        if l.len() == 0 || encode_utf8(l).len() > 63 || l[0] == '-' || l.last() == '-'
            || (0 <= j < l.len() && !is_label_char(l[j])) {
            assert(label_error(l) is Some);
            lemma_bad_label_fails(labels, 0, k);
        }
    }
}

/// `before` + `label` + `after` as a `String`.
fn quoted_text(before: &str, label: &Vec<char>, after: &str) -> (s: String)
    ensures
        s@ == quoted(before@, label@, after@),
{
    let mut v = chars_of(before);
    let mut i: usize = 0;
    let ghost b = v@;
    while i < label.len()
        invariant
            i <= label@.len(),
            v@ == b + label@.take(i as int),
        decreases label@.len() - i,
    {
        v.push(label[i]);
        i = i + 1;
        assert(v@ =~= b + label@.take(i as int));
    }
    let a = chars_of(after);
    let mut j: usize = 0;
    let ghost m = v@;
    while j < a.len()
        invariant
            j <= a@.len(),
            v@ == m + a@.take(j as int),
        decreases a@.len() - j,
    {
        v.push(a[j]);
        j = j + 1;
        assert(v@ =~= m + a@.take(j as int));
    }
    assert(label@.take(label@.len() as int) =~= label@);
    assert(a@.take(a@.len() as int) =~= a@);
    assert(v@ =~= quoted(before@, label@, after@));
    string_from_chars(&v)
}

/// Checks one label (see `label_error`).
fn check_label(label: &Vec<char>) -> (r: Option<String>)
    ensures
        match r {
            Some(e) => label_error(label@) == Some(e@),
            None => label_error(label@) is None,
        },
{
    proof { lemma_utf8_len(label@); }
    if label.len() == 0 || label.len() > 63 {
        return Some(quoted_text("Label de domínio inválida: \"", label, "\""));
    }
    let text = string_from_chars(label);
    let text_str = text.as_str();
    let byte_len = text_str.len();
    assert(text_str@ == label@);
    if byte_len > 63 {
        return Some(quoted_text("Label de domínio inválida: \"", label, "\""));
    }
    if label[0] == '-' || label[label.len() - 1] == '-' {
        return Some(quoted_text("Label \"", label, "\" não pode começar ou terminar com hífen."));
    }
    let mut i: usize = 0;
    while i < label.len()
        invariant
            i <= label@.len(),
            label@.len() > 0,
            encode_utf8(label@).len() <= 63,
            label@[0] != '-',
            label@.last() != '-',
            forall|k: int| 0 <= k < i ==> is_label_char(#[trigger] label@[k]),
        decreases label@.len() - i,
    {
        let c = label[i];
        if !(('a' <= c && c <= 'z') || ('A' <= c && c <= 'Z') || ('0' <= c && c <= '9') || c == '-') {
            assert(!is_label_char(label@[i as int]));
            return Some(quoted_text("Label \"", label, "\" contém caracteres inválidos."));
        }
        i = i + 1;
    }
    None
}

/// Splits `s` at each line feed (see `split_on`).
pub fn split_lines(s: &Vec<char>) -> (parts: Vec<Vec<char>>)
    ensures
        parts@.map_values(|p: Vec<char>| p@) == split_on(s@, '\n'),
{
    split_chars(s, '\n')
}

/// Splits `s` at each `sep` (see `split_on`).
fn split_chars(s: &Vec<char>, sep: char) -> (parts: Vec<Vec<char>>)
    ensures
        parts@.map_values(|p: Vec<char>| p@) == split_on(s@, sep),
{
    let mut done: Vec<Vec<char>> = Vec::new();
    let mut current: Vec<char> = Vec::new();
    let mut i: usize = 0;
    assert(s@.take(0) =~= Seq::<char>::empty());
    assert(done@.map_values(|p: Vec<char>| p@).push(current@) =~= seq![Seq::<char>::empty()]);
    while i < s.len()
        invariant
            i <= s@.len(),
            done@.map_values(|p: Vec<char>| p@).push(current@) == split_on(s@.take(i as int), sep),
        decreases s@.len() - i,
    {
        let ghost before = done@.map_values(|p: Vec<char>| p@).push(current@);
        assert(s@.take(i + 1).drop_last() =~= s@.take(i as int));
        assert(s@.take(i + 1).last() == s@[i as int]);
        if s[i] == sep {
            let mut finished: Vec<char> = Vec::new();
            std::mem::swap(&mut finished, &mut current);
            done.push(finished);
            assert(done@.map_values(|p: Vec<char>| p@).push(current@) =~= before.push(seq![]));
        } else {
            current.push(s[i]);
            assert(done@.map_values(|p: Vec<char>| p@).push(current@) =~= before.update(before.len() - 1, before.last().push(s@[i as int])));
        }
        i = i + 1;
    }
    assert(s@.take(s@.len() as int) =~= s@);
    done.push(current);
    done
}

/// Checks an address typed into a form (see `address_error`); it is trimmed
/// first.  `is_ip` says whether the trimmed address reads as an IP address
/// for the standard address parser.
pub fn validate_address(address: &str, allow_domain: bool, is_ip: bool) -> (r: Result<(), String>)
    ensures
        match r {
            Ok(()) => address_error(trim(address@), is_ip, allow_domain) is None,
            Err(e) => address_error(trim(address@), is_ip, allow_domain) == Some(e@),
        },
{
    let addr = trimmed(address);
    if addr.as_str().is_empty() {
        return Err("Endereço não pode ser vazio.".to_owned());
    }
    if is_ip {
        return Ok(());
    }
    if !allow_domain {
        return Err("Somente IPs numéricos são aceitos. Marque \"Permitir domínio\" para usar nomes DNS.".to_owned());
    }
    let chars = chars_of(addr.as_str());
    proof { lemma_utf8_len(chars@); }
    if chars.len() > 253 || addr.as_str().len() > 253 {
        return Err("Domínio excede o limite de 253 caracteres.".to_owned());
    }
    let labels = split_chars(&chars, '.');
    if labels.len() < 2 {
        return Err("Domínio inválido — deve ter pelo menos um ponto.".to_owned());
    }
    let ghost lv = labels@.map_values(|p: Vec<char>| p@);
    let mut i: usize = 0;
    while i < labels.len()
        invariant
            i <= labels@.len(),
            lv == labels@.map_values(|p: Vec<char>| p@),
            first_label_error(lv, i as int) == first_label_error(lv, 0),
            lv == split_on(trim(address@), '.'),
            lv.len() >= 2,
            trim(address@).len() > 0,
            !is_ip,
            allow_domain,
            encode_utf8(trim(address@)).len() <= 253,
        decreases labels@.len() - i,
    {
        match check_label(&labels[i]) {
            Some(e) => {
                return Err(e);
            },
            None => {},
        }
        i = i + 1;
    }
    Ok(())
}

/// What is wrong with the fields of a host or bridge form, if anything, in
/// the order they are checked: the name (`name_error` when empty), the
/// address (required, then `address_error`), the user name and the port.
pub open spec fn profile_error(name_error: Seq<char>, name: Seq<char>, address: Seq<char>, username: Seq<char>, port: u16, allow_domain: bool, is_ip: bool) -> Option<Seq<char>> {
    if name.len() == 0 {
        Some(name_error)
    } else if address.len() == 0 {
        Some("O endereço é obrigatório."@)
    } else if address_error(trim(address), is_ip, allow_domain) is Some {
        address_error(trim(address), is_ip, allow_domain)
    } else if username.len() == 0 {
        Some("O nome de usuário é obrigatório."@)
    } else if port == 0 {
        Some("Porta inválida (1–65535)."@)
    } else {
        None
    }
}

/// A host or bridge form is accepted exactly when its name, address and
/// user name are all filled in, the address passes the address check once
/// trimmed, and the port is not 0; otherwise the first failing field, in
/// that order, gives the error (a missing name gives `name_error`).
pub proof fn law_form_accepted_when_complete(name_error: Seq<char>, name: Seq<char>, address: Seq<char>, username: Seq<char>, port: u16, allow_domain: bool, is_ip: bool)
    ensures
        profile_error(name_error, name, address, username, port, allow_domain, is_ip) is None <==> (
            name.len() > 0 && address.len() > 0 && address_error(trim(address), is_ip, allow_domain) is None
            && username.len() > 0 && 1 <= port),
        name.len() == 0 ==> profile_error(name_error, name, address, username, port, allow_domain, is_ip) == Some(name_error),
        name.len() > 0 && address.len() > 0 && address_error(trim(address), is_ip, allow_domain) is Some ==>
            profile_error(name_error, name, address, username, port, allow_domain, is_ip)
                == address_error(trim(address), is_ip, allow_domain),
{
}

fn check_profile(name_error: &str, name: &str, address: &str, username: &str, port: u16, allow_domain: bool, is_ip: bool) -> (r: Result<(), String>)
    ensures
        match r {
            Ok(()) => profile_error(name_error@, name@, address@, username@, port, allow_domain, is_ip) is None,
            Err(e) => profile_error(name_error@, name@, address@, username@, port, allow_domain, is_ip) == Some(e@),
        },
{
    if name.is_empty() {
        return Err(name_error.to_owned());
    }
    if address.is_empty() {
        return Err("O endereço é obrigatório.".to_owned());
    }
    if let Err(e) = validate_address(address, allow_domain, is_ip) {
        return Err(e);
    }
    if username.is_empty() {
        return Err("O nome de usuário é obrigatório.".to_owned());
    }
    if port == 0 {
        return Err("Porta inválida (1–65535).".to_owned());
    }
    Ok(())
}

/// Checks the (trimmed) fields of the host form (see `profile_error`).
pub fn validate_host_fields(name: &str, address: &str, username: &str, port: u16, allow_domain: bool, is_ip: bool) -> (r: Result<(), String>)
    ensures
        match r {
            Ok(()) => profile_error("O nome/apelido do host é obrigatório."@, name@, address@, username@, port, allow_domain, is_ip) is None,
            Err(e) => profile_error("O nome/apelido do host é obrigatório."@, name@, address@, username@, port, allow_domain, is_ip) == Some(e@),
        },
{
    check_profile("O nome/apelido do host é obrigatório.", name, address, username, port, allow_domain, is_ip)
}

/// Checks the (trimmed) fields of the bridge form (see `profile_error`).
pub fn validate_bridge_fields(name: &str, address: &str, username: &str, port: u16, allow_domain: bool, is_ip: bool) -> (r: Result<(), String>)
    ensures
        match r {
            Ok(()) => profile_error("O nome da ponte é obrigatório."@, name@, address@, username@, port, allow_domain, is_ip) is None,
            Err(e) => profile_error("O nome da ponte é obrigatório."@, name@, address@, username@, port, allow_domain, is_ip) == Some(e@),
        },
{
    check_profile("O nome da ponte é obrigatório.", name, address, username, port, allow_domain, is_ip)
}

} // verus!
