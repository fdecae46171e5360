//! Reading the output of the system `ping` command.

use vstd::prelude::*;
use crate::text::{chars_of, to_lowercase, unicode_lowercase};
use crate::validation::split_on;

verus! {

/// `t` occurs in `s`.
pub open spec fn has_text(s: Seq<char>, t: Seq<char>) -> bool {
    exists|i: int| 0 <= i && i + t.len() <= s.len() && #[trigger] s.subrange(i, i + t.len()) == t
}

/// Whether `t` occurs in `s`.
fn contains_text(s: &Vec<char>, t: &str) -> (b: bool)
    ensures
        b == has_text(s@, t@),
{
    let tv = chars_of(t);
    if tv.len() > s.len() {
        return false;
    }
    let slen = s.len();
    let last = s.len() - tv.len();
    let mut i: usize = 0;
    while i <= last
        invariant
            slen == s@.len(),
            last == s@.len() - tv@.len(),
            tv@ == t@,
            tv@.len() <= s@.len(),
            i <= s@.len() - tv@.len() + 1,
            forall|k: int| 0 <= k < i ==> #[trigger] s@.subrange(k, k + tv@.len()) != tv@,
        decreases s@.len() - i,
    {
        let mut j: usize = 0;
        let mut same = true;
        while j < tv.len()
            invariant
                j <= tv@.len(),
                slen == s@.len(),
                i + tv@.len() <= s@.len(),
                same == (forall|m: int| 0 <= m < j ==> s@[i + m] == tv@[m]),
            decreases tv@.len() - j,
        {
            if s[i + j] != tv[j] {
                same = false;
            }
            j = j + 1;
        }
        if same {
            assert(s@.subrange(i as int, i + tv@.len()) =~= tv@);
            return true;
        }
        assert(s@.subrange(i as int, i + tv@.len()) != tv@) by {
            let m = choose|m: int| 0 <= m < tv@.len() && s@[i + m] != tv@[m];
            assert(s@.subrange(i as int, i + tv@.len())[m] != tv@[m]);
        }
        i = i + 1;
    }
    assert forall|k: int| 0 <= k && k + tv@.len() <= s@.len() implies #[trigger] s@.subrange(k, k + tv@.len()) != tv@ by {
        assert(k < i);
    }
    false
}

/// A line of ping output that reports an answer: a reply marker, a
/// time or TTL measure, and no error word (English, Portuguese and Spanish
/// wordings; the line is already lowercased).
pub open spec fn is_reply_line(line: Seq<char>) -> bool {
    let is_reply = has_text(line, "reply from"@) || has_text(line, "resposta de"@)
        || has_text(line, "respuesta desde"@) || has_text(line, "bytes from"@);
    let has_metric = has_text(line, "ttl="@) || has_text(line, "time="@) || has_text(line, "time<"@)
        || has_text(line, "tempo="@) || has_text(line, "tempo<"@) || has_text(line, "tiempo="@)
        || has_text(line, "tiempo<"@);
    let is_error = has_text(line, "unreachable"@) || has_text(line, "inacessível"@)
        || has_text(line, "inaccesible"@) || has_text(line, "expired"@) || has_text(line, "esgotado"@)
        || has_text(line, "expirado"@);
    is_reply && has_metric && !is_error
}

fn reply_line(line: &Vec<char>) -> (b: bool)
    ensures
        b == is_reply_line(line@),
{
    let is_reply = contains_text(line, "reply from") || contains_text(line, "resposta de")
        || contains_text(line, "respuesta desde") || contains_text(line, "bytes from");
    let has_metric = contains_text(line, "ttl=") || contains_text(line, "time=") || contains_text(line, "time<")
        || contains_text(line, "tempo=") || contains_text(line, "tempo<") || contains_text(line, "tiempo=")
        || contains_text(line, "tiempo<");
    let is_error = contains_text(line, "unreachable") || contains_text(line, "inacessível")
        || contains_text(line, "inaccesible") || contains_text(line, "expired") || contains_text(line, "esgotado")
        || contains_text(line, "expirado");
    is_reply && has_metric && !is_error
}

/// Whether a ping answered: the command succeeded and some line of its
/// lowercased output reports a reply (see `is_reply_line`).  Some systems
/// exit successfully on "unreachable" answers, hence the reading of the
/// output.
pub open spec fn ping_answered(output: Seq<char>, status_ok: bool) -> bool {
    status_ok && exists|k: int| 0 <= k < split_on(unicode_lowercase(output), '\n').len()
        && is_reply_line(#[trigger] split_on(unicode_lowercase(output), '\n')[k])
}

/// Reads one ping attempt (see `ping_answered`).
pub fn ping_reply_seen(output: &str, status_ok: bool) -> (b: bool)
    ensures
        b == ping_answered(output@, status_ok),
{
    if !status_ok {
        return false;
    }
    let lower = to_lowercase(output);
    let chars = chars_of(lower.as_str());
    let lines = crate::validation::split_lines(&chars);
    let ghost lv = lines@.map_values(|p: Vec<char>| p@);
    let mut k: usize = 0;
    while k < lines.len()
        invariant
            k <= lines@.len(),
            lv == lines@.map_values(|p: Vec<char>| p@),
            lv == split_on(unicode_lowercase(output@), '\n'),
            status_ok,
            forall|m: int| 0 <= m < k ==> !is_reply_line(#[trigger] lv[m]),
        decreases lines@.len() - k,
    {
        if reply_line(&lines[k]) {
            assert(is_reply_line(lv[k as int]));
            return true;
        }
        k = k + 1;
    }
    false
}

} // verus!
