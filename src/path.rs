//! Paths as text, joined the way Unix paths are.

use vstd::prelude::*;

verus! {

/// A path is absolute when it starts at the root.
pub open spec fn is_absolute_path(p: Seq<char>) -> bool {
    p.len() > 0 && p[0] == '/'
}

/// `p` taken relative to `base`: an absolute `p` replaces `base`; otherwise `p`
/// follows `base`, with one separator between them where `base` has none at its end.
pub open spec fn joined(base: Seq<char>, p: Seq<char>) -> Seq<char> {
    if is_absolute_path(p) {
        p
    } else if base.len() == 0 || base.last() == '/' {
        base + p
    } else {
        base + seq!['/'] + p
    }
}

pub open spec fn is_lower_hex_digit(c: char) -> bool {
    ('0' <= c && c <= '9') || ('a' <= c && c <= 'f')
}

/// A random identifier in its usual text form: groups of 8, 4, 4, 4 and 12
/// lowercase hex digits, separated by hyphens.
pub open spec fn is_hyphenated_uuid(s: Seq<char>) -> bool {
    &&& s.len() == 36
    &&& forall|i: int|
        0 <= i < 36 ==> if i == 8 || i == 13 || i == 18 || i == 23 {
            s[i] == '-'
        } else {
            is_lower_hex_digit(s[i])
        }
}

/// The file name of the daemon's mailbox inside the temporary directory.
pub open spec fn mailbox_name() -> Seq<char> {
    seq!['h', 'o', 'l', 'o', 'g', 'r', 'a', 'm', 'd', '.', 's', 'o', 'c', 'k', 'e', 't']
}

pub fn is_absolute(p: &str) -> (r: bool)
    ensures
        r == is_absolute_path(p@),
{
    p.unicode_len() > 0 && p.get_char(0) == '/'
}

/// `p` relative to `base`, as `Path::join` does it on Unix.
pub fn join(base: &str, p: &str) -> (r: String)
    ensures
        r@ == joined(base@, p@),
{
    if is_absolute(p) {
        return String::from_str(p);
    }
    let n = base.unicode_len();
    let mut r = String::from_str(base);
    if n > 0 && base.get_char(n - 1) != '/' {
        proof {
            reveal_strlit("/");
        }
        r.append("/");
    }
    r.append(p);
    r
}

/// Where a hologram requested at `dest` from the directory `cwd` lives.
pub fn resolve_dest(dest: &str, cwd: &str) -> (r: String)
    ensures
        r@ == joined(cwd@, dest@),
{
    if is_absolute(dest) {
        String::from_str(dest)
    } else {
        join(cwd, dest)
    }
}

/// The daemon's mailbox inside the temporary directory `temp_dir`.
pub fn mailbox_path(temp_dir: &str) -> (r: String)
    ensures
        r@ == joined(temp_dir@, mailbox_name()),
{
    proof {
        reveal_strlit("hologramd.socket");
        assert("hologramd.socket"@ =~= mailbox_name());
    }
    join(temp_dir, "hologramd.socket")
}

/// Relies on uuid::Uuid::new_v4 and the `Display` impl of `Uuid`, which writes
/// the identifier hyphenated in lowercase hex.
#[verifier::external_body]
fn fresh_identifier() -> (r: String)
    ensures
        is_hyphenated_uuid(r@),
{
    uuid::Uuid::new_v4().to_string()
}

/// A fresh reply channel path inside `temp_dir`, named by a random identifier.
pub fn reply_channel_path(temp_dir: &str) -> (r: String)
    ensures
        exists|name: Seq<char>| is_hyphenated_uuid(name) && r@ == joined(temp_dir@, name),
{
    let name = fresh_identifier();
    join(temp_dir, name.as_str())
}

} // verus!
