//! Where the ambient effect finds its surroundings: the real user's home,
//! the Wayland runtime directory, and the Wayland socket.
use vstd::prelude::*;
use crate::text::{chars_of, split, split_ranges, string_of, push_str};

verus! {

/// The home directory in a `passwd` entry (`name:pw:uid:gid:gecos:home:shell`):
/// the sixth `:`-separated field.
pub open spec fn passwd_home_spec(entry: Seq<char>) -> Option<Seq<char>> {
    let parts = split(entry, ':');
    if parts.len() > 5 {
        Some(parts[5])
    } else {
        None
    }
}

/// Reads the home directory out of what `getent passwd <user>` printed.
pub fn passwd_home(entry: &str) -> (r: Option<String>)
    ensures
        passwd_home_spec(entry@) == match r {
            Some(s) => Some(s@),
            None => None,
        },
{
    let v = chars_of(entry);
    assert(v@.subrange(0, v@.len() as int) =~= entry@);
    let parts = split_ranges(&v, 0, v.len(), ':');
    if parts.len() > 5 {
        let (a, b) = parts[5];
        Some(string_of(&v, a, b))
    } else {
        None
    }
}

/// The home directory for the palette file: the real user's, else `$HOME`,
/// else `/root`.
pub open spec fn home_spec(user_home: Option<Seq<char>>, home_var: Option<Seq<char>>) -> Seq<
    char,
> {
    match user_home {
        Some(h) => h,
        None => match home_var {
            Some(h) => h,
            None => "/root"@,
        },
    }
}

/// Chooses the home directory for the palette file.
pub fn choose_home(user_home: Option<String>, home_var: Option<String>) -> (h: String)
    ensures
        h@ == home_spec(
            match user_home {
                Some(s) => Some(s@),
                None => None,
            },
            match home_var {
                Some(s) => Some(s@),
                None => None,
            },
        ),
{
    match user_home {
        Some(h) => h,
        None => match home_var {
            Some(h) => h,
            None => "/root".to_owned(),
        },
    }
}

/// The runtime directory to look for a Wayland socket in:
/// `/run/user/<uid>`, the uid being `$SUDO_UID`, else `$PKEXEC_UID`, else 1000.
pub open spec fn runtime_dir_spec(sudo_uid: Option<Seq<char>>, pkexec_uid: Option<Seq<char>>) -> Seq<
    char,
> {
    "/run/user/"@ + match sudo_uid {
        Some(u) => u,
        None => match pkexec_uid {
            Some(u) => u,
            None => "1000"@,
        },
    }
}

/// The runtime directory to look for a Wayland socket in.
pub fn runtime_dir(sudo_uid: Option<String>, pkexec_uid: Option<String>) -> (d: String)
    ensures
        d@ == runtime_dir_spec(
            match sudo_uid {
                Some(s) => Some(s@),
                None => None,
            },
            match pkexec_uid {
                Some(s) => Some(s@),
                None => None,
            },
        ),
{
    let mut d = String::new();
    push_str(&mut d, "/run/user/");
    match sudo_uid {
        Some(u) => push_str(&mut d, u.as_str()),
        None => match pkexec_uid {
            Some(u) => push_str(&mut d, u.as_str()),
            None => push_str(&mut d, "1000"),
        },
    }
    d
}

/// `p` begins `s`.
pub open spec fn starts_with(s: Seq<char>, p: Seq<char>) -> bool {
    p.len() <= s.len() && s.take(p.len() as int) == p
}

/// `p` ends `s`.
pub open spec fn ends_with(s: Seq<char>, p: Seq<char>) -> bool {
    p.len() <= s.len() && s.skip(s.len() - p.len()) == p
}

/// A directory entry is a Wayland socket when its name starts with
/// `wayland-` and does not end with `.lock`.
pub open spec fn is_wayland_socket_spec(name: Seq<char>) -> bool {
    starts_with(name, "wayland-"@) && !ends_with(name, ".lock"@)
}

fn starts_with_exec(s: &Vec<char>, p: &Vec<char>) -> (b: bool)
    ensures
        b == starts_with(s@, p@),
{
    if p.len() > s.len() {
        return false;
    }
    let mut i: usize = 0;
    while i < p.len()
        invariant
            p@.len() <= s@.len(),
            i <= p@.len(),
            forall|k: int| 0 <= k < i ==> s@[k] == p@[k],
        decreases p@.len() - i,
    {
        if s[i] != p[i] {
            assert(s@.take(p@.len() as int)[i as int] != p@[i as int]);
            return false;
        }
        i = i + 1;
    }
    assert(s@.take(p@.len() as int) =~= p@);
    true
}

fn ends_with_exec(s: &Vec<char>, p: &Vec<char>) -> (b: bool)
    ensures
        b == ends_with(s@, p@),
{
    if p.len() > s.len() {
        return false;
    }
    let n = s.len();
    let off = n - p.len();
    let mut i: usize = 0;
    while i < p.len()
        invariant
            n == s@.len(),
            p@.len() <= s@.len(),
            off == s@.len() - p@.len(),
            i <= p@.len(),
            forall|k: int| 0 <= k < i ==> s@[off + k] == p@[k],
        decreases p@.len() - i,
    {
        if s[off + i] != p[i] {
            assert(s@.skip(off as int)[i as int] != p@[i as int]);
            return false;
        }
        i = i + 1;
    }
    assert(s@.skip(off as int) =~= p@);
    true
}

/// Whether the directory entry `name` is a Wayland socket.
pub fn is_wayland_socket(name: &str) -> (b: bool)
    ensures
        b == is_wayland_socket_spec(name@),
{
    let v = chars_of(name);
    let pre = chars_of("wayland-");
    let suf = chars_of(".lock");
    starts_with_exec(&v, &pre) && !ends_with_exec(&v, &suf)
}

} // verus!
