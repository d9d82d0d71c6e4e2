//! Where the server's socket and pid file lie. A path is the bytes that the system has for
//! it, which need not be text.

use crate::state::opt_str;
use vstd::prelude::*;
use vstd::utf8::{encode_utf8, encode_utf8_decode_utf8};

verus! {

/// The name of the socket.
pub const SOCKET_NAME: &'static str = "remux.sock";

/// The name of the pid file.
pub const PID_NAME: &'static str = "remux.pid";

/// The directory that is used when none is known.
pub const FALLBACK_DIR: &'static str = "/tmp";

/// The byte that parts the names of a path.
pub const SLASH: u8 = 0x2f;

/// `dirs::runtime_dir`: the directory for files that live as long as the user is logged
/// in, if it can be told. It depends on the environment, so nothing is stated of it.
#[verifier::external_body]
fn runtime_dir() -> (r: Option<Vec<u8>>) {
    dirs::runtime_dir().map(|d| d.into_os_string().into_encoded_bytes())
}

/// The directory for the server's files: the one that the system names, else the one that
/// `$XDG_RUNTIME_DIR` names, else the last resort.
pub open spec fn runtime(known: Option<Seq<u8>>, xdg: Option<Seq<char>>) -> Seq<u8> {
    match (known, xdg) {
        (Some(d), _) => d,
        (None, Some(d)) => encode_utf8(d),
        (None, None) => encode_utf8(FALLBACK_DIR@),
    }
}

/// A file in a directory. A slash parts the two, unless the directory ends in one or is
/// empty.
pub open spec fn inside(dir: Seq<u8>, name: Seq<char>) -> Seq<u8> {
    if dir.len() == 0 || dir.last() == SLASH {
        dir + encode_utf8(name)
    } else {
        dir.push(SLASH) + encode_utf8(name)
    }
}

/// The bytes behind an optional path.
pub open spec fn opt_path(p: Option<&Vec<u8>>) -> Option<Seq<u8>> {
    match p {
        Some(v) => Some(v@),
        None => None,
    }
}

fn add_bytes(path: &mut Vec<u8>, more: &[u8])
    ensures
        final(path)@ == old(path)@ + more@,
{
    let mut i: usize = 0;
    while i < more.len()
        invariant
            i <= more.len(),
            path@ == old(path)@ + more@.take(i as int),
        decreases more.len() - i,
    {
        path.push(more[i]);
        assert(more@.take(i + 1) =~= more@.take(i as int).push(more@[i as int]));
        i += 1;
    }
    assert(more@.take(i as int) =~= more@);
}

/// The path of a file in the directory for the server's files.
pub fn runtime_file(known: Option<&Vec<u8>>, xdg: Option<&str>, name: &str) -> (r: Vec<u8>)
    ensures
        r@ == inside(runtime(opt_path(known), opt_str(xdg)), name@),
{
    let mut path: Vec<u8> = Vec::new();
    match (known, xdg) {
        (Some(d), _) => add_bytes(&mut path, d.as_slice()),
        (None, Some(d)) => add_bytes(&mut path, d.as_bytes()),
        (None, None) => add_bytes(&mut path, FALLBACK_DIR.as_bytes()),
    }
    assert(path@ =~= runtime(opt_path(known), opt_str(xdg)));
    if path.len() > 0 && path[path.len() - 1] != SLASH {
        path.push(SLASH);
    }
    add_bytes(&mut path, name.as_bytes());
    path
}

/// A file lies in the directory for the server's files, whichever directory the system
/// names.
pub open spec fn in_runtime_dir(path: Seq<u8>, xdg: Option<Seq<char>>, name: Seq<char>) -> bool {
    exists|known: Option<Seq<u8>>| path == inside(#[trigger] runtime(known, xdg), name)
}

fn file_path(xdg: Option<&str>, name: &str) -> (r: Vec<u8>)
    ensures
        in_runtime_dir(r@, opt_str(xdg), name@),
{
    let known: Option<Vec<u8>> = runtime_dir();
    let dir: Option<&Vec<u8>> = match &known {
        Some(d) => Some(d),
        None => None,
    };
    let r = runtime_file(dir, xdg, name);
    assert(r@ == inside(runtime(opt_path(dir), opt_str(xdg)), name@));
    r
}

/// The path of the socket. `xdg` is the value of `$XDG_RUNTIME_DIR`.
pub fn socket_path(xdg: Option<&str>) -> (r: Vec<u8>)
    ensures
        in_runtime_dir(r@, opt_str(xdg), SOCKET_NAME@),
{
    file_path(xdg, SOCKET_NAME)
}

/// The path of the pid file. `xdg` is the value of `$XDG_RUNTIME_DIR`.
pub fn pid_path(xdg: Option<&str>) -> (r: Vec<u8>)
    ensures
        in_runtime_dir(r@, opt_str(xdg), PID_NAME@),
{
    file_path(xdg, PID_NAME)
}

/// The socket and the pid file of a server lie side by side and are two files.
pub proof fn law_socket_and_pid_file_differ(known: Option<Seq<u8>>, xdg: Option<Seq<char>>)
    ensures
        inside(runtime(known, xdg), SOCKET_NAME@) != inside(runtime(known, xdg), PID_NAME@),
{
    reveal_strlit("remux.sock");
    reveal_strlit("remux.pid");
    let dir = runtime(known, xdg);
    let a = encode_utf8(SOCKET_NAME@);
    let b = encode_utf8(PID_NAME@);
    encode_utf8_decode_utf8(SOCKET_NAME@);
    encode_utf8_decode_utf8(PID_NAME@);
    assert(SOCKET_NAME@.len() != PID_NAME@.len());
    assert(a != b);
    let start = if dir.len() == 0 || dir.last() == SLASH {
        dir
    } else {
        dir.push(SLASH)
    };
    if inside(dir, SOCKET_NAME@) == inside(dir, PID_NAME@) {
        assert(a =~= (start + a).skip(start.len() as int));
        assert(b =~= (start + b).skip(start.len() as int));
    }
}

} // verus!
