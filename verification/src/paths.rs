//! Where the daemon listens, and what it runs. Paths are bytes, as the system
//! takes them.

use vstd::prelude::*;
use vstd::string::*;
use vstd::utf8::*;

verus! {

/// The byte between two parts of a path.
pub const SEPARATOR: u8 = 0x2f;

/// A path below a directory.
pub open spec fn below(dir: Seq<u8>, name: Seq<u8>) -> Seq<u8> {
    if dir.len() > 0 && dir.last() != SEPARATOR {
        dir.push(SEPARATOR) + name
    } else {
        dir + name
    }
}

/// The socket of the daemon: below the directory for such things, where one
/// is set and not empty, else below the directory for temporary files.
pub open spec fn socket_of(runtime_dir: Option<Seq<u8>>) -> Seq<u8> {
    let dir = match runtime_dir {
        Some(dir) => if dir.len() > 0 {
            dir
        } else {
            encode_utf8("/tmp"@)
        },
        None => encode_utf8("/tmp"@),
    };
    below(dir, encode_utf8("mxr.sock"@))
}

/// The view of an optional path.
pub open spec fn path_view(path: Option<Vec<u8>>) -> Option<Seq<u8>> {
    match path {
        Some(p) => Some(p@),
        None => None,
    }
}

/// The path of the socket on which the daemon listens and clients call.
pub fn socket_path(runtime_dir: Option<Vec<u8>>) -> (r: Vec<u8>)
    ensures
        r@ == socket_of(path_view(runtime_dir)),
        runtime_dir matches Some(dir) ==> r@ == socket_of(Some(dir@)),
        runtime_dir is None ==> r@ == socket_of(None),
{
    let mut path: Vec<u8> = Vec::new();
    match &runtime_dir {
        Some(dir) => {
            path.extend_from_slice(dir.as_slice());
            assert(path@ =~= dir@);
        },
        None => {},
    }
    if path.is_empty() {
        let tmp: &[u8] = "/tmp".as_bytes();
        path.extend_from_slice(tmp);
        assert(path@ =~= encode_utf8("/tmp"@));
        proof {
            reveal_strlit("/tmp");
            is_ascii_chars_encode_utf8("/tmp"@);
        }
    }
    let ghost dir = path@;
    let last: u8 = path[path.len() - 1];
    if last != SEPARATOR {
        path.push(SEPARATOR);
    }
    path.extend_from_slice("mxr.sock".as_bytes());
    assert(path@ =~= below(dir, encode_utf8("mxr.sock"@)));
    path
}

/// The shell that the daemon runs in a pane: the one that is set, else the
/// one that every system has.
pub fn shell_path(setting: Option<String>) -> (r: String)
    ensures
        r@ == match setting {
            Some(shell) => shell@,
            None => "/bin/sh"@,
        },
{
    match setting {
        Some(shell) => shell,
        None => "/bin/sh".to_owned(),
    }
}

} // verus!
