//! Where the daemon's socket, its state file and Hyprland's event socket
//! live. Paths are byte strings, as file names are on Unix.

use vstd::prelude::*;
use vstd::utf8::encode_utf8;

verus! {

/// The byte of the path separator `/`.
pub open spec fn separator() -> u8 {
    0x2f
}

/// `base` with `component` joined onto it as a path: an absolute component
/// replaces the base; otherwise a separator comes between them unless the
/// base is empty or already ends with one.
pub open spec fn joined(base: Seq<u8>, component: Seq<u8>) -> Seq<u8> {
    if component.len() > 0 && component[0] == separator() {
        component
    } else if base.len() > 0 && base.last() != separator() {
        base.push(separator()) + component
    } else {
        base + component
    }
}

/// Appends the bytes of `tail` to `v`.
fn append_bytes(v: &mut Vec<u8>, tail: &[u8])
    ensures
        final(v)@ == old(v)@ + tail@,
{
    let mut i: usize = 0;
    while i < tail.len()
        invariant
            i <= tail@.len(),
            v@ == old(v)@ + tail@.take(i as int),
        decreases tail@.len() - i,
    {
        v.push(tail[i]);
        assert(tail@.take(i + 1) =~= tail@.take(i as int).push(tail@[i as int]));
        i = i + 1;
    }
    assert(tail@.take(tail@.len() as int) =~= tail@);
}

/// Joins `component` onto `base` as a path.
pub fn path_join(base: &[u8], component: &[u8]) -> (r: Vec<u8>)
    ensures
        r@ == joined(base@, component@),
{
    let mut path: Vec<u8> = Vec::new();
    if component.len() > 0 && component[0] == 0x2f {
        append_bytes(&mut path, component);
        return path;
    }
    append_bytes(&mut path, base);
    if base.len() > 0 && base[base.len() - 1] != 0x2f {
        path.push(0x2f);
    }
    append_bytes(&mut path, component);
    path
}

/// The directory for runtime files: `XDG_RUNTIME_DIR`, or `/tmp`.
pub open spec fn runtime_dir_path(xdg_runtime_dir: Option<Seq<u8>>) -> Seq<u8> {
    match xdg_runtime_dir {
        Some(dir) => dir,
        None => encode_utf8("/tmp"@),
    }
}

/// The directory for runtime files, from the value of `XDG_RUNTIME_DIR`.
pub fn runtime_dir(xdg_runtime_dir: Option<Vec<u8>>) -> (r: Vec<u8>)
    ensures
        r@ == runtime_dir_path(match xdg_runtime_dir {
            Some(d) => Some(d@),
            None => None,
        }),
{
    match xdg_runtime_dir {
        Some(dir) => dir,
        None => {
            let mut dir: Vec<u8> = Vec::new();
            append_bytes(&mut dir, "/tmp".as_bytes());
            dir
        },
    }
}

/// The directory for state files: `XDG_STATE_HOME`, or `.local/state` under
/// `HOME`, or the working directory.
pub open spec fn state_dir_path(xdg_state_home: Option<Seq<u8>>, home: Option<Seq<u8>>) -> Seq<u8> {
    match xdg_state_home {
        Some(dir) => dir,
        None => match home {
            Some(h) => joined(h, encode_utf8(".local/state"@)),
            None => encode_utf8("."@),
        },
    }
}

/// The directory for state files, from the values of `XDG_STATE_HOME` and
/// `HOME`.
pub fn state_dir(xdg_state_home: Option<Vec<u8>>, home: Option<Vec<u8>>) -> (r: Vec<u8>)
    ensures
        r@ == state_dir_path(
            match xdg_state_home {
                Some(d) => Some(d@),
                None => None,
            },
            match home {
                Some(h) => Some(h@),
                None => None,
            },
        ),
{
    match xdg_state_home {
        Some(dir) => dir,
        None => match home {
            Some(h) => path_join(h.as_slice(), ".local/state".as_bytes()),
            None => {
                let mut dir: Vec<u8> = Vec::new();
                append_bytes(&mut dir, ".".as_bytes());
                dir
            },
        },
    }
}

/// The daemon's command socket, in the runtime directory.
pub fn default_command_socket(xdg_runtime_dir: Option<Vec<u8>>) -> (r: Vec<u8>)
    ensures
        r@ == joined(
            runtime_dir_path(match xdg_runtime_dir {
                Some(d) => Some(d@),
                None => None,
            }),
            encode_utf8("hypr-workspace-history.sock"@),
        ),
{
    let dir = runtime_dir(xdg_runtime_dir);
    path_join(dir.as_slice(), "hypr-workspace-history.sock".as_bytes())
}

/// The daemon's state file, under the state directory.
pub fn default_state_path(xdg_state_home: Option<Vec<u8>>, home: Option<Vec<u8>>) -> (r: Vec<u8>)
    ensures
        r@ == joined(
            joined(
                state_dir_path(
                    match xdg_state_home {
                        Some(d) => Some(d@),
                        None => None,
                    },
                    match home {
                        Some(h) => Some(h@),
                        None => None,
                    },
                ),
                encode_utf8("hypr-workspace-history"@),
            ),
            encode_utf8("state.json"@),
        ),
{
    let dir = state_dir(xdg_state_home, home);
    let app_dir = path_join(dir.as_slice(), "hypr-workspace-history".as_bytes());
    path_join(app_dir.as_slice(), "state.json".as_bytes())
}

/// Why the path of Hyprland's event socket is unknown.
#[derive(Clone, Copy, Debug, PartialEq, Eq, Structural)]
pub enum EventSocketError {
    /// `XDG_RUNTIME_DIR` is not set.
    RuntimeDirUnset,
    /// `HYPRLAND_INSTANCE_SIGNATURE` is not set to text.
    SignatureUnset,
}

/// The path of Hyprland's event socket: `.socket2.sock` in the instance's
/// directory under `hypr` in the runtime directory.
pub open spec fn event_socket_path(runtime: Seq<u8>, signature: Seq<char>) -> Seq<u8> {
    joined(joined(joined(runtime, encode_utf8("hypr"@)), encode_utf8(signature)), encode_utf8(".socket2.sock"@))
}

/// The path of Hyprland's event socket, from the values of `XDG_RUNTIME_DIR`
/// and `HYPRLAND_INSTANCE_SIGNATURE`.
pub fn hyprland_event_socket(xdg_runtime_dir: Option<Vec<u8>>, signature: Option<String>) -> (r:
    Result<Vec<u8>, EventSocketError>)
    ensures
        match (xdg_runtime_dir, signature) {
            (None, _) => r == Err::<Vec<u8>, EventSocketError>(EventSocketError::RuntimeDirUnset),
            (Some(_), None) => r == Err::<Vec<u8>, EventSocketError>(
                EventSocketError::SignatureUnset,
            ),
            (Some(d), Some(s)) => r is Ok && r->Ok_0@ == event_socket_path(d@, s@),
        },
{
    let runtime = match xdg_runtime_dir {
        Some(d) => d,
        None => return Err(EventSocketError::RuntimeDirUnset),
    };
    let signature = match signature {
        Some(s) => s,
        None => return Err(EventSocketError::SignatureUnset),
    };
    let hypr = path_join(runtime.as_slice(), "hypr".as_bytes());
    let instance = path_join(hypr.as_slice(), signature.as_str().as_bytes());
    Ok(path_join(instance.as_slice(), ".socket2.sock".as_bytes()))
}

} // verus!
