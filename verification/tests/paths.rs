use std::path::PathBuf;

use hypr_workspace_history::paths::{
    default_command_socket, default_state_path, hyprland_event_socket, path_join, runtime_dir,
    state_dir, EventSocketError,
};

fn b(s: &str) -> Vec<u8> {
    s.as_bytes().to_vec()
}

#[test]
fn join_puts_one_separator_between() {
    assert_eq!(path_join(b"/run/user/1000", b"x.sock"), b("/run/user/1000/x.sock"));
    assert_eq!(path_join(b"/run/user/1000/", b"x.sock"), b("/run/user/1000/x.sock"));
    assert_eq!(path_join(b"", b"x.sock"), b("x.sock"));
    assert_eq!(path_join(b"/a", b"/abs"), b("/abs"));
    assert_eq!(path_join(b"/a", b""), b("/a/"));
}

#[test]
fn join_agrees_with_pathbuf() {
    for (base, comp) in [("/a", "b"), ("/a/", "b"), ("", "b"), ("a", "/b"), ("/a", ""), ("x/y", "z/w")] {
        let expected = PathBuf::from(base).join(comp);
        assert_eq!(path_join(base.as_bytes(), comp.as_bytes()), b(expected.to_str().unwrap()));
    }
}

#[test]
fn runtime_dir_defaults_to_tmp() {
    assert_eq!(runtime_dir(None), b("/tmp"));
    assert_eq!(runtime_dir(Some(b("/run/user/1000"))), b("/run/user/1000"));
}

#[test]
fn command_socket_lives_in_runtime_dir() {
    assert_eq!(default_command_socket(None), b("/tmp/hypr-workspace-history.sock"));
    assert_eq!(
        default_command_socket(Some(b("/run/user/1000"))),
        b("/run/user/1000/hypr-workspace-history.sock")
    );
    assert_eq!(
        default_command_socket(Some(vec![0xff, 0xfe])),
        vec![0xff, 0xfe, b'/', b'h', b'y', b'p', b'r', b'-', b'w', b'o', b'r', b'k', b's', b'p', b'a', b'c', b'e', b'-', b'h', b'i', b's', b't', b'o', b'r', b'y', b'.', b's', b'o', b'c', b'k']
    );
}

#[test]
fn state_dir_prefers_xdg_then_home() {
    assert_eq!(state_dir(Some(b("/xdg")), Some(b("/home/u"))), b("/xdg"));
    assert_eq!(state_dir(None, Some(b("/home/u"))), b("/home/u/.local/state"));
    assert_eq!(state_dir(None, None), b("."));
}

#[test]
fn state_path_lives_under_state_dir() {
    assert_eq!(
        default_state_path(Some(b("/xdg")), None),
        b("/xdg/hypr-workspace-history/state.json")
    );
    assert_eq!(
        default_state_path(None, Some(b("/home/u"))),
        b("/home/u/.local/state/hypr-workspace-history/state.json")
    );
    assert_eq!(default_state_path(None, None), b("./hypr-workspace-history/state.json"));
}

#[test]
fn event_socket_path_and_errors() {
    assert_eq!(
        hyprland_event_socket(Some(b("/run/user/1000")), Some("abc_123".to_string())),
        Ok(b("/run/user/1000/hypr/abc_123/.socket2.sock"))
    );
    assert_eq!(
        hyprland_event_socket(None, Some("abc".to_string())),
        Err(EventSocketError::RuntimeDirUnset)
    );
    assert_eq!(hyprland_event_socket(None, None), Err(EventSocketError::RuntimeDirUnset));
    assert_eq!(
        hyprland_event_socket(Some(b("/run")), None),
        Err(EventSocketError::SignatureUnset)
    );
}
