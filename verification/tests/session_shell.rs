//! Shell resolution and signal mapping of the session logic.

use ptycore::session::{
    daemon_pick_console_shell, forward_signal, pick_console_shell, send_signal, shell_args,
    shell_basename, shell_or_default, sig_of_name, ShellPrefs, Sig, SignalError,
};

fn args(path: &[u8], login: bool) -> Vec<Vec<u8>> {
    shell_args(path, login)
}

#[test]
fn prefs_default_to_login_and_newer_shell() {
    let p = ShellPrefs::default();
    assert!(p.login);
    assert!(p.prefer_pwsh);
}

#[test]
fn bash_and_zsh_get_login_and_interactive_flags() {
    assert_eq!(args(b"/bin/bash", true), vec![b"-l".to_vec(), b"-i".to_vec()]);
    assert_eq!(args(b"/usr/bin/zsh", true), vec![b"-l".to_vec(), b"-i".to_vec()]);
    assert_eq!(args(b"/bin/bash/.", true), vec![b"-l".to_vec(), b"-i".to_vec()]);
}

#[test]
fn fish_gets_only_the_login_flag() {
    assert_eq!(args(b"/usr/bin/fish", true), vec![b"-l".to_vec()]);
}

#[test]
fn other_shells_get_no_flags() {
    assert_eq!(args(b"/bin/sh", true), Vec::<Vec<u8>>::new());
    assert_eq!(args(b"/bin/dash", true), Vec::<Vec<u8>>::new());
}

#[test]
fn without_login_no_flags_at_all() {
    assert_eq!(args(b"/bin/bash", false), Vec::<Vec<u8>>::new());
}

#[test]
fn shell_basename_handles_odd_paths() {
    assert_eq!(shell_basename(b"/bin/bash"), Some(b"bash".to_vec()));
    assert_eq!(shell_basename(b"bash"), Some(b"bash".to_vec()));
    assert_eq!(shell_basename(b"/opt/zsh/"), Some(b"zsh".to_vec()));
    assert_eq!(shell_basename(b"/"), None);
    assert_eq!(shell_basename(b""), None);
    assert_eq!(shell_basename(b"/bin/.."), None);
    assert_eq!(shell_basename(b"."), None);
    // a trailing `.` component names the directory itself
    assert_eq!(shell_basename(b"/bin/bash/."), Some(b"bash".to_vec()));
    assert_eq!(shell_basename(b"a/./."), Some(b"a".to_vec()));
    assert_eq!(shell_basename(b"/."), None);
    assert_eq!(shell_basename(b"./."), None);
    assert_eq!(shell_basename(b"..."), Some(b"...".to_vec()));
}

#[test]
fn signal_names_map_to_kinds() {
    assert_eq!(sig_of_name(b"INT"), Sig::Int);
    assert_eq!(sig_of_name(b"TERM"), Sig::Term);
    assert_eq!(sig_of_name(b"QUIT"), Sig::Quit);
    assert_eq!(sig_of_name(b"HUP"), Sig::Int);
    assert_eq!(sig_of_name(b""), Sig::Int);
}

#[test]
fn forwarding_without_a_child_pid_fails() {
    assert_eq!(forward_signal(None, b"TERM"), Err(SignalError));
}

#[test]
fn group_signal_without_a_child_pid_succeeds_silently() {
    assert_eq!(send_signal(None, Sig::Term), Ok(()));
}

#[test]
fn unset_shell_falls_back_to_the_default_interpreter() {
    assert_eq!(shell_or_default(None), b"/bin/sh".to_vec());
    assert_eq!(shell_or_default(Some(b"/bin/zsh".to_vec())), b"/bin/zsh".to_vec());
}

#[test]
fn console_shell_candidates_resolve_first_match_wins() {
    let prefer = ShellPrefs { prefer_pwsh: true, login: true };
    let older = ShellPrefs { prefer_pwsh: false, login: true };
    assert_eq!(pick_console_shell(&prefer, true, true, true, None), b"pwsh.exe".to_vec());
    assert_eq!(pick_console_shell(&prefer, false, true, true, None), b"powershell.exe".to_vec());
    assert_eq!(pick_console_shell(&older, true, true, true, None), b"powershell.exe".to_vec());
    assert_eq!(pick_console_shell(&older, true, false, true, None), b"pwsh.exe".to_vec());
    assert_eq!(pick_console_shell(&prefer, false, false, true, None), b"cmd.exe".to_vec());
    assert_eq!(
        pick_console_shell(&prefer, false, false, false, Some(b"C:\\W\\cmd.exe".to_vec())),
        b"C:\\W\\cmd.exe".to_vec()
    );
    assert_eq!(pick_console_shell(&prefer, false, false, false, None), b"cmd.exe".to_vec());
}

#[test]
fn daemon_console_shell_resolution() {
    assert_eq!(daemon_pick_console_shell(true, true, None), b"pwsh.exe".to_vec());
    assert_eq!(daemon_pick_console_shell(false, true, None), b"powershell.exe".to_vec());
    assert_eq!(
        daemon_pick_console_shell(false, false, Some(b"cmd".to_vec())),
        b"cmd".to_vec()
    );
    assert_eq!(daemon_pick_console_shell(false, false, None), b"cmd.exe".to_vec());
}
