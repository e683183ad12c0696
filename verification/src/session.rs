//! Decision logic of the pseudo-terminal session: which shell to start and
//! with which flags, and how a logical signal kind reaches the hosted
//! process. The session's OS handles (the terminal pair, the child, the
//! byte streams) live with the process plumbing around this library; the
//! child's process id is all the signal path needs.

use vstd::prelude::*;

verus! {

/// The logical signal kinds a session can deliver.
#[derive(Clone, Copy, PartialEq, Eq, Structural, Debug)]
pub enum Sig {
    Int,
    Term,
    Quit,
}

/// Signal delivery failed before reaching the kernel: no child process id
/// was known. Not fatal to the session.
#[derive(Clone, Copy, PartialEq, Eq, Structural, Debug)]
pub struct SignalError;

/// How the session's shell is chosen.
#[derive(Clone, Copy, Debug)]
pub struct ShellPrefs {
    /// On the console-control platform, probe for the newer shell first.
    pub prefer_pwsh: bool,
    /// Ask for a login (and, per shell family, interactive) invocation.
    pub login: bool,
}

impl Default for ShellPrefs {
    /// The defaults: prefer the newer shell, ask for a login invocation.
    fn default() -> (p: ShellPrefs)
        ensures
            p.prefer_pwsh,
            p.login,
    {
        ShellPrefs { prefer_pwsh: true, login: true }
    }
}

#[verifier::external_type_specification]
#[verifier::external_body]
pub struct ExErrno(nix::errno::Errno);

/// Relies on nix's killpg: delivers the signal of the given kind to the
/// process group; the result is the kernel's answer.
#[verifier::external_body]
fn killpg_raw(pgrp: u32, sig: &Sig) -> (r: Result<(), nix::errno::Errno>) {
    let signo = match sig {
        Sig::Int => nix::sys::signal::Signal::SIGINT,
        Sig::Term => nix::sys::signal::Signal::SIGTERM,
        Sig::Quit => nix::sys::signal::Signal::SIGQUIT,
    };
    nix::sys::signal::killpg(nix::unistd::Pid::from_raw(pgrp as i32), signo)
}

/// Relies on nix's kill: delivers the signal of the given kind to the
/// process; the result is the kernel's answer.
#[verifier::external_body]
fn kill_raw(pid: u32, sig: &Sig) -> (r: Result<(), nix::errno::Errno>) {
    let signo = match sig {
        Sig::Int => nix::sys::signal::Signal::SIGINT,
        Sig::Term => nix::sys::signal::Signal::SIGTERM,
        Sig::Quit => nix::sys::signal::Signal::SIGQUIT,
    };
    nix::sys::signal::kill(nix::unistd::Pid::from_raw(pid as i32), signo)
}

/// Deliver a signal to the whole process group fronted by the child.
/// Without a known child process id nothing is sent and the call succeeds,
/// as the kernel would treat a process already gone; otherwise the result
/// mirrors the kernel's answer, surfaced and not fatal to the session.
pub fn send_signal(pid: Option<u32>, sig: Sig) -> (r: Result<(), SignalError>)
    ensures
        pid is None ==> r is Ok,
{
    match pid {
        None => Ok(()),
        Some(p) => match killpg_raw(p, &sig) {
            Ok(_) => Ok(()),
            Err(_) => Err(SignalError),
        },
    }
}

/// `/bin/sh`, the fallback interpreter.
pub open spec fn default_shell_name() -> Seq<u8> {
    seq!['/' as u8, 'b' as u8, 'i' as u8, 'n' as u8, '/' as u8, 's' as u8, 'h' as u8]
}

/// The shell to run: the host's configured value when one is set, else the
/// default interpreter's path.
pub fn shell_or_default(configured: Option<Vec<u8>>) -> (r: Vec<u8>)
    ensures
        r@ == match configured {
            Some(v) => v@,
            None => default_shell_name(),
        },
{
    match configured {
        Some(v) => v,
        None => {
            let mut v: Vec<u8> = Vec::new();
            v.push(0x2F);
            v.push(0x62);
            v.push(0x69);
            v.push(0x6E);
            v.push(0x2F);
            v.push(0x73);
            v.push(0x68);
            proof {
                assert(v@ =~= default_shell_name());
            }
            v
        },
    }
}

pub open spec fn name_term() -> Seq<u8> {
    seq!['T' as u8, 'E' as u8, 'R' as u8, 'M' as u8]
}

pub open spec fn name_quit() -> Seq<u8> {
    seq!['Q' as u8, 'U' as u8, 'I' as u8, 'T' as u8]
}

/// The signal kind a protocol signal name stands for: `TERM` and `QUIT`
/// name their kinds; `INT` — and, deliberately, any unknown name — means
/// the interrupt.
pub open spec fn sig_of_name_v(n: Seq<u8>) -> Sig {
    if n == name_term() {
        Sig::Term
    } else if n == name_quit() {
        Sig::Quit
    } else {
        Sig::Int
    }
}

/// Map a protocol signal name to its kind, as `sig_of_name_v` states.
pub fn sig_of_name(name: &[u8]) -> (s: Sig)
    ensures
        s == sig_of_name_v(name@),
{
    if name.len() == 4 && name[0] == 0x54 && name[1] == 0x45 && name[2] == 0x52 && name[3] == 0x4D {
        proof {
            assert(name@ =~= name_term());
        }
        Sig::Term
    } else if name.len() == 4 && name[0] == 0x51 && name[1] == 0x55 && name[2] == 0x49 && name[3]
        == 0x54 {
        proof {
            assert(name@ =~= name_quit());
            assert(name@ != name_term());
        }
        Sig::Quit
    } else {
        proof {
            assert(name@ != name_term() && name@ != name_quit()) by {
                if name@ == name_term() || name@ == name_quit() {
                    assert(name@.len() == 4);
                }
            }
        }
        Sig::Int
    }
}

/// Forward a named signal from the control channel to the child process:
/// fails exactly when no child process id is known; once the name is
/// mapped (unknown names fall back to the interrupt) the kernel's answer
/// is deliberately ignored.
pub fn forward_signal(pid: Option<u32>, sig_name: &[u8]) -> (r: Result<(), SignalError>)
    ensures
        r is Ok <==> pid is Some,
{
    match pid {
        None => Err(SignalError),
        Some(p) => {
            let kind = sig_of_name(sig_name);
            let _ = kill_raw(p, &kind);
            Ok(())
        },
    }
}

/// The path with its trailing slashes removed.
pub open spec fn strip_trailing_slashes(p: Seq<u8>) -> Seq<u8>
    decreases p.len(),
{
    if p.len() > 0 && p[p.len() - 1] == '/' as u8 {
        strip_trailing_slashes(p.drop_last())
    } else {
        p
    }
}

/// The suffix after the last slash (the whole sequence when there is none).
pub open spec fn after_last_slash(p: Seq<u8>) -> Seq<u8>
    decreases p.len(),
{
    if p.len() == 0 {
        p
    } else if p[p.len() - 1] == '/' as u8 {
        Seq::empty()
    } else {
        after_last_slash(p.drop_last()).push(p[p.len() - 1])
    }
}

/// Stripping trailing slashes never lengthens the path.
proof fn lemma_strip_len(p: Seq<u8>)
    ensures
        strip_trailing_slashes(p).len() <= p.len(),
    decreases p.len(),
{
    if p.len() > 0 && p[p.len() - 1] == '/' as u8 {
        lemma_strip_len(p.drop_last());
    }
}

/// The last real component of a path: trailing slashes are ignored, and a
/// trailing `.` component stands for the directory itself and is skipped.
pub open spec fn basename_core(p: Seq<u8>) -> Seq<u8>
    decreases p.len(),
    via basename_core_dec
{
    let q = strip_trailing_slashes(p);
    let name = after_last_slash(q);
    if name == seq!['.' as u8] && q.len() > 0 {
        basename_core(q.drop_last())
    } else {
        name
    }
}

#[via_fn]
proof fn basename_core_dec(p: Seq<u8>) {
    lemma_strip_len(p);
}

/// The file name of a shell path: its last real component, with trailing
/// slashes and `.` components ignored; nothing when what remains is empty
/// or the parent component `..`.
pub open spec fn basename_v(p: Seq<u8>) -> Option<Seq<u8>> {
    let name = basename_core(p);
    if name.len() == 0 || name == seq!['.' as u8] || name == seq!['.' as u8, '.' as u8] {
        None
    } else {
        Some(name)
    }
}

/// The file name of a shell path, as `basename_v` states.
pub fn shell_basename(path: &[u8]) -> (r: Option<Vec<u8>>)
    ensures
        match r {
            Some(n) => basename_v(path@) == Some(n@),
            None => basename_v(path@) is None,
        },
{
    let mut end: usize = path.len();
    proof {
        assert(path@.subrange(0, end as int) =~= path@);
    }
    loop
        invariant
            end <= path@.len(),
            basename_core(path@) == basename_core(path@.subrange(0, end as int)),
        ensures
            end <= path@.len(),
            basename_core(path@) == basename_core(path@.subrange(0, end as int)),
            end > 0 ==> path@[end as int - 1] != '/' as u8,
            end > 0 ==> !(path@[end as int - 1] == '.' as u8 && (end == 1 || path@[end as int - 2]
                == '/' as u8)),
        decreases end,
    {
        if end > 0 && path[end - 1] == 0x2F {
            proof {
                let s1 = path@.subrange(0, end as int);
                let s2 = path@.subrange(0, end as int - 1);
                assert(s1.drop_last() =~= s2);
                assert(strip_trailing_slashes(s1) == strip_trailing_slashes(s2));
                assert(basename_core(s1) == basename_core(s2));
            }
            end = end - 1;
        } else if end > 0 && path[end - 1] == 0x2E && (end == 1 || path[end - 2] == 0x2F) {
            proof {
                let s1 = path@.subrange(0, end as int);
                let s2 = path@.subrange(0, end as int - 1);
                assert(s1.drop_last() =~= s2);
                assert(strip_trailing_slashes(s1) == s1);
                assert(after_last_slash(s1) =~= seq!['.' as u8]) by {
                    if s2.len() == 0 {
                        assert(after_last_slash(s2) =~= Seq::<u8>::empty());
                    } else {
                        assert(s2[s2.len() - 1] == '/' as u8);
                        assert(after_last_slash(s2) =~= Seq::<u8>::empty());
                    }
                }
                assert(basename_core(s1) == basename_core(s2));
            }
            end = end - 1;
        } else {
            break;
        }
    }
    let ghost q = path@.subrange(0, end as int);
    proof {
        // at the loop's end the path has no trailing slash, so it is its
        // own stripped form, and its last component is not `.`
        assert(strip_trailing_slashes(q) == q);
        if q.len() > 0 && after_last_slash(q) == seq!['.' as u8] {
            assert(q[q.len() - 1] != '/' as u8);
            assert(after_last_slash(q) == after_last_slash(q.drop_last()).push(q[q.len() - 1]));
            assert(q[q.len() - 1] == '.' as u8) by {
                assert(after_last_slash(q)[after_last_slash(q).len() - 1] == q[q.len() - 1]);
            }
            assert(after_last_slash(q.drop_last()).len() == 0);
            if q.len() >= 2 {
                assert(q.drop_last()[q.len() - 2] == '/' as u8) by {
                    if q.drop_last()[q.len() - 2] != '/' as u8 {
                        assert(after_last_slash(q.drop_last()) == after_last_slash(
                            q.drop_last().drop_last(),
                        ).push(q.drop_last()[q.len() - 2]));
                    }
                }
                assert(path@[end as int - 2] == '/' as u8);
            }
            assert(false);
        }
        assert(basename_core(path@) == after_last_slash(q));
    }
    let mut start: usize = end;
    while start > 0 && path[start - 1] != 0x2F
        invariant
            start <= end <= path@.len(),
            q == path@.subrange(0, end as int),
            after_last_slash(q) == after_last_slash(path@.subrange(0, start as int)) + path@.subrange(
                start as int,
                end as int,
            ),
        decreases start,
    {
        proof {
            let s0 = path@.subrange(0, start as int);
            assert(s0.drop_last() =~= path@.subrange(0, start as int - 1));
            assert(after_last_slash(s0) == after_last_slash(path@.subrange(0, start as int - 1)).push(
                path@[start as int - 1],
            ));
            assert(after_last_slash(path@.subrange(0, start as int - 1)).push(path@[start as int - 1])
                + path@.subrange(start as int, end as int) =~= after_last_slash(
                path@.subrange(0, start as int - 1),
            ) + path@.subrange(start as int - 1, end as int));
        }
        start = start - 1;
    }
    proof {
        let s0 = path@.subrange(0, start as int);
        assert(after_last_slash(s0) == Seq::<u8>::empty());
        assert(after_last_slash(q) =~= path@.subrange(start as int, end as int));
    }
    let name = vstd::slice::slice_subrange(path, start, end);
    let n = name.len();
    if n == 0 {
        return None;
    }
    if n == 1 && name[0] == 0x2E {
        proof {
            assert(name@ =~= seq!['.' as u8]);
        }
        return None;
    }
    if n == 2 && name[0] == 0x2E && name[1] == 0x2E {
        proof {
            assert(name@ =~= seq!['.' as u8, '.' as u8]);
        }
        return None;
    }
    proof {
        assert(name@ != seq!['.' as u8] && name@ != seq!['.' as u8, '.' as u8]) by {
            if name@ == seq!['.' as u8] {
                assert(name@.len() == 1 && name@[0] == '.' as u8);
            }
            if name@ == seq!['.' as u8, '.' as u8] {
                assert(name@.len() == 2 && name@[0] == '.' as u8 && name@[1] == '.' as u8);
            }
        }
    }
    Some(vstd::slice::slice_to_vec(name))
}

pub open spec fn name_bash() -> Seq<u8> {
    seq!['b' as u8, 'a' as u8, 's' as u8, 'h' as u8]
}

pub open spec fn name_zsh() -> Seq<u8> {
    seq!['z' as u8, 's' as u8, 'h' as u8]
}

pub open spec fn name_fish() -> Seq<u8> {
    seq!['f' as u8, 'i' as u8, 's' as u8, 'h' as u8]
}

pub open spec fn flag_login() -> Seq<u8> {
    seq!['-' as u8, 'l' as u8]
}

pub open spec fn flag_interactive() -> Seq<u8> {
    seq!['-' as u8, 'i' as u8]
}

/// The flags a locally hosted session hands its shell: with a login
/// invocation requested, the bash and zsh families get login plus
/// interactive, fish gets login alone, and any other (or unrecognizable)
/// shell gets none; without it, none at all.
pub open spec fn shell_args_v(path: Seq<u8>, login: bool) -> Seq<Seq<u8>> {
    if !login {
        Seq::empty()
    } else {
        match basename_v(path) {
            Some(n) => {
                if n == name_bash() || n == name_zsh() {
                    seq![flag_login(), flag_interactive()]
                } else if n == name_fish() {
                    seq![flag_login()]
                } else {
                    Seq::empty()
                }
            },
            None => Seq::empty(),
        }
    }
}

/// Whether a shell name equals `bash`.
fn is_bash(n: &Vec<u8>) -> (r: bool)
    ensures
        r == (n@ == name_bash()),
{
    let c = n.len() == 4 && n[0] == 0x62 && n[1] == 0x61 && n[2] == 0x73 && n[3] == 0x68;
    proof {
        if n@.len() == 4 && n@[0] == 0x62 && n@[1] == 0x61 && n@[2] == 0x73 && n@[3] == 0x68 {
            assert(n@ =~= name_bash());
        }
    }
    c
}

/// Whether a shell name equals `zsh`.
fn is_zsh(n: &Vec<u8>) -> (r: bool)
    ensures
        r == (n@ == name_zsh()),
{
    let c = n.len() == 3 && n[0] == 0x7A && n[1] == 0x73 && n[2] == 0x68;
    proof {
        if n@.len() == 3 && n@[0] == 0x7A && n@[1] == 0x73 && n@[2] == 0x68 {
            assert(n@ =~= name_zsh());
        }
    }
    c
}

/// Whether a shell name equals `fish`.
fn is_fish(n: &Vec<u8>) -> (r: bool)
    ensures
        r == (n@ == name_fish()),
{
    let c = n.len() == 4 && n[0] == 0x66 && n[1] == 0x69 && n[2] == 0x73 && n[3] == 0x68;
    proof {
        if n@.len() == 4 && n@[0] == 0x66 && n@[1] == 0x69 && n@[2] == 0x73 && n@[3] == 0x68 {
            assert(n@ =~= name_fish());
        }
    }
    c
}

/// `-l` as owned bytes.
fn flag_login_vec() -> (v: Vec<u8>)
    ensures
        v@ == flag_login(),
{
    let mut v: Vec<u8> = Vec::new();
    v.push(0x2D);
    v.push(0x6C);
    proof {
        assert(v@ =~= flag_login());
    }
    v
}

/// `-i` as owned bytes.
fn flag_interactive_vec() -> (v: Vec<u8>)
    ensures
        v@ == flag_interactive(),
{
    let mut v: Vec<u8> = Vec::new();
    v.push(0x2D);
    v.push(0x69);
    proof {
        assert(v@ =~= flag_interactive());
    }
    v
}

/// The flags a locally hosted session hands its shell, as `shell_args_v`
/// states.
pub fn shell_args(path: &[u8], login: bool) -> (args: Vec<Vec<u8>>)
    ensures
        args.deep_view() == shell_args_v(path@, login),
{
    let mut args: Vec<Vec<u8>> = Vec::new();
    if !login {
        proof {
            assert(args.deep_view() =~~= shell_args_v(path@, login));
        }
        return args;
    }
    match shell_basename(path) {
        Some(n) => {
            if is_bash(&n) || is_zsh(&n) {
                args.push(flag_login_vec());
                args.push(flag_interactive_vec());
            } else if is_fish(&n) {
                args.push(flag_login_vec());
            }
        },
        None => {},
    }
    proof {
        assert(args.deep_view() =~~= shell_args_v(path@, login));
    }
    args
}

/// `pwsh.exe`
pub open spec fn shell_pwsh() -> Seq<u8> {
    seq![
        'p' as u8, 'w' as u8, 's' as u8, 'h' as u8, '.' as u8, 'e' as u8, 'x' as u8, 'e' as u8,
    ]
}

/// `powershell.exe`
pub open spec fn shell_powershell() -> Seq<u8> {
    seq![
        'p' as u8, 'o' as u8, 'w' as u8, 'e' as u8, 'r' as u8, 's' as u8, 'h' as u8, 'e' as u8,
        'l' as u8, 'l' as u8, '.' as u8, 'e' as u8, 'x' as u8, 'e' as u8,
    ]
}

/// `cmd.exe`
pub open spec fn shell_cmd() -> Seq<u8> {
    seq!['c' as u8, 'm' as u8, 'd' as u8, '.' as u8, 'e' as u8, 'x' as u8, 'e' as u8]
}

/// The console-control platform's shell, by an ordered candidate list with
/// the first resolvable candidate winning: the newer shell and the older
/// one in preference order, then the default interpreter; when no candidate
/// resolves, the command-interpreter environment value, and failing that the
/// default interpreter by name. The caller probes the search path and hands
/// in the outcomes.
pub open spec fn pick_console_shell_v(
    prefer_pwsh: bool,
    pwsh_found: bool,
    powershell_found: bool,
    cmd_found: bool,
    comspec: Option<Seq<u8>>,
) -> Seq<u8> {
    let first = if prefer_pwsh {
        if pwsh_found {
            Some(shell_pwsh())
        } else if powershell_found {
            Some(shell_powershell())
        } else if cmd_found {
            Some(shell_cmd())
        } else {
            None
        }
    } else {
        if powershell_found {
            Some(shell_powershell())
        } else if pwsh_found {
            Some(shell_pwsh())
        } else if cmd_found {
            Some(shell_cmd())
        } else {
            None
        }
    };
    match first {
        Some(s) => s,
        None => match comspec {
            Some(c) => c,
            None => shell_cmd(),
        },
    }
}

/// `pwsh.exe` as owned bytes.
fn shell_pwsh_vec() -> (v: Vec<u8>)
    ensures
        v@ == shell_pwsh(),
{
    let mut v: Vec<u8> = Vec::new();
    v.push(0x70);
    v.push(0x77);
    v.push(0x73);
    v.push(0x68);
    v.push(0x2E);
    v.push(0x65);
    v.push(0x78);
    v.push(0x65);
    proof {
        assert(v@ =~= shell_pwsh());
    }
    v
}

/// `powershell.exe` as owned bytes.
fn shell_powershell_vec() -> (v: Vec<u8>)
    ensures
        v@ == shell_powershell(),
{
    let mut v: Vec<u8> = Vec::new();
    v.push(0x70);
    v.push(0x6F);
    v.push(0x77);
    v.push(0x65);
    v.push(0x72);
    v.push(0x73);
    v.push(0x68);
    v.push(0x65);
    v.push(0x6C);
    v.push(0x6C);
    v.push(0x2E);
    v.push(0x65);
    v.push(0x78);
    v.push(0x65);
    proof {
        assert(v@ =~= shell_powershell());
    }
    v
}

/// `cmd.exe` as owned bytes.
fn shell_cmd_vec() -> (v: Vec<u8>)
    ensures
        v@ == shell_cmd(),
{
    let mut v: Vec<u8> = Vec::new();
    v.push(0x63);
    v.push(0x6D);
    v.push(0x64);
    v.push(0x2E);
    v.push(0x65);
    v.push(0x78);
    v.push(0x65);
    proof {
        assert(v@ =~= shell_cmd());
    }
    v
}

/// Pick the console-control platform's shell from the probe outcomes, as
/// `pick_console_shell_v` states.
pub fn pick_console_shell(
    prefs: &ShellPrefs,
    pwsh_found: bool,
    powershell_found: bool,
    cmd_found: bool,
    comspec: Option<Vec<u8>>,
) -> (r: Vec<u8>)
    ensures
        r@ == pick_console_shell_v(
            prefs.prefer_pwsh,
            pwsh_found,
            powershell_found,
            cmd_found,
            match comspec {
                Some(c) => Some(c@),
                None => None,
            },
        ),
{
    if prefs.prefer_pwsh && pwsh_found {
        shell_pwsh_vec()
    } else if prefs.prefer_pwsh && powershell_found {
        shell_powershell_vec()
    } else if !prefs.prefer_pwsh && powershell_found {
        shell_powershell_vec()
    } else if !prefs.prefer_pwsh && pwsh_found {
        shell_pwsh_vec()
    } else if cmd_found {
        shell_cmd_vec()
    } else {
        match comspec {
            Some(c) => c,
            None => shell_cmd_vec(),
        }
    }
}

/// The bridge daemon's console-control shell: the newer shell when it
/// resolves, then the older one, then the command-interpreter environment
/// value, and the default interpreter by name as the last resort.
pub open spec fn daemon_pick_console_shell_v(
    pwsh_found: bool,
    powershell_found: bool,
    comspec: Option<Seq<u8>>,
) -> Seq<u8> {
    if pwsh_found {
        shell_pwsh()
    } else if powershell_found {
        shell_powershell()
    } else {
        match comspec {
            Some(c) => c,
            None => shell_cmd(),
        }
    }
}

/// Pick the bridge daemon's console-control shell from the probe outcomes,
/// as `daemon_pick_console_shell_v` states.
pub fn daemon_pick_console_shell(
    pwsh_found: bool,
    powershell_found: bool,
    comspec: Option<Vec<u8>>,
) -> (r: Vec<u8>)
    ensures
        r@ == daemon_pick_console_shell_v(
            pwsh_found,
            powershell_found,
            match comspec {
                Some(c) => Some(c@),
                None => None,
            },
        ),
{
    if pwsh_found {
        shell_pwsh_vec()
    } else if powershell_found {
        shell_powershell_vec()
    } else {
        match comspec {
            Some(c) => c,
            None => shell_cmd_vec(),
        }
    }
}

} // verus!
