//! What the tunnel needs of the system.

use vstd::prelude::*;

use crate::platform::Platform;
use crate::text;

verus! {

broadcast use {
    vstd::seq::group_seq_axioms,
    vstd::slice::group_slice_axioms,
    vstd::string::group_string_axioms,
    vstd::std_specs::vec::group_vec_axioms,
};

/// The system can have a tunnel.
pub fn tun_supported(platform: Platform) -> (r: bool)
    ensures
        r == (platform != Platform::Other),
{
    match platform {
        Platform::Other => false,
        _ => true,
    }
}

/// What the tunnel needs, in words.
pub open spec fn requirements_text(platform: Platform) -> Seq<char> {
    match platform {
        Platform::Linux => "Requires root or CAP_NET_ADMIN capability"@,
        Platform::Macos => "Requires root privileges (sudo)"@,
        Platform::Windows => "Requires Administrator privileges"@,
        Platform::Other => "TUN mode is not supported on this platform"@,
    }
}

/// What the tunnel needs, in words.
pub fn tun_requirements(platform: Platform) -> (r: &'static str)
    ensures
        r@ == requirements_text(platform),
{
    match platform {
        Platform::Linux => "Requires root or CAP_NET_ADMIN capability",
        Platform::Macos => "Requires root privileges (sudo)",
        Platform::Windows => "Requires Administrator privileges",
        Platform::Other => "TUN mode is not supported on this platform",
    }
}

/// The name under which the tunnel is asked for.
pub fn default_tun_name(platform: Platform) -> (r: &'static str)
    ensures
        r@ == (if platform == Platform::Macos {
            "utun3"@
        } else {
            "sockrocket-tun"@
        }),
{
    match platform {
        Platform::Macos => "utun3",
        _ => "sockrocket-tun",
    }
}

/// The rights of the program.
#[derive(Debug, Clone, Copy, PartialEq, Eq, Structural)]
pub enum PrivilegeStatus {
    Privileged,
    Missing,
    Unknown,
}

/// The rights of the program, given what the system says of them.
pub open spec fn status_of(platform: Platform, elevated: Option<bool>) -> PrivilegeStatus {
    match platform {
        Platform::Linux | Platform::Macos => if elevated == Some(true) {
            PrivilegeStatus::Privileged
        } else {
            PrivilegeStatus::Missing
        },
        Platform::Windows => match elevated {
            Some(true) => PrivilegeStatus::Privileged,
            Some(false) => PrivilegeStatus::Missing,
            None => PrivilegeStatus::Unknown,
        },
        Platform::Other => PrivilegeStatus::Unknown,
    }
}

/// The rights of the program, given what the system says of them.
pub fn current_privilege_status(platform: Platform, elevated: Option<bool>) -> (r: PrivilegeStatus)
    ensures
        r == status_of(platform, elevated),
{
    match platform {
        Platform::Linux | Platform::Macos => match elevated {
            Some(true) => PrivilegeStatus::Privileged,
            _ => PrivilegeStatus::Missing,
        },
        Platform::Windows => match elevated {
            Some(true) => PrivilegeStatus::Privileged,
            Some(false) => PrivilegeStatus::Missing,
            None => PrivilegeStatus::Unknown,
        },
        Platform::Other => PrivilegeStatus::Unknown,
    }
}

/// The program has the rights that the tunnel needs.
pub fn tun_privileged(status: PrivilegeStatus) -> (r: bool)
    ensures
        r == (status == PrivilegeStatus::Privileged),
{
    match status {
        PrivilegeStatus::Privileged => true,
        _ => false,
    }
}

/// Why there can be no tunnel: the system has none, or lacks the device node
/// or the command that the tunnel needs, or the program lacks the rights.
pub open spec fn obstacle(
    platform: Platform,
    device_node: bool,
    route_command: bool,
    status: PrivilegeStatus,
) -> Option<Seq<char>> {
    if platform == Platform::Other {
        Some(requirements_text(platform))
    } else if platform == Platform::Linux && !device_node {
        Some(
            "TUN device node /dev/net/tun is missing. Load the tun kernel module and ensure the device node exists."@,
        )
    } else if platform == Platform::Linux && !route_command {
        Some(
            "TUN mode requires the following commands: ip (install: apt install iproute2 / dnf install iproute)"@,
        )
    } else if platform == Platform::Windows && !route_command {
        Some(
            "TUN mode requires the 'route' command (should be available by default on Windows)"@,
        )
    } else if status == PrivilegeStatus::Missing && platform != Platform::Linux {
        Some(requirements_text(platform))
    } else {
        None
    }
}

/// There can be a tunnel, or why there cannot.
pub fn validate_tun_environment(
    platform: Platform,
    device_node: bool,
    route_command: bool,
    status: PrivilegeStatus,
) -> (r: Result<(), &'static str>)
    ensures
        match obstacle(platform, device_node, route_command, status) {
            Some(t) => r matches Err(e) && e@ == t,
            None => r is Ok,
        },
{
    match platform {
        Platform::Other => {
            return Err(tun_requirements(platform));
        },
        Platform::Linux => {
            if !device_node {
                return Err(
                    "TUN device node /dev/net/tun is missing. Load the tun kernel module and ensure the device node exists.",
                );
            }
            if !route_command {
                return Err(
                    "TUN mode requires the following commands: ip (install: apt install iproute2 / dnf install iproute)",
                );
            }
            return Ok(());
        },
        Platform::Windows => {
            if !route_command {
                return Err(
                    "TUN mode requires the 'route' command (should be available by default on Windows)",
                );
            }
        },
        Platform::Macos => {},
    }
    match status {
        PrivilegeStatus::Missing => Err(tun_requirements(platform)),
        _ => Ok(()),
    }
}

/// Why the tunnel could not be made.
pub open spec fn creation_failure_text(
    platform: Platform,
    device_node: bool,
    status: PrivilegeStatus,
) -> Seq<char> {
    if platform == Platform::Linux && !device_node {
        "Failed to create TUN device: /dev/net/tun is missing. Load the tun kernel module and ensure the device node exists."@
    } else {
        match status {
            PrivilegeStatus::Missing => "Failed to create TUN device. "@ + requirements_text(
                platform,
            ),
            PrivilegeStatus::Privileged => if platform == Platform::Windows {
                "Failed to create TUN device even though the process has Administrator privileges\n(the underlying OS error is preserved in this error chain). The bundled WinTun\ndriver may have failed to load, or a stale adapter from a previous run may\nbe conflicting \u{2014} check the log for details."@
            } else {
                "Failed to create TUN device. The TUN driver or adapter may be unavailable on this system."@
            },
            PrivilegeStatus::Unknown =>
                "Failed to create TUN device. Ensure the TUN driver is installed and "@
                + text::folded(requirements_text(platform)),
        }
    }
}

/// Why the tunnel could not be made.
pub fn tun_creation_failure_message(
    platform: Platform,
    device_node: bool,
    status: PrivilegeStatus,
) -> (r: String)
    ensures
        r@ == creation_failure_text(platform, device_node, status),
{
    let mut out: Vec<char> = Vec::new();
    let on_linux: bool = match platform {
        Platform::Linux => true,
        _ => false,
    };
    if on_linux && !device_node {
        text::append_str(
            &mut out,
            "Failed to create TUN device: /dev/net/tun is missing. Load the tun kernel module and ensure the device node exists.",
        );
    } else {
        match status {
            PrivilegeStatus::Missing => {
                text::append_str(&mut out, "Failed to create TUN device. ");
                text::append_str(&mut out, tun_requirements(platform));
            },
            PrivilegeStatus::Privileged => match platform {
                Platform::Windows => text::append_str(
                    &mut out,
                    "Failed to create TUN device even though the process has Administrator privileges\n(the underlying OS error is preserved in this error chain). The bundled WinTun\ndriver may have failed to load, or a stale adapter from a previous run may\nbe conflicting \u{2014} check the log for details.",
                ),
                _ => text::append_str(
                    &mut out,
                    "Failed to create TUN device. The TUN driver or adapter may be unavailable on this system.",
                ),
            },
            PrivilegeStatus::Unknown => {
                text::append_str(
                    &mut out,
                    "Failed to create TUN device. Ensure the TUN driver is installed and ",
                );
                text::append_str(&mut out, text::fold(tun_requirements(platform)).as_str());
            },
        }
    }
    assert(out@ =~= creation_failure_text(platform, device_node, status));
    text::string_of(out.as_slice())
}

/// Why routes could not be changed.
pub open spec fn route_hint_text(platform: Platform, status: PrivilegeStatus) -> Seq<char> {
    match status {
        PrivilegeStatus::Missing => requirements_text(platform),
        PrivilegeStatus::Privileged =>
            "The current process already has elevated privileges, so the TUN interface or routing command likely failed to initialize correctly."@,
        PrivilegeStatus::Unknown => "Ensure the required routing tools are available and "@
            + text::folded(requirements_text(platform)),
    }
}

/// Why routes could not be changed.
pub fn tun_route_failure_hint(platform: Platform, status: PrivilegeStatus) -> (r: String)
    ensures
        r@ == route_hint_text(platform, status),
{
    let mut out: Vec<char> = Vec::new();
    match status {
        PrivilegeStatus::Missing => text::append_str(&mut out, tun_requirements(platform)),
        PrivilegeStatus::Privileged => text::append_str(
            &mut out,
            "The current process already has elevated privileges, so the TUN interface or routing command likely failed to initialize correctly.",
        ),
        PrivilegeStatus::Unknown => {
            text::append_str(&mut out, "Ensure the required routing tools are available and ");
            text::append_str(&mut out, text::fold(tun_requirements(platform)).as_str());
        },
    }
    assert(out@ =~= route_hint_text(platform, status));
    text::string_of(out.as_slice())
}

// ---------------------------------------------------------------------------
// Commands of the system
// ---------------------------------------------------------------------------

/// The path that the system's own search found: all of its answer, on Windows
/// the first line, without spaces around it.
pub open spec fn found_path(platform: Platform, answer: Option<Seq<char>>) -> Option<Seq<char>> {
    match answer {
        Some(t) => {
            let lines = text::lines_of(t);
            let path = text::trimmed(
                if platform == Platform::Windows {
                    if lines.len() > 0 {
                        lines[0]
                    } else {
                        seq![]
                    }
                } else {
                    t
                },
            );
            if path.len() > 0 {
                Some(path)
            } else {
                None
            }
        },
        None => None,
    }
}

/// The directories in which a command is looked for, in turn.
pub open spec fn system_dir(i: int) -> Seq<char> {
    if i == 0 {
        "/usr/sbin/"@
    } else if i == 1 {
        "/sbin/"@
    } else if i == 2 {
        "/usr/bin/"@
    } else {
        "/bin/"@
    }
}

/// The paths at which a command may be, in turn: none on Windows, where only
/// the system's own search counts.
pub fn command_paths(platform: Platform, cmd: &str) -> (r: Vec<String>)
    ensures
        platform == Platform::Windows ==> r@.len() == 0,
        platform != Platform::Windows ==> r@.len() == 4 && forall|i: int|
            0 <= i < 4 ==> (#[trigger] r@[i])@ == system_dir(i) + cmd@,
{
    let mut out: Vec<String> = Vec::new();
    match platform {
        Platform::Windows => {},
        _ => {
            let mut i: usize = 0;
            while i < 4
                invariant
                    i <= 4,
                    out@.len() == i,
                    forall|k: int| 0 <= k < i ==> (#[trigger] out@[k])@ == system_dir(k) + cmd@,
                decreases 4 - i,
            {
                let mut path: Vec<char> = Vec::new();
                if i == 0 {
                    text::append_str(&mut path, "/usr/sbin/");
                } else if i == 1 {
                    text::append_str(&mut path, "/sbin/");
                } else if i == 2 {
                    text::append_str(&mut path, "/usr/bin/");
                } else {
                    text::append_str(&mut path, "/bin/");
                }
                text::append_str(&mut path, cmd);
                assert(path@ =~= system_dir(i as int) + cmd@);
                out.push(text::string_of(path.as_slice()));
                i = i + 1;
            }
        },
    }
    out
}

/// The first of the paths that is there.
pub open spec fn first_there(cmd: Seq<char>, there: Seq<bool>, i: int) -> Option<Seq<char>>
    decreases 4 - i,
{
    if i >= 4 || i >= there.len() || i < 0 {
        None
    } else if there[i] {
        Some(system_dir(i) + cmd)
    } else {
        first_there(cmd, there, i + 1)
    }
}

/// Where a command is: where the system's own search says, or else at the
/// first path at which it is.
pub open spec fn command_place(
    platform: Platform,
    cmd: Seq<char>,
    answer: Option<Seq<char>>,
    there: Seq<bool>,
) -> Option<Seq<char>> {
    match found_path(platform, answer) {
        Some(p) => Some(p),
        None => if platform == Platform::Windows {
            None
        } else {
            first_there(cmd, there, 0)
        },
    }
}

/// Where a command is, given what the system's own search says and at which
/// of the paths there is a file.
pub fn find_cmd(platform: Platform, cmd: &str, answer: Option<&str>, there: &[bool]) -> (r: Option<
    String,
>)
    ensures
        match r {
            Some(p) => command_place(platform, cmd@, text::opt_chars(answer), there@) == Some(p@),
            None => command_place(platform, cmd@, text::opt_chars(answer), there@) is None,
        },
{
    let windows: bool = match platform {
        Platform::Windows => true,
        _ => false,
    };
    if let Some(t) = answer {
        let chars = text::chars_of(t);
        let lines = text::split_lines(chars.as_slice());
        assert(text::texts(lines@).len() == lines@.len());
        let path: &[char] = if windows {
            if lines.len() > 0 {
                assert(text::texts(lines@)[0] == lines@[0]@);
                text::trim(lines[0].as_slice())
            } else {
                let none = vstd::slice::slice_subrange(chars.as_slice(), 0, 0);
                assert(none@ =~= Seq::<char>::empty());
                text::trim(none)
            }
        } else {
            text::trim(chars.as_slice())
        };
        if path.len() > 0 {
            return Some(text::string_of(path));
        }
    }
    let paths = command_paths(platform, cmd);
    if windows {
        return None;
    }
    let mut i: usize = 0;
    while i < 4 && i < there.len()
        invariant
            i <= 4,
            i <= there@.len(),
            paths@.len() == 4,
            forall|k: int| 0 <= k < 4 ==> (#[trigger] paths@[k])@ == system_dir(k) + cmd@,
            first_there(cmd@, there@, 0) == first_there(cmd@, there@, i as int),
            command_place(platform, cmd@, text::opt_chars(answer), there@) == first_there(
                cmd@,
                there@,
                0,
            ),
        decreases 4 - i,
    {
        if there[i] {
            return Some(paths[i].clone());
        }
        i = i + 1;
    }
    None
}

// ---------------------------------------------------------------------------
// The driver on Windows, and rights
// ---------------------------------------------------------------------------

/// The file of the driver.
pub const WINTUN_DLL: &'static str = "wintun.dll";

/// The driver is there, or not needed.
pub fn wintun_dll_available(platform: Platform, exists: bool) -> (r: bool)
    ensures
        r == (platform != Platform::Windows || exists),
{
    match platform {
        Platform::Windows => exists,
        _ => true,
    }
}

/// The file that is there is the driver that comes with the program. If not,
/// it is to be written.
pub fn wintun_dll_is_current(existing: Option<&[u8]>, bundled: &[u8]) -> (r: bool)
    ensures
        r == (existing is Some && existing->0@ == bundled@),
{
    match existing {
        Some(bytes) => text::bytes_eq(bytes, bundled),
        None => false,
    }
}

/// The arguments with which the program starts itself again.
pub open spec fn relaunch_text(extra: Seq<&str>) -> Seq<char>
    decreases extra.len(),
{
    if extra.len() == 0 {
        "--tun-admin"@
    } else {
        relaunch_text(extra.drop_last()) + " "@ + extra.last()@
    }
}

/// The arguments with which the program starts itself again, with more rights.
pub fn relaunch_parameters(extra: &[&str]) -> (r: String)
    ensures
        r@ == relaunch_text(extra@),
{
    let mut out: Vec<char> = Vec::new();
    text::append_str(&mut out, "--tun-admin");
    let mut i: usize = 0;
    assert(extra@.take(0) =~= Seq::<&str>::empty());
    assert(out@ =~= relaunch_text(extra@.take(0)));
    while i < extra.len()
        invariant
            i <= extra@.len(),
            out@ == relaunch_text(extra@.take(i as int)),
        decreases extra@.len() - i,
    {
        let ghost before = out@;
        text::append_str(&mut out, " ");
        text::append_str(&mut out, extra[i]);
        proof {
            assert(extra@.take(i + 1).drop_last() =~= extra@.take(i as int));
            assert(extra@.take(i + 1).last() == extra@[i as int]);
            assert(out@ =~= before + " "@ + extra@[i as int]@);
        }
        i = i + 1;
    }
    assert(extra@.take(i as int) =~= extra@);
    text::string_of(out.as_slice())
}

/// What the code of the system says of a program that was started again: the
/// user may have refused.
pub fn judge_relaunch(code: usize) -> (r: Result<(), String>)
    ensures
        is_relaunch(r, code),
{
    let mut out: Vec<char> = Vec::new();
    if code == 1223 {
        text::append_str(&mut out, "UAC elevation cancelled by user");
        assert(out@ =~= "UAC elevation cancelled by user"@);
        return Err(text::string_of(out.as_slice()));
    }
    if code > 32 {
        return Ok(());
    }
    text::append_str(&mut out, "ShellExecuteW runas failed with code ");
    text::append_chars(&mut out, text::decimal_text(code as u64).as_slice());
    assert(out@ =~= "ShellExecuteW runas failed with code "@ + text::decimal(code as nat));
    Err(text::string_of(out.as_slice()))
}

/// What the number that Windows gives back for a new start comes to.
pub open spec fn is_relaunch(r: Result<(), String>, code: usize) -> bool {
    if code == 1223 {
        r matches Err(e) && e@ == "UAC elevation cancelled by user"@
    } else if code > 32 {
        r is Ok
    } else {
        r matches Err(e) && e@ == "ShellExecuteW runas failed with code "@ + text::decimal(
            code as nat,
        )
    }
}

/// A new start has worked where the number is above 32, but for the one that says that the user
/// declined.
pub proof fn law_new_start_is_judged(r: Result<(), String>, code: usize)
    requires
        is_relaunch(r, code),
    ensures
        r is Err <==> code <= 32 || code == 1223,
{
}

/// The tunnel can be set up where nothing is missing: on Linux the device node and the `ip`
/// command, on Windows the `route` command and the rights, on macOS the rights.
pub proof fn law_nothing_missing_no_obstacle(
    platform: Platform,
    device_node: bool,
    route_command: bool,
    status: PrivilegeStatus,
)
    ensures
        obstacle(Platform::Linux, device_node, route_command, status) is None <==> device_node
            && route_command,
        obstacle(Platform::Windows, device_node, route_command, status) is None <==> route_command
            && !(status is Missing),
        obstacle(Platform::Macos, device_node, route_command, status) is None <==> !(
        status is Missing),
        obstacle(Platform::Other, device_node, route_command, status) is Some,
{
}

/// Only a certain yes counts as elevated; where nothing can be told, only Windows says so.
pub proof fn law_rights_are_known(platform: Platform, elevated: Option<bool>)
    requires
        platform != Platform::Other,
    ensures
        status_of(platform, elevated) is Privileged == (elevated == Some(true)),
        elevated == Some(false) ==> status_of(platform, elevated) is Missing,
        elevated is None ==> status_of(platform, elevated) is Unknown == (platform
            == Platform::Windows),
{
}

/// The place that the system names for a command is taken, else the first of the four usual
/// directories that holds it.
pub proof fn law_command_is_found(cmd: Seq<char>, there: Seq<bool>, k: int, named: Seq<char>)
    requires
        there.len() == 4,
        0 <= k < 4,
        there[k],
        forall|j: int| 0 <= j < k ==> !#[trigger] there[j],
        text::trimmed(named).len() > 0,
    ensures
        command_place(Platform::Linux, cmd, Some(named), there) == Some(text::trimmed(named)),
        command_place(Platform::Linux, cmd, None, there) == Some(
            (if k == 0 {
                "/usr/sbin/"@
            } else if k == 1 {
                "/sbin/"@
            } else if k == 2 {
                "/usr/bin/"@
            } else {
                "/bin/"@
            }) + cmd,
        ),
        command_place(Platform::Windows, cmd, None, there) is None,
{
    reveal_with_fuel(first_there, 5);
}

} // verus!
