//! Choosing the device that an `adb` command addresses, and the commands
//! that set up and remove a port forward.
use vstd::prelude::*;
use crate::adb::{state_text, AdbDevice, AdbDeviceState};
use crate::text::{
    chars_of, decimal, joined, owned, push_chars, push_decimal, push_joined, push_signed_decimal, push_str,
    signed_decimal, string_from_chars, texts, trim, trimmed,
};

verus! {

broadcast use vstd::string::group_string_axioms;

/// Why an `adb` operation failed.
#[derive(Debug)]
pub enum AdbError {
    NotFound { searched: Vec<String> },
    Io(String),
    Utf8(String),
    Parse(String),
    InvalidPort(u16),
    NoDevices,
    UnauthorizedDevices(Vec<String>),
    MultipleDevices(Vec<String>),
    DeviceNotFound(String),
    DeviceUnavailable { serial: String, state: AdbDeviceState },
    CommandFailed { command: String, code: Option<i32>, stdout: String, stderr: String },
}

/// A copy of a device state.
pub fn copy_state(s: &AdbDeviceState) -> (r: AdbDeviceState)
    ensures
        r == *s,
{
    match s {
        AdbDeviceState::Device => AdbDeviceState::Device,
        AdbDeviceState::Unauthorized => AdbDeviceState::Unauthorized,
        AdbDeviceState::Offline => AdbDeviceState::Offline,
        AdbDeviceState::Recovery => AdbDeviceState::Recovery,
        AdbDeviceState::Bootloader => AdbDeviceState::Bootloader,
        AdbDeviceState::Sideload => AdbDeviceState::Sideload,
        AdbDeviceState::Unknown(v) => AdbDeviceState::Unknown(v.clone()),
    }
}

/// The serial a caller asked for: the given text, trimmed, when it is not blank.
pub open spec fn requested_serial(serial: Option<&str>) -> Option<Seq<char>> {
    match serial {
        Some(s) => if trim(s@).len() > 0 {
            Some(trim(s@))
        } else {
            None
        },
        None => None,
    }
}

/// The serial a caller asked for, trimmed, when it is not blank.
pub fn explicit_serial(serial: Option<&str>) -> (r: Option<String>)
    ensures
        match (r, requested_serial(serial)) {
            (Some(s), Some(q)) => s@ == q,
            (None, None) => true,
            _ => false,
        },
{
    match serial {
        Some(s) => {
            let c = chars_of(s);
            let t = trimmed(c.as_slice());
            if t.len() > 0 {
                Some(string_from_chars(t.as_slice()))
            } else {
                None
            }
        },
        None => None,
    }
}

/// The first device with serial `q`.
pub open spec fn first_with_serial(devices: Seq<AdbDevice>, q: Seq<char>) -> Option<AdbDevice>
    decreases devices.len(),
{
    if devices.len() == 0 {
        None
    } else if devices[0].serial@ == q {
        Some(devices[0])
    } else {
        first_with_serial(devices.drop_first(), q)
    }
}

/// The serials of the devices that accept commands, in order.
pub open spec fn ready_serials(devices: Seq<AdbDevice>) -> Seq<Seq<char>>
    decreases devices.len(),
{
    if devices.len() == 0 {
        seq![]
    } else if devices.last().state is Device {
        ready_serials(devices.drop_last()).push(devices.last().serial@)
    } else {
        ready_serials(devices.drop_last())
    }
}

/// Law: the ready serials are exactly the serials of the listed devices in
/// state `device`, in list order; a device in any other state, unknown ones
/// included, is never among them.
pub proof fn lemma_ready_serials_are_devices(devices: Seq<AdbDevice>)
    ensures
        ready_serials(devices) == devices.filter(|d: AdbDevice| d.state is Device).map_values(
            |d: AdbDevice| d.serial@,
        ),
    decreases devices.len(),
{
    let ready = |d: AdbDevice| d.state is Device;
    let serial = |d: AdbDevice| d.serial@;
    reveal(Seq::filter);
    if devices.len() == 0 {
        assert(devices.filter(ready).map_values(serial) =~= seq![]);
    } else {
        let rest = devices.drop_last();
        lemma_ready_serials_are_devices(rest);
        let kept = rest.filter(ready);
        if ready(devices.last()) {
            assert(devices.filter(ready) == kept.push(devices.last()));
            assert(kept.push(devices.last()).map_values(serial) =~= kept.map_values(serial).push(
                devices.last().serial@,
            ));
        } else {
            assert(devices.filter(ready) == kept);
        }
    }
}

/// The serials of the devices that wait for the user to allow debugging, in order.
pub open spec fn unauthorized_serials(devices: Seq<AdbDevice>) -> Seq<Seq<char>>
    decreases devices.len(),
{
    if devices.len() == 0 {
        seq![]
    } else if devices.last().state is Unauthorized {
        unauthorized_serials(devices.drop_last()).push(devices.last().serial@)
    } else {
        unauthorized_serials(devices.drop_last())
    }
}

fn find_device<'a>(devices: &'a [AdbDevice], q: &String) -> (r: Option<&'a AdbDevice>)
    ensures
        match (r, first_with_serial(devices@, q@)) {
            (Some(d), Some(e)) => *d == e,
            (None, None) => true,
            _ => false,
        },
{
    let mut i: usize = 0;
    assert(devices@.skip(0) =~= devices@);
    while i < devices.len()
        invariant
            i <= devices@.len(),
            first_with_serial(devices@, q@) == first_with_serial(devices@.skip(i as int), q@),
        decreases devices@.len() - i,
    {
        assert(devices@.skip(i as int)[0] == devices@[i as int]);
        if devices[i].serial == *q {
            return Some(&devices[i]);
        }
        assert(devices@.skip(i as int).drop_first() =~= devices@.skip(i + 1));
        i = i + 1;
    }
    None
}

fn serials_with(devices: &[AdbDevice], ready: bool) -> (v: Vec<String>)
    ensures
        ready ==> texts(v@) == ready_serials(devices@),
        !ready ==> texts(v@) == unauthorized_serials(devices@),
{
    let mut v: Vec<String> = Vec::new();
    let mut i: usize = 0;
    while i < devices.len()
        invariant
            i <= devices@.len(),
            ready ==> texts(v@) == ready_serials(devices@.take(i as int)),
            !ready ==> texts(v@) == unauthorized_serials(devices@.take(i as int)),
        decreases devices@.len() - i,
    {
        let d = &devices[i];
        let ghost p = devices@.take(i + 1);
        assert(p.drop_last() =~= devices@.take(i as int));
        assert(p.last() == *d);
        let keep = if ready {
            d.state.is_ready()
        } else {
            matches!(d.state, AdbDeviceState::Unauthorized)
        };
        if keep {
            v.push(d.serial.clone());
        }
        assert(texts(v@) =~= if ready { ready_serials(p) } else { unauthorized_serials(p) });
        i = i + 1;
    }
    assert(devices@.take(devices@.len() as int) =~= devices@);
    v
}

/// Picks the device a command addresses among the listed `devices`.
///
/// A serial that is asked for must be listed and ready. Without one, the
/// single ready device is picked; none ready reports the devices that wait
/// for authorization, if any, and several ready ones are reported too.
pub fn resolve_target_serial(devices: &[AdbDevice], serial: Option<&str>) -> (r: Result<String, AdbError>)
    ensures
        devices@.len() == 0 ==> r matches Err(AdbError::NoDevices),
        devices@.len() > 0 ==> match requested_serial(serial) {
            Some(q) => match first_with_serial(devices@, q) {
                None => r matches Err(AdbError::DeviceNotFound(s)) && s@ == q,
                Some(d) => if d.state is Device {
                    r matches Ok(s) && s@ == q
                } else if d.state is Unauthorized {
                    r matches Err(AdbError::UnauthorizedDevices(v)) && texts(v@) == seq![q]
                } else {
                    r matches Err(AdbError::DeviceUnavailable { serial: s, state }) && s@ == q && state
                        == d.state
                },
            },
            None => {
                let ready = ready_serials(devices@);
                if ready.len() == 0 {
                    if unauthorized_serials(devices@).len() == 0 {
                        r matches Err(AdbError::NoDevices)
                    } else {
                        r matches Err(AdbError::UnauthorizedDevices(v)) && texts(v@) == unauthorized_serials(
                            devices@,
                        )
                    }
                } else if ready.len() == 1 {
                    r matches Ok(s) && s@ == ready[0]
                } else {
                    r matches Err(AdbError::MultipleDevices(v)) && texts(v@) == ready
                }
            },
        },
{
    if devices.len() == 0 {
        return Err(AdbError::NoDevices);
    }
    match explicit_serial(serial) {
        Some(q) => {
            match find_device(devices, &q) {
                None => Err(AdbError::DeviceNotFound(q)),
                Some(d) => {
                    if d.state.is_ready() {
                        Ok(q)
                    } else if matches!(d.state, AdbDeviceState::Unauthorized) {
                        let mut v: Vec<String> = Vec::new();
                        v.push(q);
                        assert(texts(v@) =~= seq![texts(v@)[0]]);
                        Err(AdbError::UnauthorizedDevices(v))
                    } else {
                        Err(AdbError::DeviceUnavailable { serial: q, state: copy_state(&d.state) })
                    }
                },
            }
        },
        None => {
            let ready = serials_with(devices, true);
            if ready.len() == 0 {
                let unauthorized = serials_with(devices, false);
                if unauthorized.len() == 0 {
                    Err(AdbError::NoDevices)
                } else {
                    Err(AdbError::UnauthorizedDevices(unauthorized))
                }
            } else if ready.len() == 1 {
                assert(texts(ready@)[0] == ready@[0]@);
                Ok(ready[0].clone())
            } else {
                Err(AdbError::MultipleDevices(ready))
            }
        },
    }
}

/// The text `tcp:` followed by `port` in decimal.
pub open spec fn tcp_spec(port: u16) -> Seq<char> {
    "tcp:"@ + decimal(port as nat)
}

fn tcp_text(port: u16) -> (t: String)
    ensures
        t@ == tcp_spec(port),
{
    let mut out: Vec<char> = Vec::new();
    push_str(&mut out, "tcp:");
    push_decimal(&mut out, port as u64);
    string_from_chars(out.as_slice())
}

/// Checks the ports of a forward: port 0 is refused, the local one first.
pub fn check_forward_ports(local_port: u16, remote_port: u16) -> (r: Result<(), AdbError>)
    ensures
        local_port == 0 ==> (r matches Err(AdbError::InvalidPort(p)) && p == local_port),
        local_port != 0 && remote_port == 0 ==> (r matches Err(AdbError::InvalidPort(p)) && p == remote_port),
        local_port != 0 && remote_port != 0 ==> r is Ok,
{
    if local_port == 0 {
        return Err(AdbError::InvalidPort(local_port));
    }
    if remote_port == 0 {
        return Err(AdbError::InvalidPort(remote_port));
    }
    Ok(())
}

/// Checks the port of a forward to remove: port 0 is refused.
pub fn check_local_port(local_port: u16) -> (r: Result<(), AdbError>)
    ensures
        local_port == 0 ==> (r matches Err(AdbError::InvalidPort(p)) && p == local_port),
        local_port != 0 ==> r is Ok,
{
    if local_port == 0 {
        return Err(AdbError::InvalidPort(local_port));
    }
    Ok(())
}

/// The arguments of `adb` that forward local TCP port `local_port` to
/// `remote_port` on the device `target`.
pub fn forward_args(target: &String, local_port: u16, remote_port: u16) -> (args: Vec<String>)
    ensures
        texts(args@) == seq!["-s"@, target@, "forward"@, tcp_spec(local_port), tcp_spec(remote_port)],
{
    let mut args: Vec<String> = Vec::new();
    args.push(owned("-s"));
    args.push(target.clone());
    args.push(owned("forward"));
    args.push(tcp_text(local_port));
    args.push(tcp_text(remote_port));
    assert(texts(args@) =~= seq!["-s"@, target@, "forward"@, tcp_spec(local_port), tcp_spec(remote_port)]);
    args
}

/// The arguments of `adb` that remove the forward of local TCP port
/// `local_port` on the device `target`.
pub fn kill_forward_args(target: &String, local_port: u16) -> (args: Vec<String>)
    ensures
        texts(args@) == seq!["-s"@, target@, "forward"@, "--remove"@, tcp_spec(local_port)],
{
    let mut args: Vec<String> = Vec::new();
    args.push(owned("-s"));
    args.push(target.clone());
    args.push(owned("forward"));
    args.push(owned("--remove"));
    args.push(tcp_text(local_port));
    assert(texts(args@) =~= seq!["-s"@, target@, "forward"@, "--remove"@, tcp_spec(local_port)]);
    args
}

/// How `{:?}` shows an optional exit code.
pub open spec fn exit_code_text(code: Option<i32>) -> Seq<char> {
    match code {
        Some(c) => "Some("@ + signed_decimal(c as int) + ")"@,
        None => "None"@,
    }
}

/// `label` and the trimmed `text`, or nothing when the trimmed text is empty.
pub open spec fn output_part(label: Seq<char>, text: Seq<char>) -> Seq<char> {
    if trim(text).len() == 0 {
        seq![]
    } else {
        label + trim(text)
    }
}

/// The message that describes an error.
pub open spec fn error_text(e: AdbError) -> Seq<char> {
    match e {
        AdbError::NotFound { searched } => if searched@.len() == 0 {
            "ADB binary not found"@
        } else {
            "ADB binary not found (searched: "@ + joined(texts(searched@), ", "@) + ")"@
        },
        AdbError::Io(m) => m@,
        AdbError::Utf8(m) => m@,
        AdbError::Parse(m) => m@,
        AdbError::InvalidPort(p) => "invalid TCP port "@ + decimal(p as nat),
        AdbError::NoDevices => "no Android devices detected"@,
        AdbError::UnauthorizedDevices(s) => if s@.len() == 0 {
            "device is unauthorized; allow USB debugging on the phone"@
        } else {
            "unauthorized device(s): "@ + joined(texts(s@), ", "@) + " (allow USB debugging on the phone)"@
        },
        AdbError::MultipleDevices(s) => "multiple Android devices connected (specify serial): "@ + joined(
            texts(s@),
            ", "@,
        ),
        AdbError::DeviceNotFound(s) => "ADB device not found: "@ + s@,
        AdbError::DeviceUnavailable { serial, state } => "ADB device "@ + serial@ + " is not ready (state: "@
            + state_text(state) + ")"@,
        AdbError::CommandFailed { command, code, stdout, stderr } => "ADB command failed: `"@ + command@
            + "` (exit: "@ + exit_code_text(code) + ")"@ + output_part("; stderr: "@, stderr@) + output_part(
            "; stdout: "@,
            stdout@,
        ),
    }
}

fn push_output_part(out: &mut Vec<char>, label: &str, text: &String)
    ensures
        final(out)@ == old(out)@ + output_part(label@, text@),
{
    let c = chars_of(text.as_str());
    let t = trimmed(c.as_slice());
    if t.len() > 0 {
        push_str(out, label);
        push_chars(out, t.as_slice());
    } else {
        assert(old(out)@ + output_part(label@, text@) =~= old(out)@);
    }
}

impl AdbError {
    /// The message that describes the error.
    pub fn message(&self) -> (m: String)
        ensures
            m@ == error_text(*self),
    {
        let mut out: Vec<char> = Vec::new();
        match self {
            AdbError::NotFound { searched } => {
                if searched.len() == 0 {
                    push_str(&mut out, "ADB binary not found");
                } else {
                    push_str(&mut out, "ADB binary not found (searched: ");
                    push_joined(&mut out, searched.as_slice(), ", ");
                    push_str(&mut out, ")");
                }
            },
            AdbError::Io(m) => push_str(&mut out, m.as_str()),
            AdbError::Utf8(m) => push_str(&mut out, m.as_str()),
            AdbError::Parse(m) => push_str(&mut out, m.as_str()),
            AdbError::InvalidPort(p) => {
                push_str(&mut out, "invalid TCP port ");
                push_decimal(&mut out, *p as u64);
            },
            AdbError::NoDevices => push_str(&mut out, "no Android devices detected"),
            AdbError::UnauthorizedDevices(s) => {
                if s.len() == 0 {
                    push_str(&mut out, "device is unauthorized; allow USB debugging on the phone");
                } else {
                    push_str(&mut out, "unauthorized device(s): ");
                    push_joined(&mut out, s.as_slice(), ", ");
                    push_str(&mut out, " (allow USB debugging on the phone)");
                }
            },
            AdbError::MultipleDevices(s) => {
                push_str(&mut out, "multiple Android devices connected (specify serial): ");
                push_joined(&mut out, s.as_slice(), ", ");
            },
            AdbError::DeviceNotFound(s) => {
                push_str(&mut out, "ADB device not found: ");
                push_str(&mut out, s.as_str());
            },
            AdbError::DeviceUnavailable { serial, state } => {
                push_str(&mut out, "ADB device ");
                push_str(&mut out, serial.as_str());
                push_str(&mut out, " is not ready (state: ");
                let st = state.to_text();
                push_str(&mut out, st.as_str());
                push_str(&mut out, ")");
            },
            AdbError::CommandFailed { command, code, stdout, stderr } => {
                push_str(&mut out, "ADB command failed: `");
                push_str(&mut out, command.as_str());
                push_str(&mut out, "` (exit: ");
                match code {
                    Some(c) => {
                        push_str(&mut out, "Some(");
                        push_signed_decimal(&mut out, *c);
                        push_str(&mut out, ")");
                    },
                    None => push_str(&mut out, "None"),
                }
                push_str(&mut out, ")");
                push_output_part(&mut out, "; stderr: ", stderr);
                push_output_part(&mut out, "; stdout: ", stdout);
            },
        }
        let r = string_from_chars(out.as_slice());
        assert(r@ =~= error_text(*self));
        r
    }
}

/// The arguments of `adb` that make TCP port `remote_port` on the device
/// `target` reach local port `local_port`.
pub fn reverse_args(target: &String, remote_port: u16, local_port: u16) -> (args: Vec<String>)
    ensures
        texts(args@) == seq!["-s"@, target@, "reverse"@, tcp_spec(remote_port), tcp_spec(local_port)],
{
    let mut args: Vec<String> = Vec::new();
    args.push(owned("-s"));
    args.push(target.clone());
    args.push(owned("reverse"));
    args.push(tcp_text(remote_port));
    args.push(tcp_text(local_port));
    assert(texts(args@) =~= seq!["-s"@, target@, "reverse"@, tcp_spec(remote_port), tcp_spec(local_port)]);
    args
}

/// The arguments of `adb` that remove the reverse of device port `remote_port`.
pub fn kill_reverse_args(target: &String, remote_port: u16) -> (args: Vec<String>)
    ensures
        texts(args@) == seq!["-s"@, target@, "reverse"@, "--remove"@, tcp_spec(remote_port)],
{
    let mut args: Vec<String> = Vec::new();
    args.push(owned("-s"));
    args.push(target.clone());
    args.push(owned("reverse"));
    args.push(owned("--remove"));
    args.push(tcp_text(remote_port));
    assert(texts(args@) =~= seq!["-s"@, target@, "reverse"@, "--remove"@, tcp_spec(remote_port)]);
    args
}

} // verus!
