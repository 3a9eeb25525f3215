//! Driving the C Tor daemon over its control port.
//!
//! The daemon is launched as a child process with a generated config, then
//! driven over the control port: bootstrap progress from its log, onion services
//! via `ADD_ONION`, and outbound connections through its SOCKS port. See
//! <https://spec.torproject.org/control-spec/>.
//!
//! What is here is the conversation: what to say to the daemon and what its
//! answers mean. Processes, files and sockets are elsewhere.

use vstd::prelude::*;
use vstd::slice::slice_subrange;
use crate::scan::{find, parse_number, split_before, split_last, split_second, starts_with, take_digits, trim_suffix};
use crate::text::{chars_of, push_decimal, push_hex, string_of, trim, trim_end};

verus! {

/// Give up on bootstrap rather than hang forever on a hostile network, in
/// seconds.
pub const BOOTSTRAP_TIMEOUT: u64 = 180;

/// How long to wait for the daemon to write its port files at startup, in
/// seconds.
pub const STARTUP_TIMEOUT: u64 = 30;

/// Why the daemon is not running, or does not do what it is told.
#[derive(Debug)]
pub enum DaemonError {
    /// The bundled `tor` binary could not be found.
    NotFound(String),
    Spawn(String),
    Control(String),
    Bootstrap(String),
    Io(String),
}

/// What the user is told about an error.
pub open spec fn daemon_error_text(e: DaemonError) -> Seq<char> {
    match e {
        DaemonError::NotFound(p) => "could not find the bundled tor binary ("@ + p@ + ")"@,
        DaemonError::Spawn(e) => "could not start tor: "@ + e@,
        DaemonError::Control(e) => "tor control connection failed: "@ + e@,
        DaemonError::Bootstrap(e) => "could not connect to the Tor network: "@ + e@,
        DaemonError::Io(e) => e@,
    }
}

/// `text` after `prefix`.
fn joined(prefix: &str, text: &str) -> (r: String)
    ensures
        r@ == prefix@ + text@,
{
    let mut r: String = prefix.to_owned();
    r.append(text);
    r
}

impl DaemonError {
    /// The error in words, for the user.
    pub fn to_string(&self) -> (text: String)
        ensures
            text@ == daemon_error_text(*self),
    {
        match self {
            DaemonError::NotFound(p) => {
                let mut text: String = joined("could not find the bundled tor binary (", p.as_str());
                text.append(")");
                text
            },
            DaemonError::Spawn(e) => joined("could not start tor: ", e.as_str()),
            DaemonError::Control(e) => joined("tor control connection failed: ", e.as_str()),
            DaemonError::Bootstrap(e) => joined("could not connect to the Tor network: ", e.as_str()),
            DaemonError::Io(e) => e.clone(),
        }
    }
}

/// The texts that the daemon is started with.
pub open spec fn args_texts(data_dir: Seq<char>, control_file: Seq<char>) -> Seq<Seq<char>> {
    seq![
        "--ignore-missing-torrc"@,
        "-f"@,
        "/nonexistent"@,
        "DataDirectory"@,
        data_dir,
        "SocksPort"@,
        "auto"@,
        "ControlPort"@,
        "auto"@,
        "ControlPortWriteToFile"@,
        control_file,
        "CookieAuthentication"@,
        "1"@,
        "ClientOnly"@,
        "1"@,
        "AvoidDiskWrites"@,
        "1"@,
    ]
}

/// The arguments that the daemon is started with.
///
/// Automatic ports make tor pick free ones and write them out, so several
/// instances can coexist and nothing collides with a system tor. We never act
/// as a relay.
pub fn tor_args(data_dir: &str, control_file: &str) -> (args: Vec<String>)
    ensures
        crate::kdf::string_texts(args@) == args_texts(data_dir@, control_file@),
{
    let mut args: Vec<String> = Vec::new();
    args.push("--ignore-missing-torrc".to_owned());
    args.push("-f".to_owned());
    args.push("/nonexistent".to_owned());
    args.push("DataDirectory".to_owned());
    args.push(data_dir.to_owned());
    args.push("SocksPort".to_owned());
    args.push("auto".to_owned());
    args.push("ControlPort".to_owned());
    args.push("auto".to_owned());
    args.push("ControlPortWriteToFile".to_owned());
    args.push(control_file.to_owned());
    args.push("CookieAuthentication".to_owned());
    args.push("1".to_owned());
    args.push("ClientOnly".to_owned());
    args.push("1".to_owned());
    args.push("AvoidDiskWrites".to_owned());
    args.push("1".to_owned());
    assert(crate::kdf::string_texts(args@) =~= args_texts(data_dir@, control_file@));
    args
}

/// The percentage in a line of progress: both formats carry it,
/// `Bootstrapped 45% (loading_status)` and `PROGRESS=45`.
pub open spec fn bootstrap_percent(line: Seq<char>) -> Option<nat> {
    match crate::scan::second_piece(line, "PROGRESS="@) {
        Some(rest) => crate::scan::parsed_number(crate::scan::leading_digits(rest), 255),
        None => match crate::scan::second_piece(line, "Bootstrapped "@) {
            Some(rest) => crate::scan::parsed_number(
                crate::text::trimmed(crate::scan::before_first(rest, "%"@)),
                255,
            ),
            None => None,
        },
    }
}

/// What tor says it is doing: the quoted summary, or what follows the last
/// colon.
pub open spec fn bootstrap_summary(line: Seq<char>) -> Seq<char> {
    match crate::scan::second_piece(line, "SUMMARY=\""@) {
        Some(rest) => crate::scan::before_first(rest, "\""@),
        None => crate::scan::after_last(line, ": "@),
    }
}

/// The progress that a line reports, if it is such a line.
pub open spec fn bootstrap_progress(line: Seq<char>) -> Option<(nat, Seq<char>)> {
    if crate::scan::found(line, "Bootstrapped"@) is None && crate::scan::found(
        line,
        "BOOTSTRAP"@,
    ) is None {
        None
    } else {
        match bootstrap_percent(line) {
            Some(percent) => Some((percent, bootstrap_summary(line))),
            None => None,
        }
    }
}

/// `650 STATUS_CLIENT ... BOOTSTRAP PROGRESS=n ... SUMMARY="..."`, or the same
/// shape on stdout. Returns the percentage and summary when present.
pub fn parse_bootstrap(line: &str) -> (r: Option<(u8, String)>)
    ensures
        match r {
            Some((percent, summary)) => bootstrap_progress(line@) == Some(
                (percent as nat, summary@),
            ),
            None => bootstrap_progress(line@) is None,
        },
{
    let chars: Vec<char> = chars_of(line);
    let line: &[char] = chars.as_slice();
    if find(line, chars_of("Bootstrapped").as_slice()).is_none() && find(
        line,
        chars_of("BOOTSTRAP").as_slice(),
    ).is_none() {
        return None;
    }
    let percent: Option<u64> = match split_second(line, chars_of("PROGRESS=").as_slice()) {
        Some(rest) => parse_number(take_digits(rest), 255),
        None => match split_second(line, chars_of("Bootstrapped ").as_slice()) {
            Some(rest) => parse_number(trim(split_before(rest, chars_of("%").as_slice())), 255),
            None => None,
        },
    };
    match percent {
        None => None,
        Some(percent) => {
            let summary: &[char] = match split_second(line, chars_of("SUMMARY=\"").as_slice()) {
                Some(rest) => split_before(rest, chars_of("\"").as_slice()),
                None => {
                    proof {
                        reveal_strlit(": ");
                    }
                    split_last(line, chars_of(": ").as_slice())
                },
            };
            Some((percent as u8, string_of(summary)))
        },
    }
}

/// The port at the end of an address such as `127.0.0.1:9051`.
pub open spec fn port_of(address: Seq<char>) -> Option<nat> {
    crate::scan::parsed_number(
        crate::text::trimmed(crate::scan::after_last(address, ":"@)),
        65535,
    )
}

fn read_port(address: &[char]) -> (r: Option<u16>)
    ensures
        match r {
            Some(port) => port_of(address@) == Some(port as nat),
            None => port_of(address@) is None,
        },
{
    proof {
        reveal_strlit(":");
    }
    match parse_number(trim(split_last(address, chars_of(":").as_slice())), 65535) {
        Some(port) => Some(port as u16),
        None => None,
    }
}

/// The control port in the file that tor writes once the port is open:
/// `PORT=127.0.0.1:9051`. `None` means that the file is not complete yet.
pub fn parse_control_port(text: &str) -> (r: Option<u16>)
    ensures
        match r {
            Some(port) => port_of(crate::text::trimmed(text@)) == Some(port as nat),
            None => port_of(crate::text::trimmed(text@)) is None,
        },
{
    let chars: Vec<char> = chars_of(text);
    read_port(trim(chars.as_slice()))
}

/// The error for a daemon that did not report its control port in time.
pub fn no_control_port() -> (e: DaemonError)
    ensures
        e matches DaemonError::Spawn(text) && text@
            == "tor did not report a control port; it may have failed to start"@,
{
    DaemonError::Spawn(
        "tor did not report a control port; it may have failed to start".to_owned(),
    )
}

/// The command that authenticates with the cookie tor wrote to disk.
pub fn authenticate_command(cookie: &[u8]) -> (cmd: String)
    ensures
        cmd@ == "AUTHENTICATE "@ + crate::text::hex(cookie@) + "\r\n"@,
{
    let mut cmd: String = "AUTHENTICATE ".to_owned();
    push_hex(&mut cmd, cookie);
    cmd.append("\r\n");
    cmd
}

/// Whether a reply reports success.
pub open spec fn is_ok_reply(reply: Seq<char>) -> bool {
    crate::scan::begins_with(reply, "250"@)
}

/// What tor answered to the cookie.
pub fn check_authenticated(reply: &str) -> (r: Result<(), DaemonError>)
    ensures
        match r {
            Ok(_) => is_ok_reply(reply@),
            Err(e) => {
                &&& !is_ok_reply(reply@)
                &&& e matches DaemonError::Control(text) && text@ == "AUTHENTICATE failed: "@
                    + reply@
            },
        },
{
    let chars: Vec<char> = chars_of(reply);
    if starts_with(chars.as_slice(), chars_of("250").as_slice()) {
        Ok(())
    } else {
        Err(DaemonError::Control(joined("AUTHENTICATE failed: ", reply)))
    }
}

/// The command that asks for the SOCKS port.
pub const SOCKS_COMMAND: &'static str = "GETINFO net/listeners/socks\r\n";

/// The SOCKS port in tor's answer: at the end of the first quoted address.
pub open spec fn socks_port_in(reply: Seq<char>) -> Option<nat> {
    match crate::scan::second_piece(reply, "\""@) {
        Some(address) => port_of(address),
        None => None,
    }
}

/// Read the SOCKS port out of tor's answer.
pub fn parse_socks_port(reply: &str) -> (r: Result<u16, DaemonError>)
    ensures
        match r {
            Ok(port) => socks_port_in(reply@) == Some(port as nat),
            Err(e) => {
                &&& socks_port_in(reply@) is None
                &&& e matches DaemonError::Control(text) && text@ == "could not read SOCKS port: "@
                    + reply@
            },
        },
{
    let chars: Vec<char> = chars_of(reply);
    let port: Option<u16> = match split_second(chars.as_slice(), chars_of("\"").as_slice()) {
        Some(address) => read_port(address),
        None => None,
    };
    match port {
        Some(port) => Ok(port),
        None => Err(DaemonError::Control(joined("could not read SOCKS port: ", reply))),
    }
}

/// The command that publishes an onion service for `key_blob`, forwarding
/// `virtual_port` to a local listener.
///
/// `DiscardPK` tells tor not to echo the private key back at us: we already
/// have it, and not receiving it keeps it out of the control stream.
pub fn add_onion_command(key_blob: &str, virtual_port: u16, local_port: u16) -> (cmd: String)
    ensures
        cmd@ == "ADD_ONION ED25519-V3:"@ + key_blob@ + " Flags=DiscardPK Port="@
            + crate::text::decimal(virtual_port as nat) + ",127.0.0.1:"@ + crate::text::decimal(
            local_port as nat,
        ) + "\r\n"@,
{
    let mut cmd: String = "ADD_ONION ED25519-V3:".to_owned();
    cmd.append(key_blob);
    cmd.append(" Flags=DiscardPK Port=");
    push_decimal(&mut cmd, virtual_port as u64);
    cmd.append(",127.0.0.1:");
    push_decimal(&mut cmd, local_port as u64);
    cmd.append("\r\n");
    cmd
}

/// A character of the status code that begins a reply line.
pub open spec fn is_status_char(c: char) -> bool {
    c == '2' || c == '5' || c == '0' || c == '-' || c == ' '
}

/// A reply line without its status code.
pub open spec fn without_status(line: Seq<char>) -> Seq<char>
    decreases line.len(),
{
    if line.len() > 0 && is_status_char(line[0]) {
        without_status(line.skip(1))
    } else {
        line
    }
}

/// The service that a reply line names, if it names one.
pub open spec fn service_in_line(line: Seq<char>) -> Option<Seq<char>> {
    let rest = without_status(line);
    if crate::scan::begins_with(rest, "ServiceID="@) {
        Some(rest.skip("ServiceID="@.len() as int))
    } else {
        None
    }
}

/// A line without the carriage return before its line feed.
pub open spec fn without_cr(line: Seq<char>) -> Seq<char> {
    if line.len() > 0 && line.last() == '\r' {
        line.drop_last()
    } else {
        line
    }
}

/// The service that the first line of a reply that names one names.
pub open spec fn service_in(reply: Seq<char>) -> Option<Seq<char>>
    decreases reply.len(),
    via service_in_decreases
{
    match crate::scan::found(reply, seq!['\n']) {
        None => service_in_line(reply),
        Some(i) => match service_in_line(without_cr(reply.take(i))) {
            Some(id) => Some(id),
            None => service_in(reply.skip(i + 1)),
        },
    }
}

#[via_fn]
proof fn service_in_decreases(reply: Seq<char>) {
    crate::scan::lemma_found(reply, seq!['\n'], 0);
}

fn strip_status(line: &[char]) -> (r: &[char])
    ensures
        r@ == without_status(line@),
{
    let mut i: usize = 0;
    assert(line@.skip(0) =~= line@);
    while i < line.len() && (line[i] == '2' || line[i] == '5' || line[i] == '0' || line[i] == '-'
        || line[i] == ' ')
        invariant
            i <= line@.len(),
            without_status(line@) == without_status(line@.skip(i as int)),
        decreases line@.len() - i,
    {
        i = i + 1;
        assert(line@.skip(i - 1).skip(1) =~= line@.skip(i as int));
    }
    assert(line@.subrange(i as int, line@.len() as int) =~= line@.skip(i as int));
    slice_subrange(line, i, line.len())
}

fn service_of_line(line: &[char]) -> (r: Option<&[char]>)
    ensures
        match r {
            Some(id) => service_in_line(line@) == Some(id@),
            None => service_in_line(line@) is None,
        },
{
    let rest: &[char] = strip_status(line);
    let prefix: Vec<char> = chars_of("ServiceID=");
    if starts_with(rest, prefix.as_slice()) {
        assert(rest@.subrange(prefix@.len() as int, rest@.len() as int) =~= rest@.skip(
            prefix@.len() as int,
        ));
        Some(slice_subrange(rest, prefix.len(), rest.len()))
    } else {
        None
    }
}

fn service_of(reply: &[char]) -> (r: Option<&[char]>)
    ensures
        match r {
            Some(id) => service_in(reply@) == Some(id@),
            None => service_in(reply@) is None,
        },
    decreases reply@.len(),
{
    let end: usize = reply.len();
    let mut newline: Vec<char> = Vec::new();
    newline.push('\n');
    assert(newline@ =~= seq!['\n']);
    match find(reply, newline.as_slice()) {
        None => service_of_line(reply),
        Some(i) => {
            let line: &[char] = slice_subrange(reply, 0, i);
            assert(line@ =~= reply@.take(i as int));
            let line: &[char] = if line.len() > 0 && line[line.len() - 1] == '\r' {
                assert(line@.subrange(0, line@.len() - 1) =~= line@.drop_last());
                slice_subrange(line, 0, line.len() - 1)
            } else {
                line
            };
            match service_of_line(line) {
                Some(id) => Some(id),
                None => {
                    assert(reply@.subrange(i + 1, reply@.len() as int) =~= reply@.skip(i + 1));
                    service_of(slice_subrange(reply, i + 1, end))
                },
            }
        },
    }
}

/// The `.onion` address that tor reports for a service it has published.
pub fn parse_service(reply: &str) -> (r: Result<String, DaemonError>)
    ensures
        match r {
            Ok(address) => service_in(reply@) matches Some(id) && address@ == id + ".onion"@,
            Err(e) => {
                &&& service_in(reply@) is None
                &&& e matches DaemonError::Control(text) && text@
                    == "ADD_ONION gave no ServiceID: "@ + reply@
            },
        },
{
    let chars: Vec<char> = chars_of(reply);
    match service_of(chars.as_slice()) {
        Some(id) => {
            let mut address: String = string_of(id);
            address.append(".onion");
            Ok(address)
        },
        None => Err(DaemonError::Control(joined("ADD_ONION gave no ServiceID: ", reply))),
    }
}

/// The command that stops publishing a service. Used to close the door once two
/// peers are in.
pub fn del_onion_command(address: &str) -> (cmd: String)
    ensures
        cmd@ == "DEL_ONION "@ + crate::scan::without_suffix(address@, ".onion"@) + "\r\n"@,
{
    let chars: Vec<char> = chars_of(address);
    let id: String = string_of(trim_suffix(chars.as_slice(), chars_of(".onion").as_slice()));
    let mut cmd: String = joined("DEL_ONION ", id.as_str());
    cmd.append("\r\n");
    cmd
}

/// What has been read of a reply.
pub struct ReplyReader {
    /// The lines that are complete.
    pub out: String,
    /// The line that is not.
    pub line: Vec<char>,
}

/// Whether a line is the last of its reply: the status code is followed by a
/// space rather than `-`, which marks continuation.
pub open spec fn is_final_line(line: Seq<char>) -> bool {
    crate::text::utf8(line).len() >= 4 && crate::text::utf8(line)[3] == 0x20
}

impl ReplyReader {
    /// Nothing has been read yet.
    pub fn new() -> (reader: Self)
        ensures
            reader.out@ == Seq::<char>::empty(),
            reader.line@ == Seq::<char>::empty(),
    {
        ReplyReader { out: String::new(), line: Vec::new() }
    }

    /// Take one byte from the control connection. Returns the reply once it is
    /// complete: all lines up to one that marks the end, each without the white
    /// space at its end.
    pub fn push(&mut self, byte: u8) -> (reply: Option<String>)
        ensures
            if byte == 0x0a {
                let out = old(self).out@ + crate::text::trimmed_end(old(self).line@) + seq!['\n'];
                &&& final(self).out@ == out
                &&& final(self).line@ == Seq::<char>::empty()
                &&& match reply {
                    Some(text) => is_final_line(old(self).line@) && text@ == out,
                    None => !is_final_line(old(self).line@),
                }
            } else {
                &&& reply is None
                &&& final(self).out@ == old(self).out@
                &&& final(self).line@ == (if byte == 0x0d {
                    old(self).line@
                } else {
                    old(self).line@.push(byte as char)
                })
            },
    {
        if byte == 0x0a {
            let line: String = string_of(self.line.as_slice());
            let bytes: &[u8] = line.as_str().as_bytes();
            let finished: bool = bytes.len() >= 4 && bytes[3] == 0x20;
            let kept: String = string_of(trim_end(self.line.as_slice()));
            self.out.append(kept.as_str());
            self.out.push('\n');
            assert(self.out@ =~= old(self).out@ + crate::text::trimmed_end(old(self).line@)
                + seq!['\n']);
            self.line = Vec::new();
            if finished {
                Some(self.out.clone())
            } else {
                None
            }
        } else {
            if byte != 0x0d {
                self.line.push(byte as char);
            }
            None
        }
    }
}

/// The error for a control connection that closed before its reply was
/// complete.
pub fn control_closed() -> (e: DaemonError)
    ensures
        e matches DaemonError::Control(text) && text@ == "control connection closed"@,
{
    DaemonError::Control("control connection closed".to_owned())
}

/// How far the daemon has come with joining the network.
#[derive(Debug)]
pub struct BootstrapWatch {
    pub percent: u8,
}

/// What happened while the daemon was joining the network.
#[derive(Debug)]
pub enum WatchEvent {
    /// It printed a line.
    Line(String),
    /// It exited, or its output closed.
    Closed,
    /// Its output could not be read, and this is why.
    Failed(String),
    /// [`BOOTSTRAP_TIMEOUT`] has passed.
    Deadline,
}

/// What to do about it.
#[derive(Debug)]
pub enum WatchStep {
    /// Wait for the next line.
    Wait,
    /// Tell the user, and wait for the next line.
    Progress { percent: u8, summary: String },
    /// Tell the user; the daemon has joined.
    Done { percent: u8, summary: String },
    /// Give up.
    Failed(DaemonError),
}

/// What the user is told when the daemon stalls at `percent`.
pub open spec fn stalled_text(percent: u8) -> Seq<char> {
    "stalled at "@ + crate::text::decimal(percent as nat) + "% after "@ + crate::text::decimal(
        BOOTSTRAP_TIMEOUT as nat,
    )
        + "s. Antivirus or firewall software inspecting connections is the usual cause; a network that blocks Tor will do it too."@
}

impl BootstrapWatch {
    /// The daemon has just been started.
    pub fn new() -> (watch: Self)
        ensures
            watch.percent == 0,
    {
        BootstrapWatch { percent: 0 }
    }

    /// Decide what to do about what happened: follow the progress until it is
    /// complete, the daemon stops or the deadline passes.
    pub fn step(&mut self, event: WatchEvent) -> (step: WatchStep)
        ensures
            match event {
                WatchEvent::Line(line) => match bootstrap_progress(line@) {
                    None => final(self).percent == old(self).percent && step is Wait,
                    Some((at, doing)) => {
                        &&& final(self).percent == at
                        &&& if at >= 100 {
                            step matches WatchStep::Done { percent, summary } && percent == at
                                && summary@ == doing
                        } else {
                            step matches WatchStep::Progress { percent, summary } && percent == at
                                && summary@ == doing
                        }
                    },
                },
                WatchEvent::Closed => {
                    &&& final(self).percent == old(self).percent
                    &&& step matches WatchStep::Failed(DaemonError::Bootstrap(text)) && text@
                        == "tor stopped unexpectedly during startup"@
                },
                WatchEvent::Failed(why) => {
                    &&& final(self).percent == old(self).percent
                    &&& step matches WatchStep::Failed(DaemonError::Bootstrap(text)) && text@
                        == why@
                },
                WatchEvent::Deadline => {
                    &&& final(self).percent == old(self).percent
                    &&& step matches WatchStep::Failed(DaemonError::Bootstrap(text)) && text@
                        == stalled_text(old(self).percent)
                },
            },
    {
        match event {
            WatchEvent::Line(line) => match parse_bootstrap(line.as_str()) {
                None => WatchStep::Wait,
                Some((percent, summary)) => {
                    self.percent = percent;
                    if percent >= 100 {
                        WatchStep::Done { percent, summary }
                    } else {
                        WatchStep::Progress { percent, summary }
                    }
                },
            },
            WatchEvent::Closed => WatchStep::Failed(
                DaemonError::Bootstrap("tor stopped unexpectedly during startup".to_owned()),
            ),
            WatchEvent::Failed(why) => WatchStep::Failed(DaemonError::Bootstrap(why)),
            WatchEvent::Deadline => {
                let mut text: String = "stalled at ".to_owned();
                push_decimal(&mut text, self.percent as u64);
                text.append("% after ");
                push_decimal(&mut text, BOOTSTRAP_TIMEOUT);
                text.append(
                    "s. Antivirus or firewall software inspecting connections is the usual cause; a network that blocks Tor will do it too.",
                );
                WatchStep::Failed(DaemonError::Bootstrap(text))
            },
        }
    }
}

/// Closing the door names the service that was published: from the address
/// that tor reported for it, the same identifier is recovered. (An identifier
/// that itself ends in `.onion` is not one that tor gives out.)
pub proof fn law_the_published_service_is_the_one_closed(id: Seq<char>)
    requires
        !crate::scan::ends_with(id, ".onion"@),
    ensures
        crate::scan::without_suffix(id + ".onion"@, ".onion"@) == id,
{
    reveal_strlit(".onion");
    let address = id + ".onion"@;
    assert(address.skip(id.len() as int) =~= ".onion"@);
    assert(address.take(id.len() as int) =~= id);
    assert(crate::scan::without_suffix(address, ".onion"@) == crate::scan::without_suffix(
        id,
        ".onion"@,
    ));
}

/// A port behind a colon at the end of an address is read back, whatever stands
/// in front of it, also where white space follows.
pub proof fn law_ports_are_read_back(host: Seq<char>, port: nat, blank: Seq<char>)
    requires
        crate::text::is_blank(blank),
        !blank.contains(':'),
    ensures
        port_of(host + seq![':'] + crate::text::decimal(port) + blank) == (if port <= 65_535 {
            Some(port)
        } else {
            None
        }),
{
    reveal_strlit(":");
    assert(":"@ =~= seq![':']);
    let digits = crate::text::decimal(port);
    let tail = digits + blank;
    crate::text::law_decimal_digits_count_in_tens(port);
    assert(!tail.contains(':')) by {
        assert forall|i: int| 0 <= i < tail.len() implies tail[i] != ':' by {
            if i < digits.len() {
                assert(tail[i] == digits[i]);
            } else {
                assert(tail[i] == blank[i - digits.len()]);
                assert(blank.contains(blank[i - digits.len()]));
            }
        }
    }
    crate::scan::law_the_last_part_is_read_back(host, ':', tail);
    assert(host + seq![':'] + digits + blank =~= host + seq![':'] + tail);
    crate::text::lemma_trimmed_drops_blank(Seq::empty(), digits, blank);
    assert(Seq::<char>::empty() + digits + blank =~= tail);
    assert(!crate::text::is_white_space(digits[0]));
    assert(!crate::text::is_white_space(digits.last()));
    crate::text::lemma_bare_ends_stay(digits);
    crate::scan::law_numbers_are_read_back(port, 65_535);
}

/// The SOCKS port is read from the first quoted address of tor's answer,
/// whatever stands around it.
pub proof fn law_the_socks_port_is_read_back(
    before: Seq<char>,
    host: Seq<char>,
    port: nat,
    after: Seq<char>,
)
    requires
        !before.contains('"'),
        !host.contains('"'),
        port <= 65_535,
    ensures
        socks_port_in(
            before + seq!['"'] + (host + seq![':'] + crate::text::decimal(port)) + seq!['"'] + after,
        ) == Some(port),
{
    reveal_strlit("\"");
    let q = seq!['"'];
    assert("\""@ =~= q);
    let digits = crate::text::decimal(port);
    let address = host + seq![':'] + digits;
    let reply = before + q + address + q + after;
    crate::text::law_decimal_digits_count_in_tens(port);
    assert forall|i: int| 0 <= i < address.len() implies address[i] != '"' by {
        if i < host.len() {
            assert(host.contains(host[i]));
        } else if i > host.len() {
            assert(address[i] == digits[i - host.len() - 1]);
        }
    }
    let rest = address + q + after;
    assert(reply =~= before + q + rest);
    assert forall|j: int| 0 <= j < before.len() implies #[trigger] (before + q + rest).subrange(
        j,
        j + q.len(),
    ) != q by {
        assert((before + q + rest).subrange(j, j + 1)[0] == before[j]);
        assert(before.contains(before[j]));
    }
    crate::scan::law_splitting_undoes_joining(before, q, rest);
    assert forall|j: int| 0 <= j < address.len() implies #[trigger] (address + q + after).subrange(
        j,
        j + q.len(),
    ) != q by {
        assert((address + q + after).subrange(j, j + 1)[0] == address[j]);
    }
    crate::scan::law_splitting_undoes_joining(address, q, after);
    law_ports_are_read_back(host, port, Seq::empty());
    assert(address + Seq::<char>::empty() =~= address);
}

proof fn lemma_line_is_split(line: Seq<char>, rest: Seq<char>)
    requires
        !line.contains('\n'),
    ensures
        crate::scan::found(line + seq!['\n'] + rest, seq!['\n']) == Some(line.len() as int),
        (line + seq!['\n'] + rest).take(line.len() as int) == line,
        (line + seq!['\n'] + rest).skip(line.len() as int + 1) == rest,
{
    let nl = seq!['\n'];
    let s = line + nl + rest;
    assert forall|j: int| 0 <= j < line.len() implies #[trigger] (line + nl + rest).subrange(
        j,
        j + nl.len(),
    ) != nl by {
        assert(s.subrange(j, j + 1)[0] == line[j]);
        assert(line.contains(line[j]));
    }
    crate::scan::law_splitting_undoes_joining(line, nl, rest);
    assert(s.take(line.len() as int) =~= line);
    assert(s.skip(line.len() as int + 1) =~= rest);
}

/// The service that tor reports is read back from its reply, whatever follows;
/// lines in front that name no service are passed over.
pub proof fn law_the_service_is_read_back(id: Seq<char>, line: Seq<char>, rest: Seq<char>)
    requires
        !id.contains('\n'),
        !line.contains('\n'),
        service_in_line(line) is None,
        service_in_line(without_cr(line)) is None,
    ensures
        service_in("250-ServiceID="@ + id + seq!['\r', '\n'] + rest) == Some(id),
        service_in(line + seq!['\n'] + rest) == service_in(rest),
{
    reveal_strlit("250-ServiceID=");
    reveal_strlit("ServiceID=");
    let head = "250-ServiceID="@ + id;
    let first = head.push('\r');
    let reply = head + seq!['\r', '\n'] + rest;
    assert forall|i: int| 0 <= i < first.len() implies first[i] != '\n' by {
        if 14 <= i < head.len() {
            assert(first[i] == id[i - 14]);
            assert(id.contains(id[i - 14]));
        }
    }
    assert(reply =~= first + seq!['\n'] + rest);
    lemma_line_is_split(first, rest);
    assert(without_cr(first) =~= head);
    reveal_with_fuel(without_status, 6);
    let bare = "ServiceID="@ + id;
    assert(head.skip(1).skip(1).skip(1).skip(1) =~= bare);
    assert(head[0] == '2' && head[1] == '5' && head[2] == '0' && head[3] == '-' && head[4] == 'S');
    assert(without_status(head) == bare);
    assert(bare.take(10) =~= "ServiceID="@);
    assert(bare.skip(10) =~= id);
    lemma_line_is_split(line, rest);
}

proof fn lemma_after_the_last_colon(a: Seq<char>, b: Seq<char>)
    requires
        crate::scan::is_absent(b, ": "@),
    ensures
        crate::scan::after_last(a + ": "@ + b, ": "@) == b,
{
    reveal_strlit(": ");
    let p = ": "@;
    let s = a + p + b;
    crate::scan::law_after_the_last_there_is_no_more(s, p);
    let rest = crate::scan::after_last(s, p);
    let at = s.len() - rest.len();
    let n = a.len() as int;
    assert(s.subrange(n, n + 2) =~= p);
    assert(!crate::scan::is_absent(s, p));
    let last = s.subrange(at - 2, at);
    assert(last[0] == ':' && last[1] == ' ');
    assert(s[at - 2] == ':' && s[at - 1] == ' ');
    assert(s[n] == ':' && s[n + 1] == ' ');
    if at - 2 >= n + 2 {
        let j = at - 2 - n - 2;
        assert(b.subrange(j, j + 2) =~= last);
    }
    if n >= at {
        assert(rest.subrange(n - at, n - at + 2) =~= p);
    }
    assert(at == n + 2);
    assert(rest =~= b);
}

/// A line of progress is read back: the percentage behind `Bootstrapped`, and
/// what tor says it is doing behind the last colon.
pub proof fn law_progress_is_read_back(
    before: Seq<char>,
    percent: nat,
    tag: Seq<char>,
    summary: Seq<char>,
)
    requires
        percent <= 255,
        ({
            let line = before + "Bootstrapped "@ + (crate::text::decimal(percent) + "%"@ + tag
                + ": "@ + summary);
            let rest = crate::text::decimal(percent) + "%"@ + tag + ": "@ + summary;
            &&& crate::scan::is_absent(line, "PROGRESS="@)
            &&& crate::scan::is_absent(line, "SUMMARY=\""@)
            &&& crate::scan::is_absent(rest, "Bootstrapped "@)
            &&& crate::scan::is_absent(before + "Bootstrapped"@, "Bootstrapped "@)
            &&& crate::scan::is_absent(summary, ": "@)
        }),
    ensures
        bootstrap_progress(
            before + "Bootstrapped "@ + (crate::text::decimal(percent) + "%"@ + tag + ": "@
                + summary),
        ) == Some((percent, summary)),
{
    reveal_strlit("Bootstrapped ");
    reveal_strlit("Bootstrapped");
    reveal_strlit("%");
    let p = "Bootstrapped "@;
    let digits = crate::text::decimal(percent);
    let tail = tag + ": "@ + summary;
    let rest = digits + "%"@ + tag + ": "@ + summary;
    let line = before + p + rest;
    assert(rest =~= digits + "%"@ + tail);
    crate::scan::law_nothing_is_split_off_without_the_pattern(line, "PROGRESS="@);
    crate::scan::law_nothing_is_split_off_without_the_pattern(line, "SUMMARY=\""@);
    crate::scan::law_nothing_is_split_off_without_the_pattern(rest, p);
    assert(line =~= before + p + digits + "%"@ + tag + ": "@ + summary);
    lemma_after_the_last_colon(before + p + digits + "%"@ + tag, summary);
    // The pattern does not begin earlier: it would end before the space.
    assert forall|j: int| 0 <= j < before.len() implies #[trigger] (before + p + rest).subrange(
        j,
        j + p.len(),
    ) != p by {
        let short = before + "Bootstrapped"@;
        let here = line.subrange(j, j + p.len());
        if here == p {
            assert(j + 13 <= before.len() + 12);
            assert(short.subrange(j, j + 13) =~= here);
        }
    }
    crate::scan::law_splitting_undoes_joining(before, p, rest);
    // `Bootstrapped` stands in the line.
    crate::scan::law_what_is_found_is_first(line, "Bootstrapped"@);
    assert(line.subrange(before.len() as int, before.len() as int + 12) =~= "Bootstrapped"@);
    // The percentage stands before the first percent sign.
    crate::text::law_decimal_digits_count_in_tens(percent);
    assert forall|j: int| 0 <= j < digits.len() implies #[trigger] (digits + "%"@ + tail).subrange(
        j,
        j + "%"@.len(),
    ) != "%"@ by {
        assert((digits + "%"@ + tail).subrange(j, j + 1)[0] == digits[j]);
    }
    crate::scan::law_splitting_undoes_joining(digits, "%"@, tail);
    assert(!crate::text::is_white_space(digits[0]));
    assert(!crate::text::is_white_space(digits.last()));
    crate::text::lemma_bare_ends_stay(digits);
    crate::scan::law_numbers_are_read_back(percent, 255);
}

/// A line that says nothing of bootstrapping reports no progress.
pub proof fn law_other_lines_report_nothing(line: Seq<char>)
    requires
        crate::scan::is_absent(line, "Bootstrapped"@),
        crate::scan::is_absent(line, "BOOTSTRAP"@),
    ensures
        bootstrap_progress(line) is None,
{
    crate::scan::law_nothing_is_split_off_without_the_pattern(line, "Bootstrapped"@);
    crate::scan::law_nothing_is_split_off_without_the_pattern(line, "BOOTSTRAP"@);
}

/// A reply reports success by the three digits it begins with, and a line is
/// the last of its reply where its fourth byte is a space.
pub proof fn law_how_replies_are_read(status: Seq<char>, rest: Seq<char>)
    requires
        status.len() == 3,
    ensures
        is_ok_reply(status + rest) <==> status == "250"@,
        vstd::utf8::is_ascii_chars(status + rest) ==> (is_final_line(status + rest) <==> rest.len()
            > 0 && rest[0] == ' '),
{
    reveal_strlit("250");
    let line = status + rest;
    assert(line.take(3) =~= status);
    if vstd::utf8::is_ascii_chars(line) {
        vstd::utf8::is_ascii_chars_encode_utf8(line);
        if rest.len() > 0 {
            assert(line[3] == rest[0]);
        }
    }
}

/// A reply line loses its status code and its carriage return, and nothing
/// else.
pub proof fn law_lines_lose_their_frame_only(c: char, line: Seq<char>)
    ensures
        c == '2' || c == '5' || c == '0' || c == '-' || c == ' ' ==> without_status(
            seq![c] + line,
        ) == without_status(line),
        !(c == '2' || c == '5' || c == '0' || c == '-' || c == ' ') ==> without_status(
            seq![c] + line,
        ) == seq![c] + line,
        without_cr(line.push('\r')) == line,
        c != '\r' ==> without_cr(line.push(c)) == line.push(c),
{
    assert((seq![c] + line).skip(1) =~= line);
    assert(line.push('\r').drop_last() =~= line);
}

/// The form of a progress line that the control port uses is read back too:
/// the digits behind `PROGRESS=`, whatever follows them, and the quoted summary.
pub proof fn law_control_progress_is_read_back(
    before: Seq<char>,
    percent: nat,
    rest: Seq<char>,
    summary: Seq<char>,
    after: Seq<char>,
)
    requires
        percent <= 255,
        rest.len() > 0 ==> !('0' <= rest[0] <= '9'),
        !summary.contains('"'),
        crate::scan::is_absent(crate::text::decimal(percent) + rest, "PROGRESS="@),
        forall|j: int|
            0 <= j < before.len() ==> #[trigger] (before + "PROGRESS="@ + (crate::text::decimal(
                percent,
            ) + rest)).subrange(j, j + "PROGRESS="@.len()) != "PROGRESS="@,
        forall|j: int|
            0 <= j < before.len() ==> #[trigger] (before + "SUMMARY=\""@ + (summary + seq!['"']
                + after)).subrange(j, j + "SUMMARY=\""@.len()) != "SUMMARY=\""@,
        crate::scan::is_absent(summary + seq!['"'] + after, "SUMMARY=\""@),
    ensures
        bootstrap_percent(before + "PROGRESS="@ + (crate::text::decimal(percent) + rest)) == Some(
            percent,
        ),
        bootstrap_summary(before + "SUMMARY=\""@ + (summary + seq!['"'] + after)) == summary,
{
    let digits = crate::text::decimal(percent);
    let tail = digits + rest;
    crate::scan::law_splitting_undoes_joining(before, "PROGRESS="@, tail);
    crate::scan::law_nothing_is_split_off_without_the_pattern(tail, "PROGRESS="@);
    crate::text::law_decimal_digits_count_in_tens(percent);
    crate::scan::law_leading_digits_are_all_of_them(tail);
    let n = crate::scan::leading_digits(tail).len() as int;
    if n < digits.len() {
        assert(tail[n] == digits[n]);
    }
    if n > digits.len() {
        assert(tail[digits.len() as int] == rest[0]);
    }
    assert(tail.take(n) =~= digits);
    crate::scan::law_numbers_are_read_back(percent, 255);

    reveal_strlit("\"");
    let q = seq!['"'];
    assert("\""@ =~= q);
    let quoted = summary + q + after;
    crate::scan::law_splitting_undoes_joining(before, "SUMMARY=\""@, quoted);
    crate::scan::law_nothing_is_split_off_without_the_pattern(quoted, "SUMMARY=\""@);
    assert forall|j: int| 0 <= j < summary.len() implies #[trigger] (summary + q + after).subrange(
        j,
        j + q.len(),
    ) != q by {
        assert(quoted.subrange(j, j + 1)[0] == summary[j]);
        assert(summary.contains(summary[j]));
    }
    crate::scan::law_splitting_undoes_joining(summary, q, after);
}

} // verus!
