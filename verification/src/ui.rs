//! What the user interface is told, and what of it may be logged.

use std::collections::VecDeque;
use vstd::prelude::*;
use vstd::slice::slice_subrange;
use crate::status::Status;
use crate::text::{chars_of, push_decimal, string_of, trim_end};

verus! {

/// Something that happened, for the user interface.
#[derive(Clone, Debug, PartialEq, Eq)]
pub enum UiEvent {
    /// Progress during the slow connect. `stage` drives the checklist in the
    /// UI; a four-minute wait with no visible movement is indistinguishable
    /// from a hang.
    Status { text: String, stage: String },
    /// Handshake confirmed; the chat is live.
    Ready,
    /// A decrypted message from the peer. `from` is the name they chose, and
    /// is empty when they did not choose one.
    Message { from: String, text: String },
    /// A file arrived whole. `data` is base64 because an event payload cannot
    /// carry raw bytes; it is held in memory and written nowhere.
    File { from: String, name: String, data: String },
    /// How far along a transfer is, in either direction.
    FileProgress { name: String, sent: u32, total: u32, outgoing: bool },
    /// Session over. `reason` is shown to the user.
    Ended { reason: String },
    /// The connection dropped and is being re-established. The conversation is
    /// not over and the message history stays on screen.
    Reconnecting,
    /// Back. A fresh handshake completed at the same address.
    Reconnected,
    /// Nothing has been said for long, or something has been said since.
    /// `seconds_left` is what is left of the idle time that the user chose. The
    /// chat itself stays open.
    IdleWarning { seconds_left: u32, active: bool },
    /// Progress joining Tor, reported while the user is still typing.
    TorProgress { text: String, ready: bool, failed: bool },
}

/// What an event says.
pub enum UiEventView {
    Status { text: Seq<char>, stage: Seq<char> },
    Ready,
    Message { from: Seq<char>, text: Seq<char> },
    File { from: Seq<char>, name: Seq<char>, data: Seq<char> },
    FileProgress { name: Seq<char>, sent: u32, total: u32, outgoing: bool },
    Ended { reason: Seq<char> },
    Reconnecting,
    Reconnected,
    IdleWarning { seconds_left: u32, active: bool },
    TorProgress { text: Seq<char>, ready: bool, failed: bool },
}

impl View for UiEvent {
    type V = UiEventView;

    open spec fn view(&self) -> UiEventView {
        match *self {
            UiEvent::Status { text, stage } => UiEventView::Status { text: text@, stage: stage@ },
            UiEvent::Ready => UiEventView::Ready,
            UiEvent::Message { from, text } => UiEventView::Message { from: from@, text: text@ },
            UiEvent::File { from, name, data } => UiEventView::File {
                from: from@,
                name: name@,
                data: data@,
            },
            UiEvent::FileProgress { name, sent, total, outgoing } => UiEventView::FileProgress {
                name: name@,
                sent,
                total,
                outgoing,
            },
            UiEvent::Ended { reason } => UiEventView::Ended { reason: reason@ },
            UiEvent::Reconnecting => UiEventView::Reconnecting,
            UiEvent::Reconnected => UiEventView::Reconnected,
            UiEvent::IdleWarning { seconds_left, active } => UiEventView::IdleWarning {
                seconds_left,
                active,
            },
            UiEvent::TorProgress { text, ready, failed } => UiEventView::TorProgress {
                text: text@,
                ready,
                failed,
            },
        }
    }
}

/// What a list of events says.
pub open spec fn said(events: Seq<UiEvent>) -> Seq<UiEventView> {
    Seq::new(events.len(), |i: int| events[i]@)
}

/// A truth value as it is logged.
pub open spec fn bool_text(b: bool) -> Seq<char> {
    if b {
        "true"@
    } else {
        "false"@
    }
}

/// What is logged of an event. Deliberately safe to log: it carries no room
/// code, onion address, key, or message content — only coarse connection state.
pub open spec fn logged(e: UiEventView) -> Option<Seq<char>> {
    match e {
        UiEventView::Status { text, stage } => Some("[narco] status["@ + stage + "] "@ + text),
        UiEventView::IdleWarning { active, .. } => Some(
            "[narco] idle warning "@ + (if active {
                "shown"@
            } else {
                "cleared"@
            }),
        ),
        UiEventView::Ready => Some("[narco] handshake confirmed — chat live"@),
        UiEventView::Reconnecting => Some("[narco] connection lost — reconnecting"@),
        UiEventView::Reconnected => Some("[narco] reconnected"@),
        UiEventView::Ended { reason } => Some("[narco] ended: "@ + reason),
        UiEventView::TorProgress { text, ready, failed } => Some(
            "[narco] tor: "@ + text + " (ready="@ + bool_text(ready) + " failed="@ + bool_text(
                failed,
            ) + ")"@,
        ),
        // Never log message events, nor file contents.
        UiEventView::Message { .. } => None,
        UiEventView::File { .. } => None,
        // Only that a transfer is happening, never the name or the bytes.
        UiEventView::FileProgress { sent, total, outgoing, .. } => Some(
            "[narco] file "@ + (if outgoing {
                "sending"@
            } else {
                "receiving"@
            }) + " "@ + crate::text::decimal(sent as nat) + "/"@ + crate::text::decimal(
                total as nat,
            ),
        ),
    }
}

fn bool_str(b: bool) -> (r: &'static str)
    ensures
        r@ == bool_text(b),
{
    if b {
        "true"
    } else {
        "false"
    }
}

/// The line to log for an event, if it may be logged.
pub fn log_line(e: &UiEvent) -> (line: Option<String>)
    ensures
        match line {
            Some(text) => logged(e@) == Some(text@),
            None => logged(e@) is None,
        },
{
    match e {
        UiEvent::Status { text, stage } => {
            let mut line: String = "[narco] status[".to_owned();
            line.append(stage.as_str());
            line.append("] ");
            line.append(text.as_str());
            Some(line)
        },
        UiEvent::IdleWarning { active, .. } => {
            let mut line: String = "[narco] idle warning ".to_owned();
            if *active {
                line.append("shown");
            } else {
                line.append("cleared");
            }
            Some(line)
        },
        UiEvent::Ready => Some("[narco] handshake confirmed — chat live".to_owned()),
        UiEvent::Reconnecting => Some("[narco] connection lost — reconnecting".to_owned()),
        UiEvent::Reconnected => Some("[narco] reconnected".to_owned()),
        UiEvent::Ended { reason } => {
            let mut line: String = "[narco] ended: ".to_owned();
            line.append(reason.as_str());
            Some(line)
        },
        UiEvent::TorProgress { text, ready, failed } => {
            let mut line: String = "[narco] tor: ".to_owned();
            line.append(text.as_str());
            line.append(" (ready=");
            line.append(bool_str(*ready));
            line.append(" failed=");
            line.append(bool_str(*failed));
            line.append(")");
            Some(line)
        },
        UiEvent::Message { .. } => None,
        UiEvent::File { .. } => None,
        UiEvent::FileProgress { sent, total, outgoing, .. } => {
            let mut line: String = "[narco] file ".to_owned();
            if *outgoing {
                line.append("sending");
            } else {
                line.append("receiving");
            }
            line.append(" ");
            push_decimal(&mut line, *sent as u64);
            line.append("/");
            push_decimal(&mut line, *total as u64);
            Some(line)
        },
    }
}

/// Human text for a status.
pub open spec fn status_text(s: Status) -> Seq<char> {
    match s {
        Status::BootstrappingTor { percent, detail } => "Joining the Tor network… "@
            + crate::text::decimal(percent as nat) + "% — "@ + detail@,
        Status::PublishingService => "Publishing your address…"@,
        Status::WaitingForPeer => "Waiting for the other person…"@,
        Status::PeerFound => "Found them. Verifying it's really them…"@,
    }
}

/// The stage id that the UI checklist keys off.
pub open spec fn status_stage(s: Status) -> Seq<char> {
    match s {
        Status::BootstrappingTor { .. } => "tor"@,
        Status::PublishingService => "publish"@,
        Status::WaitingForPeer => "peer"@,
        Status::PeerFound => "verify"@,
    }
}

/// Human text plus the stage id the UI checklist keys off.
///
/// tor reports its own phase text ("Loading relay descriptors", …), so a stall
/// names the stage it stalled at instead of showing a bare number.
pub fn status_parts(s: Status) -> (r: (String, &'static str))
    ensures
        r.0@ == status_text(s),
        r.1@ == status_stage(s),
{
    match s {
        Status::BootstrappingTor { percent, detail } => {
            let mut text: String = "Joining the Tor network… ".to_owned();
            push_decimal(&mut text, percent as u64);
            text.append("% — ");
            text.append(detail.as_str());
            (text, "tor")
        },
        Status::PublishingService => ("Publishing your address…".to_owned(), "publish"),
        Status::WaitingForPeer => ("Waiting for the other person…".to_owned(), "peer"),
        Status::PeerFound => ("Found them. Verifying it's really them…".to_owned(), "verify"),
    }
}

/// The event for a status while connecting.
pub fn status_event(s: Status) -> (e: UiEvent)
    ensures
        e@ == (UiEventView::Status { text: status_text(s), stage: status_stage(s) }),
{
    let (text, stage) = status_parts(s);
    UiEvent::Status { text, stage: stage.to_owned() }
}

/// The event for a status while joining Tor ahead of time.
pub fn tor_progress(s: Status) -> (e: UiEvent)
    ensures
        e@ == (UiEventView::TorProgress { text: status_text(s), ready: false, failed: false }),
{
    let (text, _) = status_parts(s);
    UiEvent::TorProgress { text, ready: false, failed: false }
}

/// The event for how joining Tor came out. A failure is surfaced instead of
/// swallowed, so that the entry screen offers a way out.
pub fn tor_outcome(failure: Option<&str>) -> (e: UiEvent)
    ensures
        e@ == (match failure {
            None => UiEventView::TorProgress { text: "Tor ready"@, ready: true, failed: false },
            Some(why) => UiEventView::TorProgress { text: why@, ready: false, failed: true },
        }),
{
    match failure {
        None => UiEvent::TorProgress { text: "Tor ready".to_owned(), ready: true, failed: false },
        Some(why) => UiEvent::TorProgress { text: why.to_owned(), ready: false, failed: true },
    }
}

/// How many log lines are kept.
pub const MAX_LOG_LINES: usize = 500;

/// Recent log lines, shown in the app's Diagnostics panel.
///
/// The release build has no console (a GUI app on Windows gets no stdout), so
/// without this the user can see a failure but never the reason. Capped so it
/// cannot grow without bound.
pub struct LogBuffer {
    lines: VecDeque<String>,
}

impl View for LogBuffer {
    type V = Seq<Seq<char>>;

    closed spec fn view(&self) -> Seq<Seq<char>> {
        Seq::new(self.lines@.len(), |i: int| self.lines@[i]@)
    }
}

/// The log after one line more: without the white space at its end, if there
/// is anything left, and with the oldest line gone where the log is full.
pub open spec fn log_pushed(lines: Seq<Seq<char>>, line: Seq<char>) -> Seq<Seq<char>> {
    let kept = crate::text::trimmed_end(line);
    if kept.len() == 0 {
        lines
    } else if lines.len() >= MAX_LOG_LINES {
        lines.skip(1).push(kept)
    } else {
        lines.push(kept)
    }
}

/// The log after a text, line by line.
pub open spec fn log_written(lines: Seq<Seq<char>>, text: Seq<char>) -> Seq<Seq<char>>
    decreases text.len(),
    via log_written_decreases
{
    match crate::scan::found(text, seq!['\n']) {
        None => log_pushed(lines, text),
        Some(i) => log_written(log_pushed(lines, text.take(i)), text.skip(i + 1)),
    }
}

#[via_fn]
proof fn log_written_decreases(lines: Seq<Seq<char>>, text: Seq<char>) {
    crate::scan::lemma_found(text, seq!['\n'], 0);
}

/// The lines, one under another.
pub open spec fn lines_joined(lines: Seq<Seq<char>>) -> Seq<char>
    decreases lines.len(),
{
    if lines.len() == 0 {
        Seq::empty()
    } else if lines.len() == 1 {
        lines[0]
    } else {
        lines_joined(lines.drop_last()) + seq!['\n'] + lines.last()
    }
}

/// Everything the Diagnostics panel shows.
pub open spec fn log_shown(lines: Seq<Seq<char>>) -> Seq<char> {
    if lines.len() == 0 {
        "(no logs yet)"@
    } else {
        lines_joined(lines)
    }
}

impl LogBuffer {
    /// An empty log.
    pub fn new() -> (log: Self)
        ensures
            log@ == Seq::<Seq<char>>::empty(),
    {
        let log: LogBuffer = LogBuffer { lines: VecDeque::new() };
        assert(log@ =~= Seq::<Seq<char>>::empty());
        log
    }

    /// Add a line.
    pub fn push_log(&mut self, line: &str)
        ensures
            final(self)@ == log_pushed(old(self)@, line@),
    {
        let chars: Vec<char> = chars_of(line);
        self.push_chars(chars.as_slice());
    }

    fn push_chars(&mut self, line: &[char])
        ensures
            final(self)@ == log_pushed(old(self)@, line@),
    {
        let kept: &[char] = trim_end(line);
        if kept.len() == 0 {
            return;
        }
        let full: bool = self.lines.len() >= MAX_LOG_LINES;
        if full {
            let _ = self.lines.pop_front();
        }
        self.lines.push_back(string_of(kept));
        assert(self@ =~= log_pushed(old(self)@, line@));
    }

    /// Add a text, line by line.
    pub fn write(&mut self, text: &str)
        ensures
            final(self)@ == log_written(old(self)@, text@),
    {
        let chars: Vec<char> = chars_of(text);
        self.write_chars(chars.as_slice());
    }

    fn write_chars(&mut self, text: &[char])
        ensures
            final(self)@ == log_written(old(self)@, text@),
        decreases text@.len(),
    {
        let end: usize = text.len();
        let mut newline: Vec<char> = Vec::new();
        newline.push('\n');
        assert(newline@ =~= seq!['\n']);
        match crate::scan::find(text, newline.as_slice()) {
            None => self.push_chars(text),
            Some(i) => {
                assert(text@.subrange(0, i as int) =~= text@.take(i as int));
                assert(text@.subrange(i + 1, text@.len() as int) =~= text@.skip(i + 1));
                self.push_chars(slice_subrange(text, 0, i));
                self.write_chars(slice_subrange(text, i + 1, end))
            },
        }
    }

    /// Everything the Diagnostics panel shows. Safe to share: it carries no room
    /// code, onion address, key, or message content.
    pub fn get_logs(&self) -> (text: String)
        ensures
            text@ == log_shown(self@),
    {
        if self.lines.len() == 0 {
            return "(no logs yet)".to_owned();
        }
        let mut text: String = self.lines[0].clone();
        let mut i: usize = 1;
        assert(self@.take(1).len() == 1);
        while i < self.lines.len()
            invariant
                1 <= i <= self.lines@.len(),
                text@ == lines_joined(self@.take(i as int)),
            decreases self.lines@.len() - i,
        {
            text.push('\n');
            text.append(self.lines[i].as_str());
            i = i + 1;
            proof {
                let next = self@.take(i as int);
                assert(next.drop_last() =~= self@.take(i - 1));
                assert(text@ =~= lines_joined(next));
            }
        }
        assert(self@.take(i as int) =~= self@);
        text
    }
}

/// The log never outgrows its cap.
pub proof fn law_the_log_is_bounded(lines: Seq<Seq<char>>, line: Seq<char>)
    requires
        lines.len() <= MAX_LOG_LINES,
    ensures
        log_pushed(lines, line).len() <= MAX_LOG_LINES,
{
}

/// What is newest in the log is what was logged last; only the oldest line ever
/// goes.
pub proof fn law_only_the_oldest_line_goes(lines: Seq<Seq<char>>, line: Seq<char>, i: int)
    requires
        lines.len() <= MAX_LOG_LINES,
        crate::text::trimmed_end(line).len() > 0,
        0 < i < lines.len(),
    ensures
        log_pushed(lines, line).last() == crate::text::trimmed_end(line),
        log_pushed(lines, line).contains(lines[i]),
{
    let after = log_pushed(lines, line);
    if lines.len() >= MAX_LOG_LINES {
        assert(after[i - 1] == lines[i]);
    } else {
        assert(after[i] == lines[i]);
    }
}

/// No message, and nothing of a file but how far its transfer has come, ever
/// reaches the log: what is logged of two events that differ in nothing else is
/// the same.
pub proof fn law_content_is_never_logged(
    from: Seq<char>,
    text: Seq<char>,
    name: Seq<char>,
    other: Seq<char>,
    data: Seq<char>,
    sent: u32,
    total: u32,
    outgoing: bool,
)
    ensures
        logged(UiEventView::Message { from, text }) is None,
        logged(UiEventView::File { from, name, data }) is None,
        logged(UiEventView::FileProgress { name, sent, total, outgoing }) == logged(
            UiEventView::FileProgress { name: other, sent, total, outgoing },
        ),
{
}

/// A line is logged without the white space at its end, and a blank one not at
/// all. The 500 newest are kept, in the order in which they came.
pub proof fn law_how_a_line_is_logged(lines: Seq<Seq<char>>, line: Seq<char>)
    requires
        lines.len() <= 500,
    ensures
        crate::text::is_blank(line) ==> log_pushed(lines, line) == lines,
        crate::text::trimmed_end(line).len() > 0 ==> log_pushed(lines, line) == (if lines.len()
            < 500 {
            lines
        } else {
            lines.skip(1)
        }).push(crate::text::trimmed_end(line)),
{
    if crate::text::is_blank(line) {
        crate::text::lemma_trimmed_end_drops_blank(Seq::empty(), line);
        assert(Seq::<char>::empty() + line =~= line);
    }
}

/// A text of several lines is logged line by line.
pub proof fn law_texts_are_logged_line_by_line(
    lines: Seq<Seq<char>>,
    first: Seq<char>,
    rest: Seq<char>,
)
    requires
        !first.contains('\n'),
    ensures
        log_written(lines, first) == log_pushed(lines, first),
        log_written(lines, first + seq!['\n'] + rest) == log_written(
            log_pushed(lines, first),
            rest,
        ),
{
    let nl = seq!['\n'];
    let text = first + nl + rest;
    assert forall|j: int| 0 <= j < first.len() implies #[trigger] (first + nl + rest).subrange(
        j,
        j + nl.len(),
    ) != nl by {
        assert(text.subrange(j, j + 1)[0] == first[j]);
        assert(first.contains(first[j]));
    }
    crate::scan::law_splitting_undoes_joining(first, nl, rest);
    assert(text.take(first.len() as int) =~= first);
    assert(text.skip(first.len() as int + 1) =~= rest);
    assert forall|j: int| 0 <= j <= first.len() - nl.len() implies #[trigger] first.subrange(
        j,
        j + nl.len(),
    ) != nl by {
        assert(first.subrange(j, j + 1)[0] == first[j]);
        assert(first.contains(first[j]));
    }
    crate::scan::law_nothing_is_split_off_without_the_pattern(first, nl);
}

/// The panel shows every line that is kept, one under another, and says so
/// where there is none.
pub proof fn law_the_panel_shows_every_line(lines: Seq<Seq<char>>, line: Seq<char>)
    ensures
        log_shown(Seq::empty()) == "(no logs yet)"@,
        log_shown(seq![line]) == line,
        lines.len() > 0 ==> log_shown(lines.push(line)) == log_shown(lines) + seq!['\n'] + line,
{
    assert(lines.push(line).drop_last() =~= lines);
}

/// What is logged of an event says what happened: the stage and the text of a
/// status, why a chat ended, how joining Tor is going, whether a warning is
/// shown, and how far a transfer is, in which direction.
pub proof fn law_what_the_log_says(
    text: Seq<char>,
    stage: Seq<char>,
    name: Seq<char>,
    n: u32,
    total: u32,
    flag: bool,
    other: bool,
)
    ensures
        logged(UiEventView::Status { text, stage }) == Some(
            "[narco] status["@ + stage + "] "@ + text,
        ),
        logged(UiEventView::Ended { reason: text }) == Some("[narco] ended: "@ + text),
        logged(UiEventView::IdleWarning { seconds_left: n, active: flag }) == Some(
            "[narco] idle warning "@ + (if flag {
                "shown"@
            } else {
                "cleared"@
            }),
        ),
        logged(UiEventView::TorProgress { text, ready: flag, failed: other }) == Some(
            "[narco] tor: "@ + text + " (ready="@ + (if flag {
                "true"@
            } else {
                "false"@
            }) + " failed="@ + (if other {
                "true"@
            } else {
                "false"@
            }) + ")"@,
        ),
        logged(UiEventView::FileProgress { name, sent: n, total, outgoing: flag }) == Some(
            "[narco] file "@ + (if flag {
                "sending"@
            } else {
                "receiving"@
            }) + " "@ + crate::text::decimal(n as nat) + "/"@ + crate::text::decimal(total as nat),
        ),
        logged(UiEventView::Ready) == Some("[narco] handshake confirmed — chat live"@),
        logged(UiEventView::Reconnecting) == Some("[narco] connection lost — reconnecting"@),
        logged(UiEventView::Reconnected) == Some("[narco] reconnected"@),
{
}

/// Each status has a stage of its own, and while Tor is being joined the text
/// shows how far it is and what it is doing.
pub proof fn law_what_a_status_shows(percent: u8, detail: String)
    ensures
        status_text(Status::BootstrappingTor { percent, detail }) == "Joining the Tor network… "@
            + crate::text::decimal(percent as nat) + "% — "@ + detail@,
        status_stage(Status::BootstrappingTor { percent, detail }) == "tor"@,
        status_stage(Status::PublishingService) == "publish"@,
        status_stage(Status::WaitingForPeer) == "peer"@,
        status_stage(Status::PeerFound) == "verify"@,
        status_text(Status::PublishingService) == "Publishing your address…"@,
        status_text(Status::WaitingForPeer) == "Waiting for the other person…"@,
        status_text(Status::PeerFound) == "Found them. Verifying it's really them…"@,
{
}

} // verus!
