use vstd::prelude::*;
use vstd::string::*;

verus! {

/// How log lines are decorated.
#[derive(Debug, Clone, Copy, PartialEq, Eq, Structural)]
pub struct LoggingConfig {
    pub color: bool,
    pub threads: bool,
    pub timestamp: bool,
}

impl LoggingConfig {
    /// The decoration chosen by the logging section of the configuration.
    pub fn new(color: bool, threads: bool, timestamp: bool) -> (r: LoggingConfig)
        ensures
            r == (LoggingConfig { color, threads, timestamp }),
    {
        LoggingConfig { color, threads, timestamp }
    }
}

/// The shutdown request: the flag the accept loop and the ticker poll, and the
/// interrupt that wakes every task waiting on it.
#[derive(Debug, Clone, Copy, PartialEq, Eq, Structural)]
pub struct StopSignal {
    pub should_stop: bool,
    pub interrupted: bool,
}

impl StopSignal {
    /// A server that keeps running.
    pub fn new() -> (r: StopSignal)
        ensures
            !r.should_stop,
            !r.interrupted,
    {
        StopSignal { should_stop: false, interrupted: false }
    }
}

/// Asks the server to stop: raises the flag and fires the interrupt.
pub fn stop_server(signal: &mut StopSignal)
    ensures
        final(signal).should_stop,
        final(signal).interrupted,
{
    signal.should_stop = true;
    signal.interrupted = true;
}

/// What a client address becomes in the log when addresses are scrubbed.
pub open spec fn scrub_char(c: char) -> char {
    if c == '.' || c == ':' {
        c
    } else {
        'x'
    }
}

/// An address with every character but `.` and `:` replaced by `x`.
pub open spec fn scrubbed(ip: Seq<char>) -> Seq<char> {
    ip.map_values(|c: char| scrub_char(c))
}

/// Scrubbing keeps the length and the separators, and scrubbing a scrubbed address
/// changes nothing.
pub proof fn lemma_scrub_idempotent(ip: Seq<char>)
    ensures
        scrubbed(ip).len() == ip.len(),
        forall|i: int| 0 <= i < ip.len() && (ip[i] == '.' || ip[i] == ':') ==> #[trigger] scrubbed(ip)[i] == ip[i],
        scrubbed(scrubbed(ip)) == scrubbed(ip),
{
    assert(scrubbed(scrubbed(ip)) =~= scrubbed(ip));
}

/// Hides an address: keeps its separators and replaces every other character by `x`.
pub fn scrub_address(ip: &str) -> (r: String)
    ensures
        r@ == scrubbed(ip@),
{
    let n = ip.unicode_len();
    let mut out = String::new();
    let mut i: usize = 0;
    while i < n
        invariant
            n == ip@.len(),
            i <= n,
            out@ == scrubbed(ip@.take(i as int)),
        decreases n - i,
    {
        let c = ip.get_char(i);
        proof {
            reveal_strlit(".");
            reveal_strlit(":");
            reveal_strlit("x");
        }
        if c == '.' {
            out.append(".");
        } else if c == ':' {
            out.append(":");
        } else {
            out.append("x");
        }
        assert(ip@.take(i + 1) =~= ip@.take(i as int).push(c));
        assert(scrubbed(ip@.take(i + 1)) =~= scrubbed(ip@.take(i as int)).push(scrub_char(c)));
        i = i + 1;
    }
    assert(ip@.take(n as int) =~= ip@);
    out
}

/// The address as the connection log shows it: scrubbed when the configuration asks
/// for it, as given otherwise.
pub fn format_client_address(address: &str, scrub_ips: bool) -> (r: String)
    ensures
        r@ == (if scrub_ips {
            scrubbed(address@)
        } else {
            address@
        }),
{
    if scrub_ips {
        scrub_address(address)
    } else {
        address.to_owned()
    }
}

/// One id hand-out: the id given and the counter after it.
pub open spec fn spec_next_client_id(counter: u64) -> (u64, u64) {
    (counter, (counter + 1) as u64)
}

/// Hands out the id of a new client connection and advances the counter.
pub fn next_client_id(counter: &mut u64) -> (r: u64)
    requires
        *old(counter) < u64::MAX,
    ensures
        r == *old(counter),
        *final(counter) == *old(counter) + 1,
        (r, *final(counter)) == spec_next_client_id(*old(counter)),
{
    let id = *counter;
    *counter = *counter + 1;
    id
}

/// The ids that `n` successive hand-outs give from counter `start`, and the counter
/// after them.
pub open spec fn client_ids_from(start: u64, n: nat) -> (Seq<u64>, u64)
    decreases n,
{
    if n == 0 {
        (Seq::empty(), start)
    } else {
        let (ids, c) = client_ids_from(start, (n - 1) as nat);
        let (id, next) = spec_next_client_id(c);
        (ids.push(id), next)
    }
}

/// Successive hand-outs sharing one counter give the ids `start`, `start + 1`, ... in
/// turn: each one above the one before, none given twice, and the counter ends `n`
/// further on.
pub proof fn lemma_client_ids_distinct(start: u64, n: nat)
    requires
        start + n <= u64::MAX,
    ensures
        client_ids_from(start, n).0.len() == n,
        client_ids_from(start, n).1 == start + n,
        forall|i: int| 0 <= i < n ==> #[trigger] client_ids_from(start, n).0[i] == start + i,
        forall|i: int, j: int| 0 <= i < j < n ==> #[trigger] client_ids_from(start, n).0[i] < #[trigger] client_ids_from(
            start,
            n,
        ).0[j],
    decreases n,
{
    if n > 0 {
        lemma_client_ids_distinct(start, (n - 1) as nat);
        let prev = client_ids_from(start, (n - 1) as nat).0;
        let ids = client_ids_from(start, n).0;
        assert(ids == prev.push((start + n - 1) as u64));
        assert forall|i: int| 0 <= i < n implies #[trigger] ids[i] == start + i by {
            if i < n - 1 {
                assert(ids[i] == prev[i]);
            }
        }
    }
}

/// What a datagram on the Bedrock socket is, by its first byte.
#[derive(Debug, Clone, Copy, PartialEq, Eq, Structural)]
pub enum UdpPacketKind {
    /// Nothing was received.
    Empty,
    /// A packet of an established (or establishing) connection: the high bit of the id is set.
    Online,
    /// An unconnected packet, with its id; its payload starts at byte 1.
    Offline(u8),
}

/// Sorts the first `len` bytes of `buf`, as received from the socket.
pub fn classify_udp_packet(buf: &[u8], len: usize) -> (r: UdpPacketKind)
    requires
        len <= buf@.len(),
    ensures
        r == (if len == 0 {
            UdpPacketKind::Empty
        } else if buf@[0] >= 128 {
            UdpPacketKind::Online
        } else {
            UdpPacketKind::Offline(buf@[0])
        }),
{
    if len == 0 {
        return UdpPacketKind::Empty;
    }
    let id = buf[0];
    let is_online = id & 128 != 0;
    assert((id & 128u8 != 0) == (id >= 128)) by (bit_vector);
    if is_online {
        UdpPacketKind::Online
    } else {
        UdpPacketKind::Offline(id)
    }
}

/// What to do with an online packet.
#[derive(Debug, Clone, Copy, PartialEq, Eq, Structural)]
pub enum OnlineAction {
    /// Hand bytes `0..len` to the known client of that address.
    Process,
    /// Try to read a connection request from bytes `4..len` and, if it is one,
    /// open a client for the address under a new id.
    TryConnect,
}

/// Routes an online packet of `len` bytes: to the client of its address when there is
/// one, else to the connection handshake, which skips the 4-byte header.
pub fn online_action(known_client: bool, len: usize) -> (r: OnlineAction)
    requires
        known_client || len >= 4,
    ensures
        r == (if known_client {
            OnlineAction::Process
        } else {
            OnlineAction::TryConnect
        }),
{
    if known_client {
        OnlineAction::Process
    } else {
        OnlineAction::TryConnect
    }
}

/// How the server console reads commands.
#[derive(Debug, Clone, Copy, PartialEq, Eq, Structural)]
pub enum ConsoleMode {
    /// No console.
    Off,
    /// A line editor on the terminal.
    Readline,
    /// Plain lines from standard input; `warn_not_tty` when a terminal was asked for.
    Stdin { warn_not_tty: bool },
}

/// Which listeners and background tasks the server starts.
#[derive(Debug, Clone, Copy, PartialEq, Eq, Structural)]
pub struct StartupPlan {
    pub console: ConsoleMode,
    /// Start RCON (with a warning that it is insecure).
    pub rcon: bool,
    /// Bind the Java Edition TCP listener.
    pub java_listener: bool,
    /// Start the query handler (only with the Java listener).
    pub query: bool,
    /// Start the LAN broadcast (only with the Java listener).
    pub lan_broadcast: bool,
    /// Bind the Bedrock Edition UDP socket.
    pub bedrock_socket: bool,
}

/// The settings that decide what the server starts.
#[derive(Debug, Clone, Copy, PartialEq, Eq, Structural)]
pub struct StartupFlags {
    pub use_console: bool,
    /// A logger was installed.
    pub logger_present: bool,
    /// The logger holds a line editor.
    pub readline_available: bool,
    pub use_tty: bool,
    pub rcon_enabled: bool,
    pub java_edition: bool,
    pub query_enabled: bool,
    pub lan_broadcast_enabled: bool,
    pub bedrock_edition: bool,
}

/// The console mode the flags call for.
pub open spec fn spec_console_mode(f: StartupFlags) -> ConsoleMode {
    if f.use_console && f.logger_present {
        if f.readline_available {
            ConsoleMode::Readline
        } else {
            ConsoleMode::Stdin { warn_not_tty: f.use_tty }
        }
    } else {
        ConsoleMode::Off
    }
}

/// Decides what a new server starts from its settings.
pub fn startup_plan(f: StartupFlags) -> (r: StartupPlan)
    ensures
        r.console == spec_console_mode(f),
        r.rcon == f.rcon_enabled,
        r.java_listener == f.java_edition,
        r.query == (f.java_edition && f.query_enabled),
        r.lan_broadcast == (f.java_edition && f.lan_broadcast_enabled),
        r.bedrock_socket == f.bedrock_edition,
{
    let console = if f.use_console && f.logger_present {
        if f.readline_available {
            ConsoleMode::Readline
        } else {
            ConsoleMode::Stdin { warn_not_tty: f.use_tty }
        }
    } else {
        ConsoleMode::Off
    };
    StartupPlan {
        console,
        rcon: f.rcon_enabled,
        java_listener: f.java_edition,
        query: f.java_edition && f.query_enabled,
        lan_broadcast: f.java_edition && f.lan_broadcast_enabled,
        bedrock_socket: f.bedrock_edition,
    }
}

/// What the line editor returned.
#[derive(Debug, Clone, Copy, PartialEq, Eq, Structural)]
pub enum ConsoleEvent {
    /// A line was read.
    Line,
    /// Ctrl-C.
    Interrupted,
    /// Ctrl-D.
    Eof,
    /// Any other error of the editor.
    Failed,
}

/// What the console reader does next.
#[derive(Debug, Clone, Copy, PartialEq, Eq, Structural)]
pub enum ConsoleAction {
    /// Record the line in the history and hand it to the command task.
    Submit,
    /// Stop the server and the reader.
    StopServer,
    /// Stop the reader only, logging the error.
    Quit,
}

/// The console reader's reaction to what the editor returned.
pub fn console_action(event: ConsoleEvent) -> (r: ConsoleAction)
    ensures
        r == (match event {
            ConsoleEvent::Line => ConsoleAction::Submit,
            ConsoleEvent::Interrupted => ConsoleAction::StopServer,
            ConsoleEvent::Eof => ConsoleAction::StopServer,
            ConsoleEvent::Failed => ConsoleAction::Quit,
        }),
{
    match event {
        ConsoleEvent::Line => ConsoleAction::Submit,
        ConsoleEvent::Interrupted => ConsoleAction::StopServer,
        ConsoleEvent::Eof => ConsoleAction::StopServer,
        ConsoleEvent::Failed => ConsoleAction::Quit,
    }
}

/// Whether `c` has the Unicode White_Space property.
pub open spec fn is_white_space(c: char) -> bool {
    ||| '\u{9}' <= c <= '\u{d}'
    ||| c == ' '
    ||| c == '\u{85}'
    ||| c == '\u{a0}'
    ||| c == '\u{1680}'
    ||| '\u{2000}' <= c <= '\u{200a}'
    ||| c == '\u{2028}'
    ||| c == '\u{2029}'
    ||| c == '\u{202f}'
    ||| c == '\u{205f}'
    ||| c == '\u{3000}'
}

/// `s` without its leading white space.
pub open spec fn trim_start_spec(s: Seq<char>) -> Seq<char>
    decreases s.len(),
{
    if s.len() > 0 && is_white_space(s[0]) {
        trim_start_spec(s.drop_first())
    } else {
        s
    }
}

/// `s` without its trailing white space.
pub open spec fn trim_end_spec(s: Seq<char>) -> Seq<char>
    decreases s.len(),
{
    if s.len() > 0 && is_white_space(s.last()) {
        trim_end_spec(s.drop_last())
    } else {
        s
    }
}

/// `s` without its leading and trailing white space.
pub open spec fn spec_trim(s: Seq<char>) -> Seq<char> {
    trim_end_spec(trim_start_spec(s))
}

/// The text without leading and trailing white space, by `str::trim`, which removes the
/// characters with the Unicode White_Space property from both ends.
#[verifier::external_body]
fn trim(s: &str) -> (r: &str)
    ensures
        r@ == spec_trim(s@),
{
    s.trim()
}

/// What the stdin reader does with one `read_line` result.
#[derive(Debug, Clone, PartialEq, Eq)]
pub enum StdinAction {
    /// End of input or a read error: stop reading.
    Stop,
    /// Send `command`, the line without surrounding white space, to the command task;
    /// `warn_unterminated` when the line did not end in a newline.
    Send { warn_unterminated: bool, command: String },
}

/// The stdin reader's reaction to a read of `size` bytes that left `line` in the buffer
/// (`None` for a read error): stop at the end of input or on an error, else send the
/// trimmed line.
pub fn stdin_action(size: Option<usize>, line: &str) -> (r: StdinAction)
    ensures
        match size {
            None => r is Stop,
            Some(n) => if n == 0 {
                r is Stop
            } else {
                r matches StdinAction::Send { warn_unterminated, command } && warn_unterminated == (line@.len() == 0
                    || line@.last() != '\n') && command@ == spec_trim(line@)
            },
        },
{
    match size {
        None => StdinAction::Stop,
        Some(n) => {
            if n == 0 {
                StdinAction::Stop
            } else {
                let len = line.unicode_len();
                let warn = len == 0 || line.get_char(len - 1) != '\n';
                let command = trim(line).to_owned();
                StdinAction::Send { warn_unterminated: warn, command }
            }
        },
    }
}

/// The server tick loop's timing decisions.
#[derive(Debug, Clone, Copy, PartialEq, Eq, Structural)]
pub struct Ticker;

impl Ticker {
    /// How long a tick should last: nothing while sprinting, else the configured
    /// length (a negative length reads as its two's-complement `u64`).
    pub fn tick_interval_nanos(is_sprinting: bool, nanoseconds_per_tick: i64) -> (r: u64)
        ensures
            r == (if is_sprinting {
                0u64
            } else {
                nanoseconds_per_tick as u64
            }),
    {
        if is_sprinting {
            0
        } else {
            nanoseconds_per_tick as u64
        }
    }

    /// How long to sleep after a tick that took `elapsed` of an interval of
    /// `tick_interval`: the rest of the interval, or no sleep when none is left.
    pub fn sleep_nanos(tick_interval: u64, elapsed: u128) -> (r: Option<u64>)
        ensures
            r == (if elapsed < tick_interval as u128 {
                Some((tick_interval - elapsed) as u64)
            } else {
                None
            }),
    {
        if elapsed < tick_interval as u128 {
            Some((tick_interval as u128 - elapsed) as u64)
        } else {
            None
        }
    }

    /// The tick time recorded for a tick that took `elapsed` nanoseconds (truncated to `i64`).
    pub fn recorded_tick_nanos(elapsed: u128) -> (r: i64)
        ensures
            r == elapsed as i64,
    {
        elapsed as i64
    }

    /// Whether the loop runs another tick.
    pub fn keeps_running(signal: &StopSignal) -> (r: bool)
        ensures
            r == !signal.should_stop,
    {
        !signal.should_stop
    }
}

} // verus!
