//! The command line: the three subcommands, their arguments, and the checks
//! that an argument set passes before a subcommand runs.
use vstd::prelude::*;

use crate::text::{chars_of, push_lit, push_signed_dec, signed_dec, string_of, trim, trim_bounds, unicode_lowercase};

verus! {

/// The whole command line: the verbosity count (`-v`, `-vv`, ...) and the
/// subcommand.
pub struct Cli {
    pub verbose: u8,
    pub command: Commands,
}

/// The three subcommands.
pub enum Commands {
    /// Live capture.
    Capture(CaptureArgs),
    /// Offline analysis of a pcap/pcapng file.
    Analyze(AnalyzeArgs),
    /// Traffic statistics.
    Stats(StatsArgs),
}

/// Arguments of `capture`.
pub struct CaptureArgs {
    /// Interface to listen on (`any` by default).
    pub interface: String,
    /// Number of packets after which capture stops.
    pub count: Option<u64>,
    /// BPF filter expression.
    pub filter: Option<String>,
    /// pcap file to write the packets to.
    pub output: Option<String>,
    /// Snapshot length in bytes, 1–65535.
    pub snaplen: i32,
    /// Read timeout in milliseconds, 1–3600000.
    pub timeout: i32,
    /// Print every protocol field.
    pub show_details: bool,
    /// Add a hexadecimal dump of each packet.
    pub hex: bool,
    /// Print one JSON object per packet.
    pub json: bool,
}

/// Arguments of `analyze`.
pub struct AnalyzeArgs {
    /// The pcap/pcapng file.
    pub file: String,
    /// Print every protocol field.
    pub verbose_output: bool,
    /// Add a hexadecimal dump of each packet.
    pub hex: bool,
    /// Print one JSON object per packet.
    pub json_output: bool,
    /// Follow TCP streams and count HTTP requests.
    pub follow_http: bool,
    /// Report TLS ClientHello messages.
    pub tls: bool,
    /// Report DHCP messages.
    pub dhcp: bool,
    /// Write each HTTP stream to a file.
    pub export: bool,
}

/// Arguments of `stats`.
pub struct StatsArgs {
    /// Interface for live statistics.
    pub interface: Option<String>,
    /// pcap file for offline statistics.
    pub file: Option<String>,
    /// Number of sessions in the ranking, 1–1000.
    pub top_n: usize,
    /// Report interval in seconds, 1–3600.
    pub interval: u64,
}

/// The message for a value outside `[min, max]`.
pub open spec fn range_message(label: Seq<char>, value: int, min: int, max: int) -> Seq<char> {
    label + " 值 "@ + signed_dec(value) + " 不在合法范围 ["@ + signed_dec(min) + ", "@ + signed_dec(max)
        + "] 内"@
}

/// Checks that `value` lies in `[min, max]`; the error names `label`.
pub fn validate_range(value: i64, min: i64, max: i64, label: &str) -> (r: Result<(), String>)
    ensures
        r is Ok <==> min <= value <= max,
        r matches Err(m) ==> m@ == range_message(label@, value as int, min as int, max as int),
{
    if value < min || value > max {
        let mut m = string_of(label);
        push_lit(&mut m, " 值 ");
        push_signed_dec(&mut m, value);
        push_lit(&mut m, " 不在合法范围 [");
        push_signed_dec(&mut m, min);
        push_lit(&mut m, ", ");
        push_signed_dec(&mut m, max);
        push_lit(&mut m, "] 内");
        Err(m)
    } else {
        Ok(())
    }
}

/// The message when neither of two alternative options is given.
pub open spec fn one_of_message(a: Seq<char>, b: Seq<char>) -> Seq<char> {
    "必须指定 "@ + a + " 或 "@ + b + " 中的一个"@
}

/// Checks that at least one of two alternative options is given; the error
/// names both.
pub fn require_one_of<T>(a: &Option<T>, b: &Option<T>, labels: (&str, &str)) -> (r: Result<(), String>)
    ensures
        r is Ok <==> (a is Some || b is Some),
        r matches Err(m) ==> m@ == one_of_message(labels.0@, labels.1@),
{
    if a.is_none() && b.is_none() {
        let mut m = string_of("必须指定 ");
        push_lit(&mut m, labels.0);
        push_lit(&mut m, " 或 ");
        push_lit(&mut m, labels.1);
        push_lit(&mut m, " 中的一个");
        Err(m)
    } else {
        Ok(())
    }
}

/// The first error of a capture argument set, or `None` when it is valid:
/// snapshot length, then timeout, then a zero packet count.
pub open spec fn capture_error(snaplen: int, timeout: int, count: Option<u64>) -> Option<Seq<char>> {
    if !(1 <= snaplen <= 65535) {
        Some(range_message("快照长度"@, snaplen, 1, 65535))
    } else if !(1 <= timeout <= 3_600_000) {
        Some(range_message("超时时间"@, timeout, 1, 3_600_000))
    } else if count == Some(0u64) {
        Some("包数限制必须大于 0"@)
    } else {
        None
    }
}

impl CaptureArgs {
    /// Checks the snapshot length (1–65535), the timeout (1–3600000 ms) and
    /// that a packet count, when given, is above zero.
    pub fn validate(&self) -> (r: Result<(), String>)
        ensures
            r is Ok <==> capture_error(self.snaplen as int, self.timeout as int, self.count) is None,
            r matches Err(m) ==> Some(m@) == capture_error(self.snaplen as int, self.timeout as int, self.count),
    {
        if let Err(m) = validate_range(self.snaplen as i64, 1, 65535, "快照长度") {
            return Err(m);
        }
        if let Err(m) = validate_range(self.timeout as i64, 1, 3_600_000, "超时时间") {
            return Err(m);
        }
        if let Some(c) = self.count {
            if c == 0 {
                return Err(string_of("包数限制必须大于 0"));
            }
        }
        Ok(())
    }
}

/// Whether `s` ends with `suffix`.
pub open spec fn ends_with(s: Seq<char>, suffix: Seq<char>) -> bool {
    s.len() >= suffix.len() && s.subrange(s.len() - suffix.len(), s.len() as int) == suffix
}

/// Whether a file name, lowercased, names a pcap or pcapng file.
pub open spec fn capture_file_name(name: Seq<char>) -> bool {
    let lower = unicode_lowercase(name);
    ends_with(lower, ".pcap"@) || ends_with(lower, ".pcapng"@)
}

/// How many of the exclusive analysis modes are asked for.
pub open spec fn mode_count(follow_http: bool, tls: bool, dhcp: bool) -> int {
    (if follow_http { 1int } else { 0int }) + (if tls { 1int } else { 0int }) + (if dhcp { 1int } else { 0int })
}

/// The message for an unsupported file name.
pub open spec fn format_message(file: Seq<char>) -> Seq<char> {
    "不支持的文件格式 '"@ + file + "'，仅支持 .pcap 或 .pcapng"@
}

/// The first error of an analysis argument set, or `None` when it is valid.
pub open spec fn analyze_error(file: Seq<char>, follow_http: bool, tls: bool, dhcp: bool) -> Option<Seq<char>> {
    if trim(file).len() == 0 {
        Some("文件路径不能为空"@)
    } else if !capture_file_name(file) {
        Some(format_message(file))
    } else if mode_count(follow_http, tls, dhcp) > 1 {
        Some("--follow-http、--tls、--dhcp 互斥，同时只能启用一个"@)
    } else {
        None
    }
}

/// Whether `chars` ends with the characters of `suffix`.
fn chars_end_with(chars: &[char], suffix: &str) -> (r: bool)
    ensures
        r == ends_with(chars@, suffix@),
{
    let tail = chars_of(suffix);
    if tail.len() > chars.len() {
        return false;
    }
    let offset = chars.len() - tail.len();
    let mut i: usize = 0;
    while i < tail.len()
        invariant
            i <= tail@.len(),
            offset + tail.len() == chars.len(),
            tail.len() == tail@.len(),
            tail@ == suffix@,
            forall|k: int| 0 <= k < i ==> chars@[offset + k] == tail@[k],
        decreases tail@.len() - i,
    {
        if chars[offset + i] != tail[i] {
            assert(chars@.subrange(offset as int, chars@.len() as int)[i as int] != suffix@[i as int]);
            return false;
        }
        i = i + 1;
    }
    assert(chars@.subrange(offset as int, chars@.len() as int) =~= suffix@);
    true
}

impl AnalyzeArgs {
    /// Checks that the file name is not blank, that it ends (in any case)
    /// with `.pcap` or `.pcapng`, and that at most one of `--follow-http`,
    /// `--tls` and `--dhcp` is given (they select exclusive modes).
    pub fn validate(&self) -> (r: Result<(), String>)
        ensures
            r is Ok <==> analyze_error(self.file@, self.follow_http, self.tls, self.dhcp) is None,
            r matches Err(m) ==> Some(m@) == analyze_error(self.file@, self.follow_http, self.tls, self.dhcp),
    {
        let chars = chars_of(self.file.as_str());
        let (a, b) = trim_bounds(chars.as_slice(), 0, chars.len());
        assert(chars@.subrange(0, chars@.len() as int) =~= self.file@);
        if a == b {
            return Err(string_of("文件路径不能为空"));
        }
        let lower = self.file.as_str().to_lowercase();
        let lower_chars = chars_of(lower.as_str());
        if !chars_end_with(lower_chars.as_slice(), ".pcap") && !chars_end_with(lower_chars.as_slice(), ".pcapng") {
            let mut m = string_of("不支持的文件格式 '");
            push_lit(&mut m, self.file.as_str());
            push_lit(&mut m, "'，仅支持 .pcap 或 .pcapng");
            return Err(m);
        }
        let modes: u8 = (if self.follow_http { 1u8 } else { 0u8 }) + (if self.tls { 1u8 } else { 0u8 }) + (if self.dhcp {
            1u8
        } else {
            0u8
        });
        if modes > 1 {
            return Err(string_of("--follow-http、--tls、--dhcp 互斥，同时只能启用一个"));
        }
        Ok(())
    }
}

/// The first error of a statistics argument set, or `None` when it is valid.
pub open spec fn stats_error(interface: bool, file: bool, top_n: int, interval: int) -> Option<Seq<char>> {
    if !interface && !file {
        Some(one_of_message("--interface"@, "--file"@))
    } else if interface && file {
        Some("--interface 与 --file 互斥，只能指定其中一个"@)
    } else if !(1 <= top_n <= 1000) {
        Some(range_message("Top N"@, top_n, 1, 1000))
    } else if !(1 <= interval <= 3600) {
        Some(range_message("统计间隔"@, interval, 1, 3600))
    } else {
        None
    }
}

impl StatsArgs {
    /// Checks that exactly one of the interface and the file is given (they
    /// are exclusive), the ranking size (1–1000) and the interval (1–3600 s).
    pub fn validate(&self) -> (r: Result<(), String>)
        ensures
            r is Ok <==> stats_error(self.interface is Some, self.file is Some, self.top_n as i64 as int, self.interval as i64 as int) is None,
            r matches Err(m) ==> Some(m@) == stats_error(
                self.interface is Some,
                self.file is Some,
                self.top_n as i64 as int,
                self.interval as i64 as int,
            ),
    {
        if let Err(m) = require_one_of(&self.interface, &self.file, ("--interface", "--file")) {
            return Err(m);
        }
        if self.interface.is_some() && self.file.is_some() {
            return Err(string_of("--interface 与 --file 互斥，只能指定其中一个"));
        }
        if let Err(m) = validate_range(self.top_n as i64, 1, 1000, "Top N") {
            return Err(m);
        }
        validate_range(self.interval as i64, 1, 3600, "统计间隔")
    }
}

/// The log level for a verbosity count.
pub open spec fn level_for(verbose: u8) -> Seq<char> {
    if verbose == 0 {
        "info"@
    } else if verbose == 1 {
        "debug"@
    } else {
        "trace"@
    }
}

/// Maps the `-v` count to a log level: none is `info`, one is `debug`, two
/// or more is `trace`.
pub fn verbosity_to_level(verbose: u8) -> (r: &'static str)
    ensures
        r@ == level_for(verbose),
{
    match verbose {
        0 => "info",
        1 => "debug",
        _ => "trace",
    }
}

} // verus!
