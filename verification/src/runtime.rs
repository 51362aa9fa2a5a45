//! Where the daemon keeps its runtime files, clock readings, subscription
//! ids and the choice of NAT uplink candidates.
use vstd::prelude::*;

use crate::decimal::{dec, push_decimal};
use vstd::string::StringExecFns;
use crate::text::{chars_of, is_ws, is_ws_exec, split_lines, starts_with, starts_with_exec, lines_of, trim_start};

verus! {

/// The operating system the daemon runs on, as far as its paths care.
#[derive(Debug, Clone, Copy, PartialEq, Eq, Structural)]
pub enum Platform {
    Linux,
    MacOs,
    Other,
}

/// `Path::join` of a relative file name onto a directory: the name alone
/// under an empty directory, else separated by exactly one `/` unless the
/// directory already ends with one.
pub open spec fn join_path(dir: Seq<char>, name: Seq<char>) -> Seq<char> {
    if dir.len() == 0 {
        name
    } else if dir.last() == '/' {
        dir + name
    } else {
        dir + seq!['/'] + name
    }
}

fn join(dir: &str, name: &str) -> (p: String)
    ensures
        p@ == join_path(dir@, name@),
{
    let cs = chars_of(dir);
    let mut out = String::new();
    out.append(dir);
    if cs.len() > 0 && cs[cs.len() - 1] != '/' {
        out.append("/");
        proof {
            reveal_strlit("/");
        }
    }
    out.append(name);
    proof {
        assert(out@ =~= join_path(dir@, name@));
    }
    out
}

/// Root of the transient files off Linux: `$TMPDIR` on macOS when set,
/// else `/tmp`.
pub open spec fn runtime_dir_text(platform: Platform, tmpdir: Option<Seq<char>>) -> Seq<char> {
    match platform {
        Platform::MacOs => match tmpdir {
            Some(t) => t,
            None => "/tmp"@,
        },
        _ => "/tmp"@,
    }
}

/// The view of an optional string.
pub open spec fn opt_string_view(o: Option<String>) -> Option<Seq<char>> {
    match o {
        Some(s) => Some(s@),
        None => None,
    }
}

/// Root directory of the transient files on platforms other than Linux.
pub fn runtime_dir(platform: Platform, tmpdir: Option<String>) -> (d: String)
    ensures
        d@ == runtime_dir_text(platform, opt_string_view(tmpdir)),
{
    match platform {
        Platform::MacOs => match tmpdir {
            Some(t) => t,
            None => "/tmp".to_owned(),
        },
        _ => "/tmp".to_owned(),
    }
}

/// A Linux location, or `name` under the runtime directory elsewhere.
pub open spec fn runtime_file(
    platform: Platform,
    tmpdir: Option<Seq<char>>,
    linux: Seq<char>,
    name: Seq<char>,
) -> Seq<char> {
    if platform == Platform::Linux {
        linux
    } else {
        join_path(runtime_dir_text(platform, tmpdir), name)
    }
}

fn runtime_file_exec(platform: Platform, tmpdir: Option<String>, linux: &str, name: &str) -> (p:
    String)
    ensures
        p@ == runtime_file(platform, opt_string_view(tmpdir), linux@, name@),
{
    if platform == Platform::Linux {
        linux.to_owned()
    } else {
        let d = runtime_dir(platform, tmpdir);
        join(d.as_str(), name)
    }
}

/// Stats file: `/run/pim.stats` on Linux, `pim.stats` under the runtime
/// directory elsewhere.
pub fn stats_path(platform: Platform, tmpdir: Option<String>) -> (p: String)
    ensures
        p@ == runtime_file(platform, opt_string_view(tmpdir), "/run/pim.stats"@, "pim.stats"@),
{
    runtime_file_exec(platform, tmpdir, "/run/pim.stats", "pim.stats")
}

/// Debug snapshot file: `/run/pim-debug.json` on Linux, `pim-debug.json`
/// under the runtime directory elsewhere.
pub fn debug_snapshot_path(platform: Platform, tmpdir: Option<String>) -> (p: String)
    ensures
        p@ == runtime_file(
            platform,
            opt_string_view(tmpdir),
            "/run/pim-debug.json"@,
            "pim-debug.json"@,
        ),
{
    runtime_file_exec(platform, tmpdir, "/run/pim-debug.json", "pim-debug.json")
}

/// PID file: `/run/pim.pid` on Linux, `pim.pid` under the runtime
/// directory elsewhere.
pub fn default_pid_file(platform: Platform, tmpdir: Option<String>) -> (p: String)
    ensures
        p@ == runtime_file(platform, opt_string_view(tmpdir), "/run/pim.pid"@, "pim.pid"@),
{
    runtime_file_exec(platform, tmpdir, "/run/pim.pid", "pim.pid")
}

/// JSON-RPC socket: the `PIM_RPC_SOCKET` override when set; on Linux
/// `pim.sock` under `$XDG_RUNTIME_DIR` when set, else `/run/pim/pim.sock`;
/// elsewhere `pim.sock` under the runtime directory.
pub fn rpc_socket_path(
    platform: Platform,
    socket_override: Option<String>,
    xdg_runtime_dir: Option<String>,
    tmpdir: Option<String>,
) -> (p: String)
    ensures
        p@ == (match socket_override {
            Some(o) => o@,
            None => if platform == Platform::Linux {
                match xdg_runtime_dir {
                    Some(x) => join_path(x@, "pim.sock"@),
                    None => "/run/pim/pim.sock"@,
                }
            } else {
                join_path(runtime_dir_text(platform, opt_string_view(tmpdir)), "pim.sock"@)
            },
        }),
{
    match socket_override {
        Some(o) => o,
        None => if platform == Platform::Linux {
            match xdg_runtime_dir {
                Some(x) => join(x.as_str(), "pim.sock"),
                None => "/run/pim/pim.sock".to_owned(),
            }
        } else {
            let d = runtime_dir(platform, tmpdir);
            join(d.as_str(), "pim.sock")
        },
    }
}

/// Configuration file used without an explicit one: `/etc/pim/pim.toml`
/// on Linux (and on macOS without `$HOME`), the Application Support
/// folder under `$HOME` on macOS, `./pim.toml` elsewhere.
pub fn default_config_path(platform: Platform, home: Option<String>) -> (p: String)
    ensures
        p@ == (match platform {
            Platform::Linux => "/etc/pim/pim.toml"@,
            Platform::MacOs => match home {
                Some(h) => join_path(h@, "Library/Application Support/pim/pim.toml"@),
                None => "/etc/pim/pim.toml"@,
            },
            Platform::Other => "./pim.toml"@,
        }),
{
    match platform {
        Platform::Linux => "/etc/pim/pim.toml".to_owned(),
        Platform::MacOs => match home {
            Some(h) => join(h.as_str(), "Library/Application Support/pim/pim.toml"),
            None => "/etc/pim/pim.toml".to_owned(),
        },
        Platform::Other => "./pim.toml".to_owned(),
    }
}

/// Whether the gateway's NAT engine exists on this platform.
pub fn gateway_supported_on_this_platform(platform: Platform) -> (b: bool)
    ensures
        b == (platform == Platform::Linux || platform == Platform::MacOs),
{
    platform == Platform::Linux || platform == Platform::MacOs
}

/// A clock reading: whole seconds and the nanoseconds past them since the
/// Unix epoch, or `None` when the clock is set before it.
#[derive(Debug, Clone, Copy, PartialEq, Eq, Structural)]
pub struct EpochReading {
    pub secs: u64,
    pub subsec_nanos: u32,
}

/// Time since the Unix epoch (`SystemTime::UNIX_EPOCH.elapsed()`).  The
/// clock is outside the program, so of the reading only what
/// `Duration::subsec_nanos` documents is stated: the fraction is below one
/// second.
#[verifier::external_body]
fn read_clock() -> (r: Option<EpochReading>)
    ensures
        r matches Some(e) ==> e.subsec_nanos < 1_000_000_000,
{
    match std::time::SystemTime::UNIX_EPOCH.elapsed() {
        Ok(d) => Some(EpochReading { secs: d.as_secs(), subsec_nanos: d.subsec_nanos() }),
        Err(_) => None,
    }
}

/// Milliseconds of a reading, as a signed count (`as_millis() as i64`),
/// zero without one.
pub open spec fn reading_millis(r: Option<EpochReading>) -> i64 {
    match r {
        Some(e) => (e.secs * 1000 + e.subsec_nanos / 1_000_000) as i64,
        None => 0,
    }
}

/// Milliseconds of a clock reading.
pub fn millis_of_reading(r: Option<EpochReading>) -> (ms: i64)
    ensures
        ms == reading_millis(r),
{
    match r {
        Some(e) => {
            let total: u128 = e.secs as u128 * 1000 + (e.subsec_nanos / 1_000_000) as u128;
            total as i64
        },
        None => 0,
    }
}

/// Whole seconds of a reading, as a signed count, zero without one.
pub open spec fn reading_seconds(r: Option<EpochReading>) -> i64 {
    match r {
        Some(e) => e.secs as i64,
        None => 0,
    }
}

/// Whole seconds of a clock reading.
pub fn seconds_of_reading(r: Option<EpochReading>) -> (s: i64)
    ensures
        s == reading_seconds(r),
{
    match r {
        Some(e) => e.secs as i64,
        None => 0,
    }
}

/// Wall-clock milliseconds since the Unix epoch (zero before it): the
/// milliseconds of whatever the clock reads.
pub fn now_ms() -> (ms: i64)
    ensures
        exists|r: Option<EpochReading>| ms == #[trigger] reading_millis(r),
{
    let r = read_clock();
    let ms = millis_of_reading(r);
    assert(ms == reading_millis(r));
    ms
}

/// Wall-clock seconds since the Unix epoch (zero before it): the whole
/// seconds of whatever the clock reads.
pub fn unix_seconds_now() -> (s: i64)
    ensures
        exists|r: Option<EpochReading>| s == #[trigger] reading_seconds(r),
{
    let r = read_clock();
    let s = seconds_of_reading(r);
    assert(s == reading_seconds(r));
    s
}

/// Allocator of JSON-RPC subscription ids: `rpc-sub-` and a counter.
pub struct SubscriptionIds {
    next: u64,
}

impl SubscriptionIds {
    /// The counter the next id is made of.
    pub closed spec fn next_number(&self) -> u64 {
        self.next
    }

    pub fn new() -> (s: SubscriptionIds)
        ensures
            s.next_number() == 0,
    {
        SubscriptionIds { next: 0 }
    }

    /// A fresh id; the counter advances, wrapping at its end.
    pub fn new_subscription_id(&mut self) -> (id: String)
        ensures
            id@ == "rpc-sub-"@ + dec(old(self).next_number() as nat),
            final(self).next_number() == (if old(self).next_number() == u64::MAX {
                0
            } else {
                old(self).next_number() + 1
            }),
    {
        let n = self.next;
        self.next = if n == u64::MAX {
            0
        } else {
            n + 1
        };
        let mut out = String::new();
        out.append("rpc-sub-");
        push_decimal(&mut out, n as u128);
        proof {
            assert(out@ =~= "rpc-sub-"@ + dec(n as nat));
        }
        out
    }
}

/// Distinct counters give distinct decimal texts.
pub proof fn lemma_dec_injective(a: nat, b: nat)
    requires
        dec(a) == dec(b),
    ensures
        a == b,
    decreases a,
{
    crate::decimal::lemma_dec_len(a);
    crate::decimal::lemma_dec_len(b);
    if a >= 10 && b >= 10 {
        assert(dec(a).drop_last() =~= dec(a / 10));
        assert(dec(b).drop_last() =~= dec(b / 10));
        assert(dec(a).drop_last() == dec(b).drop_last());
        lemma_dec_injective(a / 10, b / 10);
        assert(dec(a).last() == crate::decimal::digit_char((a % 10) as int));
        assert(dec(b).last() == crate::decimal::digit_char((b % 10) as int));
        assert((a % 10) as int + 48 == ((a % 10) as int + 48) as char as int);
        assert((b % 10) as int + 48 == ((b % 10) as int + 48) as char as int);
        assert(a % 10 == b % 10);
        assert(a == 10 * (a / 10) + a % 10) by (nonlinear_arith);
        assert(b == 10 * (b / 10) + b % 10) by (nonlinear_arith);
        assert(a == b);
    } else if a < 10 && b >= 10 {
        crate::decimal::lemma_dec_len(b / 10);
        assert(dec(b).len() >= 2);
    } else if a >= 10 && b < 10 {
        crate::decimal::lemma_dec_len(a / 10);
        assert(dec(a).len() >= 2);
    } else {
        assert(dec(a) =~= seq![crate::decimal::digit_char(a as int)]);
        assert(dec(b) =~= seq![crate::decimal::digit_char(b as int)]);
        assert(dec(a)[0] == dec(b)[0]);
        assert(dec(a)[0] == crate::decimal::digit_char(a as int));
        assert(dec(b)[0] == crate::decimal::digit_char(b as int));
        assert(crate::decimal::digit_char(a as int) == crate::decimal::digit_char(b as int));
        assert(a as int + 48 == (a as int + 48) as char as int);
        assert(b as int + 48 == (b as int + 48) as char as int);
        assert(a == b);
    }
}

/// Ids handed out for different counter values differ.
pub proof fn lemma_subscription_ids_distinct(a: u64, b: u64)
    requires
        a != b,
    ensures
        "rpc-sub-"@ + dec(a as nat) != "rpc-sub-"@ + dec(b as nat),
{
    if "rpc-sub-"@ + dec(a as nat) == "rpc-sub-"@ + dec(b as nat) {
        let p = "rpc-sub-"@;
        assert(("rpc-sub-"@ + dec(a as nat)).skip(p.len() as int) =~= dec(a as nat));
        assert(("rpc-sub-"@ + dec(b as nat)).skip(p.len() as int) =~= dec(b as nat));
        lemma_dec_injective(a as nat, b as nat);
    }
}

/// Path of the temporary file written next to a file before it is renamed
/// into place: `.{name}.tmp.{nonce}` in `parent`; `None` when the final
/// path has no file name.
pub fn tempfile_in_same_dir(parent: &str, file_name: Option<String>, nonce: u128) -> (p: Option<
    String,
>)
    ensures
        p is Some <==> file_name is Some,
        p is Some ==> p->0@ == join_path(
            parent@,
            "."@ + file_name->0@ + ".tmp."@ + dec(nonce as nat),
        ),
{
    match file_name {
        Some(stem) => {
            let mut name = String::new();
            name.append(".");
            name.append(stem.as_str());
            name.append(".tmp.");
            push_decimal(&mut name, nonce);
            proof {
                assert(name@ =~= "."@ + stem@ + ".tmp."@ + dec(nonce as nat));
            }
            Some(join(parent, name.as_str()))
        },
        None => None,
    }
}

/// Interface-name prefixes that are never NAT uplinks: tunnels, the
/// daemon's own device, Apple peer-to-peer links, bridges, container and
/// VM links, and legacy transition interfaces.
pub open spec fn excluded_prefix(name: Seq<char>) -> bool {
    ||| starts_with(name, "utun"@)
    ||| starts_with(name, "pim"@)
    ||| starts_with(name, "awdl"@)
    ||| starts_with(name, "llw"@)
    ||| starts_with(name, "anpi"@)
    ||| starts_with(name, "br-"@)
    ||| starts_with(name, "bridge"@)
    ||| starts_with(name, "docker"@)
    ||| starts_with(name, "veth"@)
    ||| starts_with(name, "vmnet"@)
    ||| starts_with(name, "tun"@)
    ||| starts_with(name, "tap"@)
    ||| starts_with(name, "gif"@)
    ||| starts_with(name, "stf"@)
}

/// Whether a network interface is plausibly a real upstream NAT egress.
pub open spec fn nat_candidate(name: Seq<char>) -> bool {
    &&& name.len() > 0
    &&& name != "lo"@
    &&& name != "lo0"@
    &&& name != "ap1"@
    &&& !excluded_prefix(name)
}

fn has_prefix(cs: &Vec<char>, p: &str) -> (b: bool)
    ensures
        b == starts_with(cs@, p@),
{
    let pc = chars_of(p);
    starts_with_exec(cs, &pc)
}

fn is_name(cs: &Vec<char>, p: &str) -> (b: bool)
    ensures
        b == (cs@ == p@),
{
    let pc = chars_of(p);
    crate::text::chars_equal(cs, &pc)
}

/// Heuristic for whether an interface name is plausibly a real upstream
/// NAT egress rather than a virtual or internal interface.
pub fn is_nat_candidate(name: &String) -> (b: bool)
    ensures
        b == nat_candidate(name@),
{
    let cs = chars_of(name.as_str());
    if cs.len() == 0 {
        return false;
    }
    if is_name(&cs, "lo") || is_name(&cs, "lo0") || is_name(&cs, "ap1") {
        return false;
    }
    if has_prefix(&cs, "utun") || has_prefix(&cs, "pim") || has_prefix(&cs, "awdl") || has_prefix(
        &cs,
        "llw",
    ) || has_prefix(&cs, "anpi") {
        return false;
    }
    if has_prefix(&cs, "br-") || has_prefix(&cs, "bridge") || has_prefix(&cs, "docker")
        || has_prefix(&cs, "veth") || has_prefix(&cs, "vmnet") || has_prefix(&cs, "tun")
        || has_prefix(&cs, "tap") {
        return false;
    }
    if has_prefix(&cs, "gif") || has_prefix(&cs, "stf") {
        return false;
    }
    true
}

/// Whether `ifconfig` output shows an IPv4 address: some line that, after
/// its leading whitespace, starts with `inet `.
pub open spec fn shows_ipv4(lines: Seq<Seq<char>>) -> bool {
    exists|i: int| 0 <= i < lines.len() && starts_with(trim_start(#[trigger] lines[i]), "inet "@)
}

proof fn lemma_trim_start_at(s: Seq<char>, k: int)
    requires
        0 <= k <= s.len(),
        forall|j: int| 0 <= j < k ==> is_ws(#[trigger] s[j]),
        k == s.len() || !is_ws(s[k]),
    ensures
        trim_start(s) == s.skip(k),
    decreases k,
{
    if k > 0 {
        assert(s.drop_first().skip(k - 1) =~= s.skip(k));
        lemma_trim_start_at(s.drop_first(), k - 1);
    } else {
        assert(s.skip(0) =~= s);
    }
}

/// Whether interface listing output shows an IPv4 address.
pub fn output_shows_ipv4(stdout: &str) -> (b: bool)
    ensures
        b == shows_ipv4(split_lines(stdout@)),
{
    let lines = lines_of(stdout);
    let key = chars_of("inet ");
    let ghost all = split_lines(stdout@);
    let mut i: usize = 0;
    while i < lines.len()
        invariant
            i <= lines@.len(),
            all == split_lines(stdout@),
            lines@.len() == all.len(),
            forall|k: int| 0 <= k < lines@.len() ==> #[trigger] lines@[k]@ == all[k],
            key@ == "inet "@,
            forall|k: int| 0 <= k < i ==> !starts_with(trim_start(#[trigger] all[k]), "inet "@),
        decreases lines@.len() - i,
    {
        let l = &lines[i];
        let mut a: usize = 0;
        while a < l.len() && is_ws_exec(l[a])
            invariant
                a <= l@.len(),
                forall|j: int| 0 <= j < a ==> is_ws(#[trigger] l@[j]),
            decreases l@.len() - a,
        {
            a = a + 1;
        }
        let rest = crate::text::skip_chars(l, a);
        proof {
            lemma_trim_start_at(l@, a as int);
        }
        if starts_with_exec(&rest, &key) {
            return true;
        }
        i = i + 1;
    }
    false
}

} // verus!
