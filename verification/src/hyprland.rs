//! Hyprland IPC: instance-signature validation, socket paths, command texts
//! and the retry decisions of the event listener and the command sender.

use vstd::prelude::*;
use vstd::arithmetic::power2::{pow2, lemma_pow2_unfold, lemma_pow2_strictly_increases, lemma_pow2_pos, lemma2_to64};
use crate::text::{append_decimal, decimal_text, has_prefix, starts_with};

verus! {

/// The pattern that a Hyprland instance signature must match in full.
pub const INSTANCE_SIGNATURE_PATTERN: &'static str = "^[a-zA-Z0-9_-]{1,64}$";

/// A character that may appear in an instance signature: an ASCII letter,
/// an ASCII digit, an underscore or a hyphen.
pub open spec fn is_signature_char(c: char) -> bool {
    ('a' <= c && c <= 'z') || ('A' <= c && c <= 'Z') || ('0' <= c && c <= '9') || c == '_'
        || c == '-'
}

/// The text matches `INSTANCE_SIGNATURE_PATTERN` as a whole: one to 64
/// signature characters.
pub open spec fn matches_signature_pattern(s: Seq<char>) -> bool {
    &&& 1 <= s.len() <= 64
    &&& forall|i: int| 0 <= i < s.len() ==> is_signature_char(#[trigger] s[i])
}

/// What `regex::Regex::new(pattern)` followed by `is_match(haystack)` gives:
/// `None` where the pattern does not compile, else whether the haystack matches.
pub uninterp spec fn regex_match_result(pattern: Seq<char>, haystack: Seq<char>) -> Option<bool>;

/// Compiles `pattern` with `regex::Regex::new` and, where it compiles, asks
/// `regex::Regex::is_match` about `haystack`.
/// Claimed: the result is the named `regex_match_result` of both texts; and, as the
/// regex crate's syntax documentation gives it (`^` and `$` anchor at the start and
/// end of the haystack, `[..]` is a class of single characters, `{1,64}` repeats it
/// one to 64 times), the instance-signature pattern compiles and matches exactly
/// the texts of one to 64 letters, digits, underscores and hyphens.
#[verifier::external_body]
fn regex_is_match(pattern: &str, haystack: &str) -> (r: Option<bool>)
    ensures
        r == regex_match_result(pattern@, haystack@),
        pattern@ == INSTANCE_SIGNATURE_PATTERN@ ==> r == Some(
            matches_signature_pattern(haystack@),
        ),
{
    match regex::Regex::new(pattern) {
        Ok(re) => Some(re.is_match(haystack)),
        Err(_) => None,
    }
}

/// Why an instance signature was refused.
#[derive(Debug, Clone, Copy, PartialEq, Eq, Structural)]
pub enum SignatureError {
    /// The signature is the empty text.
    Empty,
    /// The signature holds a character other than a letter, a digit, `_` or `-`,
    /// or is longer than 64 characters.
    InvalidFormat,
}

/// The message that reports a refused instance signature.
pub open spec fn signature_error_text(e: SignatureError, signature: Seq<char>) -> Seq<char> {
    match e {
        SignatureError::Empty => "Invalid HYPRLAND_INSTANCE_SIGNATURE: empty signature"@,
        SignatureError::InvalidFormat => "Invalid HYPRLAND_INSTANCE_SIGNATURE: '"@ + signature
            + "' contains unsafe characters or invalid format. Must be alphanumeric with optional underscores/hyphens, 1-64 characters long."@,
    }
}

impl SignatureError {
    /// The message that reports this error for `signature`.
    pub fn message(&self, signature: &str) -> (r: String)
        ensures
            r@ == signature_error_text(*self, signature@),
    {
        match self {
            SignatureError::Empty => String::from_str(
                "Invalid HYPRLAND_INSTANCE_SIGNATURE: empty signature",
            ),
            SignatureError::InvalidFormat => {
                let mut r = String::from_str("Invalid HYPRLAND_INSTANCE_SIGNATURE: '");
                r.append(signature);
                r.append(
                    "' contains unsafe characters or invalid format. Must be alphanumeric with optional underscores/hyphens, 1-64 characters long.",
                );
                r
            },
        }
    }
}

/// Validates a Hyprland instance signature: it must be one to 64 ASCII letters,
/// digits, underscores or hyphens, so that it can stand as one path component.
pub fn validate_instance_signature(signature: &str) -> (r: Result<(), SignatureError>)
    ensures
        signature@.len() == 0 <==> r == Err::<(), SignatureError>(SignatureError::Empty),
        r is Ok <==> matches_signature_pattern(signature@),
        r == Err::<(), SignatureError>(SignatureError::InvalidFormat) <==> (signature@.len() != 0
            && !matches_signature_pattern(signature@)),
{
    if signature.is_empty() {
        return Err(SignatureError::Empty);
    }
    match regex_is_match(INSTANCE_SIGNATURE_PATTERN, signature) {
        Some(true) => Ok(()),
        Some(false) => Err(SignatureError::InvalidFormat),
        None => {
            proof {
                assert(false);
            }
            Err(SignatureError::InvalidFormat)
        },
    }
}


/// A path built by joining `component` onto `base` the way `PathBuf::push`
/// does for a relative component: a `/` goes between them unless `base` is
/// empty or already ends with `/`.
pub open spec fn join_path(base: Seq<char>, component: Seq<char>) -> Seq<char> {
    if base.len() == 0 || base.last() == '/' {
        base + component
    } else {
        base + seq!['/'] + component
    }
}

/// The path of a Hyprland socket file under the runtime directory:
/// `<runtime_dir>/hypr/<signature>/<file_name>`.
pub open spec fn socket_path_text(
    runtime_dir: Seq<char>,
    signature: Seq<char>,
    file_name: Seq<char>,
) -> Seq<char> {
    join_path(join_path(join_path(runtime_dir, "hypr"@), signature), file_name)
}

fn push_path_component(path: &mut String, component: &str)
    ensures
        final(path)@ == join_path(old(path)@, component@),
{
    let n = path.unicode_len();
    if n > 0 {
        let last = path.as_str().get_char(n - 1);
        if last != '/' {
            let sep = "/";
            proof {
                reveal_strlit("/");
            }
            path.append(sep);
        }
    }
    path.append(component);
}

fn build_socket_path(runtime_dir: &str, signature: &str, file_name: &str) -> (r: String)
    ensures
        r@ == socket_path_text(runtime_dir@, signature@, file_name@),
{
    let mut path = String::from_str(runtime_dir);
    push_path_component(&mut path, "hypr");
    push_path_component(&mut path, signature);
    push_path_component(&mut path, file_name);
    path
}

/// The default number of retries of the event listener.
pub const DEFAULT_RETRY_MAX: u32 = 10;

/// The default base delay, in milliseconds, of the event listener's back-off.
pub const DEFAULT_RETRY_BASE_DELAY_MS: u64 = 500;

/// Where a Hyprland instance listens, and how persistently to talk to it.
#[derive(Debug)]
pub struct HyprlandIPC {
    socket_path: String,
    event_socket_path: String,
    retry_max: u32,
    retry_base_delay_ms: u64,
}

/// Why an IPC client could not be configured.
#[derive(Debug, Clone, Copy, PartialEq, Eq, Structural)]
pub enum IpcConfigError {
    /// `HYPRLAND_INSTANCE_SIGNATURE` is not set.
    SignatureNotSet,
    /// The instance signature was refused.
    InvalidSignature(SignatureError),
    /// `XDG_RUNTIME_DIR` is not set.
    RuntimeDirNotSet,
}

impl IpcConfigError {
    /// The message that reports this error; `signature` is the refused
    /// instance signature, where there is one.
    pub fn message(&self, signature: &str) -> (r: String)
        ensures
            *self == IpcConfigError::SignatureNotSet ==> r@ == "HYPRLAND_INSTANCE_SIGNATURE not set"@,
            *self == IpcConfigError::RuntimeDirNotSet ==> r@ == "XDG_RUNTIME_DIR not set"@,
            *self matches IpcConfigError::InvalidSignature(e) ==> r@ == signature_error_text(e, signature@),
    {
        match self {
            IpcConfigError::SignatureNotSet => String::from_str("HYPRLAND_INSTANCE_SIGNATURE not set"),
            IpcConfigError::InvalidSignature(e) => e.message(signature),
            IpcConfigError::RuntimeDirNotSet => String::from_str("XDG_RUNTIME_DIR not set"),
        }
    }
}

impl HyprlandIPC {
    /// The command socket's path.
    pub closed spec fn spec_socket_path(&self) -> Seq<char> {
        self.socket_path@
    }

    /// The event socket's path.
    pub closed spec fn spec_event_socket_path(&self) -> Seq<char> {
        self.event_socket_path@
    }

    /// How often the event listener retries.
    pub closed spec fn spec_retry_max(&self) -> u32 {
        self.retry_max
    }

    /// The base delay of the event listener's back-off.
    pub closed spec fn spec_retry_base_delay_ms(&self) -> u64 {
        self.retry_base_delay_ms
    }

    /// Configures a client from the instance signature and the runtime
    /// directory read from the environment (`None` where a variable is not
    /// set). The signature is checked before the runtime directory is needed.
    /// The sockets are `<runtime_dir>/hypr/<signature>/.socket.sock` for
    /// commands and `.socket2.sock` beside it for events; whether they exist is
    /// for the caller to check.
    pub fn with_config(
        signature: Option<&str>,
        runtime_dir: Option<&str>,
        retry_max: u32,
        retry_base_delay_ms: u64,
    ) -> (r: Result<HyprlandIPC, IpcConfigError>)
        ensures
            signature is None ==> r == Err::<HyprlandIPC, IpcConfigError>(
                IpcConfigError::SignatureNotSet,
            ),
            signature matches Some(sig) ==> {
                &&& sig@.len() == 0 ==> r == Err::<HyprlandIPC, IpcConfigError>(
                    IpcConfigError::InvalidSignature(SignatureError::Empty),
                )
                &&& (sig@.len() != 0 && !matches_signature_pattern(sig@)) ==> r == Err::<
                    HyprlandIPC,
                    IpcConfigError,
                >(IpcConfigError::InvalidSignature(SignatureError::InvalidFormat))
                &&& (matches_signature_pattern(sig@) && runtime_dir is None) ==> r == Err::<
                    HyprlandIPC,
                    IpcConfigError,
                >(IpcConfigError::RuntimeDirNotSet)
                &&& (matches_signature_pattern(sig@) && runtime_dir is Some) ==> (r matches Ok(
                    ipc,
                ) && ipc.spec_socket_path() == socket_path_text(
                    runtime_dir->0@,
                    sig@,
                    ".socket.sock"@,
                ) && ipc.spec_event_socket_path() == socket_path_text(
                    runtime_dir->0@,
                    sig@,
                    ".socket2.sock"@,
                ) && ipc.spec_retry_max() == retry_max && ipc.spec_retry_base_delay_ms()
                    == retry_base_delay_ms)
            },
    {
        let sig = match signature {
            Some(s) => s,
            None => return Err(IpcConfigError::SignatureNotSet),
        };
        match validate_instance_signature(sig) {
            Ok(()) => {},
            Err(e) => return Err(IpcConfigError::InvalidSignature(e)),
        }
        let dir = match runtime_dir {
            Some(d) => d,
            None => return Err(IpcConfigError::RuntimeDirNotSet),
        };
        let socket_path = build_socket_path(dir, sig, ".socket.sock");
        let event_socket_path = build_socket_path(dir, sig, ".socket2.sock");
        Ok(HyprlandIPC { socket_path, event_socket_path, retry_max, retry_base_delay_ms })
    }

    /// The command socket's path.
    pub fn socket_path(&self) -> (r: &str)
        ensures
            r@ == self.spec_socket_path(),
    {
        self.socket_path.as_str()
    }

    /// The event socket's path.
    pub fn event_socket_path(&self) -> (r: &str)
        ensures
            r@ == self.spec_event_socket_path(),
    {
        self.event_socket_path.as_str()
    }

    /// A fresh retry state for the event listener, with this client's limits.
    pub fn listen_retry(&self) -> (r: ListenRetry)
        ensures
            r.retry_count == 0,
            r.max_retries == self.spec_retry_max(),
            r.base_delay_ms == self.spec_retry_base_delay_ms(),
    {
        ListenRetry::new(self.retry_max, self.retry_base_delay_ms)
    }
}

/// The command that asks for the state of all virtual desktops.
pub fn state_command() -> (r: String)
    ensures
        r@ == "j/printstate"@,
{
    String::from_str("j/printstate")
}

/// The command that asks for one virtual desktop: `printdesk <id>`.
pub fn desk_info_command(vdesk_id: u32) -> (r: String)
    ensures
        r@ == "printdesk "@ + decimal_text(vdesk_id as nat),
{
    let mut s = String::from_str("printdesk ");
    append_decimal(&mut s, vdesk_id);
    s
}

/// The command that switches to a virtual desktop: `dispatch vdesk <id>`.
pub fn switch_desk_command(vdesk_id: u32) -> (r: String)
    ensures
        r@ == "dispatch vdesk "@ + decimal_text(vdesk_id as nat),
{
    let mut s = String::from_str("dispatch vdesk ");
    append_decimal(&mut s, vdesk_id);
    s
}

/// An event line that reports a virtual desktop change: it starts with `vdesk>>`.
pub fn is_vdesk_event(line: &str) -> (r: bool)
    ensures
        r == has_prefix(line@, "vdesk>>"@),
{
    starts_with(line, "vdesk>>")
}

/// The cap, in milliseconds, of the event listener's back-off delay.
pub const MAX_DELAY_MS: u64 = 30000;

/// The back-off delay before jitter after the `retry_count`-th failure:
/// `base_delay_ms * 2^(retry_count - 1)`, capped at `MAX_DELAY_MS`.
pub open spec fn backoff_base_delay(base_delay_ms: nat, retry_count: nat) -> nat {
    let raw = base_delay_ms * pow2((retry_count - 1) as nat);
    if raw < MAX_DELAY_MS {
        raw
    } else {
        MAX_DELAY_MS as nat
    }
}

/// The back-off delay grows with each failure and never exceeds `MAX_DELAY_MS`.
pub proof fn lemma_backoff_grows_and_is_capped(base_delay_ms: nat, i: nat, j: nat)
    requires
        1 <= i <= j,
    ensures
        backoff_base_delay(base_delay_ms, i) <= backoff_base_delay(base_delay_ms, j),
        backoff_base_delay(base_delay_ms, j) <= MAX_DELAY_MS,
{
    if i < j {
        lemma_pow2_strictly_increases((i - 1) as nat, (j - 1) as nat);
        let a = pow2((i - 1) as nat);
        let b = pow2((j - 1) as nat);
        assert(base_delay_ms * a <= base_delay_ms * b) by (nonlinear_arith)
            requires
                a < b,
        ;
    }
}

/// The first retry waits the base delay (capped), and each further one waits
/// twice as long as the one before, until the cap is reached.
pub proof fn lemma_backoff_doubles(base_delay_ms: nat, n: nat)
    requires
        n >= 1,
    ensures
        backoff_base_delay(base_delay_ms, 1) == (if base_delay_ms < MAX_DELAY_MS {
            base_delay_ms
        } else {
            MAX_DELAY_MS as nat
        }),
        base_delay_ms * pow2(n as nat) < MAX_DELAY_MS ==> backoff_base_delay(base_delay_ms, n + 1)
            == 2 * backoff_base_delay(base_delay_ms, n),
        backoff_base_delay(base_delay_ms, n) == MAX_DELAY_MS ==> backoff_base_delay(
            base_delay_ms,
            n + 1,
        ) == MAX_DELAY_MS,
{
    lemma2_to64();
    assert(pow2(((1 - 1) as nat)) == 1);
    assert(base_delay_ms * pow2(((1 - 1) as nat)) == base_delay_ms);
    lemma_pow2_unfold(n);
    let a = pow2((n - 1) as nat);
    assert(base_delay_ms * pow2(n) == 2 * (base_delay_ms * a)) by (nonlinear_arith)
        requires
            pow2(n) == 2 * a,
    ;
    lemma_backoff_grows_and_is_capped(base_delay_ms, n, n + 1);
}

/// The connection errors that may pass are exactly `EAGAIN` (11),
/// `ECONNREFUSED` (111) and `EINTR` (4); a missing OS error code never passes.
pub proof fn lemma_transient_errors(os_error: Option<i32>)
    ensures
        is_transient_error(os_error) <==> (os_error == Some(11i32) || os_error == Some(111i32)
            || os_error == Some(4i32)),
        !is_transient_error(None),
{
}

/// An accepted signature is 1 to 64 characters long and holds no `/`, `.`,
/// space or other character outside letters, digits, `_` and `-`; so it is a
/// single path component that cannot climb out of the runtime directory.
pub proof fn lemma_accepted_signature_is_one_safe_component(s: Seq<char>)
    requires
        matches_signature_pattern(s),
    ensures
        1 <= s.len() <= 64,
        !s.contains('/'),
        !s.contains('.'),
        !s.contains(' '),
        !s.contains('\n'),
        forall|i: int| 0 <= i < s.len() ==> ('a' <= #[trigger] s[i] <= 'z') || ('A' <= s[i] <= 'Z')
            || ('0' <= s[i] <= '9') || s[i] == '_' || s[i] == '-',
{
}

/// Every text of 1 to 64 ASCII letters and digits is accepted, and a longer
/// or empty text is not.
pub proof fn lemma_alphanumeric_signature_accepted(s: Seq<char>)
    ensures
        (1 <= s.len() <= 64 && forall|i: int|
            0 <= i < s.len() ==> ('a' <= #[trigger] s[i] <= 'z') || ('A' <= s[i] <= 'Z') || (
            '0' <= s[i] <= '9')) ==> matches_signature_pattern(s),
        (s.len() == 0 || s.len() > 64) ==> !matches_signature_pattern(s),
{
}

/// Joining a component onto a path puts exactly one `/` between them, except
/// where the path is empty or already ends with `/`.
pub proof fn lemma_join_path_separator(base: Seq<char>, component: Seq<char>)
    ensures
        base.len() > 0 && base.last() != '/' ==> join_path(base, component) == base + seq!['/']
            + component,
        (base.len() == 0 || base.last() == '/') ==> join_path(base, component) == base + component,
        join_path(base, component).len() >= base.len() + component.len(),
        join_path(base, component).subrange(0, base.len() as int) == base,
{
    assert(join_path(base, component).subrange(0, base.len() as int) =~= base);
}

fn pow2_u64(k: u32) -> (p: u64)
    requires
        k < 64,
    ensures
        p == pow2(k as nat),
{
    let mut p: u64 = 1;
    let mut i: u32 = 0;
    proof {
        lemma2_to64();
    }
    while i < k
        invariant
            i <= k,
            k < 64,
            p == pow2(i as nat),
            pow2(64) == 0x1_0000_0000_0000_0000,
        decreases k - i,
    {
        proof {
            lemma_pow2_unfold((i + 1) as nat);
            lemma_pow2_strictly_increases((i + 1) as nat, 64);
        }
        p = p * 2;
        i = i + 1;
    }
    p
}

/// The event listener's retry state: how many attempts have failed so far.
pub struct ListenRetry {
    pub retry_count: u32,
    pub max_retries: u32,
    pub base_delay_ms: u64,
}

/// What the event listener does after a failed attempt.
#[derive(Debug, Clone, Copy, PartialEq, Eq, Structural)]
pub enum ListenStep {
    /// The retries are used up: report the error.
    GiveUp,
    /// Wait about this many milliseconds (before jitter), then try again.
    Retry(u64),
}

impl ListenRetry {
    /// A retry state before any failure.
    pub fn new(max_retries: u32, base_delay_ms: u64) -> (r: Self)
        ensures
            r.retry_count == 0,
            r.max_retries == max_retries,
            r.base_delay_ms == base_delay_ms,
    {
        ListenRetry { retry_count: 0, max_retries, base_delay_ms }
    }

    /// The next failure can be recorded without an arithmetic overflow:
    /// the count does not wrap and, where a retry follows, its delay fits in a `u64`.
    pub open spec fn next_failure_fits(&self) -> bool {
        &&& self.retry_count < u32::MAX
        &&& (self.retry_count + 1 <= self.max_retries ==> self.retry_count < 64
            && self.base_delay_ms * pow2(self.retry_count as nat) <= u64::MAX)
    }

    /// Tells whether the next failure can be recorded without an overflow.
    pub fn can_record_failure(&self) -> (r: bool)
        ensures
            r == self.next_failure_fits(),
    {
        if self.retry_count == u32::MAX {
            return false;
        }
        if self.retry_count + 1 > self.max_retries {
            return true;
        }
        if self.retry_count >= 64 {
            return false;
        }
        let p = pow2_u64(self.retry_count);
        proof {
            lemma_pow2_pos(self.retry_count as nat);
        }
        let q = u64::MAX / p;
        let b = self.base_delay_ms;
        assert(b <= q <==> b * p <= u64::MAX) by (nonlinear_arith)
            requires
                p > 0,
                q == u64::MAX / p,
        ;
        b <= q
    }

    /// Records a failed attempt and decides: give up once more than
    /// `max_retries` attempts have failed, else retry after the capped
    /// exponential back-off delay.
    pub fn on_failure(&mut self) -> (step: ListenStep)
        requires
            old(self).next_failure_fits(),
        ensures
            final(self).retry_count == old(self).retry_count + 1,
            final(self).max_retries == old(self).max_retries,
            final(self).base_delay_ms == old(self).base_delay_ms,
            final(self).retry_count > final(self).max_retries ==> step == ListenStep::GiveUp,
            final(self).retry_count <= final(self).max_retries ==> step == ListenStep::Retry(
                backoff_base_delay(
                    final(self).base_delay_ms as nat,
                    final(self).retry_count as nat,
                ) as u64,
            ),
    {
        self.retry_count = self.retry_count + 1;
        if self.retry_count > self.max_retries {
            return ListenStep::GiveUp;
        }
        let p = pow2_u64(self.retry_count - 1);
        let raw = self.base_delay_ms * p;
        let base = if raw < MAX_DELAY_MS {
            raw
        } else {
            MAX_DELAY_MS
        };
        ListenStep::Retry(base)
    }
}

/// The delay after jitter: the base delay less a quarter of it, plus `jitter`.
pub open spec fn jittered_delay(base_delay: nat, jitter: nat) -> nat {
    (base_delay - base_delay / 4 + jitter) as nat
}

/// Applies a jitter of `0 ..= 2 * (base_delay / 4)` milliseconds, so that the
/// delay lands within a quarter of the base delay either side of it.
pub fn apply_jitter(base_delay: u64, jitter: u64) -> (r: u64)
    requires
        base_delay <= MAX_DELAY_MS,
        jitter <= 2 * (base_delay / 4),
    ensures
        r == jittered_delay(base_delay as nat, jitter as nat),
        base_delay - base_delay / 4 <= r <= base_delay + base_delay / 4,
{
    let jitter_range = base_delay / 4;
    (base_delay - jitter_range) + jitter
}

/// The width of the jitter range for a base delay: twice a quarter of it, so
/// that a jitter of `0 ..= jitter_span` moves the delay by up to a quarter
/// either way.
pub fn jitter_span(base_delay: u64) -> (r: u64)
    requires
        base_delay <= MAX_DELAY_MS,
    ensures
        r == 2 * (base_delay / 4),
{
    (base_delay / 4) * 2
}

/// Draws a random `u64` with `fastrand::u64(low..=high)`.
/// Claimed: the result lies in `low ..= high` (fastrand panics only on an
/// empty range, which `requires` rules out). Which value comes is chance.
#[verifier::external_body]
fn random_u64_inclusive(low: u64, high: u64) -> (r: u64)
    requires
        low <= high,
    ensures
        low <= r <= high,
{
    fastrand::u64(low..=high)
}

/// The delay to wait before the next listening attempt: the base delay with
/// a random jitter drawn from `0 ..= jitter_span(base_delay)`, so up to a
/// quarter of the base delay either way.
pub fn retry_delay(base_delay: u64) -> (r: u64)
    requires
        base_delay <= MAX_DELAY_MS,
    ensures
        exists|jitter: nat| jitter <= 2 * (base_delay / 4) && r == jittered_delay(base_delay as nat, jitter),
        base_delay - base_delay / 4 <= r <= base_delay + base_delay / 4,
{
    let jitter = random_u64_inclusive(0, jitter_span(base_delay));
    apply_jitter(base_delay, jitter)
}

/// How many times the command sender tries to connect.
pub const CONNECT_RETRIES: u32 = 6;

/// The first delay, in milliseconds, between connection attempts.
pub const CONNECT_RETRY_BASE_MS: u64 = 50;

/// A connection error that may pass: the OS error `EAGAIN` (11),
/// `ECONNREFUSED` (111) or `EINTR` (4).
pub open spec fn is_transient_error(os_error: Option<i32>) -> bool {
    os_error == Some(11i32) || os_error == Some(111i32) || os_error == Some(4i32)
}

/// Tells whether a connection error, given by its raw OS error code, may pass.
pub fn is_transient_connect_error(os_error: Option<i32>) -> (r: bool)
    ensures
        r == is_transient_error(os_error),
{
    match os_error {
        Some(code) => code == 11 || code == 111 || code == 4,
        None => false,
    }
}

/// What the command sender does after a failed connection attempt.
#[derive(Debug, Clone, Copy, PartialEq, Eq, Structural)]
pub enum ConnectStep {
    /// Sleep this many milliseconds, then try again.
    RetryAfter(u64),
    /// Report the error.
    Fail,
}

/// Decides after the `attempt`-th failed connection attempt (counted from 1):
/// a transient error before the last attempt is retried after
/// `50 * 2^(attempt - 1)` milliseconds; any other failure is reported.
pub fn connect_failure_step(attempt: u32, os_error: Option<i32>) -> (step: ConnectStep)
    requires
        1 <= attempt <= CONNECT_RETRIES,
    ensures
        (is_transient_error(os_error) && attempt < CONNECT_RETRIES) ==> step
            == ConnectStep::RetryAfter((CONNECT_RETRY_BASE_MS * pow2((attempt - 1) as nat)) as u64),
        !(is_transient_error(os_error) && attempt < CONNECT_RETRIES) ==> step == ConnectStep::Fail,
{
    if is_transient_connect_error(os_error) && attempt < CONNECT_RETRIES {
        let p = pow2_u64(attempt - 1);
        proof {
            lemma2_to64();
            lemma_pow2_strictly_increases((attempt - 1) as nat, 5);
        }
        ConnectStep::RetryAfter(CONNECT_RETRY_BASE_MS * p)
    } else {
        ConnectStep::Fail
    }
}

} // verus!
