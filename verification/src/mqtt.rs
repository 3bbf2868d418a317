//! Broker-side logic: publish planning, the supervisor's and poll loop's
//! decisions, payload extraction, and the relay display line.
//!
//! The long-lived broker session itself is asynchronous transport and
//! lives outside the library; what stands here is every decision those
//! loops make, as pure functions from state and event to the next action.

use vstd::prelude::*;

verus! {

use vstd::string::StrSliceExecFns;
use vstd::string::StringExecFns;
use crate::codec::{dec_digits, spec_encode, spec_decode, encode_commit, decode_commit,
    push_u64_decimal};
use crate::commit::{CommitInfo, CommitView};
use crate::config::{Config, spec_topic, spec_alias, mappings_view, opt_str_view};
use crate::errors::GitFriendsError;
use crate::strutil::{push_str_chars, string_from_chars};

/// Whitespace as the host language's trim understands it.
pub open spec fn is_ws(c: char) -> bool {
    c == ' ' || c == '\t' || c == '\n' || c == '\r' || (c as u32) == 11 || (c as u32) == 12 || (
    c as u32) == 133 || (c as u32) == 160 || (c as u32) == 5760 || (8192 <= (c as u32) <= 8202) || (
    c as u32) == 8232 || (c as u32) == 8233 || (c as u32) == 8239 || (c as u32) == 8287 || (
    c as u32) == 12288
}

/// The message up to, and not including, its first line break.
pub open spec fn take_until_nl(m: Seq<char>) -> Seq<char>
    decreases m.len(),
{
    if m.len() == 0 {
        Seq::empty()
    } else if m[0] == '\n' {
        Seq::empty()
    } else {
        seq![m[0]] + take_until_nl(m.drop_first())
    }
}

pub open spec fn drop_leading_ws(s: Seq<char>) -> Seq<char>
    decreases s.len(),
{
    if s.len() > 0 && is_ws(s[0]) {
        drop_leading_ws(s.drop_first())
    } else {
        s
    }
}

pub open spec fn drop_trailing_ws(s: Seq<char>) -> Seq<char>
    decreases s.len(),
{
    if s.len() > 0 && is_ws(s.last()) {
        drop_trailing_ws(s.drop_last())
    } else {
        s
    }
}

pub open spec fn spec_trim(s: Seq<char>) -> Seq<char> {
    drop_trailing_ws(drop_leading_ws(s))
}

/// The first line of a message, trimmed of surrounding whitespace.
pub open spec fn spec_first_line(m: Seq<char>) -> Seq<char> {
    spec_trim(take_until_nl(m))
}

/// What follows the last `/` of a URL; the URL itself when it has none.
pub open spec fn spec_basename(s: Seq<char>) -> Seq<char>
    decreases s.len(),
{
    if s.len() == 0 {
        Seq::empty()
    } else if s.last() == '/' {
        Seq::empty()
    } else {
        spec_basename(s.drop_last()).push(s.last())
    }
}

/// The file list joined by comma and space.
pub open spec fn spec_join_files(fs: Seq<Seq<char>>) -> Seq<char>
    decreases fs.len(),
{
    if fs.len() == 0 {
        Seq::empty()
    } else if fs.len() == 1 {
        fs[0]
    } else {
        fs[0] + ", "@ + spec_join_files(fs.drop_first())
    }
}

/// The file summary: the joined list when it has at most three entries,
/// else the count followed by ` files changed`, filenames omitted.
pub open spec fn spec_file_summary(fs: Seq<Seq<char>>) -> Seq<char> {
    if fs.len() > 3 {
        dec_digits(fs.len() as nat) + " files changed"@
    } else {
        spec_join_files(fs)
    }
}

/// The one display line of a relayed commit event.
pub open spec fn spec_format_line(c: CommitView) -> Seq<char> {
    "["@ + c.short_hash + "] "@ + spec_basename(c.repository_url) + " by "@ + c.author_name + " ("@
        + c.branch + "): "@ + spec_first_line(c.message) + " - "@ + spec_file_summary(
        c.files_changed,
    )
}

pub proof fn lemma_take_until_nl(m: Seq<char>, e: int)
    requires
        0 <= e <= m.len(),
        forall|j: int| 0 <= j < e ==> m[j] != '\n',
        e == m.len() || m[e] == '\n',
    ensures
        take_until_nl(m) == m.take(e),
    decreases e,
{
    if e == 0 {
        assert(take_until_nl(m) =~= m.take(0));
    } else {
        assert(m[0] != '\n');
        lemma_take_until_nl(m.drop_first(), e - 1);
        assert(seq![m[0]] + m.drop_first().take(e - 1) =~= m.take(e));
    }
}

pub proof fn lemma_drop_leading_ws(s: Seq<char>, a: int)
    requires
        0 <= a <= s.len(),
        forall|j: int| 0 <= j < a ==> is_ws(s[j]),
        a == s.len() || !is_ws(s[a]),
    ensures
        drop_leading_ws(s) == s.skip(a),
    decreases a,
{
    if a == 0 {
        assert(drop_leading_ws(s) =~= s.skip(0));
    } else {
        assert(is_ws(s[0]));
        lemma_drop_leading_ws(s.drop_first(), a - 1);
        assert(s.drop_first().skip(a - 1) =~= s.skip(a));
    }
}

pub proof fn lemma_drop_trailing_ws(s: Seq<char>, b: int)
    requires
        0 <= b <= s.len(),
        forall|j: int| b <= j < s.len() ==> is_ws(s[j]),
        b == 0 || !is_ws(s[b - 1]),
    ensures
        drop_trailing_ws(s) == s.take(b),
    decreases s.len() - b,
{
    if b == s.len() {
        assert(drop_trailing_ws(s) =~= s.take(b));
    } else {
        assert(is_ws(s.last()));
        lemma_drop_trailing_ws(s.drop_last(), b);
        assert(s.drop_last().take(b) =~= s.take(b));
    }
}

pub proof fn lemma_basename_no_slash(s: Seq<char>)
    requires
        forall|j: int| 0 <= j < s.len() ==> s[j] != '/',
    ensures
        spec_basename(s) == s,
    decreases s.len(),
{
    if s.len() == 0 {
        assert(spec_basename(s) =~= s);
    } else {
        lemma_basename_no_slash(s.drop_last());
        assert(s.drop_last().push(s.last()) =~= s);
    }
}

pub proof fn lemma_basename_after(s: Seq<char>, i: int)
    requires
        0 <= i < s.len(),
        s[i] == '/',
        forall|j: int| i < j < s.len() ==> s[j] != '/',
    ensures
        spec_basename(s) == s.skip(i + 1),
    decreases s.len(),
{
    if i == s.len() - 1 {
        assert(spec_basename(s) =~= s.skip(i + 1));
    } else {
        assert(s.last() != '/');
        lemma_basename_after(s.drop_last(), i);
        assert(s.drop_last().skip(i + 1).push(s.last()) =~= s.skip(i + 1));
    }
}

/// The first line of a message, trimmed, as the display line carries it.
pub fn first_line_of(message: &str) -> (r: String)
    ensures
        r@ == spec_first_line(message@),
{
    let len = message.unicode_len();
    let mut e: usize = 0;
    while e < len && message.get_char(e) != '\n'
        invariant
            len == message@.len(),
            e <= len,
            forall|j: int| 0 <= j < e ==> message@[j] != '\n',
        decreases len - e,
    {
        e = e + 1;
    }
    assert(e == len || message@[e as int] == '\n');
    let mut a: usize = 0;
    while a < e && is_ws_char(message.get_char(a))
        invariant
            len == message@.len(),
            e <= len,
            a <= e,
            forall|j: int| 0 <= j < a ==> is_ws(message@[j]),
        decreases e - a,
    {
        a = a + 1;
    }
    let mut b: usize = e;
    while b > a && is_ws_char(message.get_char(b - 1))
        invariant
            len == message@.len(),
            e <= len,
            a <= b <= e,
            forall|j: int| b <= j < e ==> is_ws(message@[j]),
        decreases b,
    {
        b = b - 1;
    }
    proof {
        lemma_take_until_nl(message@, e as int);
        let line = message@.take(e as int);
        lemma_drop_leading_ws(line, a as int);
        lemma_drop_trailing_ws(line.skip(a as int), b - a);
        assert(line.skip(a as int).take(b - a) =~= message@.subrange(a as int, b as int));
    }
    let part = message.substring_char(a, b);
    String::from_str(part)
}

/// Whitespace test for one character.
fn is_ws_char(c: char) -> (r: bool)
    ensures
        r == is_ws(c),
{
    let u = c as u32;
    u == 32 || u == 9 || u == 10 || u == 13 || u == 11 || u == 12 || u == 133 || u == 160 || u
        == 5760 || (8192 <= u && u <= 8202) || u == 8232 || u == 8233 || u == 8239 || u == 8287 || u
        == 12288
}

/// Appends what follows the last `/` of the URL.
fn push_basename(v: &mut Vec<char>, url: &str)
    ensures
        final(v)@ == old(v)@ + spec_basename(url@),
{
    let len = url.unicode_len();
    let mut cut: usize = 0;
    let mut i: usize = 0;
    while i < len
        invariant
            len == url@.len(),
            i <= len,
            cut <= i,
            cut == 0 || url@[cut - 1] == '/',
            forall|j: int| cut <= j < i ==> url@[j] != '/',
        decreases len - i,
    {
        if url.get_char(i) == '/' {
            cut = i + 1;
        }
        i = i + 1;
    }
    proof {
        if cut == 0 {
            lemma_basename_no_slash(url@);
        } else {
            lemma_basename_after(url@, cut - 1);
        }
    }
    let part = url.substring_char(cut, len);
    assert(part@ =~= url@.skip(cut as int));
    push_str_chars(v, part);
}

/// Appends the file summary.
fn push_file_summary(v: &mut Vec<char>, fs: &Vec<String>)
    ensures
        final(v)@ == old(v)@ + spec_file_summary(fs@.map_values(|f: String| f@)),
{
    let ghost fsv = fs@.map_values(|f: String| f@);
    let n = fs.len();
    if n > 3 {
        push_u64_decimal(v, n as u64);
        push_str_chars(v, " files changed");
        return ;
    }
    proof {
        assert(fsv.skip(0) =~= fsv);
    }
    let mut k: usize = 0;
    while k < n
        invariant
            n == fs@.len(),
            n <= 3,
            fsv == fs@.map_values(|f: String| f@),
            k <= n,
            v@ + spec_join_files(fsv.skip(k as int)) == old(v)@ + spec_join_files(fsv),
        decreases n - k,
    {
        let ghost rem = fsv.skip(k as int);
        proof {
            assert(rem[0] == fsv[k as int]);
            assert(rem.drop_first() =~= fsv.skip(k + 1 as int));
        }
        push_str_chars(v, fs[k].as_str());
        if k + 1 < n {
            push_str_chars(v, ", ");
            assert(v@ + spec_join_files(fsv.skip(k + 1 as int)) =~= old(v)@ + spec_join_files(
                fsv));
        } else {
            assert(fsv.skip(k + 1 as int).len() == 0);
            assert(v@ + spec_join_files(fsv.skip(k + 1 as int)) =~= old(v)@ + spec_join_files(
                fsv));
        }
        k = k + 1;
    }
    assert(spec_join_files(fsv.skip(n as int)) =~= Seq::<char>::empty());
    assert(final(v)@ =~= final(v)@ + spec_join_files(fsv.skip(n as int)));
}

/// Formats the one display line of a relayed commit event:
/// `[{short_hash}] {repo_basename} by {author_name} ({branch}):
/// {first_line_of_message} - {file_summary}`.
pub fn format_commit_for_irc(commit_info: &CommitInfo) -> (r: String)
    ensures
        r@ == spec_format_line(commit_info@),
{
    let mut v: Vec<char> = Vec::new();
    push_str_chars(&mut v, "[");
    push_str_chars(&mut v, commit_info.short_hash.as_str());
    push_str_chars(&mut v, "] ");
    push_basename(&mut v, commit_info.repository_url.as_str());
    push_str_chars(&mut v, " by ");
    push_str_chars(&mut v, commit_info.author_name.as_str());
    push_str_chars(&mut v, " (");
    push_str_chars(&mut v, commit_info.branch.as_str());
    push_str_chars(&mut v, "): ");
    let line = first_line_of(commit_info.message.as_str());
    push_str_chars(&mut v, line.as_str());
    push_str_chars(&mut v, " - ");
    push_file_summary(&mut v, &commit_info.files_changed);
    assert(v@ =~= spec_format_line(commit_info@));
    string_from_chars(&v)
}

/// Extracts one commit event from a broker message payload; a malformed
/// payload fails with a decode error and is never fatal.
pub fn extract_commit_from_mqtt_message(payload: &str) -> (r: Result<CommitInfo, GitFriendsError>)
    ensures
        spec_decode(payload@) matches Some(v) ==> (r matches Ok(c) && c@ == v),
        spec_decode(payload@) is None ==> (r matches Err(e) && e is DecodeFailed),
{
    decode_commit(payload)
}

/// Decodes a payload and formats its display line in one step, as the
/// dispatcher consumes queue events.
pub fn relay_line_for_payload(payload: &str) -> (r: Result<String, GitFriendsError>)
    ensures
        spec_decode(payload@) matches Some(v) ==> (r matches Ok(l) && l@ == spec_format_line(v)),
        spec_decode(payload@) is None ==> (r matches Err(e) && e is DecodeFailed),
{
    match extract_commit_from_mqtt_message(payload) {
        Ok(c) => Ok(format_commit_for_irc(&c)),
        Err(e) => Err(e),
    }
}

/// Derives the topic and serializes the event: everything of a publish
/// except the transport send itself, which is fire-and-forget.
pub fn prepare_publish(config: &Config, commit_info: &CommitInfo, username: Option<&str>) -> (r: (
    String,
    String,
))
    ensures
        r.0@ == spec_topic(
            config.mqtt.topic_prefix@,
            opt_str_view(username),
            spec_alias(mappings_view(config.git.repository_mappings@), commit_info.repository_url@),
            commit_info.committer_name@,
        ),
        r.1@ == spec_encode(commit_info@),
{
    let topic = config.mqtt_topic_for_repo(
        commit_info.repository_url.as_str(),
        commit_info.committer_name.as_str(),
        username,
    );
    let payload = encode_commit(commit_info);
    (topic, payload)
}

/// Seconds the supervisor waits after a transport error before polling
/// again.
pub const BACKOFF_SECS: u64 = 5;

/// Milliseconds between trial sends while waiting for the connection.
pub const CONNECT_POLL_MILLIS: u64 = 100;

/// Milliseconds after which waiting for the connection gives up.
pub const CONNECT_TIMEOUT_MILLIS: u64 = 10000;

/// What the supervisor does with one poll outcome.
pub enum SupervisorAction {
    /// Forward the received protocol event onto the bounded queue.
    Forward,
    /// Wait this many seconds, then resume polling.
    Backoff(u64),
}

impl SupervisorAction {
    /// True exactly on the forwarding action.
    pub fn is_forward(&self) -> (r: bool)
        ensures
            r == (self is Forward),
    {
        match self {
            SupervisorAction::Forward => true,
            SupervisorAction::Backoff(_) => false,
        }
    }
}

/// The supervisor's decision for one poll of the broker session: a
/// received event is forwarded, a transport error is answered with a
/// fixed backoff and the loop resumes. The loop never exits on an error.
pub fn supervisor_step(poll_ok: bool) -> (r: SupervisorAction)
    ensures
        poll_ok ==> r is Forward,
        !poll_ok ==> (r matches SupervisorAction::Backoff(secs) && secs == BACKOFF_SECS),
{
    if poll_ok {
        SupervisorAction::Forward
    } else {
        SupervisorAction::Backoff(BACKOFF_SECS)
    }
}

/// Whether the supervisor loop goes on after forwarding: it stops exactly
/// when the queue was closed by its consumer.
pub fn supervisor_continues(send_ok: bool) -> (r: bool)
    ensures
        r == send_ok,
{
    send_ok
}

/// What the connection wait does after one trial send.
pub enum ConnectPoll {
    /// The transport accepted the trial: the connection stands.
    Connected,
    /// Wait this many milliseconds and try again.
    RetryAfter(u64),
    /// The timeout elapsed: fail with a connection error.
    TimedOut,
}

/// The decision for one trial send while waiting for the connection:
/// success ends the wait, failure retries at the fixed interval until the
/// timeout has elapsed.
pub fn connection_poll_step(trial_ok: bool, elapsed_millis: u64, timeout_millis: u64) -> (r:
    ConnectPoll)
    ensures
        trial_ok ==> r is Connected,
        !trial_ok && elapsed_millis < timeout_millis ==> (r matches ConnectPoll::RetryAfter(m) && m
            == CONNECT_POLL_MILLIS),
        !trial_ok && elapsed_millis >= timeout_millis ==> r is TimedOut,
{
    if trial_ok {
        ConnectPoll::Connected
    } else if elapsed_millis < timeout_millis {
        ConnectPoll::RetryAfter(CONNECT_POLL_MILLIS)
    } else {
        ConnectPoll::TimedOut
    }
}

/// The error a timed-out connection wait surfaces.
pub fn connection_timeout_error() -> (r: GitFriendsError)
    ensures
        r is ConnectionFailed,
{
    GitFriendsError::ConnectionFailed(String::from_str("MQTT connection timeout"))
}

/// True when a needle stands somewhere inside a haystack.
pub open spec fn spec_contains(hay: Seq<char>, needle: Seq<char>) -> bool {
    exists|i: int|
        #![trigger hay.subrange(i, i + needle.len())]
        0 <= i && i + needle.len() <= hay.len() && hay.subrange(i, i + needle.len()) == needle
}

/// The display line always carries the short hash, the author name and
/// the first line of the message; with more than three changed files it
/// carries the file count summary in place of the filenames.
#[verifier::rlimit(100)]
pub proof fn lemma_format_line_parts(c: CommitView)
    ensures
        spec_contains(spec_format_line(c), c.short_hash),
        spec_contains(spec_format_line(c), c.author_name),
        spec_contains(spec_format_line(c), spec_first_line(c.message)),
        c.files_changed.len() > 3 ==> spec_contains(spec_format_line(c), " files changed"@),
{
    reveal_strlit("[");
    reveal_strlit("] ");
    reveal_strlit(" by ");
    reveal_strlit(" (");
    reveal_strlit("): ");
    reveal_strlit(" - ");
    reveal_strlit(" files changed");
    let l = spec_format_line(c);
    let o1 = 1int;
    assert(l.subrange(o1, o1 + c.short_hash.len()) =~= c.short_hash);
    assert(spec_contains(l, c.short_hash));
    let o2 = o1 + c.short_hash.len() + 2 + spec_basename(c.repository_url).len() + 4;
    assert(l.subrange(o2, o2 + c.author_name.len()) =~= c.author_name);
    assert(spec_contains(l, c.author_name));
    let fl = spec_first_line(c.message);
    let o3 = o2 + c.author_name.len() + 2 + c.branch.len() + 3;
    assert(l.subrange(o3, o3 + fl.len()) =~= fl);
    assert(spec_contains(l, fl));
    if c.files_changed.len() > 3 {
        let o4 = o3 + fl.len() + 3 + dec_digits(c.files_changed.len() as nat).len();
        assert(l.subrange(o4, o4 + " files changed"@.len()) =~= " files changed"@);
        assert(spec_contains(l, " files changed"@));
    }
}

} // verus!
