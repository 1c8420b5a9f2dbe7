//! The compression of one image: from a look into the cache, over the exchange with the service,
//! to the file that is written.
//!
//! Each step takes what the last action led to and says what to do next.

use crate::cache::{cache_key, ResponseCache};
use crate::client::{Standing, TinifyClient};
use crate::image::ImageResult;
use crate::text::{parse_u32, push_decimal};
use std::path::PathBuf;
use vstd::prelude::*;

verus! {

/// Where images are sent to.
pub const SHRINK_URL: &'static str = "https://api.tinify.com/shrink";

/// The name under which a key is sent.
pub const API_USER: &'static str = "api";

/// How far the compression of an image has come.
pub enum Phase {
    /// A kept result is being written.
    WritingCached { size: u64 },
    /// The available keys are being scored.
    Ranking { body: Vec<u8>, available: Vec<String> },
    /// The image is being sent with a key, when `active` keys had credits left.
    Sending { key: String, active: usize },
    /// The reply is being decoded.
    Decoding { key: String, credits: u32 },
    /// The compressed image is being downloaded.
    Downloading { key: String, credits: u32, output: Output },
    /// The compressed image is being written.
    Writing { key: String, credits: u32, output: Output },
    /// The text of an unexpected reply is being read.
    Explaining { key: String, status: u16 },
}

/// The compression of one image.
pub struct Compression {
    pub path: PathBuf,
    pub original_size: u64,
    /// The key under which the result is kept.
    pub cache_key: String,
    pub phase: Phase,
}

/// What the service says of a compressed image.
pub struct Output {
    pub size: u64,
    pub url: String,
    /// How much smaller it is, in percent with one decimal.
    pub saved_percent: String,
}

/// The head of the service's reply.
pub struct Reply {
    pub status: u16,
    /// The value of the header `Compression-Count`.
    pub compression_count: Option<Vec<u8>>,
}

/// What is to be done next.
pub enum Action {
    /// Write the data to the image's file.
    Write(Vec<u8>),
    /// Rank keys by their scores.
    Rank(Vec<Standing>),
    /// Send the image with a key.
    Post { key: String, body: Vec<u8> },
    /// Decode the body of the reply.
    Decode,
    /// Download from an address.
    Download(String),
    /// Read the body of the reply as text.
    ReadBody,
}

/// What an action led to.
pub enum Event {
    Written,
    /// The rank of each key, in the order of the keys.
    Ranked(Vec<i64>),
    Replied(Reply),
    /// No reply came; why.
    Unreachable(String),
    Decoded(Output),
    Downloaded(Vec<u8>),
    Body(String),
    /// The action failed.
    Failed,
    /// A download began and failed.
    Interrupted,
}

/// Why a compression came to no result.
#[derive(Clone, Copy, Debug, PartialEq, Eq, Structural)]
pub enum Failure {
    Write,
    Decode,
    Download,
    Fetch,
}

/// Where a compression stands after a step.
pub enum Step {
    Do(Compression, Action),
    Done(ImageResult),
    Failed(Failure),
}

/// The monthly credits that a key has left after so many compressions.
pub open spec fn credits_left(count: u32) -> u32 {
    if count < crate::state::MONTHLY_CREDITS {
        (crate::state::MONTHLY_CREDITS - count) as u32
    } else {
        0
    }
}

/// A status with which the service refuses a key: it has no credits left, or it is invalid.
pub open spec fn is_refusal(status: u16) -> bool {
    status == 429 || status == 401
}

/// Tells whether the service refuses a key with a status.
pub fn refuses_key(status: u16) -> (r: bool)
    ensures
        r == is_refusal(status),
{
    status == 429 || status == 401
}

/// The count in a header: none where the header is missing or is no number.
pub open spec fn count_in(header: Option<Vec<u8>>) -> u32 {
    match header {
        Some(value) => match crate::text::parsed_u32(value@) {
            Some(n) => n,
            None => 0,
        },
        None => 0,
    }
}

pub open spec fn cached_message() -> Seq<char> {
    "压缩成功 (来自缓存)"@
}

pub open spec fn exhausted_message(left: nat) -> Seq<char> {
    "额度耗尽，已移除该 key，剩余可用 key: "@ + crate::text::decimal(left)
}

pub open spec fn invalid_message(left: nat) -> Seq<char> {
    "密钥无效，已移除该 key，剩余可用 key: "@ + crate::text::decimal(left)
}

pub open spec fn success_message(original_size: u64, output: Output, credits: u32) -> Seq<char> {
    "压缩成功: "@ + crate::text::decimal(original_size as nat) + " → "@ + crate::text::decimal(
        output.size as nat,
    ) + " (节省 "@ + output.saved_percent@ + "%)，剩余额度: "@ + crate::text::decimal(credits as nat)
}

/// The status line of a code: the code, a space, and the reason phrase.
pub uninterp spec fn status_line_of(code: u16) -> Seq<char>;

pub open spec fn http_message(status: u16, body: Seq<char>) -> Seq<char> {
    "HTTP "@ + status_line_of(status) + ": "@ + body
}

pub open spec fn network_message(error: Seq<char>) -> Seq<char> {
    "网络错误: "@ + error
}

/// `reqwest::StatusCode` writes a code from 100 to 999 as the code, a space, and the reason phrase
/// of that code.
#[verifier::external_body]
fn status_line(code: u16) -> (line: String)
    requires
        100 <= code <= 999,
    ensures
        line@ == status_line_of(code),
        (crate::text::decimal(code as nat) + seq![' ']).is_prefix_of(line@),
{
    reqwest::StatusCode::from_u16(code).unwrap().to_string()
}

fn counted(prefix: &str, n: u64) -> (s: String)
    ensures
        s@ == prefix@ + crate::text::decimal(n as nat),
{
    let mut s = prefix.to_owned();
    push_decimal(&mut s, n);
    s
}

fn joined(a: &str, b: &str) -> (s: String)
    ensures
        s@ == a@ + b@,
{
    let mut s = a.to_owned();
    s.append(b);
    s
}

fn success_text(original_size: u64, output: &Output, credits: u32) -> (s: String)
    ensures
        s@ == success_message(original_size, *output, credits),
{
    let mut s = counted("压缩成功: ", original_size);
    s.append(" → ");
    push_decimal(&mut s, output.size);
    s.append(" (节省 ");
    s.append(output.saved_percent.as_str());
    s.append("%)，剩余额度: ");
    push_decimal(&mut s, credits as u64);
    s
}

/// What is said of an unexpected reply with the given status line and body.
pub fn http_text_of(line: &str, body: &str) -> (s: String)
    ensures
        s@ == "HTTP "@ + line@ + ": "@ + body@,
{
    let mut s = joined("HTTP ", line);
    s.append(": ");
    s.append(body);
    s
}

fn http_text(status: u16, body: &str) -> (s: String)
    requires
        100 <= status <= 999,
    ensures
        s@ == http_message(status, body@),
        ("HTTP "@ + crate::text::decimal(status as nat) + seq![' ']).is_prefix_of(s@),
{
    let line = status_line(status);
    let s = http_text_of(line.as_str(), body);
    proof {
        let code = crate::text::decimal(status as nat) + seq![' '];
        let head = "HTTP "@ + crate::text::decimal(status as nat) + seq![' '];
        assert(head =~= "HTTP "@ + code);
        assert(line@.take(code.len() as int) =~= code);
        assert(s@.take(head.len() as int) =~= "HTTP "@ + line@.take(code.len() as int));
    }
    s
}

impl Failure {
    /// What failed, in words.
    pub open spec fn words(self) -> Seq<char> {
        match self {
            Failure::Write => "写入文件失败"@,
            Failure::Decode => "解析Tinify响应失败"@,
            Failure::Download => "下载压缩图片失败"@,
            Failure::Fetch => "获取压缩图片数据失败"@,
        }
    }

    /// What failed, in words.
    pub fn context(self) -> (s: &'static str)
        ensures
            s@ == self.words(),
    {
        match self {
            Failure::Write => "写入文件失败",
            Failure::Decode => "解析Tinify响应失败",
            Failure::Download => "下载压缩图片失败",
            Failure::Fetch => "获取压缩图片数据失败",
        }
    }
}

/// The result of a compression.
pub open spec fn is_result(
    r: ImageResult,
    c: Compression,
    ok: bool,
    msg: Seq<char>,
    compressed_size: u64,
) -> bool {
    &&& r.path == c.path
    &&& r.ok == ok
    &&& r.msg@ == msg
    &&& r.original_size == c.original_size
    &&& r.compressed_size == compressed_size
}

/// The result after an unexpected reply, which names the status code first.
pub open spec fn explains(r: ImageResult, c: Compression, status: u16, body: Seq<char>) -> bool {
    &&& is_result(r, c, false, http_message(status, body), 0)
    &&& ("HTTP "@ + crate::text::decimal(status as nat) + seq![' ']).is_prefix_of(r.msg@)
}

/// The same compression in another phase.
pub open spec fn goes_on(c: Compression, next: Compression) -> bool {
    &&& next.path == c.path
    &&& next.original_size == c.original_size
    &&& next.cache_key@ == c.cache_key@
}

/// The client with other credits.
pub open spec fn with_credits(
    before: TinifyClient,
    after: TinifyClient,
    credits: Map<Seq<char>, u32>,
) -> bool {
    &&& after.keys == before.keys
    &&& after.key_stats == before.key_stats
    &&& after.state.metadata == before.state.metadata
    &&& after.state.key_statuses@ == credits
}

/// The client after a key was used.
pub open spec fn with_use(
    before: TinifyClient,
    after: TinifyClient,
    key: Seq<char>,
    success: bool,
    now: u64,
) -> bool {
    &&& after.keys == before.keys
    &&& after.state == before.state
    &&& after.key_stats@ == crate::client::stats_after(before.key_stats@, key, success, now)
}

/// The image is sent with the best key.
pub open spec fn sends(
    client: TinifyClient,
    body: Seq<u8>,
    available: Seq<Seq<char>>,
    ranks: Seq<i64>,
    phase: Phase,
    action: Action,
) -> bool {
    &&& phase matches Phase::Sending { key, active }
    &&& action matches Action::Post { key: with, body: sent }
    &&& crate::client::is_best_key(crate::client::views(client.keys@), available, ranks, key@)
    &&& active == crate::state::active_keys(client.state.key_statuses@).len()
    &&& with@ == key@
    &&& sent@ == body
}

/// How a compression begins: with the kept result if a young one is there, otherwise with the
/// choice of a key.
pub open spec fn begins(
    data: Seq<u8>,
    client: TinifyClient,
    entries: Seq<(Seq<char>, Seq<u8>, u64)>,
    now: u64,
    phase: Phase,
    action: Action,
) -> bool {
    let available = crate::client::available(
        crate::client::views(client.keys@),
        client.state.key_statuses@,
    );
    match crate::cache::young_data(entries, crate::cache::key_of(data), now) {
        Some(kept) => {
            &&& phase matches Phase::WritingCached { size }
            &&& action matches Action::Write(written)
            &&& size == kept.len()
            &&& written@ == kept
        },
        None => if available.len() == 0 {
            sends(client, data, available, seq![], phase, action)
        } else {
            &&& phase matches Phase::Ranking { body, available: keys }
            &&& action matches Action::Rank(standings)
            &&& body@ == data
            &&& crate::client::views(keys@) == available
            &&& standings@ == available.map_values(
                |k: Seq<char>|
                    crate::client::standing_of(
                        client.state.key_statuses@,
                        client.key_stats@,
                        k,
                        now,
                    ),
            )
        },
    }
}

/// An event that a compression can take in its phase.
pub open spec fn admitted(c: Compression, event: Event, client: TinifyClient) -> bool {
    match (c.phase, event) {
        (Phase::WritingCached { .. }, Event::Written) => true,
        (Phase::WritingCached { .. }, Event::Failed) => true,
        (Phase::Ranking { available, .. }, Event::Ranked(ranks)) => ranks@.len() == available@.len(),
        (Phase::Sending { active, .. }, Event::Replied(reply)) => {
            &&& 100 <= reply.status <= 999
            &&& is_refusal(reply.status) ==> active > 0
        },
        (Phase::Sending { .. }, Event::Unreachable(_)) => true,
        (Phase::Decoding { .. }, Event::Decoded(_)) => true,
        (Phase::Decoding { .. }, Event::Failed) => true,
        (Phase::Downloading { .. }, Event::Downloaded(_)) => true,
        (Phase::Downloading { .. }, Event::Failed) => true,
        (Phase::Downloading { .. }, Event::Interrupted) => true,
        (Phase::Writing { key, .. }, Event::Written) => crate::client::can_count(
            client.key_stats@,
            key@,
        ),
        (Phase::Writing { .. }, Event::Failed) => true,
        (Phase::Explaining { status, .. }, Event::Body(_)) => 100 <= status <= 999,
        (Phase::Explaining { status, .. }, Event::Failed) => 100 <= status <= 999,
        _ => false,
    }
}

/// How a compression takes the head of a reply.
pub open spec fn takes_reply(
    c: Compression,
    key: Seq<char>,
    active: usize,
    reply: Reply,
    client: TinifyClient,
    step: Step,
    after: TinifyClient,
) -> bool {
    let credits = client.state.key_statuses@;
    if reply.status == 429 {
        &&& step matches Step::Done(r)
        &&& is_result(r, c, false, exhausted_message((active - 1) as nat), 0)
        &&& with_credits(client, after, credits.insert(key, 0))
    } else if reply.status == 401 {
        &&& step matches Step::Done(r)
        &&& is_result(r, c, false, invalid_message((active - 1) as nat), 0)
        &&& with_credits(client, after, credits.insert(key, 0))
    } else if 200 <= reply.status < 300 {
        let left = credits_left(count_in(reply.compression_count));
        &&& step matches Step::Do(next, action)
        &&& goes_on(c, next)
        &&& next.phase matches Phase::Decoding { key: k, credits: n }
        &&& k@ == key
        &&& n == left
        &&& action is Decode
        &&& with_credits(client, after, crate::state::credits_with(credits, key, left))
    } else {
        &&& step matches Step::Do(next, action)
        &&& goes_on(c, next)
        &&& next.phase matches Phase::Explaining { key: k, status }
        &&& k@ == key
        &&& status == reply.status
        &&& action is ReadBody
        &&& after == client
    }
}

/// What a step does: what comes next, and what it changes in the client and in the cache.
pub open spec fn steps(
    c: Compression,
    event: Event,
    client: TinifyClient,
    entries: Seq<(Seq<char>, Seq<u8>, u64)>,
    now: u64,
    step: Step,
    after: TinifyClient,
    entries_after: Seq<(Seq<char>, Seq<u8>, u64)>,
) -> bool {
    match (c.phase, event) {
        (Phase::WritingCached { size }, Event::Written) => {
            &&& step matches Step::Done(r)
            &&& is_result(r, c, true, cached_message(), size)
            &&& after == client
            &&& entries_after == entries
        },
        (Phase::WritingCached { .. }, Event::Failed) => {
            &&& step == Step::Failed(Failure::Write)
            &&& after == client
            &&& entries_after == entries
        },
        (Phase::Ranking { body, available }, Event::Ranked(ranks)) => {
            &&& step matches Step::Do(next, action)
            &&& goes_on(c, next)
            &&& sends(
                client,
                body@,
                crate::client::views(available@),
                ranks@,
                next.phase,
                action,
            )
            &&& after == client
            &&& entries_after == entries
        },
        (Phase::Sending { key, .. }, Event::Unreachable(error)) => {
            &&& step matches Step::Done(r)
            &&& is_result(r, c, false, network_message(error@), 0)
            &&& with_use(client, after, key@, false, now)
            &&& entries_after == entries
        },
        (Phase::Sending { key, active }, Event::Replied(reply)) => {
            &&& takes_reply(c, key@, active, reply, client, step, after)
            &&& entries_after == entries
        },
        (Phase::Decoding { key, credits }, Event::Decoded(output)) => {
            &&& step matches Step::Do(next, action)
            &&& goes_on(c, next)
            &&& next.phase matches Phase::Downloading { key: k, credits: n, output: o }
            &&& k@ == key@
            &&& n == credits
            &&& o == output
            &&& action matches Action::Download(url)
            &&& url@ == output.url@
            &&& after == client
            &&& entries_after == entries
        },
        (Phase::Decoding { .. }, Event::Failed) => {
            &&& step == Step::Failed(Failure::Decode)
            &&& after == client
            &&& entries_after == entries
        },
        (Phase::Downloading { key, credits, output }, Event::Downloaded(data)) => {
            &&& step matches Step::Do(next, action)
            &&& goes_on(c, next)
            &&& next.phase matches Phase::Writing { key: k, credits: n, output: o }
            &&& k@ == key@
            &&& n == credits
            &&& o == output
            &&& action matches Action::Write(written)
            &&& written@ == data@
            &&& after == client
            &&& entries_after == crate::cache::stored(
                entries,
                crate::cache::CACHE_LIMIT as nat,
                c.cache_key@,
                data@,
                now,
            )
        },
        (Phase::Downloading { .. }, Event::Failed) => {
            &&& step == Step::Failed(Failure::Download)
            &&& after == client
            &&& entries_after == entries
        },
        (Phase::Downloading { .. }, Event::Interrupted) => {
            &&& step == Step::Failed(Failure::Fetch)
            &&& after == client
            &&& entries_after == entries
        },
        (Phase::Writing { key, credits, output }, Event::Written) => {
            &&& step matches Step::Done(r)
            &&& is_result(
                r,
                c,
                true,
                success_message(c.original_size, output, credits),
                output.size,
            )
            &&& with_use(client, after, key@, true, now)
            &&& entries_after == entries
        },
        (Phase::Writing { .. }, Event::Failed) => {
            &&& step == Step::Failed(Failure::Write)
            &&& after == client
            &&& entries_after == entries
        },
        (Phase::Explaining { key, status }, Event::Body(text)) => {
            &&& step matches Step::Done(r)
            &&& explains(r, c, status, text@)
            &&& with_use(client, after, key@, false, now)
            &&& entries_after == entries
        },
        (Phase::Explaining { key, status }, Event::Failed) => {
            &&& step matches Step::Done(r)
            &&& explains(r, c, status, seq![])
            &&& with_use(client, after, key@, false, now)
            &&& entries_after == entries
        },
        _ => false,
    }
}

fn count_from(header: &Option<Vec<u8>>) -> (n: u32)
    ensures
        n == count_in(*header),
{
    match header {
        Some(value) => match parse_u32(value) {
            Some(n) => n,
            None => 0,
        },
        None => 0,
    }
}

impl Compression {
    /// Begins to compress an image.
    pub fn begin(
        path: PathBuf,
        data: Vec<u8>,
        original_size: u64,
        client: &TinifyClient,
        cache: &mut ResponseCache,
        now: u64,
    ) -> (r: (Compression, Action))
        requires
            old(cache).wf(),
        ensures
            final(cache).wf(),
            final(cache).entries() == crate::cache::touched(
                old(cache).entries(),
                crate::cache::key_of(data@),
            ),
            r.0.path == path,
            r.0.original_size == original_size,
            r.0.cache_key@ == crate::cache::key_of(data@),
            begins(data@, *client, old(cache).entries(), now, r.0.phase, r.1),
    {
        let cache_key = cache_key(data.as_slice());
        match cache.lookup(&cache_key, now) {
            Some(kept) => {
                let phase = Phase::WritingCached { size: kept.len() as u64 };
                (Compression { path, original_size, cache_key, phase }, Action::Write(kept))
            },
            None => {
                let available = client.available_keys();
                if available.len() == 0 {
                    let ranks: Vec<i64> = Vec::new();
                    let key = client.select_best_key(&available, &ranks);
                    let active = client.get_active_key_count();
                    let phase = Phase::Sending { key: key.clone(), active };
                    (
                        Compression { path, original_size, cache_key, phase },
                        Action::Post { key, body: data },
                    )
                } else {
                    let standings = client.standings(&available, now);
                    let phase = Phase::Ranking { body: data, available };
                    (Compression { path, original_size, cache_key, phase }, Action::Rank(standings))
                }
            },
        }
    }

    /// Tells whether the compression can take an event in its phase.
    pub fn admits(&self, event: &Event, client: &TinifyClient) -> (r: bool)
        ensures
            r == admitted(*self, *event, *client),
    {
        match (&self.phase, event) {
            (Phase::WritingCached { .. }, Event::Written) => true,
            (Phase::WritingCached { .. }, Event::Failed) => true,
            (Phase::Ranking { available, .. }, Event::Ranked(ranks)) => ranks.len()
                == available.len(),
            (Phase::Sending { active, .. }, Event::Replied(reply)) => 100 <= reply.status
                && reply.status <= 999 && (!refuses_key(reply.status) || *active > 0),
            (Phase::Sending { .. }, Event::Unreachable(_)) => true,
            (Phase::Decoding { .. }, Event::Decoded(_)) => true,
            (Phase::Decoding { .. }, Event::Failed) => true,
            (Phase::Downloading { .. }, Event::Downloaded(_)) => true,
            (Phase::Downloading { .. }, Event::Failed) => true,
            (Phase::Downloading { .. }, Event::Interrupted) => true,
            (Phase::Writing { key, .. }, Event::Written) => client.can_count_success(key.as_str()),
            (Phase::Writing { .. }, Event::Failed) => true,
            (Phase::Explaining { status, .. }, Event::Body(_)) => 100 <= *status && *status <= 999,
            (Phase::Explaining { status, .. }, Event::Failed) => 100 <= *status && *status <= 999,
            _ => false,
        }
    }

    /// Takes what the last action led to.
    pub fn step(
        self,
        event: Event,
        client: &mut TinifyClient,
        cache: &mut ResponseCache,
        now: u64,
    ) -> (step: Step)
        requires
            old(cache).wf(),
            admitted(self, event, *old(client)),
        ensures
            final(cache).wf(),
            steps(
                self,
                event,
                *old(client),
                old(cache).entries(),
                now,
                step,
                *final(client),
                final(cache).entries(),
            ),
    {
        let Compression { path, original_size, cache_key, phase } = self;
        match (phase, event) {
            (Phase::WritingCached { size }, Event::Written) => Step::Done(
                ImageResult::new(path, true, "压缩成功 (来自缓存)".to_owned(), original_size, size),
            ),
            (Phase::WritingCached { .. }, Event::Failed) => Step::Failed(Failure::Write),
            (Phase::Ranking { body, available }, Event::Ranked(ranks)) => {
                let key = client.select_best_key(&available, &ranks);
                let active = client.get_active_key_count();
                let phase = Phase::Sending { key: key.clone(), active };
                Step::Do(
                    Compression { path, original_size, cache_key, phase },
                    Action::Post { key, body },
                )
            },
            (Phase::Sending { key, .. }, Event::Unreachable(error)) => {
                client.update_key_stats(key.as_str(), false, now);
                let msg = joined("网络错误: ", error.as_str());
                Step::Done(ImageResult::new(path, false, msg, original_size, 0))
            },
            (Phase::Sending { key, active }, Event::Replied(reply)) => {
                if reply.status == 429 {
                    client.mark_key_invalid(key.as_str());
                    let msg = counted(
                        "额度耗尽，已移除该 key，剩余可用 key: ",
                        (active - 1) as u64,
                    );
                    Step::Done(ImageResult::new(path, false, msg, original_size, 0))
                } else if reply.status == 401 {
                    client.mark_key_invalid(key.as_str());
                    let msg = counted(
                        "密钥无效，已移除该 key，剩余可用 key: ",
                        (active - 1) as u64,
                    );
                    Step::Done(ImageResult::new(path, false, msg, original_size, 0))
                } else if 200 <= reply.status && reply.status < 300 {
                    let count = count_from(&reply.compression_count);
                    let credits = crate::state::MONTHLY_CREDITS.saturating_sub(count);
                    client.update_key_credit(key.as_str(), credits);
                    let phase = Phase::Decoding { key, credits };
                    Step::Do(Compression { path, original_size, cache_key, phase }, Action::Decode)
                } else {
                    let phase = Phase::Explaining { key, status: reply.status };
                    Step::Do(Compression { path, original_size, cache_key, phase }, Action::ReadBody)
                }
            },
            (Phase::Decoding { key, credits }, Event::Decoded(output)) => {
                let url = output.url.clone();
                let phase = Phase::Downloading { key, credits, output };
                Step::Do(
                    Compression { path, original_size, cache_key, phase },
                    Action::Download(url),
                )
            },
            (Phase::Decoding { .. }, Event::Failed) => Step::Failed(Failure::Decode),
            (Phase::Downloading { key, credits, output }, Event::Downloaded(data)) => {
                let kept = data.clone();
                assert(kept@ =~= data@);
                cache.store(cache_key.clone(), kept, now);
                let phase = Phase::Writing { key, credits, output };
                Step::Do(
                    Compression { path, original_size, cache_key, phase },
                    Action::Write(data),
                )
            },
            (Phase::Downloading { .. }, Event::Failed) => Step::Failed(Failure::Download),
            (Phase::Downloading { .. }, Event::Interrupted) => Step::Failed(Failure::Fetch),
            (Phase::Writing { key, credits, output }, Event::Written) => {
                client.update_key_stats(key.as_str(), true, now);
                let msg = success_text(original_size, &output, credits);
                Step::Done(ImageResult::new(path, true, msg, original_size, output.size))
            },
            (Phase::Writing { .. }, Event::Failed) => Step::Failed(Failure::Write),
            (Phase::Explaining { key, status }, Event::Body(text)) => {
                client.update_key_stats(key.as_str(), false, now);
                let msg = http_text(status, text.as_str());
                Step::Done(ImageResult::new(path, false, msg, original_size, 0))
            },
            (Phase::Explaining { key, status }, Event::Failed) => {
                client.update_key_stats(key.as_str(), false, now);
                let text = String::new();
                let msg = http_text(status, text.as_str());
                Step::Done(ImageResult::new(path, false, msg, original_size, 0))
            },
            _ => vstd::pervasive::unreached(),
        }
    }
}

/// A step that comes to no result leaves the keys and the cache as they are.
pub proof fn law_failure_changes_nothing(
    c: Compression,
    event: Event,
    client: TinifyClient,
    entries: Seq<(Seq<char>, Seq<u8>, u64)>,
    now: u64,
    step: Step,
    after: TinifyClient,
    entries_after: Seq<(Seq<char>, Seq<u8>, u64)>,
)
    requires
        steps(c, event, client, entries, now, step, after, entries_after),
        step is Failed,
    ensures
        after == client,
        entries_after == entries,
{
}

/// Every result is about the image that was to be compressed.
pub proof fn law_result_is_about_the_image(
    c: Compression,
    event: Event,
    client: TinifyClient,
    entries: Seq<(Seq<char>, Seq<u8>, u64)>,
    now: u64,
    step: Step,
    after: TinifyClient,
    entries_after: Seq<(Seq<char>, Seq<u8>, u64)>,
)
    requires
        steps(c, event, client, entries, now, step, after, entries_after),
    ensures
        step matches Step::Done(r) ==> r.path == c.path && r.original_size == c.original_size && (
        !r.ok ==> r.compressed_size == 0),
        step matches Step::Do(next, _) ==> goes_on(c, next),
        step matches Step::Do(next, _) ==> next.path == c.path && next.original_size
            == c.original_size && next.cache_key@ == c.cache_key@,
{
}

/// A success is reported only once a file was written, and data is written only as it was
/// downloaded.
pub proof fn law_success_means_written(
    c: Compression,
    event: Event,
    client: TinifyClient,
    entries: Seq<(Seq<char>, Seq<u8>, u64)>,
    now: u64,
    step: Step,
    after: TinifyClient,
    entries_after: Seq<(Seq<char>, Seq<u8>, u64)>,
)
    requires
        steps(c, event, client, entries, now, step, after, entries_after),
    ensures
        step matches Step::Done(r) ==> (r.ok <==> event is Written),
        event is Written ==> c.phase is WritingCached || c.phase is Writing,
        step matches Step::Do(_, Action::Write(written)) ==> (event matches Event::Downloaded(data)
            && written@ == data@),
{
}

/// A key that the service refuses has no credits left, the other keys keep theirs, and the image
/// has failed.
pub proof fn law_refused_key_is_out(
    c: Compression,
    event: Event,
    client: TinifyClient,
    entries: Seq<(Seq<char>, Seq<u8>, u64)>,
    now: u64,
    step: Step,
    after: TinifyClient,
    entries_after: Seq<(Seq<char>, Seq<u8>, u64)>,
    other: Seq<char>,
)
    requires
        steps(c, event, client, entries, now, step, after, entries_after),
        c.phase is Sending,
        event matches Event::Replied(reply) && is_refusal(reply.status),
    ensures
        step matches Step::Done(r) && !r.ok,
        !crate::state::active_keys(after.state.key_statuses@).contains(c.phase->Sending_key@),
        other != c.phase->Sending_key@ ==> crate::client::credits_of(
            after.state.key_statuses@,
            other,
        ) == crate::client::credits_of(client.state.key_statuses@, other),
{
}

/// After a successful reply a listed key has what the reported count leaves of a month's credits,
/// and the other keys keep theirs.
pub proof fn law_reply_sets_credits(
    c: Compression,
    event: Event,
    client: TinifyClient,
    entries: Seq<(Seq<char>, Seq<u8>, u64)>,
    now: u64,
    step: Step,
    after: TinifyClient,
    entries_after: Seq<(Seq<char>, Seq<u8>, u64)>,
    key: Seq<char>,
)
    requires
        steps(c, event, client, entries, now, step, after, entries_after),
        c.phase is Sending,
        event matches Event::Replied(reply) && 200 <= reply.status < 300,
        client.state.key_statuses@.dom().contains(key),
    ensures
        after.state.key_statuses@.dom() == client.state.key_statuses@.dom(),
        after.state.key_statuses@[key] == if key == c.phase->Sending_key@ {
            credits_left(count_in(event->Replied_0.compression_count))
        } else {
            client.state.key_statuses@[key]
        },
        credits_left(count_in(event->Replied_0.compression_count)) <= crate::state::MONTHLY_CREDITS,
{
    assert(after.state.key_statuses@.dom() =~= client.state.key_statuses@.dom());
}

/// An event that tells how a key stands: a reply to an image that was sent with it.
pub open spec fn concerns(c: Compression, event: Event, key: Seq<char>) -> bool {
    (c.phase matches Phase::Sending { key: k, .. } && k@ == key) && event is Replied
}

/// One client follows from another by a step of some compression that is no reply for a key.
pub open spec fn follows_quietly(
    client: TinifyClient,
    after: TinifyClient,
    key: Seq<char>,
) -> bool {
    exists|
        c: Compression,
        event: Event,
        entries: Seq<(Seq<char>, Seq<u8>, u64)>,
        now: u64,
        step: Step,
        entries_after: Seq<(Seq<char>, Seq<u8>, u64)>,
    | #[trigger]
        steps(c, event, client, entries, now, step, after, entries_after) && !concerns(c, event, key)
}

/// Each client follows from the one before by a step that is no reply for a key.
pub open spec fn is_quiet(history: Seq<TinifyClient>, key: Seq<char>) -> bool {
    forall|i: int|
        0 <= i < history.len() - 1 ==> follows_quietly(#[trigger] history[i], history[i + 1], key)
}

/// What is known of a key's credits changes by a reply for that key only.
pub proof fn law_credit_changes_by_reply_only(
    c: Compression,
    event: Event,
    client: TinifyClient,
    entries: Seq<(Seq<char>, Seq<u8>, u64)>,
    now: u64,
    step: Step,
    after: TinifyClient,
    entries_after: Seq<(Seq<char>, Seq<u8>, u64)>,
    key: Seq<char>,
)
    requires
        steps(c, event, client, entries, now, step, after, entries_after),
        !concerns(c, event, key),
    ensures
        after.state.key_statuses@.dom().contains(key) == client.state.key_statuses@.dom().contains(
            key,
        ),
        client.state.key_statuses@.dom().contains(key) ==> after.state.key_statuses@[key]
            == client.state.key_statuses@[key],
{
}

/// Over any steps of any compressions, as long as no reply is for a listed key, its credits stay.
pub proof fn law_quiet_history_keeps_credit(history: Seq<TinifyClient>, key: Seq<char>)
    requires
        history.len() > 0,
        is_quiet(history, key),
        history[0].state.key_statuses@.dom().contains(key),
    ensures
        history.last().state.key_statuses@.dom().contains(key),
        history.last().state.key_statuses@[key] == history[0].state.key_statuses@[key],
    decreases history.len(),
{
    if history.len() > 1 {
        let before = history.drop_last();
        assert forall|i: int| 0 <= i < before.len() - 1 implies follows_quietly(
            #[trigger] before[i],
            before[i + 1],
            key,
        ) by {
            assert(history[i] == before[i] && history[i + 1] == before[i + 1]);
        }
        law_quiet_history_keeps_credit(before, key);
        let n = history.len() - 2;
        assert(follows_quietly(history[n], history[n + 1], key));
        let (c, event, entries, now, step, entries_after) = choose|
            c: Compression,
            event: Event,
            entries: Seq<(Seq<char>, Seq<u8>, u64)>,
            now: u64,
            step: Step,
            entries_after: Seq<(Seq<char>, Seq<u8>, u64)>,
        | #[trigger]
            steps(c, event, history[n], entries, now, step, history[n + 1], entries_after)
                && !concerns(c, event, key);
        law_credit_changes_by_reply_only(
            c,
            event,
            history[n],
            entries,
            now,
            step,
            history[n + 1],
            entries_after,
            key,
        );
        assert(before.last() == history[n]);
    }
}

/// Only keys of a set are or will be sent in a phase.
pub open spec fn sends_within(phase: Phase, keys: Set<Seq<char>>) -> bool {
    match phase {
        Phase::Ranking { available, .. } => available@.len() > 0 && forall|i: int|
            0 <= i < available@.len() ==> keys.contains((#[trigger] available@[i])@),
        Phase::Sending { key, .. } => keys.contains(key@),
        _ => true,
    }
}

/// One client follows from another by a step of some compression that sends keys of a set only.
pub open spec fn follows_within(
    client: TinifyClient,
    after: TinifyClient,
    keys: Set<Seq<char>>,
) -> bool {
    exists|
        c: Compression,
        event: Event,
        entries: Seq<(Seq<char>, Seq<u8>, u64)>,
        now: u64,
        step: Step,
        entries_after: Seq<(Seq<char>, Seq<u8>, u64)>,
    | #[trigger]
        steps(c, event, client, entries, now, step, after, entries_after) && sends_within(
            c.phase,
            keys,
        )
}

/// Each client follows from the one before by a step that sends keys of a set only.
pub open spec fn is_within(history: Seq<TinifyClient>, keys: Set<Seq<char>>) -> bool {
    forall|i: int|
        0 <= i < history.len() - 1 ==> follows_within(#[trigger] history[i], history[i + 1], keys)
}

/// A compression begins with keys of its client only, as far as the client has keys.
pub proof fn law_begins_with_listed_keys(
    data: Seq<u8>,
    client: TinifyClient,
    entries: Seq<(Seq<char>, Seq<u8>, u64)>,
    now: u64,
    phase: Phase,
    action: Action,
)
    requires
        client.keys@.len() > 0,
        begins(data, client, entries, now, phase, action),
    ensures
        sends_within(phase, crate::state::key_set(client.keys@)),
{
    let keys = crate::client::views(client.keys@);
    let listed = crate::state::key_set(client.keys@);
    let credits = client.state.key_statuses@;
    assert(listed == keys.to_set());
    match phase {
        Phase::Sending { key, .. } => {
            crate::client::law_best_key_has_credits(keys, credits, seq![], key@);
        },
        Phase::Ranking { available, .. } => {
            let has_credits = |k: Seq<char>| crate::client::credits_of(credits, k) > 0;
            let found = crate::client::available(keys, credits);
            assert forall|i: int| 0 <= i < available@.len() implies listed.contains(
                (#[trigger] available@[i])@,
            ) by {
                assert(crate::client::views(available@)[i] == found[i]);
                assert(found.contains(found[i]));
                keys.lemma_filter_contains_rev(has_credits, found[i]);
            }
        },
        _ => {},
    }
}

/// A compression goes on with the keys that it began with.
pub proof fn law_goes_on_with_listed_keys(
    c: Compression,
    event: Event,
    client: TinifyClient,
    entries: Seq<(Seq<char>, Seq<u8>, u64)>,
    now: u64,
    next: Compression,
    action: Action,
    after: TinifyClient,
    entries_after: Seq<(Seq<char>, Seq<u8>, u64)>,
    keys: Set<Seq<char>>,
)
    requires
        admitted(c, event, client),
        steps(c, event, client, entries, now, Step::Do(next, action), after, entries_after),
        sends_within(c.phase, keys),
    ensures
        sends_within(next.phase, keys),
        after.keys == client.keys,
{
    if let (Phase::Ranking { available, .. }, Event::Ranked(ranks)) = (c.phase, event) {
        let key = next.phase->Sending_key@;
        let found = crate::client::views(available@);
        let best = choose|best: int| #[trigger]
            crate::client::is_first_highest(ranks@, best) && key == found[best];
        assert(found[best] == available@[best]@);
    }
}

/// Which keys are listed does not change by a step that sends listed keys only.
pub proof fn law_step_keeps_listed_keys(
    c: Compression,
    event: Event,
    client: TinifyClient,
    entries: Seq<(Seq<char>, Seq<u8>, u64)>,
    now: u64,
    step: Step,
    after: TinifyClient,
    entries_after: Seq<(Seq<char>, Seq<u8>, u64)>,
)
    requires
        steps(c, event, client, entries, now, step, after, entries_after),
        sends_within(c.phase, client.state.key_statuses@.dom()),
    ensures
        after.state.key_statuses@.dom() == client.state.key_statuses@.dom(),
{
    assert(after.state.key_statuses@.dom() =~= client.state.key_statuses@.dom());
}

/// Over any steps of any compressions that send listed keys only, exactly the listed keys stay.
pub proof fn law_history_keeps_listed_keys(history: Seq<TinifyClient>)
    requires
        history.len() > 0,
        is_within(history, history[0].state.key_statuses@.dom()),
    ensures
        history.last().state.key_statuses@.dom() == history[0].state.key_statuses@.dom(),
    decreases history.len(),
{
    let keys = history[0].state.key_statuses@.dom();
    if history.len() > 1 {
        let before = history.drop_last();
        assert forall|i: int| 0 <= i < before.len() - 1 implies follows_within(
            #[trigger] before[i],
            before[i + 1],
            keys,
        ) by {
            assert(history[i] == before[i] && history[i + 1] == before[i + 1]);
        }
        law_history_keeps_listed_keys(before);
        let n = history.len() - 2;
        assert(before.last() == history[n]);
        assert(follows_within(history[n], history[n + 1], keys));
        let (c, event, entries, now, step, entries_after) = choose|
            c: Compression,
            event: Event,
            entries: Seq<(Seq<char>, Seq<u8>, u64)>,
            now: u64,
            step: Step,
            entries_after: Seq<(Seq<char>, Seq<u8>, u64)>,
        | #[trigger]
            steps(c, event, history[n], entries, now, step, history[n + 1], entries_after)
                && sends_within(c.phase, keys);
        law_step_keeps_listed_keys(
            c,
            event,
            history[n],
            entries,
            now,
            step,
            history[n + 1],
            entries_after,
        );
    }
}

/// A success of a key is counted exactly when a downloaded image was written.
pub proof fn law_successes_counted(
    c: Compression,
    event: Event,
    client: TinifyClient,
    entries: Seq<(Seq<char>, Seq<u8>, u64)>,
    now: u64,
    step: Step,
    after: TinifyClient,
    entries_after: Seq<(Seq<char>, Seq<u8>, u64)>,
    key: Seq<char>,
)
    requires
        admitted(c, event, client),
        steps(c, event, client, entries, now, step, after, entries_after),
        client.key_stats@.dom().contains(key),
    ensures
        after.key_stats@.dom().contains(key),
        after.key_stats@[key].successes == client.key_stats@[key].successes + (if c.phase is Writing
            && event is Written && c.phase->Writing_key@ == key {
            1int
        } else {
            0int
        }),
{
}

/// What a step does with the cache: a downloaded image is kept, and nothing else is done.
pub open spec fn cache_uses(c: Compression, event: Event, now: u64) -> Seq<
    crate::cache::CacheUse,
> {
    match (c.phase, event) {
        (Phase::Downloading { .. }, Event::Downloaded(data)) => seq![
            crate::cache::CacheUse::Store { key: c.cache_key@, data: data@, time: now },
        ],
        _ => seq![],
    }
}

/// A compression changes the cache by one lookup of its image when it begins, and later by one
/// store under the same key at most.
pub proof fn law_compression_uses_cache(
    c: Compression,
    event: Event,
    client: TinifyClient,
    entries: Seq<(Seq<char>, Seq<u8>, u64)>,
    now: u64,
    step: Step,
    after: TinifyClient,
    entries_after: Seq<(Seq<char>, Seq<u8>, u64)>,
)
    requires
        steps(c, event, client, entries, now, step, after, entries_after),
    ensures
        entries_after == crate::cache::after_uses(
            entries,
            crate::cache::CACHE_LIMIT as nat,
            cache_uses(c, event, now),
        ),
{
    reveal_with_fuel(crate::cache::after_uses, 2);
    let uses = cache_uses(c, event, now);
    if uses.len() > 0 {
        assert(uses.drop_last() =~= Seq::empty());
    }
}

/// An image that was compressed is not sent again for an hour, whatever client it is compressed
/// with, as long as fewer other images than the cache holds are kept, or found in it, meanwhile:
/// what was downloaded for it is written, the result says so, and the client stays as it was.
pub proof fn law_compressed_image_is_kept(
    c: Compression,
    image: Seq<u8>,
    data: Vec<u8>,
    client: TinifyClient,
    entries: Seq<(Seq<char>, Seq<u8>, u64)>,
    now: u64,
    step: Step,
    after: TinifyClient,
    kept: Seq<(Seq<char>, Seq<u8>, u64)>,
    uses: Seq<crate::cache::CacheUse>,
    again: Compression,
    later_client: TinifyClient,
    later: u64,
    action: Action,
    client_at_end: TinifyClient,
    entries_at_end: Seq<(Seq<char>, Seq<u8>, u64)>,
    end: u64,
    last: Step,
    client_after: TinifyClient,
    entries_after: Seq<(Seq<char>, Seq<u8>, u64)>,
)
    requires
        crate::cache::distinct(entries),
        entries.len() <= crate::cache::CACHE_LIMIT,
        c.cache_key@ == crate::cache::key_of(image),
        c.phase is Downloading,
        steps(c, Event::Downloaded(data), client, entries, now, step, after, kept),
        crate::cache::never_stored(uses, crate::cache::key_of(image)),
        crate::cache::rivals(
            kept,
            crate::cache::CACHE_LIMIT as nat,
            uses,
            crate::cache::key_of(image),
        ).len() < crate::cache::CACHE_LIMIT,
        later - now < crate::cache::CACHE_LIFE,
        begins(
            image,
            later_client,
            crate::cache::after_uses(kept, crate::cache::CACHE_LIMIT as nat, uses),
            later,
            again.phase,
            action,
        ),
        steps(
            again,
            Event::Written,
            client_at_end,
            entries_at_end,
            end,
            last,
            client_after,
            entries_after,
        ),
    ensures
        action matches Action::Write(written) && written@ == data@,
        last matches Step::Done(r) && is_result(
            r,
            again,
            true,
            cached_message(),
            data@.len() as u64,
        ),
        data@.len() <= u64::MAX,
        client_after == client_at_end,
        entries_after == entries_at_end,
{
    let limit = crate::cache::CACHE_LIMIT as nat;
    crate::cache::law_stored_within_limit(entries, limit, c.cache_key@, data@, now);
    crate::cache::law_entry_survives(kept, limit, 0, uses, later);
}

/// An image is sent with a key that has credits left whenever a key of the client has some.
pub proof fn law_sent_with_credits(
    client: TinifyClient,
    credits: Map<Seq<char>, u32>,
    body: Seq<u8>,
    ranks: Seq<i64>,
    phase: Phase,
    action: Action,
)
    requires
        ranks.len() == crate::client::available(crate::client::views(client.keys@), credits).len(),
        sends(
            client,
            body,
            crate::client::available(crate::client::views(client.keys@), credits),
            ranks,
            phase,
            action,
        ),
        exists|k: Seq<char>| #[trigger]
            crate::client::views(client.keys@).contains(k) && crate::client::credits_of(credits, k)
                > 0,
    ensures
        crate::client::credits_of(credits, action->Post_key@) > 0,
        crate::client::views(client.keys@).contains(action->Post_key@),
        action->Post_body@ == body,
{
    crate::client::law_best_key_has_credits(
        crate::client::views(client.keys@),
        credits,
        ranks,
        action->Post_key@,
    );
}

/// The image is sent whole: whenever a compression that began with some data comes to send an image,
/// at once or after its keys were ranked, exactly that data is sent, byte for byte.
pub proof fn law_image_is_sent_whole(
    data: Seq<u8>,
    c: Compression,
    first: Action,
    ranks: Vec<i64>,
    client: TinifyClient,
    entries: Seq<(Seq<char>, Seq<u8>, u64)>,
    now: u64,
    later_client: TinifyClient,
    later_entries: Seq<(Seq<char>, Seq<u8>, u64)>,
    later: u64,
    step: Step,
    after: TinifyClient,
    entries_after: Seq<(Seq<char>, Seq<u8>, u64)>,
)
    requires
        begins(data, client, entries, now, c.phase, first),
    ensures
        first matches Action::Post { body, .. } ==> body@ == data,
        first is Rank ==> c.phase is Ranking,
        first is Post ==> c.phase is Sending,
        first is Write ==> c.phase is WritingCached,
        first is Post || first is Rank || first is Write,
        first is Rank && steps(
            c,
            Event::Ranked(ranks),
            later_client,
            later_entries,
            later,
            step,
            after,
            entries_after,
        ) ==> (step matches Step::Do(next, Action::Post { key, body }) && body@ == data && (
        next.phase matches Phase::Sending { key: with, .. } && with@ == key@)),
{
}

/// A compression that finds a kept image not older than an hour writes it and sends nothing; one
/// that finds none sends its own.
pub proof fn law_kept_image_is_written_instead(
    data: Seq<u8>,
    client: TinifyClient,
    entries: Seq<(Seq<char>, Seq<u8>, u64)>,
    i: int,
    now: u64,
    phase: Phase,
    action: Action,
)
    requires
        begins(data, client, entries, now, phase, action),
        crate::cache::distinct(entries),
    ensures
        0 <= i < entries.len() && entries[i].0 == crate::cache::key_of(data) && now - entries[i].2
            < 3600 * 1_000_000_000 ==> (action matches Action::Write(written) && written@
            == entries[i].1) && (phase matches Phase::WritingCached { size } && size
            == entries[i].1.len()),
        0 <= i < entries.len() && entries[i].0 == crate::cache::key_of(data) && now - entries[i].2
            >= 3600 * 1_000_000_000 ==> !(action is Write),
        (forall|j: int|
            0 <= j < entries.len() ==> (#[trigger] entries[j]).0 != crate::cache::key_of(data))
            ==> !(action is Write),
{
    crate::cache::law_entry_is_given_for_an_hour(entries, i, crate::cache::key_of(data), now);
}

/// Exactly the keys with credits are ranked, in the order of the client's keys, and each is ranked
/// by the credits that the client's state lists for it, by its successes, and by the whole seconds
/// for which it was not used. Without such a key the first key is sent, unranked.
pub proof fn law_keys_are_ranked_as_they_stand(
    data: Seq<u8>,
    client: TinifyClient,
    entries: Seq<(Seq<char>, Seq<u8>, u64)>,
    now: u64,
    phase: Phase,
    action: Action,
    i: int,
)
    requires
        begins(data, client, entries, now, phase, action),
    ensures
        action matches Action::Rank(standings) ==> {
            &&& phase matches Phase::Ranking { available, .. }
            &&& available@.len() == standings@.len()
            &&& available@.len() > 0
            &&& crate::client::views(available@) == crate::client::available(
                crate::client::views(client.keys@),
                client.state.key_statuses@,
            )
            &&& 0 <= i < standings@.len() ==> {
                let key = available@[i]@;
                let standing = standings@[i];
                &&& client.state.key_statuses@.dom().contains(key)
                &&& standing.credits == client.state.key_statuses@[key]
                &&& standing.credits > 0
                &&& client.key_stats@.dom().contains(key) ==> {
                    &&& standing.successes == client.key_stats@[key].successes
                    &&& client.key_stats@[key].last_used <= now ==> standing.idle_secs
                        * 1_000_000_000 <= now - client.key_stats@[key].last_used < (
                    standing.idle_secs + 1) * 1_000_000_000
                    &&& client.key_stats@[key].last_used > now ==> standing.idle_secs == 0
                }
                &&& !client.key_stats@.dom().contains(key) ==> standing.successes == 0
                    && standing.idle_secs == 0
            }
        },
        action matches Action::Post { key, .. } ==> {
            &&& phase matches Phase::Sending { key: with, active }
            &&& with@ == key@
            &&& active == crate::state::active_keys(client.state.key_statuses@).len()
            &&& crate::client::available(
                crate::client::views(client.keys@),
                client.state.key_statuses@,
            ).len() == 0
            &&& client.keys@.len() > 0 ==> key@ == client.keys@[0]@
            &&& client.keys@.len() == 0 ==> key@.len() == 0
        },
{
    let keys = crate::client::views(client.keys@);
    let credits = client.state.key_statuses@;
    let found = crate::client::available(keys, credits);
    let has_credits = |k: Seq<char>| crate::client::credits_of(credits, k) > 0;
    if let Phase::Ranking { available, .. } = phase {
        assert(available@.len() == crate::client::views(available@).len());
        if 0 <= i < available@.len() {
            broadcast use vstd::seq_lib::group_filter_ensures;

            assert(crate::client::views(available@)[i] == found[i]);
            assert(has_credits(found[i]));
            crate::client::law_standing_is_as_known(credits, client.key_stats@, found[i], now);
        }
    }
}

/// The ranks decide: the image is sent with the first of the keys that rank highest, when as many
/// keys are active as have credits in the client's state.
pub proof fn law_highest_ranked_key_is_sent(
    c: Compression,
    ranks: Vec<i64>,
    i: int,
    client: TinifyClient,
    entries: Seq<(Seq<char>, Seq<u8>, u64)>,
    now: u64,
    step: Step,
    after: TinifyClient,
    entries_after: Seq<(Seq<char>, Seq<u8>, u64)>,
)
    requires
        steps(c, Event::Ranked(ranks), client, entries, now, step, after, entries_after),
        c.phase matches Phase::Ranking { available, .. } && available@.len() == ranks@.len(),
        0 <= i < ranks@.len(),
        forall|j: int| 0 <= j < ranks@.len() ==> #[trigger] ranks@[j] <= ranks@[i],
        forall|j: int| 0 <= j < i ==> #[trigger] ranks@[j] < ranks@[i],
    ensures
        step matches Step::Do(next, Action::Post { key, body }) && key@
            == c.phase->Ranking_available@[i]@ && body@ == c.phase->Ranking_body@ && (
        next.phase matches Phase::Sending { key: with, active } && with@ == key@ && active
            == crate::state::active_keys(client.state.key_statuses@).len()),
        after == client,
        entries_after == entries,
{
    if let Step::Do(next, Action::Post { key, .. }) = step {
        crate::client::law_highest_rank_is_taken(
            crate::client::views(client.keys@),
            crate::client::views(c.phase->Ranking_available@),
            ranks@,
            key@,
            i,
        );
    }
}

/// What the head of a reply leads to, by its status: 429 and 401 end the compression and leave the
/// key without credits, a status from 200 to 299 goes on to the body, and any other one to the
/// text that explains it, with the keys as they were.
pub proof fn law_status_decides(
    c: Compression,
    reply: Reply,
    client: TinifyClient,
    entries: Seq<(Seq<char>, Seq<u8>, u64)>,
    now: u64,
    step: Step,
    after: TinifyClient,
    entries_after: Seq<(Seq<char>, Seq<u8>, u64)>,
)
    requires
        steps(c, Event::Replied(reply), client, entries, now, step, after, entries_after),
        c.phase is Sending,
    ensures
        entries_after == entries,
        after.keys == client.keys,
        after.key_stats == client.key_stats,
        after.state.metadata == client.state.metadata,
        reply.status == 429 ==> {
            &&& step matches Step::Done(r)
            &&& r.path == c.path && !r.ok
            &&& r.original_size == c.original_size && r.compressed_size == 0
            &&& r.msg@ == "额度耗尽，已移除该 key，剩余可用 key: "@ + crate::text::decimal(
                (c.phase->Sending_active - 1) as nat,
            )
            &&& after.state.key_statuses@ == client.state.key_statuses@.insert(
                c.phase->Sending_key@,
                0,
            )
        },
        reply.status == 401 ==> {
            &&& step matches Step::Done(r)
            &&& r.path == c.path && !r.ok
            &&& r.original_size == c.original_size && r.compressed_size == 0
            &&& r.msg@ == "密钥无效，已移除该 key，剩余可用 key: "@ + crate::text::decimal(
                (c.phase->Sending_active - 1) as nat,
            )
            &&& after.state.key_statuses@ == client.state.key_statuses@.insert(
                c.phase->Sending_key@,
                0,
            )
        },
        200 <= reply.status < 300 ==> {
            &&& step matches Step::Do(next, Action::Decode)
            &&& next.path == c.path && next.original_size == c.original_size
            &&& next.cache_key@ == c.cache_key@
            &&& next.phase matches Phase::Decoding { key, .. }
            &&& key@ == c.phase->Sending_key@
            &&& after.state.key_statuses@.dom() == client.state.key_statuses@.dom()
        },
        !(200 <= reply.status < 300) && reply.status != 429 && reply.status != 401 ==> {
            &&& step matches Step::Do(next, Action::ReadBody)
            &&& next.path == c.path && next.original_size == c.original_size
            &&& next.phase matches Phase::Explaining { key, status }
            &&& key@ == c.phase->Sending_key@
            &&& status == reply.status
            &&& after == client
        },
{
    if 200 <= reply.status < 300 {
        assert(after.state.key_statuses@.dom() =~= client.state.key_statuses@.dom());
    }
}

/// A key refuses with 429 and 401 and with no other status.
pub proof fn law_refusing_statuses(status: u16)
    ensures
        is_refusal(status) <==> status == 429 || status == 401,
{
}

/// The count that a successful reply reports and the credits that are noted make up 500, or the
/// credits are none where the count is larger. The count is the value of the header's decimal
/// digits, with or without a plus sign; digits that are worth more than 32 bits hold report none.
pub proof fn law_count_and_credits_make_500(
    c: Compression,
    reply: Reply,
    digits: Seq<u8>,
    count: int,
    client: TinifyClient,
    entries: Seq<(Seq<char>, Seq<u8>, u64)>,
    now: u64,
    step: Step,
    after: TinifyClient,
    entries_after: Seq<(Seq<char>, Seq<u8>, u64)>,
)
    requires
        steps(c, Event::Replied(reply), client, entries, now, step, after, entries_after),
        c.phase is Sending,
        200 <= reply.status < 300,
        reply.compression_count matches Some(header) && (header@ == digits || header@ == seq![43u8]
            + digits),
        digits.len() > 0,
        forall|i: int| 0 <= i < digits.len() ==> 48 <= #[trigger] digits[i] <= 57,
        count == digits.fold_left(0int, |v: int, b: u8| v * 10 + (b - 48)),
    ensures
        step matches Step::Do(next, Action::Decode) && (next.phase matches Phase::Decoding {
            credits,
            ..
        } && {
            &&& 0 <= count <= 500 ==> credits + count == 500
            &&& 500 < count <= 0xffff_ffff ==> credits == 0
            &&& count > 0xffff_ffff ==> credits == 500
        }),
        client.state.key_statuses@.dom().contains(c.phase->Sending_key@) ==> {
            let credits = after.state.key_statuses@[c.phase->Sending_key@];
            &&& after.state.key_statuses@.dom().contains(c.phase->Sending_key@)
            &&& 0 <= count <= 500 ==> credits + count == 500
            &&& 500 < count <= 0xffff_ffff ==> credits == 0
            &&& count > 0xffff_ffff ==> credits == 500
        },
{
    crate::text::law_parsed_value(digits);
    assert(digits[0] != 43);
}

/// A successful reply without a count, or with one that is no number, leaves a key 500 credits; a
/// key that is not listed stays out, and the other keys keep what they have.
pub proof fn law_reply_without_a_count(
    c: Compression,
    reply: Reply,
    other: Seq<char>,
    client: TinifyClient,
    entries: Seq<(Seq<char>, Seq<u8>, u64)>,
    now: u64,
    step: Step,
    after: TinifyClient,
    entries_after: Seq<(Seq<char>, Seq<u8>, u64)>,
)
    requires
        steps(c, Event::Replied(reply), client, entries, now, step, after, entries_after),
        c.phase is Sending,
        200 <= reply.status < 300,
    ensures
        (reply.compression_count matches Some(header) ==> crate::text::parsed_u32(header@) is None)
            ==> (step matches Step::Do(next, _) && (next.phase matches Phase::Decoding {
            credits,
            ..
        } && credits == 500)) && (client.state.key_statuses@.dom().contains(c.phase->Sending_key@)
            ==> after.state.key_statuses@[c.phase->Sending_key@] == 500),
        after.state.key_statuses@.dom().contains(other)
            == client.state.key_statuses@.dom().contains(other),
        other != c.phase->Sending_key@ && client.state.key_statuses@.dom().contains(other)
            ==> after.state.key_statuses@[other] == client.state.key_statuses@[other],
{
}

/// What the service made of an image is downloaded from the address that it gave.
pub proof fn law_output_is_downloaded(
    c: Compression,
    output: Output,
    client: TinifyClient,
    entries: Seq<(Seq<char>, Seq<u8>, u64)>,
    now: u64,
    step: Step,
    after: TinifyClient,
    entries_after: Seq<(Seq<char>, Seq<u8>, u64)>,
)
    requires
        steps(c, Event::Decoded(output), client, entries, now, step, after, entries_after),
    ensures
        c.phase is Decoding,
        step matches Step::Do(next, Action::Download(url)) && url@ == output.url@ && next.path
            == c.path && next.original_size == c.original_size && next.cache_key@ == c.cache_key@
            && (next.phase matches Phase::Downloading { key, credits, output: o } && key@
            == c.phase->Decoding_key@ && credits == c.phase->Decoding_credits && o == output),
        after == client,
        entries_after == entries,
{
}

/// What was downloaded is written to the file as it is, and the same is kept under the key of the
/// image, as of now.
pub proof fn law_download_is_written_and_kept(
    c: Compression,
    data: Vec<u8>,
    client: TinifyClient,
    entries: Seq<(Seq<char>, Seq<u8>, u64)>,
    now: u64,
    step: Step,
    after: TinifyClient,
    entries_after: Seq<(Seq<char>, Seq<u8>, u64)>,
)
    requires
        steps(c, Event::Downloaded(data), client, entries, now, step, after, entries_after),
    ensures
        c.phase is Downloading,
        step matches Step::Do(next, Action::Write(written)) && written@ == data@ && next.path
            == c.path && next.original_size == c.original_size && (
        next.phase matches Phase::Writing { key, credits, output } && key@
            == c.phase->Downloading_key@ && credits == c.phase->Downloading_credits && output
            == c.phase->Downloading_output),
        entries_after.len() > 0,
        entries_after[0] == (c.cache_key@, data@, now),
        after == client,
{
}

/// Once it was written, an image counts as compressed: the result has the sizes before and after
/// and says what was saved and what the key has left, and the key has one success more.
pub proof fn law_written_image_is_reported(
    c: Compression,
    client: TinifyClient,
    entries: Seq<(Seq<char>, Seq<u8>, u64)>,
    now: u64,
    step: Step,
    after: TinifyClient,
    entries_after: Seq<(Seq<char>, Seq<u8>, u64)>,
)
    requires
        steps(c, Event::Written, client, entries, now, step, after, entries_after),
    ensures
        entries_after == entries,
        after.state == client.state,
        after.keys == client.keys,
        c.phase matches Phase::Writing { key, credits, output } ==> {
            &&& step matches Step::Done(r)
            &&& r.path == c.path && r.ok
            &&& r.original_size == c.original_size && r.compressed_size == output.size
            &&& r.msg@ == "压缩成功: "@ + crate::text::decimal(c.original_size as nat) + " → "@
                + crate::text::decimal(output.size as nat) + " (节省 "@ + output.saved_percent@
                + "%)，剩余额度: "@ + crate::text::decimal(credits as nat)
            &&& after.key_stats@ == crate::client::stats_after(client.key_stats@, key@, true, now)
        },
        c.phase matches Phase::WritingCached { size } ==> {
            &&& step matches Step::Done(r)
            &&& r.path == c.path && r.ok
            &&& r.original_size == c.original_size && r.compressed_size == size
            &&& r.msg@ == "压缩成功 (来自缓存)"@
            &&& after == client
        },
{
}

/// An unexpected reply ends in a result that is no success and gives its status and text, or no
/// text where none could be read; the key was used without a success.
pub proof fn law_unexpected_reply_is_explained(
    c: Compression,
    event: Event,
    text: Seq<char>,
    client: TinifyClient,
    entries: Seq<(Seq<char>, Seq<u8>, u64)>,
    now: u64,
    step: Step,
    after: TinifyClient,
    entries_after: Seq<(Seq<char>, Seq<u8>, u64)>,
)
    requires
        steps(c, event, client, entries, now, step, after, entries_after),
        c.phase is Explaining,
        event matches Event::Body(body) && body@ == text || event is Failed && text.len() == 0,
    ensures
        step matches Step::Done(r) && r.path == c.path && !r.ok && r.original_size
            == c.original_size && r.compressed_size == 0 && r.msg@ == "HTTP "@ + status_line_of(
            c.phase->Explaining_status,
        ) + ": "@ + text && ("HTTP "@ + crate::text::decimal(c.phase->Explaining_status as nat)
            + seq![' ']).is_prefix_of(r.msg@),
        after.key_stats@ == crate::client::stats_after(
            client.key_stats@,
            c.phase->Explaining_key@,
            false,
            now,
        ),
        after.state == client.state,
        after.keys == client.keys,
        entries_after == entries,
{
    if event is Failed {
        assert(text =~= seq![]);
    }
}

/// A service that cannot be reached ends in a result that is no success and gives the reason; the
/// key was used without a success.
pub proof fn law_unreachable_service_is_reported(
    c: Compression,
    error: String,
    client: TinifyClient,
    entries: Seq<(Seq<char>, Seq<u8>, u64)>,
    now: u64,
    step: Step,
    after: TinifyClient,
    entries_after: Seq<(Seq<char>, Seq<u8>, u64)>,
)
    requires
        steps(c, Event::Unreachable(error), client, entries, now, step, after, entries_after),
    ensures
        c.phase is Sending,
        step matches Step::Done(r) && r.path == c.path && !r.ok && r.original_size
            == c.original_size && r.compressed_size == 0 && r.msg@ == "网络错误: "@ + error@,
        after.key_stats@ == crate::client::stats_after(
            client.key_stats@,
            c.phase->Sending_key@,
            false,
            now,
        ),
        after.state == client.state,
        after.keys == client.keys,
        entries_after == entries,
{
}

/// What could not be written, decoded, downloaded or read to its end is what is said to have failed.
pub proof fn law_failure_names_what_failed(
    c: Compression,
    event: Event,
    client: TinifyClient,
    entries: Seq<(Seq<char>, Seq<u8>, u64)>,
    now: u64,
    step: Step,
    after: TinifyClient,
    entries_after: Seq<(Seq<char>, Seq<u8>, u64)>,
)
    requires
        steps(c, event, client, entries, now, step, after, entries_after),
        event is Failed || event is Interrupted,
        !(c.phase is Explaining),
    ensures
        step matches Step::Failed(failure) && {
            &&& c.phase is Writing || c.phase is WritingCached ==> failure.words() == "写入文件失败"@
            &&& c.phase is Decoding ==> failure.words() == "解析Tinify响应失败"@
            &&& event is Interrupted ==> c.phase is Downloading && failure.words()
                == "获取压缩图片数据失败"@
            &&& c.phase is Downloading && event is Failed ==> failure.words() == "下载压缩图片失败"@
        },
        step matches Step::Failed(failure) ==> {
            &&& c.phase is Writing || c.phase is WritingCached ==> failure == Failure::Write
            &&& c.phase is Decoding ==> failure == Failure::Decode
            &&& event is Interrupted ==> failure == Failure::Fetch
            &&& c.phase is Downloading && event is Failed ==> failure == Failure::Download
        },
        after == client,
        entries_after == entries,
{
}

/// Everything that an action can lead to is taken: a compression can take each event of its phase,
/// but for ranks that are not as many as the keys, a status that is none, a refusal when no key
/// was active, and a success that can be counted no more.
pub proof fn law_events_of_a_compression(c: Compression, event: Event, client: TinifyClient)
    ensures
        admitted(c, event, client) <==> {
            ||| c.phase is WritingCached && (event is Written || event is Failed)
            ||| c.phase is Ranking && (event matches Event::Ranked(ranks) && ranks@.len()
                == c.phase->Ranking_available@.len())
            ||| c.phase is Sending && event is Unreachable
            ||| c.phase is Sending && (event matches Event::Replied(reply) && 100 <= reply.status
                <= 999 && (reply.status == 429 || reply.status == 401 ==> c.phase->Sending_active
                > 0))
            ||| c.phase is Decoding && (event is Decoded || event is Failed)
            ||| c.phase is Downloading && (event is Downloaded || event is Failed || event
                is Interrupted)
            ||| c.phase is Writing && event is Failed
            ||| c.phase is Writing && event is Written && crate::client::can_count(
                client.key_stats@,
                c.phase->Writing_key@,
            )
            ||| c.phase is Explaining && (event is Body || event is Failed) && 100
                <= c.phase->Explaining_status <= 999
        },
{
}

/// Where images are sent to, and under which name.
pub proof fn law_address_of_the_service()
    ensures
        SHRINK_URL@ == "https://api.tinify.com/shrink"@,
        API_USER@ == "api"@,
{
}

} // verus!
