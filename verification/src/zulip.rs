//! The Zulip bridge: its state and every decision it takes, with the HTTP
//! traffic and the worker thread left to the caller.
use vstd::prelude::*;
use base64::Engine;
use chrono::TimeZone;
use crate::keyed::{
    distinct_keys, key_index, lemma_key_index, lemma_put_distinct, lemma_without_distinct, lookup,
    position_of_key, put, put_exec, remove_key, without,
};
use crate::links::{extract_image_urls, image_scan, image_scan_safe};
use crate::gui::{lemma_filter_none, lemma_filter_push};
use crate::text::{
    lemma_seq_lt_asymmetric, lemma_seq_lt_irreflexive, lemma_seq_lt_total, lemma_seq_lt_transitive, seq_lt, string_lt,
    views, chars_of, clone_strings, concat_chars, i64_decimal, decimal_of, string_from_chars, string_of,
    trim_end_char,
};

verus! {

/// One chat message.
#[derive(Debug, Clone)]
pub struct ZulipMessage {
    pub id: u64,
    pub sender: String,
    pub content: String,
    pub time: String,
    pub stream: String,
    pub topic: String,
    pub image_urls: Vec<String>,
}

/// A message as plain values.
pub struct MessageView {
    pub id: u64,
    pub sender: Seq<char>,
    pub content: Seq<char>,
    pub time: Seq<char>,
    pub stream: Seq<char>,
    pub topic: Seq<char>,
    pub image_urls: Seq<Seq<char>>,
}

impl View for ZulipMessage {
    type V = MessageView;

    open spec fn view(&self) -> MessageView {
        MessageView {
            id: self.id,
            sender: self.sender@,
            content: self.content@,
            time: self.time@,
            stream: self.stream@,
            topic: self.topic@,
            image_urls: views(self.image_urls@),
        }
    }
}

/// The views of a sequence of messages.
pub open spec fn message_views(s: Seq<ZulipMessage>) -> Seq<MessageView> {
    s.map_values(|m: ZulipMessage| m@)
}

impl ZulipMessage {
    /// A field-by-field copy.
    pub fn copy(&self) -> (r: Self)
        ensures
            r@ == self@,
    {
        let r = ZulipMessage {
            id: self.id,
            sender: self.sender.clone(),
            content: self.content.clone(),
            time: self.time.clone(),
            stream: self.stream.clone(),
            topic: self.topic.clone(),
            image_urls: clone_strings(&self.image_urls),
        };
        r
    }
}

/// A stream the user is subscribed to, with its topics once fetched.
#[derive(Debug, Clone)]
pub struct ZulipChannel {
    pub stream_id: u64,
    pub name: String,
    pub topics: Vec<String>,
    pub topics_loaded: bool,
}

/// A channel as plain values.
pub struct ChannelView {
    pub stream_id: u64,
    pub name: Seq<char>,
    pub topics: Seq<Seq<char>>,
    pub topics_loaded: bool,
}

impl View for ZulipChannel {
    type V = ChannelView;

    open spec fn view(&self) -> ChannelView {
        ChannelView {
            stream_id: self.stream_id,
            name: self.name@,
            topics: views(self.topics@),
            topics_loaded: self.topics_loaded,
        }
    }
}

/// The views of a sequence of channels.
pub open spec fn channel_views(s: Seq<ZulipChannel>) -> Seq<ChannelView> {
    s.map_values(|c: ZulipChannel| c@)
}

impl ZulipChannel {
    /// A field-by-field copy.
    pub fn copy(&self) -> (r: Self)
        ensures
            r@ == self@,
    {
        ZulipChannel {
            stream_id: self.stream_id,
            name: self.name.clone(),
            topics: clone_strings(&self.topics),
            topics_loaded: self.topics_loaded,
        }
    }
}

/// The connection settings of the bridge. The poll interval, a number of
/// seconds, is kept by the caller beside it.
#[derive(Debug, Clone)]
pub struct ZulipConfig {
    pub enabled: bool,
    pub url: String,
    pub email: String,
    pub api_key: String,
    pub stream: String,
    pub topic: String,
}

/// The settings as plain values.
pub struct ConfigView {
    pub enabled: bool,
    pub url: Seq<char>,
    pub email: Seq<char>,
    pub api_key: Seq<char>,
    pub stream: Seq<char>,
    pub topic: Seq<char>,
}

impl View for ZulipConfig {
    type V = ConfigView;

    open spec fn view(&self) -> ConfigView {
        ConfigView {
            enabled: self.enabled,
            url: self.url@,
            email: self.email@,
            api_key: self.api_key@,
            stream: self.stream@,
            topic: self.topic@,
        }
    }
}

impl ZulipConfig {
    /// The default settings: disabled, every text empty.
    pub fn new() -> (r: Self)
        ensures
            !r.enabled,
            r.url@.len() == 0,
            r.email@.len() == 0,
            r.api_key@.len() == 0,
            r.stream@.len() == 0,
            r.topic@.len() == 0,
    {
        ZulipConfig {
            enabled: false,
            url: String::new(),
            email: String::new(),
            api_key: String::new(),
            stream: String::new(),
            topic: String::new(),
        }
    }

    /// A field-by-field copy.
    pub fn copy(&self) -> (r: Self)
        ensures
            r@ == self@,
    {
        ZulipConfig {
            enabled: self.enabled,
            url: self.url.clone(),
            email: self.email.clone(),
            api_key: self.api_key.clone(),
            stream: self.stream.clone(),
            topic: self.topic.clone(),
        }
    }

    /// The settings with each field that a script gives replaced, the
    /// others kept.
    pub fn overridden(
        &self,
        enabled: Option<bool>,
        url: Option<String>,
        email: Option<String>,
        api_key: Option<String>,
        stream: Option<String>,
        topic: Option<String>,
    ) -> (r: Self)
        ensures
            r.enabled == match enabled {
                Some(e) => e,
                None => self.enabled,
            },
            r.url@ == match url {
                Some(u) => u@,
                None => self.url@,
            },
            r.email@ == match email {
                Some(e) => e@,
                None => self.email@,
            },
            r.api_key@ == match api_key {
                Some(k) => k@,
                None => self.api_key@,
            },
            r.stream@ == match stream {
                Some(s) => s@,
                None => self.stream@,
            },
            r.topic@ == match topic {
                Some(t) => t@,
                None => self.topic@,
            },
    {
        ZulipConfig {
            enabled: match enabled {
                Some(e) => e,
                None => self.enabled,
            },
            url: match url {
                Some(u) => u,
                None => self.url.clone(),
            },
            email: match email {
                Some(e) => e,
                None => self.email.clone(),
            },
            api_key: match api_key {
                Some(k) => k,
                None => self.api_key.clone(),
            },
            stream: match stream {
                Some(s) => s,
                None => self.stream.clone(),
            },
            topic: match topic {
                Some(t) => t,
                None => self.topic.clone(),
            },
        }
    }
}

/// Where the fetch of an image stands.
#[derive(Debug, Clone, Copy, PartialEq, Eq, Structural)]
pub enum CachedImage {
    Loading,
    Ready,
    Failed,
}

/// RGBA bytes decoded and ready for GPU upload by the render thread.
pub struct DecodedImage {
    pub pixels: Vec<u8>,
    pub width: usize,
    pub height: usize,
}

/// The largest width and height of a decoded thumbnail.
pub const THUMBNAIL_SIZE: u32 = 256;

/// A decoded image fit for upload: four bytes a pixel, at most
/// `THUMBNAIL_SIZE` by `THUMBNAIL_SIZE` pixels.
pub open spec fn fits_thumbnail(d: DecodedImage) -> bool {
    &&& d.width <= THUMBNAIL_SIZE
    &&& d.height <= THUMBNAIL_SIZE
    &&& d.pixels@.len() == 4 * d.width * d.height
}

/// Every image of `e` is fit for upload.
pub open spec fn all_fit(e: Seq<(String, DecodedImage)>) -> bool {
    forall|i: int| 0 <= i < e.len() ==> fits_thumbnail(#[trigger] e[i].1)
}

proof fn lemma_put_fits(e: Seq<(String, DecodedImage)>, k: String, d: DecodedImage)
    requires
        all_fit(e),
        fits_thumbnail(d),
    ensures
        all_fit(put(e, k, d)),
{
    lemma_key_index(e, k@);
    let p = put(e, k, d);
    assert forall|i: int| 0 <= i < p.len() implies fits_thumbnail(#[trigger] p[i].1) by {
        match key_index(e, k@) {
            Some(j) => {
                if i != j {
                    assert(p[i] == e[i]);
                }
            },
            None => {
                if i < e.len() {
                    assert(p[i] == e[i]);
                }
            },
        }
    }
}

/// Decoded images waiting for the render thread, by URL.
pub struct DecodedImages {
    pub entries: Vec<(String, DecodedImage)>,
}

impl DecodedImages {
    /// Every waiting image is fit for upload.
    pub open spec fn wf(&self) -> bool {
        all_fit(self.entries@)
    }

    /// No image waits.
    pub fn new() -> (r: Self)
        ensures
            r.wf(),
            r.entries@.len() == 0,
    {
        DecodedImages { entries: Vec::new() }
    }

    /// Stores the image decoded from `url`, replacing an earlier one.
    pub fn insert(&mut self, url: String, image: DecodedImage)
        requires
            old(self).wf(),
            fits_thumbnail(image),
        ensures
            final(self).wf(),
            final(self).entries@ == put(old(self).entries@, url, image),
    {
        proof {
            lemma_put_fits(self.entries@, url, image);
        }
        put_exec(&mut self.entries, url, image);
    }

    /// Hands out every waiting image, leaving none. Each is fit for upload.
    pub fn take_decoded_images(&mut self) -> (r: Vec<(String, DecodedImage)>)
        requires
            old(self).wf(),
        ensures
            final(self).wf(),
            r@ == old(self).entries@,
            all_fit(r@),
            final(self).entries@.len() == 0,
    {
        let mut out: Vec<(String, DecodedImage)> = Vec::new();
        std::mem::swap(&mut out, &mut self.entries);
        out
    }
}

/// The character of the standard base64 alphabet for a six-bit value.
pub open spec fn base64_digit(v: int) -> char {
    if v < 26 {
        (65 + v) as char
    } else if v < 52 {
        (97 + v - 26) as char
    } else if v < 62 {
        (48 + v - 52) as char
    } else if v == 62 {
        '+'
    } else {
        '/'
    }
}

/// Base64 of bytes (RFC 4648, standard alphabet, padded with `=`): each
/// group of three bytes becomes four characters; a last group of one or
/// two bytes becomes two or three characters and the padding.
pub open spec fn base64_bytes(b: Seq<u8>) -> Seq<char>
    decreases b.len(),
{
    if b.len() == 0 {
        Seq::empty()
    } else {
        let x = b[0] as int;
        let y = if b.len() > 1 { b[1] as int } else { 0 };
        let z = if b.len() > 2 { b[2] as int } else { 0 };
        let c0 = base64_digit(x / 4);
        let c1 = base64_digit((x % 4) * 16 + y / 16);
        let c2 = base64_digit((y % 16) * 4 + z / 64);
        let c3 = base64_digit(z % 64);
        if b.len() == 1 {
            seq![c0, c1, '=', '=']
        } else if b.len() == 2 {
            seq![c0, c1, c2, '=']
        } else {
            seq![c0, c1, c2, c3] + base64_bytes(b.subrange(3, b.len() as int))
        }
    }
}

/// What `base64::engine::general_purpose::STANDARD.encode` makes of the
/// UTF-8 bytes of a text (padded standard alphabet).
pub open spec fn standard_base64(text: Seq<char>) -> Seq<char> {
    base64_bytes(vstd::utf8::encode_utf8(text))
}

/// `STANDARD.encode` from the `base64` crate. Its length computation
/// overflows, and the call panics, only for inputs of more than three
/// quarters of the address space; the bound below rules them out.
#[verifier::external_body]
fn base64_standard(text: &str) -> (r: String)
    requires
        text@.len() <= usize::MAX / 8,
    ensures
        r@ == standard_base64(text@),
{
    base64::engine::general_purpose::STANDARD.encode(text)
}

/// A byte that `urlencoding` leaves as it is: ASCII letters and digits and `-._~`.
pub open spec fn is_unreserved(b: u8) -> bool {
    ||| 0x30 <= b <= 0x39
    ||| 0x41 <= b <= 0x5a
    ||| 0x61 <= b <= 0x7a
    ||| b == 0x2d
    ||| b == 0x2e
    ||| b == 0x5f
    ||| b == 0x7e
}

/// Upper-case hexadecimal digit.
pub open spec fn hex_digit(d: u8) -> char {
    if d < 10 {
        ((d + 48) as u8) as char
    } else {
        ((d + 55) as u8) as char
    }
}

/// Percent-encoding of bytes: unreserved bytes stay, every other byte
/// becomes `%` and two upper-case hexadecimal digits.
pub open spec fn percent_encode(b: Seq<u8>) -> Seq<char>
    decreases b.len(),
{
    if b.len() == 0 {
        seq![]
    } else {
        let x = b[0];
        (if is_unreserved(x) {
            seq![x as char]
        } else {
            seq!['%', hex_digit(x / 16), hex_digit(x % 16)]
        }) + percent_encode(b.drop_first())
    }
}

/// `urlencoding::encode`: percent-encodes the UTF-8 bytes of `s`.
#[verifier::external_body]
fn url_encode(s: &str) -> (r: String)
    ensures
        r@ == percent_encode(vstd::utf8::encode_utf8(s@)),
{
    urlencoding::encode(s).into_owned()
}

/// Lower-case hexadecimal digit.
pub open spec fn hex_lower(d: u32) -> char {
    if d < 10 {
        ((d + 48) as u8) as char
    } else {
        ((d + 87) as u8) as char
    }
}

/// How JSON writes character `c` inside a string: `"` and `\` escaped,
/// the control characters by their short escapes or as `\u00XX` with
/// lower-case digits, every other character as itself.
pub open spec fn json_escape(c: char) -> Seq<char> {
    let u = c as u32;
    if c == '"' {
        seq!['\\', '"']
    } else if c == '\\' {
        seq!['\\', '\\']
    } else if u == 8 {
        seq!['\\', 'b']
    } else if u == 9 {
        seq!['\\', 't']
    } else if u == 10 {
        seq!['\\', 'n']
    } else if u == 12 {
        seq!['\\', 'f']
    } else if u == 13 {
        seq!['\\', 'r']
    } else if u < 0x20 {
        seq!['\\', 'u', '0', '0', hex_lower(u / 16), hex_lower(u % 16)]
    } else {
        seq![c]
    }
}

/// The characters of `s`, each as JSON writes it inside a string.
pub open spec fn json_escape_all(s: Seq<char>) -> Seq<char>
    decreases s.len(),
{
    if s.len() == 0 {
        Seq::empty()
    } else {
        json_escape_all(s.drop_last()) + json_escape(s.last())
    }
}

/// `s` as a JSON string: quoted, its characters escaped.
pub open spec fn json_quoted(s: Seq<char>) -> Seq<char> {
    seq!['"'] + json_escape_all(s) + seq!['"']
}

/// `serde_json::to_string` on a string: the string written as JSON, which
/// for a string cannot fail (it is written into memory).
#[verifier::external_body]
fn json_string(s: &str) -> (r: String)
    ensures
        r@ == json_quoted(s@),
{
    match serde_json::to_string(s) {
        Ok(t) => t,
        Err(_) => String::new(),
    }
}

/// The filter of a history request: the stream, then the topic, each as a
/// JSON object with the keys in order (`operand`, `operator`).
pub open spec fn narrow_spec(stream: Seq<char>, topic: Seq<char>) -> Seq<char> {
    "[{\"operand\":"@ + json_quoted(stream) + ",\"operator\":\"stream\"},{\"operand\":"@
        + json_quoted(topic) + ",\"operator\":\"topic\"}]"@
}

/// The filter of a history request for (`stream`, `topic`).
pub fn narrow_filter(stream: &str, topic: &str) -> (r: String)
    ensures
        r@ == narrow_spec(stream@, topic@),
{
    let a = join("[{\"operand\":", json_string(stream).as_str());
    let b = join(a.as_str(), ",\"operator\":\"stream\"},{\"operand\":");
    let c = join(b.as_str(), json_string(topic).as_str());
    join(c.as_str(), ",\"operator\":\"topic\"}]")
}

/// The request for the newest fifty messages of (`stream`, `topic`).
pub fn history_url(base: &str, stream: &str, topic: &str) -> (r: String)
    ensures
        r@ == base@ + "/api/v1/messages?anchor=newest&num_before=50&num_after=0&narrow="@
            + percent_encode(vstd::utf8::encode_utf8(narrow_spec(stream@, topic@))),
{
    let narrow = narrow_filter(stream, topic);
    let a = join(base, "/api/v1/messages?anchor=newest&num_before=50&num_after=0&narrow=");
    join(a.as_str(), url_encode(narrow.as_str()).as_str())
}

/// The request for the user's subscriptions.
pub fn subscriptions_url(base: &str) -> (r: String)
    ensures
        r@ == base@ + "/api/v1/users/me/subscriptions"@,
{
    join(base, "/api/v1/users/me/subscriptions")
}

/// The request for the topics of stream `stream_id`.
pub fn topics_url(base: &str, stream_id: u64) -> (r: String)
    ensures
        r@ == base@ + "/api/v1/users/me/"@ + crate::text::digits_of(stream_id as nat) + "/topics"@,
{
    let a = join(base, "/api/v1/users/me/");
    let d = string_from_chars(crate::text::u64_digits(stream_id));
    let b = join(a.as_str(), d.as_str());
    join(b.as_str(), "/topics")
}

/// Two decimal digits below `limit`.
pub open spec fn two_digits_below(a: char, b: char, limit: int) -> bool {
    &&& '0' <= a <= '9'
    &&& '0' <= b <= '9'
    &&& (a as int - 48) * 10 + (b as int - 48) < limit
}

/// A wall-clock time `HH:MM`, hours 00 to 23, minutes 00 to 59.
pub open spec fn is_clock_text(s: Seq<char>) -> bool {
    &&& s.len() == 5
    &&& two_digits_below(s[0], s[1], 24)
    &&& s[2] == ':'
    &&& two_digits_below(s[3], s[4], 60)
}

/// A time format of `strftime` specifiers that cannot fail: each `%` is
/// followed by `H`, `M` or `S`.
pub open spec fn simple_time_format(f: Seq<char>) -> bool {
    forall|i: int|
        0 <= i < f.len() && #[trigger] f[i] == '%' ==> i + 1 < f.len() && (f[i + 1] == 'H' || f[i
            + 1] == 'M' || f[i + 1] == 'S')
}

/// The format of a wall-clock time, hours and minutes.
pub open spec fn clock_format() -> Seq<char> {
    "%H:%M"@
}

/// The timestamps, in seconds, that lie well within the dates chrono can
/// represent (about 253,000 years either side of 1970).
pub open spec fn representable_timestamp(ts: i64) -> bool {
    -8_000_000_000_000 <= ts <= 8_000_000_000_000
}

/// `chrono::Local.timestamp_opt(ts, 0)`, formatted with `fmt` when it is a
/// single local time. chrono documents that `timestamp_opt` gives a single
/// time for every timestamp in range; which time it is depends on the
/// machine's time zone, so with `%H:%M` only the form of the text is
/// stated. Left unsaid: chrono panics if the machine's time-zone data has
/// no offset for the instant.
#[verifier::external_body]
fn local_clock(ts: i64, fmt: &str) -> (r: Option<String>)
    requires
        simple_time_format(fmt@),
    ensures
        representable_timestamp(ts) ==> r is Some,
        fmt@ == clock_format() ==> (r matches Some(s) ==> is_clock_text(s@)),
{
    match chrono::Local.timestamp_opt(ts, 0).single() {
        Some(dt) => Some(dt.format(fmt).to_string()),
        None => None,
    }
}

/// The text `??:??`.
pub open spec fn unknown_time() -> Seq<char> {
    seq!['?', '?', ':', '?', '?']
}

/// The local wall-clock time of a UNIX timestamp, `HH:MM`, or `??:??` when
/// the timestamp has none.
pub fn fmt_ts(ts: i64) -> (r: String)
    ensures
        is_clock_text(r@) || r@ == unknown_time(),
        representable_timestamp(ts) ==> is_clock_text(r@),
{
    proof {
        reveal_strlit("%H:%M");
    }
    match local_clock(ts, "%H:%M") {
        Some(s) => s,
        None => {
            let v = vec!['?', '?', ':', '?', '?'];
            assert(v@ =~= unknown_time());
            string_from_chars(v)
        },
    }
}

/// `email:api_key`, the credentials of HTTP basic authentication.
pub open spec fn credentials_text(email: Seq<char>, api_key: Seq<char>) -> Seq<char> {
    email + seq![':'] + api_key
}

/// The `Authorization: Basic` token for a Zulip account.
pub fn make_auth(email: &str, api_key: &str) -> (r: String)
    requires
        email@.len() + api_key@.len() < usize::MAX / 8,
    ensures
        r@ == standard_base64(credentials_text(email@, api_key@)),
{
    let e = chars_of(email);
    let k = chars_of(api_key);
    let colon = vec![':'];
    let ec = concat_chars(e.as_slice(), colon.as_slice());
    let all = concat_chars(ec.as_slice(), k.as_slice());
    assert(colon@ =~= seq![':']);
    let text = string_from_chars(all);
    base64_standard(text.as_str())
}

/// What an HTTP request to the Zulip server carries: where it goes, the
/// basic-authentication token, and the form body when it has one.
pub struct ZulipRequest {
    pub url: String,
    pub auth: String,
    pub body: String,
}

/// The next step of the event poller.
pub enum PollStep {
    /// No server is configured.
    Idle,
    /// Register an event queue with a POST to this URL.
    Register { url: String, auth: String },
    /// Fetch the pending events of the queue with a GET of this URL.
    Fetch { url: String, auth: String },
}

/// The bridge state shared between the GUI, the Lua API and the poller.
pub struct ZulipState {
    pub config: ZulipConfig,
    pub live_messages: Vec<ZulipMessage>,
    pub queue_id: Option<String>,
    pub last_event_id: i64,
    pub channels: Vec<ZulipChannel>,
    pub channels_loading: bool,
    pub channels_loaded: bool,
    /// Message history by `channel_key(stream, topic)`.
    pub channel_history: Vec<(String, Vec<ZulipMessage>)>,
    /// The keys whose history is being fetched.
    pub channel_history_loading: Vec<String>,
    pub image_cache: Vec<(String, CachedImage)>,
}

/// The most live messages kept.
pub open spec fn live_capacity() -> nat {
    200
}

/// The credentials are small enough to encode.
pub open spec fn credentials_fit(cfg: ConfigView) -> bool {
    cfg.email.len() + cfg.api_key.len() < usize::MAX / 8
}

/// No text in `v` occurs twice.
pub open spec fn distinct_texts(v: Seq<String>) -> bool {
    forall|i: int, j: int| #![trigger v[i], v[j]] 0 <= i < j < v.len() ==> v[i]@ != v[j]@
}

/// The `/api/v1/messages` endpoint.
pub open spec fn messages_endpoint() -> Seq<char> {
    "/api/v1/messages"@
}

/// The form body of a stream message.
pub open spec fn message_form(stream: Seq<char>, topic: Seq<char>, content: Seq<char>) -> Seq<char> {
    "type=stream&to="@ + percent_encode(vstd::utf8::encode_utf8(stream)) + "&topic="@
        + percent_encode(vstd::utf8::encode_utf8(topic)) + "&content="@ + percent_encode(
        vstd::utf8::encode_utf8(content),
    )
}

/// The key of a (stream, topic) pair: both joined by a NUL character.
pub open spec fn channel_key_of(stream: Seq<char>, topic: Seq<char>) -> Seq<char> {
    stream + seq!['\0'] + topic
}

/// The key under which the history of a (stream, topic) pair is kept.
pub fn channel_key(stream: &str, topic: &str) -> (r: String)
    ensures
        r@ == channel_key_of(stream@, topic@),
{
    let s = chars_of(stream);
    let t = chars_of(topic);
    let nul = vec!['\0'];
    assert(nul@ =~= seq!['\0']);
    let a = concat_chars(s.as_slice(), nul.as_slice());
    string_from_chars(concat_chars(a.as_slice(), t.as_slice()))
}

/// Joins texts: `a` then `b`.
fn join(a: &str, b: &str) -> (r: String)
    ensures
        r@ == a@ + b@,
{
    let x = chars_of(a);
    let y = chars_of(b);
    string_from_chars(concat_chars(x.as_slice(), y.as_slice()))
}

impl ZulipState {
    /// The invariant: the live feed holds at most its capacity, keys are
    /// distinct, and the credentials can be encoded.
    pub open spec fn wf(&self) -> bool {
        &&& self.live_messages@.len() <= live_capacity()
        &&& distinct_keys(self.channel_history@)
        &&& distinct_keys(self.image_cache@)
        &&& distinct_texts(self.channel_history_loading@)
        &&& credentials_fit(self.config@)
        &&& !(self.channels_loading && self.channels_loaded)
        &&& forall|i: int|
            0 <= i < self.channel_history_loading@.len() ==> lookup(
                self.channel_history@,
                (#[trigger] self.channel_history_loading@[i])@,
            ) is None
    }

    /// The state of a freshly started bridge: default settings, nothing
    /// received, no queue, nothing cached.
    pub fn new() -> (r: Self)
        ensures
            r.wf(),
            r.config@ == ZulipConfig::new_view(),
            r.live_messages@.len() == 0,
            r.queue_id is None,
            r.last_event_id == -1,
            r.channels@.len() == 0,
            !r.channels_loading,
            !r.channels_loaded,
            r.channel_history@.len() == 0,
            r.channel_history_loading@.len() == 0,
            r.image_cache@.len() == 0,
    {
        let config = ZulipConfig::new();
        assert(config@.url =~= Seq::<char>::empty());
        assert(config@.email =~= Seq::<char>::empty());
        assert(config@.api_key =~= Seq::<char>::empty());
        assert(config@.stream =~= Seq::<char>::empty());
        assert(config@.topic =~= Seq::<char>::empty());
        ZulipState {
            config,
            live_messages: Vec::new(),
            queue_id: None,
            last_event_id: -1,
            channels: Vec::new(),
            channels_loading: false,
            channels_loaded: false,
            channel_history: Vec::new(),
            channel_history_loading: Vec::new(),
            image_cache: Vec::new(),
        }
    }

    /// Installs new settings. When the server or the credentials change, or
    /// the bridge is switched on, the event queue and the channel list are
    /// dropped so that both are fetched anew.
    pub fn set_config(&mut self, cfg: ZulipConfig)
        requires
            old(self).wf(),
            credentials_fit(cfg@),
        ensures
            final(self).wf(),
            ({
                if config_resets(old(self).config@, cfg@) {
                    *final(self) == ZulipState {
                        config: cfg,
                        queue_id: None,
                        last_event_id: -1i64,
                        channels_loaded: false,
                        channels_loading: false,
                        ..*old(self)
                    }
                } else {
                    *final(self) == ZulipState { config: cfg, ..*old(self) }
                }
            }),
    {
        let creds_changed = !(cfg.url == self.config.url) || !(cfg.email == self.config.email) || !(
        cfg.api_key == self.config.api_key);
        let just_enabled = cfg.enabled && !self.config.enabled;
        self.config = cfg;
        if creds_changed || just_enabled {
            self.queue_id = None;
            self.last_event_id = -1;
            self.channels_loaded = false;
            self.channels_loading = false;
        }
    }

    /// The current settings.
    pub fn get_config(&self) -> (r: ZulipConfig)
        ensures
            r@ == self.config@,
    {
        self.config.copy()
    }

    /// The messages received live, oldest first.
    pub fn get_messages(&self) -> (r: Vec<ZulipMessage>)
        ensures
            message_views(r@) == message_views(self.live_messages@),
    {
        copy_messages(&self.live_messages)
    }

    /// Forgets the live messages.
    pub fn clear_messages(&mut self)
        requires
            old(self).wf(),
        ensures
            final(self).wf(),
            final(self).live_messages@.len() == 0,
            final(self).config == old(self).config,
            final(self).queue_id == old(self).queue_id,
            final(self).last_event_id == old(self).last_event_id,
            final(self).channels == old(self).channels,
            final(self).channels_loading == old(self).channels_loading,
            final(self).channels_loaded == old(self).channels_loaded,
            final(self).channel_history == old(self).channel_history,
            final(self).channel_history_loading == old(self).channel_history_loading,
            final(self).image_cache == old(self).image_cache,
    {
        self.live_messages.clear();
    }

    /// The request that posts `content` to `stream` under `topic`, when the
    /// bridge is on; nothing when it is off.
    pub fn send_to(&self, stream: &str, topic: &str, content: &str) -> (r: Option<ZulipRequest>)
        requires
            self.wf(),
        ensures
            r is Some <==> self.config.enabled,
            r matches Some(req) ==> {
                &&& req.url@ == self.config.url@ + messages_endpoint()
                &&& req.auth@ == standard_base64(
                    credentials_text(self.config.email@, self.config.api_key@),
                )
                &&& req.body@ == message_form(stream@, topic@, content@)
            },
    {
        if !self.config.enabled {
            return None;
        }
        let auth = make_auth(self.config.email.as_str(), self.config.api_key.as_str());
        let url = join(self.config.url.as_str(), "/api/v1/messages");
        let b1 = join("type=stream&to=", url_encode(stream).as_str());
        let b2 = join(b1.as_str(), "&topic=");
        let b3 = join(b2.as_str(), url_encode(topic).as_str());
        let b4 = join(b3.as_str(), "&content=");
        let body = join(b4.as_str(), url_encode(content).as_str());
        Some(ZulipRequest { url, auth, body })
    }

    /// The request that posts `content` to the configured stream and topic.
    pub fn send_message(&self, content: &str) -> (r: Option<ZulipRequest>)
        requires
            self.wf(),
        ensures
            r is Some <==> self.config.enabled,
            r matches Some(req) ==> {
                &&& req.url@ == self.config.url@ + messages_endpoint()
                &&& req.auth@ == standard_base64(
                    credentials_text(self.config.email@, self.config.api_key@),
                )
                &&& req.body@ == message_form(self.config.stream@, self.config.topic@, content@)
            },
    {
        self.send_to(self.config.stream.as_str(), self.config.topic.as_str(), content)
    }
}

impl ZulipConfig {
    /// The view of the default settings.
    pub open spec fn new_view() -> ConfigView {
        ConfigView {
            enabled: false,
            url: Seq::empty(),
            email: Seq::empty(),
            api_key: Seq::empty(),
            stream: Seq::empty(),
            topic: Seq::empty(),
        }
    }
}

/// The server address and the authentication token for a request.
pub struct ZulipCredentials {
    pub url: String,
    pub auth: String,
}

/// Whether `v` holds the text `k`.
pub open spec fn holds_text(v: Seq<String>, k: Seq<char>) -> bool {
    exists|i: int| 0 <= i < v.len() && (#[trigger] v[i])@ == k
}

/// The messages kept under `k`, as plain values.
pub open spec fn history_lookup(e: Seq<(String, Vec<ZulipMessage>)>, k: Seq<char>) -> Option<
    Seq<MessageView>,
> {
    match lookup(e, k) {
        Some(v) => Some(message_views(v@)),
        None => None,
    }
}

/// The first channel with this stream id.
pub open spec fn channel_index_from(c: Seq<ZulipChannel>, id: u64, i: int) -> Option<int>
    decreases c.len() - i,
{
    if i < 0 || i >= c.len() {
        None
    } else if c[i].stream_id == id {
        Some(i)
    } else {
        channel_index_from(c, id, i + 1)
    }
}

/// The topics of a channel are known.
pub open spec fn topics_known(c: Seq<ZulipChannel>, id: u64) -> bool {
    exists|i: int| 0 <= i < c.len() && (#[trigger] c[i]).stream_id == id && c[i].topics_loaded
}

/// Whether `v` holds `k`.
fn holds_text_exec(v: &Vec<String>, k: &String) -> (b: bool)
    ensures
        b == holds_text(v@, k@),
{
    let mut i: usize = 0;
    while i < v.len()
        invariant
            i <= v.len(),
            forall|j: int| 0 <= j < i ==> (#[trigger] v@[j])@ != k@,
        decreases v.len() - i,
    {
        if v[i] == *k {
            return true;
        }
        i += 1;
    }
    false
}

/// `v` without the text `k`.
fn remove_text(v: &mut Vec<String>, k: &String)
    requires
        distinct_texts(old(v)@),
    ensures
        distinct_texts(final(v)@),
        forall|q: Seq<char>| holds_text(final(v)@, q) <==> holds_text(old(v)@, q) && q != k@,
{
    let mut i: usize = 0;
    while i < v.len()
        invariant
            i <= v.len(),
            v@ == old(v)@,
            distinct_texts(old(v)@),
            forall|j: int| 0 <= j < i ==> (#[trigger] v@[j])@ != k@,
        decreases v.len() - i,
    {
        if v[i] == *k {
            let ghost before = v@;
            let _ = v.remove(i);
            proof {
                assert forall|q: Seq<char>| holds_text(v@, q) implies holds_text(before, q) && q != k@ by {
                    let j = choose|j: int| 0 <= j < v@.len() && (#[trigger] v@[j])@ == q;
                    let oj = if j < i { j } else { j + 1 };
                    assert(before[oj] == v@[j]);
                    assert(before[oj]@ == q);
                    if q == k@ {
                        assert(before[i as int]@ == k@);
                        if oj < i {
                            assert(before[oj]@ != before[i as int]@);
                        } else {
                            assert(before[i as int]@ != before[oj]@);
                        }
                    }
                }
                assert forall|q: Seq<char>| holds_text(before, q) && q != k@ implies holds_text(v@, q) by {
                    let j = choose|j: int| 0 <= j < before.len() && (#[trigger] before[j])@ == q;
                    if j < i {
                        assert(v@[j] == before[j]);
                        assert(v@[j]@ == q);
                    } else {
                        assert(j != i);
                        assert(v@[j - 1] == before[j]);
                        assert(v@[j - 1]@ == q);
                    }
                }
                assert forall|a: int, b: int| 0 <= a < b < v@.len() implies (#[trigger] v@[a])@
                    != (#[trigger] v@[b])@ by {
                    let oa = if a < i { a } else { a + 1 };
                    let ob = if b < i { b } else { b + 1 };
                    assert(v@[a] == before[oa]);
                    assert(v@[b] == before[ob]);
                    assert(before[oa]@ != before[ob]@);
                }
            }
            return;
        }
        i += 1;
    }
}

impl ZulipState {
    /// The server address and the token of the configured account.
    fn credentials(&self) -> (r: ZulipCredentials)
        requires
            credentials_fit(self.config@),
        ensures
            r.url@ == self.config.url@,
            r.auth@ == standard_base64(credentials_text(self.config.email@, self.config.api_key@)),
    {
        ZulipCredentials {
            url: self.config.url.clone(),
            auth: make_auth(self.config.email.as_str(), self.config.api_key.as_str()),
        }
    }

    /// Starts loading the channel list, unless the bridge is off, has no
    /// server, or is loading or has loaded it already. Returns what the
    /// request needs when it starts one.
    pub fn fetch_channels(&mut self) -> (r: Option<ZulipCredentials>)
        requires
            old(self).wf(),
        ensures
            final(self).wf(),
            ({
                let o = old(self);
                let go = starts_channel_fetch(*o);
                &&& r is Some <==> go
                &&& go ==> *final(self) == ZulipState { channels_loading: true, ..*o }
                &&& !go ==> *final(self) == *o
            }),
            r matches Some(c) ==> c.url@ == old(self).config.url@ && c.auth@ == standard_base64(
                credentials_text(old(self).config.email@, old(self).config.api_key@),
            ),
    {
        let go = self.config.enabled && !self.config.url.as_str().is_empty() && !self.channels_loading
            && !self.channels_loaded;
        if !go {
            return None;
        }
        self.channels_loading = true;
        Some(self.credentials())
    }

    /// Records the end of a channel-list fetch: on success the channels of
    /// the subscriptions reply, sorted by name (stably); on failure nothing
    /// but the end of loading.
    pub fn finish_fetch_channels(&mut self, result: Option<Vec<(Option<u64>, Option<String>)>>)
        requires
            old(self).wf(),
        ensures
            final(self).wf(),
            match result {
                Some(subs) => {
                    let all = subs@.map_values(
                        |x: (Option<u64>, Option<String>)| subscription_channel(x),
                    );
                    &&& *final(self) == ZulipState {
                        channels: final(self).channels,
                        channels_loaded: true,
                        channels_loading: false,
                        ..*old(self)
                    }
                    &&& channel_views(final(self).channels@) == sort_by_name(all)
                    &&& ordered_by_name(channel_views(final(self).channels@))
                    &&& channel_views(final(self).channels@).to_multiset() == all.to_multiset()
                    &&& same_by_name(channel_views(final(self).channels@), all)
                },
                None => *final(self) == ZulipState { channels_loading: false, ..*old(self) },
            },
    {
        match result {
            Some(subs) => {
                self.channels = channels_from_subscriptions(subs);
                self.channels_loaded = true;
                self.channels_loading = false;
            },
            None => {
                self.channels_loading = false;
            },
        }
    }

    /// The subscribed channels.
    pub fn get_channels(&self) -> (r: Vec<ZulipChannel>)
        ensures
            channel_views(r@) == channel_views(self.channels@),
    {
        let mut r: Vec<ZulipChannel> = Vec::new();
        let mut k: usize = 0;
        while k < self.channels.len()
            invariant
                k <= self.channels@.len(),
                r@.len() == k,
                forall|i: int| 0 <= i < k ==> (#[trigger] r@[i])@ == self.channels@[i]@,
            decreases self.channels@.len() - k,
        {
            r.push(self.channels[k].copy());
            k += 1;
        }
        assert(channel_views(r@) =~= channel_views(self.channels@));
        r
    }

    /// Whether the channel list has been loaded.
    pub fn channels_loaded(&self) -> (r: bool)
        ensures
            r == self.channels_loaded,
    {
        self.channels_loaded
    }

    /// Whether the channel list is being loaded.
    pub fn channels_loading(&self) -> (r: bool)
        ensures
            r == self.channels_loading,
    {
        self.channels_loading
    }

    /// Forgets the channel list so that it is fetched anew.
    pub fn reset_channels(&mut self)
        requires
            old(self).wf(),
        ensures
            final(self).wf(),
            final(self).channels@.len() == 0,
            !final(self).channels_loaded,
            !final(self).channels_loading,
            final(self).config == old(self).config,
            final(self).live_messages == old(self).live_messages,
            final(self).queue_id == old(self).queue_id,
            final(self).last_event_id == old(self).last_event_id,
            final(self).channel_history == old(self).channel_history,
            final(self).channel_history_loading == old(self).channel_history_loading,
            final(self).image_cache == old(self).image_cache,
    {
        self.channels.clear();
        self.channels_loaded = false;
        self.channels_loading = false;
    }

    /// Whether the topics of stream `stream_id` should be fetched: the bridge
    /// is on with a server, and no channel with that id has its topics yet.
    pub fn fetch_topics(&self, stream_id: u64) -> (r: Option<ZulipCredentials>)
        requires
            self.wf(),
        ensures
            r is Some <==> !topics_known(self.channels@, stream_id) && self.config.enabled
                && self.config.url@.len() > 0,
            r matches Some(c) ==> c.url@ == self.config.url@ && c.auth@ == standard_base64(
                credentials_text(self.config.email@, self.config.api_key@),
            ),
    {
        let mut i: usize = 0;
        let mut already = false;
        while i < self.channels.len()
            invariant
                i <= self.channels@.len(),
                already == exists|j: int|
                    0 <= j < i && (#[trigger] self.channels@[j]).stream_id == stream_id
                        && self.channels@[j].topics_loaded,
            decreases self.channels@.len() - i,
        {
            if self.channels[i].stream_id == stream_id && self.channels[i].topics_loaded {
                already = true;
            }
            i += 1;
        }
        if already || !self.config.enabled || self.config.url.as_str().is_empty() {
            return None;
        }
        Some(self.credentials())
    }

    /// Records the topics of stream `stream_id` in the first channel with
    /// that id, and marks them known.
    pub fn finish_fetch_topics(&mut self, stream_id: u64, topics: Vec<String>)
        requires
            old(self).wf(),
        ensures
            final(self).wf(),
            match channel_index_from(old(self).channels@, stream_id, 0) {
                Some(i) => final(self).channels@ == old(self).channels@.update(
                    i,
                    (ZulipChannel { topics: topics, topics_loaded: true, ..old(self).channels@[i] }),
                ),
                None => final(self).channels@ == old(self).channels@,
            },
            *final(self) == (ZulipState { channels: final(self).channels, ..*old(self) }),
    {
        let mut i: usize = 0;
        while i < self.channels.len()
            invariant
                i <= self.channels@.len(),
                self.channels@ == old(self).channels@,
                *self == *old(self),
                old(self).wf(),
                channel_index_from(old(self).channels@, stream_id, 0) == channel_index_from(
                    old(self).channels@,
                    stream_id,
                    i as int,
                ),
            decreases self.channels@.len() - i,
        {
            if self.channels[i].stream_id == stream_id {
                let ch = self.channels.remove(i);
                let updated = ZulipChannel {
                    stream_id: ch.stream_id,
                    name: ch.name,
                    topics,
                    topics_loaded: true,
                };
                self.channels.insert(i, updated);
                assert(self.channels@ =~= old(self).channels@.update(
                    i as int,
                    ZulipChannel { topics: topics, topics_loaded: true, ..old(self).channels@[i as int] },
                ));
                return;
            }
            i += 1;
        }
    }

    /// Starts loading the history of (`stream`, `topic`), unless it is loaded
    /// or loading already, or the bridge is off or has no server.
    pub fn fetch_channel_messages(&mut self, stream: &str, topic: &str) -> (r: Option<ZulipCredentials>)
        requires
            old(self).wf(),
        ensures
            final(self).wf(),
            ({
                let o = old(self);
                let key = channel_key_of(stream@, topic@);
                let go = lookup(o.channel_history@, key) is None && !holds_text(
                    o.channel_history_loading@,
                    key,
                ) && o.config.enabled && o.config.url@.len() > 0;
                &&& r is Some <==> go
                &&& go ==> views(final(self).channel_history_loading@) == views(
                    o.channel_history_loading@,
                ).push(key)
                &&& !go ==> final(self).channel_history_loading == o.channel_history_loading
                &&& *final(self) == ZulipState {
                    channel_history_loading: final(self).channel_history_loading,
                    ..*o
                }
            }),
            r matches Some(c) ==> c.url@ == old(self).config.url@ && c.auth@ == standard_base64(
                credentials_text(old(self).config.email@, old(self).config.api_key@),
            ),
    {
        let key = channel_key(stream, topic);
        let loaded = position_of_key(&self.channel_history, &key).is_some();
        let loading = holds_text_exec(&self.channel_history_loading, &key);
        if loaded || loading || !self.config.enabled || self.config.url.as_str().is_empty() {
            return None;
        }
        let ghost before = self.channel_history_loading@;
        self.channel_history_loading.push(key);
        proof {
            crate::text::lemma_views_push(before, key);
            assert forall|a: int, b: int|
                0 <= a < b < self.channel_history_loading@.len() implies (
                #[trigger] self.channel_history_loading@[a])@ != (
                #[trigger] self.channel_history_loading@[b])@ by {
                if b == before.len() {
                    assert(self.channel_history_loading@[a] == before[a]);
                } else {
                    assert(self.channel_history_loading@[a] == before[a]);
                    assert(self.channel_history_loading@[b] == before[b]);
                }
            }
        }
        Some(self.credentials())
    }

    /// Records the end of a history fetch: the messages on success, an
    /// empty history on failure; the key is no longer loading either way.
    pub fn finish_fetch_channel_messages(
        &mut self,
        stream: &str,
        topic: &str,
        result: Option<Vec<ZulipMessage>>,
    )
        requires
            old(self).wf(),
        ensures
            final(self).wf(),
            ({
                let key = channel_key_of(stream@, topic@);
                &&& forall|q: Seq<char>|
                    holds_text(final(self).channel_history_loading@, q) <==> holds_text(
                        old(self).channel_history_loading@,
                        q,
                    ) && q != key
                &&& forall|q: Seq<char>|
                    #[trigger] history_lookup(final(self).channel_history@, q) == if q == key {
                        Some(
                            match result {
                                Some(v) => message_views(v@),
                                None => Seq::empty(),
                            },
                        )
                    } else {
                        history_lookup(old(self).channel_history@, q)
                    }
            }),
            *final(self) == (ZulipState {
                channel_history: final(self).channel_history,
                channel_history_loading: final(self).channel_history_loading,
                ..*old(self)
            }),
    {
        let key = channel_key(stream, topic);
        remove_text(&mut self.channel_history_loading, &key);
        let msgs = match result {
            Some(v) => v,
            None => Vec::new(),
        };
        let ghost before = self.channel_history@;
        let ghost gm = msgs;
        let ghost gk = key;
        put_exec(&mut self.channel_history, key, msgs);
        proof {
            lemma_put_distinct(before, gk, gm);
            assert forall|q: Seq<char>|
                #[trigger] history_lookup(self.channel_history@, q) == if q == gk@ {
                    Some(message_views(gm@))
                } else {
                    history_lookup(before, q)
                } by {
                crate::keyed::lemma_lookup_put(before, gk, gm, q);
            }
            if result is None {
                assert(message_views(gm@) =~= Seq::<MessageView>::empty());
            }
            assert forall|k: int| 0 <= k < self.channel_history_loading@.len() implies lookup(
                self.channel_history@,
                (#[trigger] self.channel_history_loading@[k])@,
            ) is None by {
                let q = self.channel_history_loading@[k]@;
                assert(holds_text(self.channel_history_loading@, q));
                assert(holds_text(old(self).channel_history_loading@, q) && q != gk@);
                let w = choose|w: int|
                    0 <= w < old(self).channel_history_loading@.len()
                        && (#[trigger] old(self).channel_history_loading@[w])@ == q;
                assert(lookup(before, old(self).channel_history_loading@[w]@) is None);
                crate::keyed::lemma_lookup_put(before, gk, gm, q);
            }
        }
    }

    /// Starts loading an image, unless it is cached or loading. Returns the
    /// token that the request needs when it starts one.
    pub fn fetch_image(&mut self, url: String) -> (r: Option<String>)
        requires
            old(self).wf(),
        ensures
            final(self).wf(),
            r is Some <==> (lookup(old(self).image_cache@, url@) is None),
            r matches Some(a) ==> a@ == standard_base64(
                credentials_text(old(self).config.email@, old(self).config.api_key@),
            ),
            r is Some ==> final(self).image_cache@ == put(
                old(self).image_cache@,
                url,
                CachedImage::Loading,
            ),
            *final(self) == (ZulipState { image_cache: final(self).image_cache, ..*old(self) }),
            r is None ==> final(self).image_cache == old(self).image_cache,
    {
        let auth = make_auth(self.config.email.as_str(), self.config.api_key.as_str());
        if position_of_key(&self.image_cache, &url).is_some() {
            return None;
        }
        proof {
            lemma_put_distinct(self.image_cache@, url, CachedImage::Loading);
        }
        put_exec(&mut self.image_cache, url, CachedImage::Loading);
        Some(auth)
    }

    /// Records the end of an image fetch.
    pub fn finish_fetch_image(&mut self, url: String, decoded: bool)
        requires
            old(self).wf(),
        ensures
            final(self).wf(),
            final(self).image_cache@ == put(
                old(self).image_cache@,
                url,
                if decoded {
                    CachedImage::Ready
                } else {
                    CachedImage::Failed
                },
            ),
            *final(self) == (ZulipState { image_cache: final(self).image_cache, ..*old(self) }),
    {
        let v = if decoded {
            CachedImage::Ready
        } else {
            CachedImage::Failed
        };
        proof {
            lemma_put_distinct(self.image_cache@, url, v);
        }
        put_exec(&mut self.image_cache, url, v);
    }

    /// Where the fetch of an image stands, if it was ever started.
    pub fn get_image(&self, url: &String) -> (r: Option<CachedImage>)
        ensures
            r == lookup(self.image_cache@, url@),
    {
        proof {
            lemma_key_index(self.image_cache@, url@);
        }
        match position_of_key(&self.image_cache, url) {
            Some(i) => Some(self.image_cache[i].1),
            None => None,
        }
    }

    /// Whether the history of (`stream`, `topic`) is being loaded.
    pub fn is_channel_loading(&self, stream: &str, topic: &str) -> (r: bool)
        ensures
            r == holds_text(self.channel_history_loading@, channel_key_of(stream@, topic@)),
    {
        let key = channel_key(stream, topic);
        holds_text_exec(&self.channel_history_loading, &key)
    }
}

/// The text an optional field holds, empty when it is absent.
pub open spec fn text_or_empty(o: Option<String>) -> Seq<char> {
    match o {
        Some(s) => s@,
        None => Seq::empty(),
    }
}

/// A message built from the fields that the server sent, with the
/// defaults that stand in for absent ones; its time is `HH:MM` whenever the
/// timestamp (0 when absent) is one chrono can represent.
pub open spec fn built_from(
    m: MessageView,
    id: Option<u64>,
    sender: Option<String>,
    content: Option<String>,
    timestamp: Option<i64>,
    stream: Seq<char>,
    topic: Seq<char>,
    base_url: Seq<char>,
) -> bool {
    &&& m.id == (match id {
        Some(v) => v,
        None => 0,
    })
    &&& m.sender == (match sender {
        Some(v) => v@,
        None => seq!['?'],
    })
    &&& m.content == text_or_empty(content)
    &&& (is_clock_text(m.time) || m.time == unknown_time())
    &&& (representable_timestamp(
        match timestamp {
            Some(t) => t,
            None => 0,
        },
    ) ==> is_clock_text(m.time))
    &&& m.stream == stream
    &&& m.topic == topic
    &&& m.image_urls == image_scan(text_or_empty(content), trim_end_char(base_url, '/'), 0, seq![])
}

/// Builds a message from the fields of a server reply: id 0, sender `?`
/// and empty content when absent; the local time of its timestamp (of 0
/// when absent); the image links of its content, upload paths joined to
/// `base_url`.
pub fn message_from_fields(
    id: Option<u64>,
    sender: Option<String>,
    content: Option<String>,
    timestamp: Option<i64>,
    stream: String,
    topic: String,
    base_url: &str,
) -> (m: ZulipMessage)
    requires
        image_scan_safe(text_or_empty(content), 0),
    ensures
        built_from(m@, id, sender, content, timestamp, stream@, topic@, base_url@),
{
    let body = match content {
        Some(c) => c,
        None => String::new(),
    };
    let image_urls = extract_image_urls(body.as_str(), base_url);
    let ts = match timestamp {
        Some(t) => t,
        None => 0,
    };
    let who = match sender {
        Some(s) => s,
        None => {
            let q = vec!['?'];
            assert(q@ =~= seq!['?']);
            string_from_chars(q)
        },
    };
    ZulipMessage {
        id: match id {
            Some(v) => v,
            None => 0,
        },
        sender: who,
        content: body,
        time: fmt_ts(ts),
        stream,
        topic,
        image_urls,
    }
}

/// The stream of a polled message: its recipient when it went to a
/// stream, empty for a private message.
pub open spec fn event_stream(is_stream: bool, display_recipient: Option<String>) -> Seq<char> {
    if is_stream {
        text_or_empty(display_recipient)
    } else {
        Seq::empty()
    }
}

/// Builds a message from a `message` event of the event queue.
pub fn poll_message(
    id: Option<u64>,
    sender: Option<String>,
    content: Option<String>,
    timestamp: Option<i64>,
    is_stream: bool,
    display_recipient: Option<String>,
    subject: Option<String>,
    base_url: &str,
) -> (m: ZulipMessage)
    requires
        image_scan_safe(text_or_empty(content), 0),
    ensures
        built_from(
            m@,
            id,
            sender,
            content,
            timestamp,
            event_stream(is_stream, display_recipient),
            text_or_empty(subject),
            base_url@,
        ),
{
    let stream = if is_stream {
        match display_recipient {
            Some(s) => s,
            None => String::new(),
        }
    } else {
        String::new()
    };
    let topic = match subject {
        Some(s) => s,
        None => String::new(),
    };
    message_from_fields(id, sender, content, timestamp, stream, topic, base_url)
}

/// The live feed and history as plain values.
pub struct FeedView {
    pub live: Seq<MessageView>,
    pub history: Seq<(Seq<char>, Seq<MessageView>)>,
    pub last_event_id: i64,
}

/// The history as plain values.
pub open spec fn history_views(e: Seq<(String, Vec<ZulipMessage>)>) -> Seq<(Seq<char>, Seq<MessageView>)> {
    e.map_values(|p: (String, Vec<ZulipMessage>)| (p.0@, message_views(p.1@)))
}

/// The first position of key `k` at or after `i`.
pub open spec fn view_key_index_from(h: Seq<(Seq<char>, Seq<MessageView>)>, k: Seq<char>, i: int) -> Option<int>
    decreases h.len() - i,
{
    if i < 0 || i >= h.len() {
        None
    } else if h[i].0 == k {
        Some(i)
    } else {
        view_key_index_from(h, k, i + 1)
    }
}

/// Some message of `ms` has this id.
pub open spec fn has_id(ms: Seq<MessageView>, id: u64) -> bool {
    exists|i: int| 0 <= i < ms.len() && (#[trigger] ms[i]).id == id
}

/// What one polled event does to the feed: a message joins the live feed
/// (the oldest leaving beyond capacity) and the loaded history of its
/// channel unless an equal id is there; an event id raises the last id seen.
pub open spec fn apply_event(f: FeedView, ev: (Option<MessageView>, Option<i64>)) -> FeedView {
    let f1 = match ev.0 {
        Some(m) => {
            let key = channel_key_of(m.stream, m.topic);
            let h = match view_key_index_from(f.history, key, 0) {
                Some(i) => if has_id(f.history[i].1, m.id) {
                    f.history
                } else {
                    f.history.update(i, (f.history[i].0, f.history[i].1.push(m)))
                },
                None => f.history,
            };
            let l = f.live.push(m);
            FeedView {
                live: if l.len() > live_capacity() {
                    l.drop_first()
                } else {
                    l
                },
                history: h,
                last_event_id: f.last_event_id,
            }
        },
        None => f,
    };
    match ev.1 {
        Some(id) => FeedView {
            last_event_id: if id > f1.last_event_id {
                id
            } else {
                f1.last_event_id
            },
            ..f1
        },
        None => f1,
    }
}

/// The feed after a run of events, applied in order.
pub open spec fn apply_events_spec(f: FeedView, evs: Seq<(Option<MessageView>, Option<i64>)>) -> FeedView
    decreases evs.len(),
{
    if evs.len() == 0 {
        f
    } else {
        apply_event(apply_events_spec(f, evs.drop_last()), evs.last())
    }
}

/// The last `n` messages of `x` (all of them when there are no more).
pub open spec fn last_n(x: Seq<MessageView>, n: nat) -> Seq<MessageView> {
    if x.len() <= n {
        x
    } else {
        x.subrange(x.len() - n, x.len() as int)
    }
}

/// The messages that polled events carry, in order.
pub open spec fn received(evs: Seq<(Option<MessageView>, Option<i64>)>) -> Seq<MessageView>
    decreases evs.len(),
{
    if evs.len() == 0 {
        Seq::empty()
    } else {
        let r = received(evs.drop_last());
        match evs.last().0 {
            Some(m) => r.push(m),
            None => r,
        }
    }
}

proof fn lemma_last_n_push(x: Seq<MessageView>, m: MessageView)
    ensures
        ({
            let l = last_n(x, live_capacity()).push(m);
            last_n(x.push(m), live_capacity()) == if l.len() > live_capacity() {
                l.drop_first()
            } else {
                l
            }
        }),
{
    let n = x.len() as int;
    if n >= live_capacity() {
        assert(last_n(x, live_capacity()).push(m).drop_first() =~= x.push(m).subrange(
            n + 1 - live_capacity(),
            n + 1,
        ));
    } else {
        assert(last_n(x, live_capacity()).push(m) =~= x.push(m));
    }
}

/// The live feed is a window: after any polled events, it holds the last
/// `live_capacity()` messages of what it held before followed by every
/// message received, in order.
pub proof fn lemma_live_is_last_window(f: FeedView, evs: Seq<(Option<MessageView>, Option<i64>)>)
    requires
        f.live.len() <= live_capacity(),
    ensures
        apply_events_spec(f, evs).live == last_n(f.live + received(evs), live_capacity()),
    decreases evs.len(),
{
    if evs.len() == 0 {
        assert(f.live + received(evs) =~= f.live);
    } else {
        let d = evs.drop_last();
        lemma_live_is_last_window(f, d);
        match evs.last().0 {
            Some(m) => {
                lemma_last_n_push(f.live + received(d), m);
                assert(f.live + received(evs) =~= (f.live + received(d)).push(m));
            },
            None => {
                assert(received(evs) == received(d));
            },
        }
    }
}

/// Polled events as plain values.
pub open spec fn event_views(evs: Seq<(Option<ZulipMessage>, Option<i64>)>) -> Seq<(Option<MessageView>, Option<i64>)> {
    evs.map_values(
        |e: (Option<ZulipMessage>, Option<i64>)|
            (
                match e.0 {
                    Some(m) => Some(m@),
                    None => None,
                },
                e.1,
            ),
    )
}

/// The messages of `live` in channel (`s`, `t`) appended to `msgs`, each
/// unless a message with its id is there already.
pub open spec fn merge_live(msgs: Seq<MessageView>, live: Seq<MessageView>, s: Seq<char>, t: Seq<char>) -> Seq<MessageView>
    decreases live.len(),
{
    if live.len() == 0 {
        msgs
    } else {
        let r = merge_live(msgs, live.drop_last(), s, t);
        let m = live.last();
        if m.stream == s && m.topic == t && !has_id(r, m.id) {
            r.push(m)
        } else {
            r
        }
    }
}

pub proof fn lemma_view_key_index(e: Seq<(String, Vec<ZulipMessage>)>, k: Seq<char>, i: int)
    ensures
        view_key_index_from(history_views(e), k, i) == crate::keyed::key_index_from(e, k, i),
    decreases e.len() - i,
{
    if 0 <= i < e.len() {
        lemma_view_key_index(e, k, i + 1);
    }
}

/// Whether some message of `ms` has id `id`.
fn has_id_exec(ms: &Vec<ZulipMessage>, id: u64) -> (b: bool)
    ensures
        b == has_id(message_views(ms@), id),
{
    let mut i: usize = 0;
    while i < ms.len()
        invariant
            i <= ms.len(),
            forall|j: int| 0 <= j < i ==> (#[trigger] ms@[j]).id != id,
        decreases ms.len() - i,
    {
        if ms[i].id == id {
            assert(message_views(ms@)[i as int].id == id);
            return true;
        }
        i += 1;
    }
    assert forall|j: int| 0 <= j < message_views(ms@).len() implies (#[trigger] message_views(ms@)[j]).id != id by {
        assert(message_views(ms@)[j] == ms@[j]@);
    }
    false
}

impl ZulipState {
    /// The live feed, history and last event id as plain values.
    pub open spec fn feed(&self) -> FeedView {
        FeedView {
            live: message_views(self.live_messages@),
            history: history_views(self.channel_history@),
            last_event_id: self.last_event_id,
        }
    }

    /// Applies one polled event.
    fn apply_one(&mut self, msg: Option<ZulipMessage>, id: Option<i64>)
        requires
            old(self).wf(),
        ensures
            final(self).wf(),
            final(self).feed() == apply_event(
                old(self).feed(),
                (
                    match msg {
                        Some(m) => Some(m@),
                        None => None,
                    },
                    id,
                ),
            ),
            *final(self) == (ZulipState {
                live_messages: final(self).live_messages,
                channel_history: final(self).channel_history,
                last_event_id: final(self).last_event_id,
                ..*old(self)
            }),
            forall|q: Seq<char>|
                #[trigger] lookup(old(self).channel_history@, q) is Some ==> lookup(
                    final(self).channel_history@,
                    q,
                ) is Some,
    {
        let ghost f0 = self.feed();
        match msg {
            Some(m) => {
                let key = channel_key(m.stream.as_str(), m.topic.as_str());
                proof {
                    lemma_view_key_index(self.channel_history@, key@, 0);
                    lemma_key_index(self.channel_history@, key@);
                }
                match position_of_key(&self.channel_history, &key) {
                    Some(i) => {
                        if !has_id_exec(&self.channel_history[i].1, m.id) {
                            let ghost before = self.channel_history@;
                            let (name, mut list) = self.channel_history.remove(i);
                            let ghost old_list = list@;
                            list.push(m.copy());
                            self.channel_history.insert(i, (name, list));
                            proof {
                                assert(self.channel_history@ =~= before.update(i as int, (name, list)));
                                assert(message_views(list@) =~= message_views(old_list).push(m@));
                                assert(history_views(self.channel_history@) =~= f0.history.update(
                                    i as int,
                                    (f0.history[i as int].0, f0.history[i as int].1.push(m@)),
                                ));
                                assert forall|a: int, b: int|
                                    0 <= a < b < self.channel_history@.len() implies (#[trigger] self.channel_history@[a]).0@
                                    != (#[trigger] self.channel_history@[b]).0@ by {
                                    assert(self.channel_history@[a].0 == before[a].0);
                                    assert(self.channel_history@[b].0 == before[b].0);
                                }
                                assert forall|q: Seq<char>|
                                    #[trigger] lookup(before, q) is Some implies lookup(
                                    self.channel_history@,
                                    q,
                                ) is Some by {
                                    lemma_key_index(before, q);
                                    lemma_key_index(self.channel_history@, q);
                                    let j = key_index(before, q)->0;
                                    assert(self.channel_history@[j].0 == before[j].0);
                                }
                                assert forall|k: int| 0 <= k < self.channel_history_loading@.len() implies lookup(
                                    self.channel_history@,
                                    (#[trigger] self.channel_history_loading@[k])@,
                                ) is None by {
                                    let q = self.channel_history_loading@[k]@;
                                    assert(lookup(before, q) is None);
                                    lemma_key_index(before, q);
                                    lemma_key_index(self.channel_history@, q);
                                    if let Some(j) = key_index(self.channel_history@, q) {
                                        assert(self.channel_history@[j].0 == before[j].0);
                                    }
                                }
                            }
                        }
                    },
                    None => {},
                }
                let ghost live0 = self.live_messages@;
                self.live_messages.push(m);
                assert(message_views(self.live_messages@) =~= message_views(live0).push(m@));
                if self.live_messages.len() > 200 {
                    let ghost live1 = self.live_messages@;
                    let _ = self.live_messages.remove(0);
                    assert(message_views(self.live_messages@) =~= message_views(live1).drop_first());
                }
            },
            None => {},
        }
        match id {
            Some(v) => {
                if v > self.last_event_id {
                    self.last_event_id = v;
                }
            },
            None => {},
        }
    }

    /// Applies the events of a successful poll, in order.
    pub fn apply_events(&mut self, events: Vec<(Option<ZulipMessage>, Option<i64>)>)
        requires
            old(self).wf(),
        ensures
            final(self).wf(),
            final(self).feed() == apply_events_spec(old(self).feed(), event_views(events@)),
            final(self).feed().live == last_n(
                old(self).feed().live + received(event_views(events@)),
                live_capacity(),
            ),
            *final(self) == (ZulipState {
                live_messages: final(self).live_messages,
                channel_history: final(self).channel_history,
                last_event_id: final(self).last_event_id,
                ..*old(self)
            }),
            forall|q: Seq<char>|
                #[trigger] lookup(old(self).channel_history@, q) is Some ==> lookup(
                    final(self).channel_history@,
                    q,
                ) is Some,
    {
        let ghost evs = events@;
        let mut rest = events;
        let total = rest.len();
        let mut done: usize = 0;
        proof {
            assert(event_views(evs).take(0) =~= Seq::empty());
        }
        while rest.len() > 0
            invariant
                self.wf(),
                done + rest@.len() == evs.len(),
                total == evs.len(),
                rest@ == evs.subrange(done as int, evs.len() as int),
                self.feed() == apply_events_spec(old(self).feed(), event_views(evs).take(done as int)),
                *self == (ZulipState {
                    live_messages: self.live_messages,
                    channel_history: self.channel_history,
                    last_event_id: self.last_event_id,
                    ..*old(self)
                }),
                forall|q: Seq<char>|
                    #[trigger] lookup(old(self).channel_history@, q) is Some ==> lookup(
                        self.channel_history@,
                        q,
                    ) is Some,
            decreases rest.len(),
        {
            let (msg, id) = rest.remove(0);
            self.apply_one(msg, id);
            proof {
                assert(event_views(evs).take(done + 1).drop_last() =~= event_views(evs).take(done as int));
                assert(event_views(evs).take(done + 1).last() == event_views(evs)[done as int]);
            }
            done = done + 1;
        }
        assert(event_views(evs).take(evs.len() as int) =~= event_views(evs));
        proof {
            lemma_live_is_last_window(old(self).feed(), event_views(evs));
        }
    }

    /// The history of (`stream`, `topic`) if it is loaded, followed by the
    /// live messages of that channel that it lacks.
    pub fn get_channel_messages(&self, stream: &str, topic: &str) -> (r: Option<Vec<ZulipMessage>>)
        ensures
            match history_lookup(self.channel_history@, channel_key_of(stream@, topic@)) {
                Some(h) => r matches Some(v) && message_views(v@) == merge_live(
                    h,
                    message_views(self.live_messages@),
                    stream@,
                    topic@,
                ),
                None => r is None,
            },
    {
        let key = channel_key(stream, topic);
        proof {
            lemma_key_index(self.channel_history@, key@);
        }
        let i = match position_of_key(&self.channel_history, &key) {
            Some(i) => i,
            None => return None,
        };
        let mut msgs = copy_messages(&self.channel_history[i].1);
        let s = string_of(stream);
        let t = string_of(topic);
        let ghost lv = message_views(self.live_messages@);
        let ghost h = message_views(self.channel_history@[i as int].1@);
        let mut k: usize = 0;
        while k < self.live_messages.len()
            invariant
                k <= self.live_messages@.len(),
                lv == message_views(self.live_messages@),
                s@ == stream@,
                t@ == topic@,
                message_views(msgs@) == merge_live(h, lv.take(k as int), stream@, topic@),
            decreases self.live_messages@.len() - k,
        {
            let m = &self.live_messages[k];
            proof {
                assert(lv.take(k + 1).drop_last() =~= lv.take(k as int));
                assert(lv.take(k + 1).last() == m@);
            }
            if m.stream == s && m.topic == t && !has_id_exec(&msgs, m.id) {
                let ghost before = msgs@;
                msgs.push(m.copy());
                assert(message_views(msgs@) =~= message_views(before).push(m@));
            }
            k += 1;
        }
        assert(lv.take(lv.len() as int) =~= lv);
        Some(msgs)
    }

    /// The live messages of a stream, oldest first.
    pub fn get_stream_messages(&self, stream: &str) -> (r: Vec<ZulipMessage>)
        ensures
            message_views(r@) == message_views(self.live_messages@).filter(
                |m: MessageView| m.stream == stream@,
            ),
    {
        let s = string_of(stream);
        let ghost lv = message_views(self.live_messages@);
        let ghost f = |m: MessageView| m.stream == stream@;
        let mut out: Vec<ZulipMessage> = Vec::new();
        let mut k: usize = 0;
        while k < self.live_messages.len()
            invariant
                k <= self.live_messages@.len(),
                lv == message_views(self.live_messages@),
                s@ == stream@,
                f == (|m: MessageView| m.stream == stream@),
                message_views(out@) == lv.take(k as int).filter(f),
            decreases self.live_messages@.len() - k,
        {
            let m = &self.live_messages[k];
            proof {
                assert(lv.take(k + 1) =~= lv.take(k as int).push(m@));
                crate::gui::lemma_filter_push(lv.take(k as int), m@, f);
            }
            if m.stream == s {
                let ghost before = out@;
                out.push(m.copy());
                assert(message_views(out@) =~= message_views(before).push(m@));
            }
            k += 1;
        }
        assert(lv.take(lv.len() as int) =~= lv);
        out
    }

    /// The next step of the event poller: nothing without a server, the
    /// registration of a queue when none is held, else a fetch of the
    /// queue's events after the last id seen.
    pub fn poll_step(&self) -> (r: PollStep)
        requires
            self.wf(),
        ensures
            self.config.url@.len() == 0 ==> r is Idle,
            self.config.url@.len() > 0 ==> match self.queue_id {
                None => r matches PollStep::Register { url, auth } && url@ == self.config.url@
                    + "/api/v1/register"@ && auth@ == standard_base64(
                    credentials_text(self.config.email@, self.config.api_key@),
                ),
                Some(q) => r matches PollStep::Fetch { url, auth } && url@ == self.config.url@
                    + "/api/v1/events?queue_id="@ + q@ + "&last_event_id="@ + decimal_of(
                    self.last_event_id as int,
                ) + "&dont_block=true"@ && auth@ == standard_base64(
                    credentials_text(self.config.email@, self.config.api_key@),
                ),
            },
    {
        let auth = make_auth(self.config.email.as_str(), self.config.api_key.as_str());
        if self.config.url.as_str().is_empty() {
            return PollStep::Idle;
        }
        match &self.queue_id {
            None => PollStep::Register { url: join(self.config.url.as_str(), "/api/v1/register"), auth },
            Some(q) => {
                let a = join(self.config.url.as_str(), "/api/v1/events?queue_id=");
                let b = join(a.as_str(), q.as_str());
                let c = join(b.as_str(), "&last_event_id=");
                let n = string_from_chars(i64_decimal(self.last_event_id));
                let d = join(c.as_str(), n.as_str());
                let url = join(d.as_str(), "&dont_block=true");
                PollStep::Fetch { url, auth }
            },
        }
    }

    /// Records a successful queue registration: its id (empty when absent)
    /// and the last event id (-1 when absent).
    pub fn apply_registration(&mut self, queue_id: Option<String>, last_event_id: Option<i64>)
        requires
            old(self).wf(),
        ensures
            final(self).wf(),
            final(self).queue_id matches Some(q) && q@ == text_or_empty(queue_id),
            final(self).last_event_id == (match last_event_id {
                Some(v) => v,
                None => -1i64,
            }),
            *final(self) == (ZulipState {
                queue_id: final(self).queue_id,
                last_event_id: final(self).last_event_id,
                ..*old(self)
            }),
    {
        self.queue_id = Some(
            match queue_id {
                Some(q) => q,
                None => String::new(),
            },
        );
        self.last_event_id = match last_event_id {
            Some(v) => v,
            None => -1,
        };
    }

    /// Drops the queue, which the server has expired, so that the next step
    /// registers a new one.
    pub fn queue_expired(&mut self)
        requires
            old(self).wf(),
        ensures
            final(self).wf(),
            *final(self) == (ZulipState { queue_id: None, ..*old(self) }),
    {
        self.queue_id = None;
    }
}

/// A channel built from a subscription: stream id 0 and an empty name when
/// absent, topics not yet fetched.
pub open spec fn subscription_channel(sub: (Option<u64>, Option<String>)) -> ChannelView {
    ChannelView {
        stream_id: match sub.0 {
            Some(v) => v,
            None => 0,
        },
        name: text_or_empty(sub.1),
        topics: Seq::empty(),
        topics_loaded: false,
    }
}

/// Where a channel named `n` goes in `s` so that it follows every channel
/// whose name does not sort after `n`: the first position, from `j` on,
/// of a name that sorts after it.
pub open spec fn insert_pos(s: Seq<ChannelView>, n: Seq<char>, j: int) -> int
    decreases s.len() - j,
{
    if j < 0 || j >= s.len() || seq_lt(n, s[j].name) {
        j
    } else {
        insert_pos(s, n, j + 1)
    }
}

/// The channels in ascending order of name, channels of equal name in
/// their original order (a stable sort by name).
pub open spec fn sort_by_name(s: Seq<ChannelView>) -> Seq<ChannelView>
    decreases s.len(),
{
    if s.len() == 0 {
        s
    } else {
        let r = sort_by_name(s.drop_last());
        r.insert(insert_pos(r, s.last().name, 0), s.last())
    }
}

pub proof fn lemma_insert_pos(s: Seq<ChannelView>, n: Seq<char>, j: int)
    requires
        0 <= j <= s.len(),
    ensures
        j <= insert_pos(s, n, j) <= s.len(),
        forall|k: int| j <= k < insert_pos(s, n, j) ==> !seq_lt(n, #[trigger] s[k].name),
        insert_pos(s, n, j) < s.len() ==> seq_lt(n, s[insert_pos(s, n, j)].name),
    decreases s.len() - j,
{
    if j < s.len() && !seq_lt(n, s[j].name) {
        lemma_insert_pos(s, n, j + 1);
    }
}

/// A list ordered by name.
pub open spec fn ordered_by_name(s: Seq<ChannelView>) -> bool {
    forall|i: int, j: int| #![trigger s[i], s[j]] 0 <= i < j < s.len() ==> !seq_lt(s[j].name, s[i].name)
}

/// The sorted list is ordered by name and as long as the input.
pub proof fn lemma_sort_by_name_ordered(s: Seq<ChannelView>)
    ensures
        ordered_by_name(sort_by_name(s)),
        sort_by_name(s).len() == s.len(),
    decreases s.len(),
{
    if s.len() > 0 {
        let r = sort_by_name(s.drop_last());
        lemma_sort_by_name_ordered(s.drop_last());
        let n = s.last().name;
        lemma_insert_pos(r, n, 0);
        let p = insert_pos(r, n, 0);
        let out = r.insert(p, s.last());
        assert forall|i: int, j: int| 0 <= i < j < out.len() implies !seq_lt(
            #[trigger] out[j].name,
            #[trigger] out[i].name,
        ) by {
            if i < p && j == p {
                assert(out[i] == r[i]);
                lemma_seq_lt_total(n, r[i].name);
                if seq_lt(n, r[i].name) {
                } 
            } else if i == p && j > p {
                assert(out[j] == r[j - 1]);
                if j - 1 == p {
                    lemma_seq_lt_asymmetric(n, r[p].name);
                } else {
                    lemma_seq_lt_asymmetric(n, r[p].name);
                    if seq_lt(r[j - 1].name, n) {
                        lemma_seq_lt_transitive(r[j - 1].name, n, r[p].name);
                        assert(r[p] == r[p]);
                        assert(!seq_lt(r[j - 1].name, r[p].name));
                    }
                }
            } else if i < p && j > p {
                assert(out[i] == r[i]);
                assert(out[j] == r[j - 1]);
            } else if j < p {
                assert(out[i] == r[i]);
                assert(out[j] == r[j]);
            } else {
                assert(out[i] == r[i - 1]);
                assert(out[j] == r[j - 1]);
            }
        }
    }
}

/// Whether a channel is named `n`.
pub open spec fn named(n: Seq<char>) -> spec_fn(ChannelView) -> bool {
    |c: ChannelView| c.name == n
}

/// `out` keeps the channels of `inp` of each name, and in their order.
pub open spec fn same_by_name(out: Seq<ChannelView>, inp: Seq<ChannelView>) -> bool {
    forall|n: Seq<char>| #[trigger] out.filter(named(n)) == inp.filter(named(n))
}

/// Sorting by name is a stable sort: the result is ordered by name, it
/// holds the same channels (a permutation of the input), and channels of
/// one name keep the order they came in.
pub proof fn lemma_sort_by_name_stable(s: Seq<ChannelView>)
    ensures
        ordered_by_name(sort_by_name(s)),
        sort_by_name(s).to_multiset() == s.to_multiset(),
        same_by_name(sort_by_name(s), s),
    decreases s.len(),
{
    lemma_sort_by_name_ordered(s);
    if s.len() > 0 {
        let d = s.drop_last();
        let x = s.last();
        let r = sort_by_name(d);
        lemma_sort_by_name_stable(d);
        lemma_insert_pos(r, x.name, 0);
        let p = insert_pos(r, x.name, 0);
        let out = r.insert(p, x);
        assert(s =~= d.push(x));
        let a = r.subrange(0, p);
        let b = r.subrange(p, r.len() as int);
        assert(r =~= a + b);
        assert(out =~= a.push(x) + b);
        // the multiset
        assert(out.remove(p) =~= r);
        out.to_multiset_ensures();
        d.to_multiset_ensures();
        assert(out.to_multiset().remove(x) =~= r.to_multiset());
        assert(out[p] == x);
        assert(out.contains(x));
        assert(out.to_multiset() =~= r.to_multiset().insert(x));
        // each name
        assert forall|n: Seq<char>| #[trigger] out.filter(named(n)) == s.filter(named(n)) by {
            let f = named(n);
            Seq::filter_distributes_over_add(a.push(x), b, f);
            Seq::filter_distributes_over_add(a, b, f);
            lemma_filter_push(a, x, f);
            lemma_filter_push(d, x, f);
            if f(x) {
                assert forall|i: int| 0 <= i < b.len() implies !f(#[trigger] b[i]) by {
                    assert(b[i] == r[p + i]);
                    lemma_seq_lt_irreflexive(x.name);
                }
                lemma_filter_none(b, f);
                assert(r.filter(f) =~= a.filter(f));
            }
        }
    }
}

/// The channel list of a subscriptions reply, sorted by name.
pub fn channels_from_subscriptions(subs: Vec<(Option<u64>, Option<String>)>) -> (r: Vec<ZulipChannel>)
    ensures
        channel_views(r@) == sort_by_name(subs@.map_values(|x: (Option<u64>, Option<String>)| subscription_channel(x))),
        ordered_by_name(channel_views(r@)),
        channel_views(r@).to_multiset() == subs@.map_values(
            |x: (Option<u64>, Option<String>)| subscription_channel(x),
        ).to_multiset(),
        same_by_name(
            channel_views(r@),
            subs@.map_values(|x: (Option<u64>, Option<String>)| subscription_channel(x)),
        ),
{
    let ghost all = subs@.map_values(|x: (Option<u64>, Option<String>)| subscription_channel(x));
    let ghost n = subs@.len();
    let mut rest = subs;
    let mut out: Vec<ZulipChannel> = Vec::new();
    let mut done: usize = 0;
    let total = rest.len();
    assert(all.take(0) =~= Seq::<ChannelView>::empty());
    while rest.len() > 0
        invariant
            total == n,
            done + rest@.len() == n,
            all.len() == n,
            forall|i: int| 0 <= i < rest@.len() ==> subscription_channel(#[trigger] rest@[i]) == all[done + i],
            channel_views(out@) == sort_by_name(all.take(done as int)),
        decreases rest.len(),
    {
        let ghost r0 = rest@;
        let (id, name) = rest.remove(0);
        let ch = ZulipChannel {
            stream_id: match id {
                Some(v) => v,
                None => 0,
            },
            name: match name {
                Some(v) => v,
                None => String::new(),
            },
            topics: Vec::new(),
            topics_loaded: false,
        };
        proof {
            assert(subscription_channel(r0[0]) == all[done as int]);
            assert(ch@.topics =~= Seq::<Seq<char>>::empty());
            assert(ch@ == all[done as int]);
            assert forall|i: int| 0 <= i < rest@.len() implies subscription_channel(#[trigger] rest@[i]) == all[done + 1 + i] by {
                assert(rest@[i] == r0[i + 1]);
            }
        }
        let ghost cur = channel_views(out@);
        let mut j: usize = 0;
        while j < out.len() && !string_lt(&ch.name, &out[j].name)
            invariant
                j <= out@.len(),
                cur == channel_views(out@),
                insert_pos(cur, ch.name@, 0) == insert_pos(cur, ch.name@, j as int),
            decreases out@.len() - j,
        {
            j += 1;
        }
        proof {
            assert(insert_pos(cur, ch.name@, j as int) == j);
            assert(all.take(done + 1).drop_last() =~= all.take(done as int));
        }
        let ghost chv = ch@;
        out.insert(j, ch);
        assert(channel_views(out@) =~= cur.insert(j as int, chv));
        done = done + 1;
    }
    assert(all.take(n as int) =~= all);
    proof {
        lemma_sort_by_name_stable(all);
    }
    out
}

/// The names of a topics reply, absent ones skipped.
pub open spec fn present_names(names: Seq<Option<String>>) -> Seq<Seq<char>>
    decreases names.len(),
{
    if names.len() == 0 {
        Seq::empty()
    } else {
        let r = present_names(names.drop_last());
        match names.last() {
            Some(s) => r.push(s@),
            None => r,
        }
    }
}

/// The topic names of a topics reply, absent ones skipped.
pub fn topics_from_names(names: Vec<Option<String>>) -> (r: Vec<String>)
    ensures
        views(r@) == present_names(names@),
{
    let ghost all = names@;
    let mut rest = names;
    let mut out: Vec<String> = Vec::new();
    let mut done: usize = 0;
    let total = rest.len();
    assert(all.take(0) =~= Seq::<Option<String>>::empty());
    assert(views(out@) =~= Seq::<Seq<char>>::empty());
    while rest.len() > 0
        invariant
            total == all.len(),
            done + rest@.len() == all.len(),
            rest@ == all.subrange(done as int, all.len() as int),
            views(out@) == present_names(all.take(done as int)),
        decreases rest.len(),
    {
        let item = rest.remove(0);
        proof {
            assert(all.take(done + 1).drop_last() =~= all.take(done as int));
            assert(all.take(done + 1).last() == all[done as int]);
        }
        match item {
            Some(s) => {
                let ghost before = out@;
                out.push(s);
                proof {
                    crate::text::lemma_views_push(before, s);
                }
            },
            None => {},
        }
        done = done + 1;
    }
    assert(all.take(all.len() as int) =~= all);
    out
}

/// Copies a list of messages.
pub fn copy_messages(v: &Vec<ZulipMessage>) -> (r: Vec<ZulipMessage>)
    ensures
        message_views(r@) == message_views(v@),
{
    let mut r: Vec<ZulipMessage> = Vec::new();
    let mut k: usize = 0;
    while k < v.len()
        invariant
            k <= v.len(),
            r@.len() == k,
            forall|i: int| 0 <= i < k ==> (#[trigger] r@[i])@ == v@[i]@,
        decreases v.len() - k,
    {
        let m = v[k].copy();
        r.push(m);
        k += 1;
    }
    assert(message_views(r@) =~= message_views(v@));
    r
}

#[verifier::external_type_specification]
#[verifier::external_body]
pub struct ExDynamicImage(image::DynamicImage);

/// The filters that a picture can be scaled with (those of
/// `image::imageops::FilterType`).
#[derive(Debug, Clone, Copy, PartialEq, Eq, Structural)]
pub enum ResizeFilter {
    Nearest,
    Triangle,
    CatmullRom,
    Gaussian,
    Lanczos3,
}

/// Whether `image::load_from_memory` finds a picture in the bytes: one of
/// the crate's decoders knows their format and reads them without error.
pub uninterp spec fn image_decodes(bytes: Seq<u8>) -> bool;

/// `image::load_from_memory`: the picture that the bytes hold, exactly
/// when `image_decodes` says they hold one. Its pixels are left unsaid:
/// the decoders may take different (SIMD) paths on different machines.
#[verifier::external_body]
fn load_image(bytes: &[u8]) -> (r: Option<image::DynamicImage>)
    ensures
        r is Some <==> image_decodes(bytes@),
{
    match image::load_from_memory(bytes) {
        Ok(img) => Some(img),
        Err(_) => None,
    }
}

/// `DynamicImage::resize` to fit `width` by `height` with `filter`, then
/// `to_rgba8`, taken apart into the raw buffer, width and height. The
/// picture is opaque to the library, so the scaling and the conversion
/// share this item: `resize` documents that the result fits within the
/// bounds (it scales by the smaller of the two ratios, at least one pixel
/// a side), and every buffer the crate builds (`ImageBuffer::new`, a
/// decoder's `total_bytes`) holds exactly four bytes for each RGBA pixel.
/// The pixels themselves are left unsaid.
#[verifier::external_body]
fn scaled_rgba(img: &image::DynamicImage, width: u32, height: u32, filter: ResizeFilter) -> (r: (
    Vec<u8>,
    u32,
    u32,
))
    requires
        width >= 1,
        height >= 1,
    ensures
        1 <= r.1 <= width,
        1 <= r.2 <= height,
        r.0@.len() == 4 * r.1 * r.2,
{
    let f = match filter {
        ResizeFilter::Nearest => image::imageops::FilterType::Nearest,
        ResizeFilter::Triangle => image::imageops::FilterType::Triangle,
        ResizeFilter::CatmullRom => image::imageops::FilterType::CatmullRom,
        ResizeFilter::Gaussian => image::imageops::FilterType::Gaussian,
        ResizeFilter::Lanczos3 => image::imageops::FilterType::Lanczos3,
    };
    let rgba = img.resize(width, height, f).to_rgba8();
    let (w, h) = rgba.dimensions();
    (rgba.into_raw(), w, h)
}

/// Decodes image bytes into a thumbnail: the picture, scaled with the
/// triangle filter to fit `THUMBNAIL_SIZE` by `THUMBNAIL_SIZE`, as RGBA
/// bytes; nothing exactly when the bytes hold no picture.
pub fn decode_thumbnail(bytes: &[u8]) -> (r: Option<DecodedImage>)
    ensures
        r is Some <==> image_decodes(bytes@),
        r matches Some(d) ==> fits_thumbnail(d),
{
    let img = match load_image(bytes) {
        Some(i) => i,
        None => return None,
    };
    let (pixels, w, h) = scaled_rgba(&img, THUMBNAIL_SIZE, THUMBNAIL_SIZE, ResizeFilter::Triangle);
    Some(DecodedImage { pixels, width: w as usize, height: h as usize })
}

/// The bytes of a download arrived and hold a picture.
pub open spec fn downloaded_image(bytes: Option<Vec<u8>>) -> bool {
    match bytes {
        Some(b) => image_decodes(b@),
        None => false,
    }
}

impl ZulipState {
    /// Takes in the download of an image: the bytes when they arrived,
    /// nothing when the request or the read failed. Bytes that decode are
    /// handed to the render thread, fit for upload, and the image is ready;
    /// otherwise it failed and nothing is handed over.
    pub fn finish_image_download(&mut self, images: &mut DecodedImages, url: String, bytes: Option<Vec<u8>>)
        requires
            old(self).wf(),
            old(images).wf(),
        ensures
            final(self).wf(),
            final(images).wf(),
            *final(self) == (ZulipState { image_cache: final(self).image_cache, ..*old(self) }),
            downloaded_image(bytes) ==> final(self).image_cache@ == put(
                old(self).image_cache@,
                url,
                CachedImage::Ready,
            ) && exists|d: DecodedImage|
                fits_thumbnail(d) && #[trigger] put(old(images).entries@, url, d) == final(images).entries@,
            !downloaded_image(bytes) ==> final(self).image_cache@ == put(
                old(self).image_cache@,
                url,
                CachedImage::Failed,
            ) && final(images).entries == old(images).entries,
    {
        let decoded = match &bytes {
            Some(b) => decode_thumbnail(b.as_slice()),
            None => None,
        };
        match decoded {
            Some(d) => {
                let ghost dv = d;
                images.insert(url.clone(), d);
                assert(put(old(images).entries@, url, dv) == images.entries@);
                self.finish_fetch_image(url, true);
            },
            None => {
                self.finish_fetch_image(url, false);
            },
        }
    }
}

/// What a loaded channel shows keeps its history in front, and every live
/// message of that channel shows up in it (by id).
pub proof fn lemma_merge_keeps_history_and_live(
    msgs: Seq<MessageView>,
    live: Seq<MessageView>,
    s: Seq<char>,
    t: Seq<char>,
)
    ensures
        merge_live(msgs, live, s, t).len() >= msgs.len(),
        merge_live(msgs, live, s, t).subrange(0, msgs.len() as int) == msgs,
        forall|j: int|
            0 <= j < live.len() && live[j].stream == s && live[j].topic == t ==> has_id(
                merge_live(msgs, live, s, t),
                #[trigger] live[j].id,
            ),
    decreases live.len(),
{
    if live.len() > 0 {
        let prev = live.drop_last();
        lemma_merge_keeps_history_and_live(msgs, prev, s, t);
        let r = merge_live(msgs, prev, s, t);
        let m = live.last();
        let out = merge_live(msgs, live, s, t);
        assert(out.subrange(0, msgs.len() as int) =~= msgs) by {
            assert(r.subrange(0, msgs.len() as int) == msgs);
            if m.stream == s && m.topic == t && !has_id(r, m.id) {
                assert(out == r.push(m));
                assert forall|i: int| 0 <= i < msgs.len() implies out[i] == msgs[i] by {
                    assert(out[i] == r[i]);
                    assert(r.subrange(0, msgs.len() as int)[i] == r[i]);
                }
            }
        }
        assert forall|j: int|
            0 <= j < live.len() && live[j].stream == s && live[j].topic == t implies has_id(
            out,
            #[trigger] live[j].id,
        ) by {
            if j < live.len() - 1 {
                assert(prev[j] == live[j]);
                assert(has_id(r, prev[j].id));
                let k = choose|k: int| 0 <= k < r.len() && (#[trigger] r[k]).id == prev[j].id;
                if out != r {
                    assert(out == r.push(m));
                    assert(out[k] == r[k]);
                }
            } else {
                assert(live[j] == m);
                if !has_id(r, m.id) {
                    assert(out == r.push(m));
                    assert(out[r.len() as int] == m);
                }
            }
        }
    } else {
        assert(msgs.subrange(0, msgs.len() as int) =~= msgs);
    }
}

/// Whether new settings drop the event queue and the channel list: the
/// server or the credentials change, or the bridge is switched on.
pub open spec fn config_resets(old: ConfigView, new: ConfigView) -> bool {
    new.url != old.url || new.email != old.email || new.api_key != old.api_key || (new.enabled
        && !old.enabled)
}

/// Whether a request for the channel list starts: the bridge is on, has a
/// server, and the list is neither loading nor loaded.
pub open spec fn starts_channel_fetch(s: ZulipState) -> bool {
    s.config.enabled && s.config.url@.len() > 0 && !s.channels_loading && !s.channels_loaded
}

/// Installing the settings in force drops nothing; switching the bridge
/// on, or changing the server, drops the queue and the channel list.
pub proof fn lemma_same_config_keeps_state(c: ConfigView, url: Seq<char>)
    ensures
        !config_resets(c, c),
        !c.enabled ==> config_resets(c, ConfigView { enabled: true, ..c }),
        url != c.url ==> config_resets(c, ConfigView { url: url, ..c }),
{
}

/// The channel list is requested once: while it loads, and after it
/// loaded, no further request starts.
pub proof fn lemma_channels_fetched_once(s: ZulipState)
    ensures
        !starts_channel_fetch(ZulipState { channels_loading: true, ..s }),
        !starts_channel_fetch(ZulipState { channels_loaded: true, ..s }),
{
}

/// An image is requested once: after a fetch starts, its address is in
/// the cache, so a second fetch of it starts nothing.
pub proof fn lemma_image_fetched_once(cache: Seq<(String, CachedImage)>, url: String)
    requires
        distinct_keys(cache),
    ensures
        lookup(put(cache, url, CachedImage::Loading), url@) == Some(CachedImage::Loading),
{
    crate::keyed::lemma_lookup_put(cache, url, CachedImage::Loading, url@);
}

/// The channel list is never loading and loaded at once.
pub proof fn lemma_channels_loading_or_loaded(st: ZulipState)
    requires
        st.wf(),
    ensures
        !(st.channels_loading && st.channels_loaded),
{
}

/// A channel history that is being fetched has no history yet, and a
/// history that is there is not being fetched (no fetch adds a history's
/// key to those loading, and none removes a history).
pub proof fn lemma_loading_has_no_history(st: ZulipState, key: Seq<char>)
    requires
        st.wf(),
    ensures
        holds_text(st.channel_history_loading@, key) ==> history_lookup(st.channel_history@, key) is None,
        history_lookup(st.channel_history@, key) is Some ==> !holds_text(st.channel_history_loading@, key),
{
    if holds_text(st.channel_history_loading@, key) {
        let w = choose|w: int|
            0 <= w < st.channel_history_loading@.len() && (#[trigger] st.channel_history_loading@[w])@
                == key;
        assert(lookup(st.channel_history@, st.channel_history_loading@[w]@) is None);
    }
}

/// An image stays cached: storing any entry of the cache keeps every
/// address that was there (only the image's state can change).
pub proof fn lemma_image_stays_cached(
    cache: Seq<(String, CachedImage)>,
    url: Seq<char>,
    k: String,
    v: CachedImage,
)
    requires
        distinct_keys(cache),
        lookup(cache, url) is Some,
    ensures
        lookup(put(cache, k, v), url) is Some,
{
    crate::keyed::lemma_lookup_put(cache, k, v, url);
}

/// A url is cached only once it was fetched: storing the state of another
/// url leaves what the cache holds for it as it was, and a fresh bridge
/// caches nothing. (Every change of the cache stores the state of the url
/// that `fetch_image`, `finish_fetch_image` or `finish_image_download` was
/// given.)
pub proof fn lemma_other_urls_untouched(
    cache: Seq<(String, CachedImage)>,
    url: Seq<char>,
    k: String,
    v: CachedImage,
)
    requires
        distinct_keys(cache),
        k@ != url,
    ensures
        lookup(put(cache, k, v), url) == lookup(cache, url),
        lookup(Seq::<(String, CachedImage)>::empty(), url) is None,
{
    crate::keyed::lemma_lookup_put(cache, k, v, url);
}

/// A channel's history, once there, stays: storing or extending a history
/// keeps every key that was there, and a key with a history is never
/// among those loading (`lemma_loading_has_no_history`).
pub proof fn lemma_history_stays(
    history: Seq<(String, Vec<ZulipMessage>)>,
    key: Seq<char>,
    k: String,
    v: Vec<ZulipMessage>,
)
    requires
        distinct_keys(history),
        lookup(history, key) is Some,
    ensures
        lookup(put(history, k, v), key) is Some,
{
    crate::keyed::lemma_lookup_put(history, k, v, key);
}

/// Different (stream, topic) pairs keep different histories: the key
/// joins them with a NUL, which stream names hold none of.
pub proof fn lemma_channel_key_injective(s1: Seq<char>, t1: Seq<char>, s2: Seq<char>, t2: Seq<char>)
    requires
        !s1.contains('\0'),
        !s2.contains('\0'),
        channel_key_of(s1, t1) == channel_key_of(s2, t2),
    ensures
        s1 == s2,
        t1 == t2,
{
    let k = channel_key_of(s1, t1);
    assert(k[s1.len() as int] == '\0');
    assert(k[s2.len() as int] == '\0');
    if s1.len() < s2.len() {
        assert(s2[s1.len() as int] == k[s1.len() as int]);
        assert(s2.contains('\0'));
    } else if s2.len() < s1.len() {
        assert(s1[s2.len() as int] == k[s2.len() as int]);
        assert(s1.contains('\0'));
    }
    assert(s1 =~= k.subrange(0, s1.len() as int));
    assert(s2 =~= k.subrange(0, s2.len() as int));
    assert(t1 =~= k.subrange(s1.len() as int + 1, k.len() as int));
    assert(t2 =~= k.subrange(s2.len() as int + 1, k.len() as int));
}

} // verus!
