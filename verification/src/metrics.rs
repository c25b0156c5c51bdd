//! Counters, and the HTTP answers that show them.

use crate::numeral;
use crate::numeral::{numbered, prefixed};
use crate::text;
use crate::text::{
    from_utf8_lossy, joined, same_text, split_char, split_whitespace, string_of,
};
use crate::VERSION;
use vstd::prelude::*;

verus! {

/// What has been counted since the start. Counters wrap around.
#[derive(Debug, Clone, Copy, PartialEq, Eq, Structural)]
pub struct MetricsRegistry {
    pub active_connections: u64,
    pub total_connections: u64,
    pub total_frames_encoded: u64,
    pub total_damage_tiles: u64,
    pub total_bytes_sent: u64,
    pub last_encode_time_us: u64,
}

pub open spec fn all_zero() -> MetricsRegistry {
    MetricsRegistry {
        active_connections: 0,
        total_connections: 0,
        total_frames_encoded: 0,
        total_damage_tiles: 0,
        total_bytes_sent: 0,
        last_encode_time_us: 0,
    }
}

/// The counters after a client has connected.
pub open spec fn connected(m: MetricsRegistry) -> MetricsRegistry {
    MetricsRegistry {
        active_connections: m.active_connections.wrapping_add(1),
        total_connections: m.total_connections.wrapping_add(1),
        ..m
    }
}

/// The counters after a client has gone.
pub open spec fn disconnected(m: MetricsRegistry) -> MetricsRegistry {
    MetricsRegistry { active_connections: m.active_connections.wrapping_sub(1), ..m }
}

/// The counters after an update was sent.
pub open spec fn with_update(m: MetricsRegistry, tiles: u64, bytes: u64, duration: u64) -> MetricsRegistry {
    MetricsRegistry {
        total_frames_encoded: m.total_frames_encoded.wrapping_add(1),
        total_damage_tiles: m.total_damage_tiles.wrapping_add(tiles),
        total_bytes_sent: m.total_bytes_sent.wrapping_add(bytes),
        last_encode_time_us: duration,
        ..m
    }
}

/// One counter as Prometheus reads it.
pub open spec fn metric_text(name: Seq<char>, help: Seq<char>, kind: Seq<char>, value: u64) -> Seq<
    char,
> {
    "# HELP "@ + name + " "@ + help + "\n# TYPE "@ + name + " "@ + kind + "\n"@ + name + " "@
        + numeral::decimal(value as nat) + "\n"@
}

/// All counters, with an empty line between them.
pub open spec fn metrics_text(m: MetricsRegistry) -> Seq<char> {
    metric_text(
        "clm_vdisplay_active_connections"@,
        "Number of active VNC/WS connections"@,
        "gauge"@,
        m.active_connections,
    ) + "\n"@ + metric_text(
        "clm_vdisplay_total_connections_count"@,
        "Total connections established"@,
        "counter"@,
        m.total_connections,
    ) + "\n"@ + metric_text(
        "clm_vdisplay_frames_encoded_total"@,
        "Total frames encoded"@,
        "counter"@,
        m.total_frames_encoded,
    ) + "\n"@ + metric_text(
        "clm_vdisplay_damage_tiles_total"@,
        "Total damage tiles tracked"@,
        "counter"@,
        m.total_damage_tiles,
    ) + "\n"@ + metric_text(
        "clm_vdisplay_bytes_sent_total"@,
        "Total bytes sent to clients"@,
        "counter"@,
        m.total_bytes_sent,
    ) + "\n"@ + metric_text(
        "clm_vdisplay_last_encode_duration_microseconds"@,
        "Last frame encoding latency"@,
        "gauge"@,
        m.last_encode_time_us,
    )
}

fn metric(name: &str, help: &str, kind: &str, value: u64) -> (r: String)
    ensures
        r@ == metric_text(name@, help@, kind@, value),
{
    let a = joined("# HELP ", name);
    let b = joined(a.as_str(), " ");
    let c = joined(b.as_str(), help);
    let d = joined(c.as_str(), "\n# TYPE ");
    let e = joined(d.as_str(), name);
    let f = joined(e.as_str(), " ");
    let g = joined(f.as_str(), kind);
    let h = joined(g.as_str(), "\n");
    let i = joined(h.as_str(), name);
    let j = joined(i.as_str(), " ");
    numbered(j.as_str(), value, "\n")
}

impl MetricsRegistry {
    /// Nothing counted yet.
    pub fn new() -> (r: Self)
        ensures
            r == all_zero(),
    {
        MetricsRegistry {
            active_connections: 0,
            total_connections: 0,
            total_frames_encoded: 0,
            total_damage_tiles: 0,
            total_bytes_sent: 0,
            last_encode_time_us: 0,
        }
    }

    /// A client has connected.
    pub fn inc_active_connections(&mut self)
        ensures
            *final(self) == connected(*old(self)),
    {
        self.active_connections = self.active_connections.wrapping_add(1);
        self.total_connections = self.total_connections.wrapping_add(1);
    }

    /// A client has gone.
    pub fn dec_active_connections(&mut self)
        ensures
            *final(self) == disconnected(*old(self)),
    {
        self.active_connections = self.active_connections.wrapping_sub(1);
    }

    /// An update was sent.
    pub fn record_frame_update(&mut self, tiles_count: usize, bytes_sent: usize, duration_us: u64)
        ensures
            *final(self) == with_update(
                *old(self),
                tiles_count as u64,
                bytes_sent as u64,
                duration_us,
            ),
    {
        self.total_frames_encoded = self.total_frames_encoded.wrapping_add(1);
        self.total_damage_tiles = self.total_damage_tiles.wrapping_add(tiles_count as u64);
        self.total_bytes_sent = self.total_bytes_sent.wrapping_add(bytes_sent as u64);
        self.last_encode_time_us = duration_us;
    }

    /// The counters in the text format of Prometheus.
    pub fn render_prometheus(&self) -> (r: String)
        ensures
            r@ == metrics_text(*self),
    {
        let a = metric(
            "clm_vdisplay_active_connections",
            "Number of active VNC/WS connections",
            "gauge",
            self.active_connections,
        );
        let b = metric(
            "clm_vdisplay_total_connections_count",
            "Total connections established",
            "counter",
            self.total_connections,
        );
        let c = metric(
            "clm_vdisplay_frames_encoded_total",
            "Total frames encoded",
            "counter",
            self.total_frames_encoded,
        );
        let d = metric(
            "clm_vdisplay_damage_tiles_total",
            "Total damage tiles tracked",
            "counter",
            self.total_damage_tiles,
        );
        let e = metric(
            "clm_vdisplay_bytes_sent_total",
            "Total bytes sent to clients",
            "counter",
            self.total_bytes_sent,
        );
        let f = metric(
            "clm_vdisplay_last_encode_duration_microseconds",
            "Last frame encoding latency",
            "gauge",
            self.last_encode_time_us,
        );
        let ab = joined(joined(a.as_str(), "\n").as_str(), b.as_str());
        let abc = joined(joined(ab.as_str(), "\n").as_str(), c.as_str());
        let abcd = joined(joined(abc.as_str(), "\n").as_str(), d.as_str());
        let abcde = joined(joined(abcd.as_str(), "\n").as_str(), e.as_str());
        joined(joined(abcde.as_str(), "\n").as_str(), f.as_str())
    }
}

impl Default for MetricsRegistry {
    fn default() -> (r: Self)
        ensures
            r == all_zero(),
    {
        MetricsRegistry::new()
    }
}

/// A client that connects and goes again, before or after others, leaves the
/// number of connections as it was, and is counted once.
pub proof fn law_connections_balance(m: MetricsRegistry)
    ensures
        disconnected(connected(m)) == (MetricsRegistry {
            total_connections: m.total_connections.wrapping_add(1),
            ..m
        }),
        connected(disconnected(m)) == disconnected(connected(m)),
{
}

/// The path that a request asks for: the second word of its first line, or the
/// root where there is none.
pub open spec fn requested_path(request: Seq<char>) -> Seq<char> {
    let w = text::words(text::parts(request, '\n')[0]);
    if w.len() > 1 {
        w[1]
    } else {
        "/"@
    }
}

/// Status, content type and body of an answer.
pub struct AnswerView {
    pub status: Seq<char>,
    pub content_type: Seq<char>,
    pub body: Seq<char>,
}

/// What is answered for a path: the health, the counters, or that there is no
/// such path.
pub open spec fn answer_for(path: Seq<char>, m: MetricsRegistry) -> AnswerView {
    if path == "/health"@ || path == "/healthz"@ {
        AnswerView {
            status: "200 OK"@,
            content_type: "application/json"@,
            body: "{\"status\":\"ok\",\"version\":\""@ + VERSION@ + "\"}"@,
        }
    } else if path == "/metrics"@ {
        AnswerView {
            status: "200 OK"@,
            content_type: "text/plain; version=0.0.4"@,
            body: metrics_text(m),
        }
    } else {
        AnswerView {
            status: "404 Not Found"@,
            content_type: "text/plain"@,
            body: "Not Found\n"@,
        }
    }
}

/// An answer as it is sent.
pub open spec fn answer_text(a: AnswerView) -> Seq<char> {
    "HTTP/1.1 "@ + a.status + "\r\nContent-Type: "@ + a.content_type + "\r\nContent-Length: "@
        + numeral::decimal(vstd::utf8::encode_utf8(a.body).len())
        + "\r\nConnection: close\r\n\r\n"@ + a.body
}

/// The path that a request asks for.
pub fn request_path(request: &str) -> (r: String)
    ensures
        r@ == requested_path(request@),
{
    let lines = split_char(request, '\n');
    proof {
        lemma_some_part(request@, '\n');
    }
    assert(text::pieces(lines@)[0] == lines@[0]@);
    let first = string_of(lines[0].as_slice());
    let words = split_whitespace(first.as_str());
    if words.len() > 1 {
        assert(text::texts(words@)[1] == words@[1]@);
        words[1].clone()
    } else {
        "/".to_owned()
    }
}

proof fn lemma_some_part(s: Seq<char>, c: char)
    ensures
        text::parts(s, c).len() > 0,
{
}

/// The answer to a request for a path.
pub fn respond(path: &str, metrics: &MetricsRegistry) -> (r: String)
    ensures
        r@ == answer_text(answer_for(path@, *metrics)),
{
    let (status, content_type, body): (&str, &str, String) = if same_text(path, "/health")
        || same_text(path, "/healthz") {
        let start = joined("{\"status\":\"ok\",\"version\":\"", VERSION);
        ("200 OK", "application/json", joined(start.as_str(), "\"}"))
    } else if same_text(path, "/metrics") {
        ("200 OK", "text/plain; version=0.0.4", metrics.render_prometheus())
    } else {
        ("404 Not Found", "text/plain", "Not Found\n".to_owned())
    };
    let size: usize = body.as_str().as_bytes().len();
    let a = joined("HTTP/1.1 ", status);
    let b = joined(a.as_str(), "\r\nContent-Type: ");
    let c = joined(b.as_str(), content_type);
    let d = joined(c.as_str(), "\r\nContent-Length: ");
    let e = numbered(d.as_str(), size as u64, "\r\nConnection: close\r\n\r\n");
    joined(e.as_str(), body.as_str())
}

/// The answer to the bytes of a request.
pub fn handle_request(request: &[u8], metrics: &MetricsRegistry) -> (r: String)
    ensures
        r@ == answer_text(answer_for(requested_path(text::utf8_lossy(request@)), *metrics)),
        vstd::utf8::valid_utf8(request@) ==> r@ == answer_text(
            answer_for(requested_path(vstd::utf8::decode_utf8(request@)), *metrics),
        ),
{
    let request_text = from_utf8_lossy(request);
    let path = request_path(request_text.as_str());
    respond(path.as_str(), metrics)
}

/// Where the answers are served.
#[derive(Debug, Clone, Copy)]
pub struct MetricsServer {
    pub port: u16,
}

impl MetricsServer {
    pub fn new(port: u16) -> (r: Self)
        ensures
            r.port == port,
    {
        MetricsServer { port }
    }

    /// The address to listen on: the port, on every interface.
    pub fn bind_addr(&self) -> (r: String)
        ensures
            r@ == "0.0.0.0:"@ + numeral::decimal(self.port as nat),
    {
        prefixed("0.0.0.0:", self.port as u64)
    }
}

/// A request for a path is answered for that path: the second word of the first
/// line, whatever follows.
pub proof fn law_requests_name_their_path(
    method: Seq<char>,
    path: Seq<char>,
    rest: Seq<char>,
    more: Seq<char>,
)
    requires
        text::is_word(method),
        text::is_word(path),
        forall|i: int| 0 <= i < rest.len() ==> #[trigger] rest[i] != '\n',
    ensures
        requested_path(
            method + seq![' '] + (path + seq![' '] + rest) + seq!['\n'] + more,
        ) == path,
        requested_path(method + seq![' '] + path) == path,
        requested_path(method) == "/"@,
{
    let line = method + seq![' '] + (path + seq![' '] + rest);
    lemma_word_without(method);
    lemma_word_without(path);
    let short = method + seq![' '] + path;
    assert(text::is_space(' ')) by {}
    text::law_words_are_parted_by_white_space(path, ' ', rest);
    text::law_words_are_parted_by_white_space(method, ' ', path + seq![' '] + rest);
    text::law_words_are_parted_by_white_space(method, ' ', path);
    assert(forall|i: int| 0 <= i < line.len() ==> #[trigger] line[i] != '\n');
    assert(forall|i: int| 0 <= i < short.len() ==> #[trigger] short[i] != '\n');
    text::law_parts_are_parted_by_the_character(line, '\n', more);
    text::law_parts_are_parted_by_the_character(short, '\n', Seq::empty());
    text::law_parts_are_parted_by_the_character(method, '\n', Seq::empty());
}

proof fn lemma_word_without(w: Seq<char>)
    requires
        text::is_word(w),
    ensures
        forall|i: int| 0 <= i < w.len() ==> #[trigger] w[i] != '\n',
{
    assert forall|i: int| 0 <= i < w.len() implies #[trigger] w[i] != '\n' by {
        assert(!text::is_space(w[i]));
        assert(text::is_space('\n'));
    }
}

/// Which answer there is for a path: the health under two names, the counters, and
/// nothing anywhere else.
pub proof fn law_answers_for_paths(path: Seq<char>, m: MetricsRegistry)
    ensures
        path == "/metrics"@ ==> answer_for(path, m).body == metrics_text(m),
        path == "/health"@ || path == "/healthz"@ || path == "/metrics"@ <==> answer_for(
            path,
            m,
        ).status == "200 OK"@,
        path == "/health"@ || path == "/healthz"@ <==> answer_for(path, m).content_type
            == "application/json"@,
        answer_for(path, m).status == "200 OK"@ || answer_for(path, m).status
            == "404 Not Found"@,
{
    reveal_strlit("/health");
    reveal_strlit("/healthz");
    reveal_strlit("/metrics");
    reveal_strlit("200 OK");
    reveal_strlit("404 Not Found");
    reveal_strlit("application/json");
    reveal_strlit("text/plain");
    reveal_strlit("text/plain; version=0.0.4");
    assert("200 OK"@.len() != "404 Not Found"@.len());
    assert("application/json"@.len() != "text/plain"@.len());
    assert("application/json"@.len() != "text/plain; version=0.0.4"@.len());
    assert("/health"@.len() != "/healthz"@.len());
    assert("/health"@.len() != "/metrics"@.len());
    assert("/healthz"@[1] != "/metrics"@[1]);
}

/// An answer ends with its body, and tells how many bytes it has.
pub proof fn law_answers_tell_their_length(a: AnswerView)
    ensures
        ({
            let s = answer_text(a);
            &&& s.len() >= a.body.len()
            &&& s.skip(s.len() - a.body.len()) == a.body
            &&& text::occurs(s, a.status)
            &&& text::occurs(
                s,
                "\r\nContent-Length: "@ + numeral::decimal(vstd::utf8::encode_utf8(a.body).len())
                    + "\r\nConnection: close\r\n\r\n"@,
            )
        }),
{
    let s = answer_text(a);
    let number = numeral::decimal(vstd::utf8::encode_utf8(a.body).len());
    let length = "\r\nContent-Length: "@ + number + "\r\nConnection: close\r\n\r\n"@;
    let head = "HTTP/1.1 "@ + a.status + "\r\nContent-Type: "@ + a.content_type;
    assert(s =~= head + length + a.body);
    text::lemma_occurs_between(head, length, a.body);
    assert(s.skip(s.len() - a.body.len()) =~= a.body);
    let rest = "\r\nContent-Type: "@ + a.content_type + length + a.body;
    assert(s =~= "HTTP/1.1 "@ + a.status + rest);
    text::lemma_occurs_between("HTTP/1.1 "@, a.status, rest);
}

/// Every counter is shown, under its own name, with its own value.
pub proof fn law_counters_are_shown(m: MetricsRegistry)
    ensures
        text::occurs(
            metrics_text(m),
            shown_as("clm_vdisplay_active_connections"@, m.active_connections),
        ),
        text::occurs(
            metrics_text(m),
            shown_as("clm_vdisplay_total_connections_count"@, m.total_connections),
        ),
        text::occurs(
            metrics_text(m),
            shown_as("clm_vdisplay_frames_encoded_total"@, m.total_frames_encoded),
        ),
        text::occurs(
            metrics_text(m),
            shown_as("clm_vdisplay_damage_tiles_total"@, m.total_damage_tiles),
        ),
        text::occurs(
            metrics_text(m),
            shown_as("clm_vdisplay_bytes_sent_total"@, m.total_bytes_sent),
        ),
        text::occurs(
            metrics_text(m),
            shown_as("clm_vdisplay_last_encode_duration_microseconds"@, m.last_encode_time_us),
        ),
{
    let a = metric_text(
        "clm_vdisplay_active_connections"@,
        "Number of active VNC/WS connections"@,
        "gauge"@,
        m.active_connections,
    );
    let b = metric_text(
        "clm_vdisplay_total_connections_count"@,
        "Total connections established"@,
        "counter"@,
        m.total_connections,
    );
    let c = metric_text(
        "clm_vdisplay_frames_encoded_total"@,
        "Total frames encoded"@,
        "counter"@,
        m.total_frames_encoded,
    );
    let d = metric_text(
        "clm_vdisplay_damage_tiles_total"@,
        "Total damage tiles tracked"@,
        "counter"@,
        m.total_damage_tiles,
    );
    let e = metric_text(
        "clm_vdisplay_bytes_sent_total"@,
        "Total bytes sent to clients"@,
        "counter"@,
        m.total_bytes_sent,
    );
    let f = metric_text(
        "clm_vdisplay_last_encode_duration_microseconds"@,
        "Last frame encoding latency"@,
        "gauge"@,
        m.last_encode_time_us,
    );
    let gap = "\n"@;
    let ab = a + gap + b;
    let abc = ab + gap + c;
    let abcd = abc + gap + d;
    let abcde = abcd + gap + e;
    assert(metrics_text(m) == abcde + gap + f);
    let a_line = shown_as("clm_vdisplay_active_connections"@, m.active_connections);
    lemma_metric_shown(
        "clm_vdisplay_active_connections"@,
        "Number of active VNC/WS connections"@,
        "gauge"@,
        m.active_connections,
    );
    text::lemma_occurs_in_either(a, gap, b, a_line);
    text::lemma_occurs_in_either(ab, gap, c, a_line);
    text::lemma_occurs_in_either(abc, gap, d, a_line);
    text::lemma_occurs_in_either(abcd, gap, e, a_line);
    text::lemma_occurs_in_either(abcde, gap, f, a_line);
    let b_line = shown_as("clm_vdisplay_total_connections_count"@, m.total_connections);
    lemma_metric_shown(
        "clm_vdisplay_total_connections_count"@,
        "Total connections established"@,
        "counter"@,
        m.total_connections,
    );
    text::lemma_occurs_in_either(a, gap, b, b_line);
    text::lemma_occurs_in_either(ab, gap, c, b_line);
    text::lemma_occurs_in_either(abc, gap, d, b_line);
    text::lemma_occurs_in_either(abcd, gap, e, b_line);
    text::lemma_occurs_in_either(abcde, gap, f, b_line);
    let c_line = shown_as("clm_vdisplay_frames_encoded_total"@, m.total_frames_encoded);
    lemma_metric_shown(
        "clm_vdisplay_frames_encoded_total"@,
        "Total frames encoded"@,
        "counter"@,
        m.total_frames_encoded,
    );
    text::lemma_occurs_in_either(ab, gap, c, c_line);
    text::lemma_occurs_in_either(abc, gap, d, c_line);
    text::lemma_occurs_in_either(abcd, gap, e, c_line);
    text::lemma_occurs_in_either(abcde, gap, f, c_line);
    let d_line = shown_as("clm_vdisplay_damage_tiles_total"@, m.total_damage_tiles);
    lemma_metric_shown(
        "clm_vdisplay_damage_tiles_total"@,
        "Total damage tiles tracked"@,
        "counter"@,
        m.total_damage_tiles,
    );
    text::lemma_occurs_in_either(abc, gap, d, d_line);
    text::lemma_occurs_in_either(abcd, gap, e, d_line);
    text::lemma_occurs_in_either(abcde, gap, f, d_line);
    let e_line = shown_as("clm_vdisplay_bytes_sent_total"@, m.total_bytes_sent);
    lemma_metric_shown(
        "clm_vdisplay_bytes_sent_total"@,
        "Total bytes sent to clients"@,
        "counter"@,
        m.total_bytes_sent,
    );
    text::lemma_occurs_in_either(abcd, gap, e, e_line);
    text::lemma_occurs_in_either(abcde, gap, f, e_line);
    let f_line = shown_as("clm_vdisplay_last_encode_duration_microseconds"@, m.last_encode_time_us);
    lemma_metric_shown(
        "clm_vdisplay_last_encode_duration_microseconds"@,
        "Last frame encoding latency"@,
        "gauge"@,
        m.last_encode_time_us,
    );
    text::lemma_occurs_in_either(abcde, gap, f, f_line);
}

/// A counter's line: its name, a space and its value.
pub open spec fn shown_as(name: Seq<char>, value: u64) -> Seq<char> {
    "\n"@ + name + " "@ + numeral::decimal(value as nat) + "\n"@
}

proof fn lemma_metric_shown(name: Seq<char>, help: Seq<char>, kind: Seq<char>, value: u64)
    ensures
        text::occurs(metric_text(name, help, kind, value), shown_as(name, value)),
{
    let head = "# HELP "@ + name + " "@ + help + "\n# TYPE "@ + name + " "@ + kind;
    let line = shown_as(name, value);
    let none = Seq::<char>::empty();
    assert(metric_text(name, help, kind, value) =~= head + line + none);
    text::lemma_occurs_between(head, line, none);
}

/// Counters count: an update adds one frame, its tiles and its bytes, and sets the
/// time; a client that comes adds one connection, one that goes takes it away; and
/// no other counter moves.
pub proof fn law_counters_count(m: MetricsRegistry, tiles: u64, bytes: u64, duration: u64)
    requires
        m.total_frames_encoded < u64::MAX,
        m.total_damage_tiles + tiles <= u64::MAX,
        m.total_bytes_sent + bytes <= u64::MAX,
        m.active_connections < u64::MAX,
        m.total_connections < u64::MAX,
    ensures
        ({
            let u = with_update(m, tiles, bytes, duration);
            &&& u.total_frames_encoded == m.total_frames_encoded + 1
            &&& u.total_damage_tiles == m.total_damage_tiles + tiles
            &&& u.total_bytes_sent == m.total_bytes_sent + bytes
            &&& u.last_encode_time_us == duration
            &&& u.active_connections == m.active_connections
            &&& u.total_connections == m.total_connections
        }),
        ({
            let c = connected(m);
            &&& c.active_connections == m.active_connections + 1
            &&& c.total_connections == m.total_connections + 1
            &&& c.total_frames_encoded == m.total_frames_encoded
            &&& c.total_damage_tiles == m.total_damage_tiles
            &&& c.total_bytes_sent == m.total_bytes_sent
            &&& c.last_encode_time_us == m.last_encode_time_us
        }),
        m.active_connections > 0 ==> disconnected(m).active_connections == m.active_connections
            - 1,
        disconnected(m).total_connections == m.total_connections,
{
}

} // verus!
