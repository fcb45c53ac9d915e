//! Server statistics: monotone counters, a live connection gauge, snapshots,
//! and the status pages built from a snapshot.

use vstd::prelude::*;
use vstd::string::StringExecFns;
use crate::text::{decimal_text, format_decimal};

verus! {

/// Process-wide counters. The totals never decrease (they stop at the
/// largest `u64`); the active-connection gauge never goes below zero.
#[derive(Clone, Copy)]
pub struct ServerStats {
    pub total_requests: u64,
    pub total_errors: u64,
    pub bytes_in: u64,
    pub bytes_out: u64,
    pub active_connections: usize,
    pub total_connections: u64,
    /// When the server started, in seconds since the Unix epoch.
    pub start_time: u64,
}

pub open spec fn sat_add(a: u64, b: u64) -> u64 {
    if a + b > u64::MAX { u64::MAX } else { (a + b) as u64 }
}

/// A copy of the counters at one moment, with the uptime in seconds.
#[derive(PartialEq, Eq, Structural, Clone, Copy, Debug)]
pub struct StatsSnapshot {
    pub total_requests: u64,
    pub total_errors: u64,
    pub bytes_in: u64,
    pub bytes_out: u64,
    pub active_connections: usize,
    pub total_connections: u64,
    pub uptime: u64,
}

impl ServerStats {
    /// Zero counters, started at `start_time`.
    pub open spec fn new_spec(start_time: u64) -> ServerStats {
        ServerStats {
            total_requests: 0,
            total_errors: 0,
            bytes_in: 0,
            bytes_out: 0,
            active_connections: 0,
            total_connections: 0,
            start_time,
        }
    }

    pub fn new(start_time: u64) -> (r: Self)
        ensures
            r == Self::new_spec(start_time),
    {
        ServerStats {
            total_requests: 0,
            total_errors: 0,
            bytes_in: 0,
            bytes_out: 0,
            active_connections: 0,
            total_connections: 0,
            start_time,
        }
    }

    pub fn increment_requests(&mut self)
        ensures
            *final(self) == (ServerStats { total_requests: sat_add(old(self).total_requests, 1), ..*old(self) }),
    {
        self.total_requests = self.total_requests.saturating_add(1);
    }

    pub fn increment_errors(&mut self)
        ensures
            *final(self) == (ServerStats { total_errors: sat_add(old(self).total_errors, 1), ..*old(self) }),
    {
        self.total_errors = self.total_errors.saturating_add(1);
    }

    pub fn add_bytes_in(&mut self, bytes: u64)
        ensures
            *final(self) == (ServerStats { bytes_in: sat_add(old(self).bytes_in, bytes), ..*old(self) }),
    {
        self.bytes_in = self.bytes_in.saturating_add(bytes);
    }

    pub fn add_bytes_out(&mut self, bytes: u64)
        ensures
            *final(self) == (ServerStats { bytes_out: sat_add(old(self).bytes_out, bytes), ..*old(self) }),
    {
        self.bytes_out = self.bytes_out.saturating_add(bytes);
    }

    /// Counts a new connection and returns the number now active.
    pub fn increment_connections(&mut self) -> (r: usize)
        ensures
            *final(self) == (ServerStats {
                total_connections: sat_add(old(self).total_connections, 1),
                active_connections: if old(self).active_connections == usize::MAX {
                    usize::MAX
                } else {
                    (old(self).active_connections + 1) as usize
                },
                ..*old(self)
            }),
            r == final(self).active_connections,
    {
        self.total_connections = self.total_connections.saturating_add(1);
        self.active_connections = self.active_connections.saturating_add(1);
        self.active_connections
    }

    /// Counts a closed connection and returns the number still active.
    pub fn decrement_connections(&mut self) -> (r: usize)
        ensures
            *final(self) == (ServerStats {
                active_connections: if old(self).active_connections == 0 {
                    0
                } else {
                    (old(self).active_connections - 1) as usize
                },
                ..*old(self)
            }),
            r == final(self).active_connections,
    {
        if self.active_connections > 0 {
            self.active_connections = self.active_connections - 1;
        }
        self.active_connections
    }

    /// The counters at `now` (seconds since the epoch); the uptime is 0 for
    /// a time before the start.
    pub open spec fn snapshot_at(&self, now: u64) -> StatsSnapshot {
        StatsSnapshot {
            total_requests: self.total_requests,
            total_errors: self.total_errors,
            bytes_in: self.bytes_in,
            bytes_out: self.bytes_out,
            active_connections: self.active_connections,
            total_connections: self.total_connections,
            uptime: if now >= self.start_time { (now - self.start_time) as u64 } else { 0 },
        }
    }

    pub fn get_stats(&self, now: u64) -> (r: StatsSnapshot)
        ensures
            r == self.snapshot_at(now),
    {
        StatsSnapshot {
            total_requests: self.total_requests,
            total_errors: self.total_errors,
            bytes_in: self.bytes_in,
            bytes_out: self.bytes_out,
            active_connections: self.active_connections,
            total_connections: self.total_connections,
            uptime: if now >= self.start_time { now - self.start_time } else { 0 },
        }
    }
}

/// `a / b` in hundredths, rounded half up; 0 when `b` is 0.
pub open spec fn hundredths(a: nat, b: nat) -> nat {
    if b == 0 { 0 } else { (a * 100 * 2 + b) / (2 * b) }
}

impl StatsSnapshot {
    /// Requests per second of uptime, in hundredths.
    pub fn requests_per_second_hundredths(&self) -> (r: u128)
        ensures
            r as nat == hundredths(self.total_requests as nat, self.uptime as nat),
    {
        if self.uptime == 0 {
            0
        } else {
            let a = self.total_requests as u128;
            let b = self.uptime as u128;
            (a * 200 + b) / (2 * b)
        }
    }

    /// Errors per hundred requests (a percentage), in hundredths.
    pub fn error_rate_hundredths(&self) -> (r: u128)
        ensures
            r as nat == hundredths(self.total_errors as nat * 100, self.total_requests as nat),
    {
        if self.total_requests == 0 {
            0
        } else {
            let a = self.total_errors as u128 * 100;
            let b = self.total_requests as u128;
            (a * 200 + b) / (2 * b)
        }
    }
}

/// A number of hundredths written with two decimals, such as `12.05`.
pub open spec fn fixed2_text(h: nat) -> Seq<char> {
    decimal_text(h / 100) + seq!['.'] + decimal_text((h % 100) / 10) + decimal_text(h % 10)
}

pub fn format_fixed2(h: u128) -> (r: String)
    ensures
        r@ == fixed2_text(h as nat),
{
    let mut s = format_decimal(h / 100);
    proof {
        reveal_strlit(".");
    }
    s.append(".");
    s.append(format_decimal((h % 100) / 10).as_str());
    s.append(format_decimal(h % 10).as_str());
    assert(s@ =~= fixed2_text(h as nat));
    s
}

/// The values a status page shows, in its order.
pub open spec fn status_fields(s: StatsSnapshot) -> Seq<Seq<char>> {
    seq![
        decimal_text(s.active_connections as nat),
        decimal_text(s.total_connections as nat),
        decimal_text(s.total_requests as nat),
        decimal_text(s.total_errors as nat),
        fixed2_text(hundredths(s.total_requests as nat, s.uptime as nat)),
        fixed2_text(hundredths(s.total_errors as nat * 100, s.total_requests as nat)),
        decimal_text(s.bytes_in as nat),
        decimal_text(s.bytes_out as nat),
        decimal_text(s.uptime as nat),
    ]
}

/// The texts of a template around its nine values: piece 0, value 0,
/// piece 1, ..., value 8, piece 9.
pub open spec fn fill_template(pieces: Seq<Seq<char>>, values: Seq<Seq<char>>) -> Seq<char>
    decreases values.len(),
{
    if values.len() == 0 {
        pieces[0]
    } else {
        fill_template(pieces, values.drop_last()) + values.last() + pieces[values.len() as int]
    }
}

pub open spec fn json_pieces() -> Seq<Seq<char>> {
    seq![
        "{\n  \"active_connections\": "@,
        ",\n  \"total_connections\": "@,
        ",\n  \"total_requests\": "@,
        ",\n  \"total_errors\": "@,
        ",\n  \"requests_per_second\": "@,
        ",\n  \"error_rate\": "@,
        ",\n  \"bytes_in\": "@,
        ",\n  \"bytes_out\": "@,
        ",\n  \"uptime\": "@,
        "\n}"@,
    ]
}

pub open spec fn html_pieces() -> Seq<Seq<char>> {
    seq![
        HTML_HEAD@ + METRIC_OPEN@ + "Active connections:"@ + METRIC_MID@,
        METRIC_CLOSE@ + METRIC_OPEN@ + "Total connections:"@ + METRIC_MID@,
        METRIC_CLOSE@ + METRIC_OPEN@ + "Total requests:"@ + METRIC_MID@,
        METRIC_CLOSE@ + METRIC_OPEN@ + "Total errors:"@ + METRIC_MID@,
        METRIC_CLOSE@ + METRIC_OPEN@ + "Requests per second:"@ + METRIC_MID@,
        METRIC_CLOSE@ + METRIC_OPEN@ + "Error rate:"@ + METRIC_MID@,
        "%"@ + METRIC_CLOSE@ + METRIC_OPEN@ + "Bytes in:"@ + METRIC_MID@,
        METRIC_CLOSE@ + METRIC_OPEN@ + "Bytes out:"@ + METRIC_MID@,
        METRIC_CLOSE@ + METRIC_OPEN@ + "Uptime (seconds):"@ + METRIC_MID@,
        METRIC_CLOSE@ + HTML_TAIL@,
    ]
}

pub const HTML_HEAD: &'static str = "<!DOCTYPE html>\n<html>\n<head>\n    <meta charset=\"utf-8\">\n    <title>Server Status</title>\n    <style>\n        body { font-family: Arial, sans-serif; margin: 40px; background-color: #f4f4f4; }\n        .container { max-width: 800px; margin: 0 auto; background-color: white; padding: 20px; border-radius: 5px; box-shadow: 0 0 10px rgba(0,0,0,0.1); }\n        h1 { color: #333; border-bottom: 2px solid #007acc; padding-bottom: 10px; }\n        .metric { display: flex; justify-content: space-between; padding: 10px 0; border-bottom: 1px solid #eee; }\n        .metric-name { font-weight: bold; }\n        .metric-value { color: #007acc; }\n    </style>\n</head>\n<body>\n    <div class=\"container\">\n        <h1>Server Status</h1>\n";

pub const HTML_TAIL: &'static str = "    </div>\n</body>\n</html>";

pub const METRIC_OPEN: &'static str = "        <div class=\"metric\">\n            <span class=\"metric-name\">";

pub const METRIC_MID: &'static str = "</span>\n            <span class=\"metric-value\">";

pub const METRIC_CLOSE: &'static str = "</span>\n        </div>\n";

/// Renders snapshots as an HTML page or a JSON object.
pub struct StatusPage;

impl StatusPage {
    pub fn new() -> (r: Self) {
        StatusPage
    }

    fn field_texts(stats: &StatsSnapshot) -> (r: Vec<String>)
        ensures
            r@.len() == 9,
            forall|i: int| 0 <= i < 9 ==> #[trigger] r@[i]@ == status_fields(*stats)[i],
    {
        let rps = stats.requests_per_second_hundredths();
        let err = stats.error_rate_hundredths();
        let mut v: Vec<String> = Vec::new();
        v.push(format_decimal(stats.active_connections as u128));
        v.push(format_decimal(stats.total_connections as u128));
        v.push(format_decimal(stats.total_requests as u128));
        v.push(format_decimal(stats.total_errors as u128));
        v.push(format_fixed2(rps));
        v.push(format_fixed2(err));
        v.push(format_decimal(stats.bytes_in as u128));
        v.push(format_decimal(stats.bytes_out as u128));
        v.push(format_decimal(stats.uptime as u128));
        v
    }

    fn fill(pieces: &Vec<String>, values: &Vec<String>) -> (r: String)
        requires
            pieces@.len() == 10,
            values@.len() == 9,
        ensures
            r@ == fill_template(pieces@.map_values(|p: String| p@), values@.map_values(|v: String| v@)),
    {
        let ghost ps = pieces@.map_values(|p: String| p@);
        let ghost vs = values@.map_values(|v: String| v@);
        let mut s = copy_string(&pieces[0]);
        let mut i: usize = 0;
        while i < 9
            invariant
                pieces@.len() == 10,
                values@.len() == 9,
                ps == pieces@.map_values(|p: String| p@),
                vs == values@.map_values(|v: String| v@),
                i <= 9,
                s@ == fill_template(ps, vs.take(i as int)),
            decreases 9 - i,
        {
            assert(vs.take(i as int + 1).drop_last() =~= vs.take(i as int));
            s.append(values[i].as_str());
            s.append(pieces[i + 1].as_str());
            i = i + 1;
        }
        assert(vs.take(9) =~= vs);
        s
    }

    pub fn generate_status_page(&self, stats: &StatsSnapshot) -> (r: String)
        ensures
            r@ == fill_template(html_pieces(), status_fields(*stats)),
    {
        let values = Self::field_texts(stats);
        let mut pieces: Vec<String> = Vec::new();
        let mut first = HTML_HEAD.to_owned();
        first.append(METRIC_OPEN);
        first.append("Active connections:");
        first.append(METRIC_MID);
        pieces.push(first);
        pieces.push(Self::metric_piece("", "Total connections:"));
        pieces.push(Self::metric_piece("", "Total requests:"));
        pieces.push(Self::metric_piece("", "Total errors:"));
        pieces.push(Self::metric_piece("", "Requests per second:"));
        pieces.push(Self::metric_piece("", "Error rate:"));
        pieces.push(Self::metric_piece("%", "Bytes in:"));
        pieces.push(Self::metric_piece("", "Bytes out:"));
        pieces.push(Self::metric_piece("", "Uptime (seconds):"));
        let mut last = METRIC_CLOSE.to_owned();
        last.append(HTML_TAIL);
        pieces.push(last);
        proof {
            reveal_strlit("");
        }
        assert(pieces@.map_values(|p: String| p@) =~= html_pieces());
        assert(values@.map_values(|v: String| v@) =~= status_fields(*stats));
        Self::fill(&pieces, &values)
    }

    fn metric_piece(before: &str, name: &str) -> (r: String)
        ensures
            r@ == before@ + METRIC_CLOSE@ + METRIC_OPEN@ + name@ + METRIC_MID@,
    {
        let mut s = before.to_owned();
        s.append(METRIC_CLOSE);
        s.append(METRIC_OPEN);
        s.append(name);
        s.append(METRIC_MID);
        s
    }

    pub fn generate_json_status(&self, stats: &StatsSnapshot) -> (r: String)
        ensures
            r@ == fill_template(json_pieces(), status_fields(*stats)),
    {
        let values = Self::field_texts(stats);
        let mut pieces: Vec<String> = Vec::new();
        pieces.push("{\n  \"active_connections\": ".to_owned());
        pieces.push(",\n  \"total_connections\": ".to_owned());
        pieces.push(",\n  \"total_requests\": ".to_owned());
        pieces.push(",\n  \"total_errors\": ".to_owned());
        pieces.push(",\n  \"requests_per_second\": ".to_owned());
        pieces.push(",\n  \"error_rate\": ".to_owned());
        pieces.push(",\n  \"bytes_in\": ".to_owned());
        pieces.push(",\n  \"bytes_out\": ".to_owned());
        pieces.push(",\n  \"uptime\": ".to_owned());
        pieces.push("\n}".to_owned());
        assert(pieces@.map_values(|p: String| p@) =~= json_pieces());
        assert(values@.map_values(|v: String| v@) =~= status_fields(*stats));
        Self::fill(&pieces, &values)
    }
}

fn copy_string(s: &String) -> (r: String)
    ensures
        r@ == s@,
{
    s.clone()
}

} // verus!
