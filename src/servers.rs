//! Game servers and their uptimes.
use crate::roll::trunc_div;
use std::collections::HashMap;
use vstd::multiset::Multiset;
use vstd::prelude::*;

verus! {

/// A server as the server list reports it: when it was first seen, in
/// milliseconds since the epoch, and who is on it.
pub struct Server {
    pub first_seen: i64,
    pub players: Vec<String>,
}

/// The server list, keyed by server name.
pub struct ServerList {
    pub servers: HashMap<String, Server>,
}

/// A server with its name.
pub struct ParsedServer {
    pub name: String,
    pub started: i64,
    pub players: Vec<String>,
}

/// The remainder of `n / d` rounded towards zero, as `%` in Rust.
pub open spec fn trunc_rem(n: int, d: int) -> int {
    n - d * trunc_div(n, d)
}

/// `n / d` rounded towards zero.
fn tdiv(n: i64, d: i64) -> (r: i64)
    requires
        n > i64::MIN,
        d > 0,
    ensures
        r == trunc_div(n as int, d as int),
{
    if n >= 0 {
        n / d
    } else {
        -((-n) / d)
    }
}

/// The remainder of `n / d` rounded towards zero.
fn trem(n: i64, d: i64) -> (r: i64)
    requires
        n > i64::MIN,
        0 < d <= 0x1_0000_0000,
    ensures
        r == trunc_rem(n as int, d as int),
        -d < r < d,
{
    let q = tdiv(n, d);
    assert(-d < n - d * q < d && i64::MIN <= d * q <= i64::MAX) by (nonlinear_arith)
        requires
            q == trunc_div(n as int, d as int),
            d > 0,
            n > i64::MIN,
    {}
    n - d * q
}

/// The uptime, in seconds, of a server first seen at `started` milliseconds
/// when the time is `now` seconds.
pub open spec fn uptime_spec(started: int, now: int) -> int {
    now - trunc_div(started, 1000)
}

/// A server's uptime in whole hours, the minutes beyond them and the
/// seconds beyond those.
pub fn parse_timestamp(started: i64, now: i64) -> (r: (i64, i64, i64))
    requires
        i64::MIN < uptime_spec(started as int, now as int) <= i64::MAX,
    ensures
        r.0 == trunc_div(uptime_spec(started as int, now as int), 3600),
        r.1 == trunc_div(trunc_rem(uptime_spec(started as int, now as int), 3600), 60),
        r.2 == trunc_rem(uptime_spec(started as int, now as int), 60),
{
    let uptime = now - started / 1000;
    let hours = tdiv(uptime, 3600);
    let minutes = tdiv(trem(uptime, 3600), 60);
    let seconds = trem(uptime, 60);
    (hours, minutes, seconds)
}

/// The seconds until a server first seen at `started` milliseconds next
/// regenerates soul points, at the time `now` in seconds: every 20 minutes,
/// counted from two minutes after it started.
pub open spec fn sp_regen_spec(started: int, now: int) -> int {
    1200 - trunc_rem(now - trunc_div(started + 120, 1000), 1200)
}

/// The seconds until a server next regenerates soul points.
pub fn sp_regen_seconds(started: i64, now: i64) -> (r: i64)
    requires
        started <= i64::MAX - 120,
        i64::MIN < now - trunc_div(started + 120, 1000) <= i64::MAX,
    ensures
        r == sp_regen_spec(started as int, now as int),
        1 <= r <= 2399,
{
    let since = now - (started + 120) / 1000;
    1200 - trem(since, 1200)
}

/// The index of a server with the earliest start.
fn earliest(v: &Vec<ParsedServer>) -> (m: usize)
    requires
        v@.len() >= 1,
    ensures
        m < v@.len(),
        forall|k: int| 0 <= k < v@.len() ==> v@[m as int].started <= #[trigger] v@[k].started,
{
    let mut m: usize = 0;
    let mut i: usize = 1;
    while i < v.len()
        invariant
            1 <= i <= v@.len(),
            m < i,
            forall|k: int| 0 <= k < i ==> v@[m as int].started <= #[trigger] v@[k].started,
        decreases v@.len() - i,
    {
        if v[i].started < v[m].started {
            m = i;
        }
        i = i + 1;
    }
    m
}

/// The servers ordered by start, earliest first; servers that started at
/// the same time may come in either order.
pub fn sort_by_start(servers: Vec<ParsedServer>) -> (r: Vec<ParsedServer>)
    ensures
        r@.to_multiset() == servers@.to_multiset(),
        forall|i: int, j: int| 0 <= i < j < r@.len() ==> r@[i].started <= r@[j].started,
{
    let ghost all = servers@;
    let mut rest = servers;
    let mut out: Vec<ParsedServer> = Vec::new();
    proof {
        out@.to_multiset_ensures();
    }
    assert(out@.to_multiset() =~= Multiset::empty());
    assert(out@.to_multiset().add(rest@.to_multiset()) =~= all.to_multiset());
    while rest.len() > 0
        invariant
            out@.to_multiset().add(rest@.to_multiset()) == all.to_multiset(),
            forall|i: int, j: int| 0 <= i < j < out@.len() ==> out@[i].started <= out@[j].started,
            forall|i: int, j: int|
                #![trigger out@[i], rest@[j]]
                0 <= i < out@.len() && 0 <= j < rest@.len() ==> out@[i].started
                    <= rest@[j].started,
        decreases rest@.len(),
    {
        let m = earliest(&rest);
        let ghost before = rest@;
        let x = rest.remove(m);
        assert(before.remove(m as int) == rest@);
        assert forall|j: int| 0 <= j < rest@.len() implies x.started <= #[trigger] rest@[j].started by {
            if j < m {
                assert(rest@[j] == before[j]);
            } else {
                assert(rest@[j] == before[j + 1]);
            }
        }
        assert forall|i: int, j: int|
            #![trigger out@[i], rest@[j]]
            0 <= i < out@.len() && 0 <= j < rest@.len() implies out@[i].started
                <= rest@[j].started by {
            if j < m {
                assert(rest@[j] == before[j]);
            } else {
                assert(rest@[j] == before[j + 1]);
            }
        }
        assert(forall|i: int| 0 <= i < out@.len() ==> out@[i].started <= before[m as int].started);
        let ghost old_out = out@;
        out.push(x);
        proof {
            old_out.to_multiset_ensures();
            before.to_multiset_ensures();
        }
        assert(out@ == old_out.push(x));
        assert(x == before[m as int]);
        assert(out@.to_multiset() =~= old_out.to_multiset().insert(x));
        assert(rest@.to_multiset() =~= before.to_multiset().remove(x));
        assert(out@.to_multiset().add(rest@.to_multiset()) =~= old_out.to_multiset().add(
            before.to_multiset(),
        ));
    }
    proof {
        rest@.to_multiset_ensures();
    }
    assert(rest@.to_multiset() =~= Multiset::empty());
    assert(out@.to_multiset().add(rest@.to_multiset()) =~= out@.to_multiset());
    out
}

} // verus!
