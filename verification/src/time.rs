//! Timestamp handling: a small ISO timestamp reader for elapsed-time
//! display, RFC 3339 parsing through chrono, and the wall clock.

use vstd::prelude::*;

use crate::strutil::{dec_str, parse_u32, parse_u32_of, split_on, split_rec, u64_to_string};

verus! {

/// The epoch second that an RFC 3339 timestamp denotes, if it parses.
pub uninterp spec fn rfc3339_secs(s: Seq<char>) -> Option<i64>;

/// Relies on chrono's DateTime::parse_from_rfc3339 and timestamp: the
/// epoch second of an RFC 3339 timestamp, a function of the text alone.
#[verifier::external_body]
pub(crate) fn parse_rfc3339_epoch(s: &str) -> (r: Option<i64>)
    ensures
        r == rfc3339_secs(s@),
{
    chrono::DateTime::parse_from_rfc3339(s).ok().map(|dt| dt.timestamp())
}

/// Relies on chrono's Utc::now and timestamp: the wall clock, about
/// which nothing is promised.
#[verifier::external_body]
pub(crate) fn now_epoch_seconds() -> i64 {
    chrono::Utc::now().timestamp()
}

/// Days in a month of a non-leap year; anything out of range counts 30.
pub open spec fn month_len(m: int) -> int {
    if m == 1 {
        31
    } else if m == 2 {
        28
    } else if m == 3 {
        31
    } else if m == 4 {
        30
    } else if m == 5 {
        31
    } else if m == 6 {
        30
    } else if m == 7 {
        31
    } else if m == 8 {
        31
    } else if m == 9 {
        30
    } else if m == 10 {
        31
    } else if m == 11 {
        30
    } else if m == 12 {
        31
    } else {
        30
    }
}

/// Whether a year is a leap year.
pub open spec fn is_leap(y: int) -> bool {
    y % 4 == 0 && (y % 100 != 0 || y % 400 == 0)
}

/// Days in the months before month `m`, not counting a leap day.
pub open spec fn days_before_month(m: int) -> int
    decreases
            if m >= 1 {
                m
            } else {
                1
            },
{
    if m <= 1 {
        0
    } else {
        days_before_month(m - 1) + month_len(m - 1)
    }
}

fn month_len_exec(m: u64) -> (r: u64)
    ensures
        r as int == month_len(m as int),
{
    if m == 1 {
        31
    } else if m == 2 {
        28
    } else if m == 3 {
        31
    } else if m == 4 {
        30
    } else if m == 5 {
        31
    } else if m == 6 {
        30
    } else if m == 7 {
        31
    } else if m == 8 {
        31
    } else if m == 9 {
        30
    } else if m == 10 {
        31
    } else if m == 11 {
        30
    } else if m == 12 {
        31
    } else {
        30
    }
}

/// One field of a timestamp: the parsed digits, or the fallback when
/// they do not parse.
pub open spec fn field_or(pieces: Seq<Seq<char>>, i: int, fallback: int) -> int {
    if 0 <= i < pieces.len() {
        match parse_u32_of(pieces[i]) {
            Some(v) => v as int,
            None => fallback,
        }
    } else {
        fallback
    }
}

/// The epoch second that a `YYYY-MM-DD HH:MM:SS`-shaped timestamp
/// denotes, from fields already taken apart. Years before 1970 and
/// results before the epoch clamp to zero.
pub open spec fn fields_epoch(y: int, mo: int, d: int, h: int, mi: int, sec: int) -> int {
    if y < 1970 {
        0
    } else {
        let cap = if mo < 13 {
            mo
        } else {
            13
        };
        let leap_add: int = if cap > 2 && is_leap(y) {
            1
        } else {
            0
        };
        let days = (y - 1970) * 365 + (y - 1969) / 4 - (y - 1901) / 100 + (y - 1601) / 400
            + days_before_month(cap) + leap_add + d - 1;
        let total = days * 86400 + h * 3600 + mi * 60 + sec;
        if total < 0 {
            0
        } else {
            total
        }
    }
}

/// The normalized form of an ISO timestamp: `T` becomes a space and
/// every `Z` is dropped.
pub open spec fn normalize_ts(s: Seq<char>) -> Seq<char> {
    s.filter(|c: char| c != 'Z').map_values(
        |c: char|
            if c == 'T' {
                ' '
            } else {
                c
            },
    )
}

/// The epoch second an ISO timestamp denotes, with `now` as the
/// fallback for text that does not have two dash-separated and two
/// colon-separated fields.
pub open spec fn iso_epoch(s: Seq<char>, now: int) -> int {
    let parts = split_rec(normalize_ts(s), ' ', Seq::empty());
    if parts.len() < 2 {
        now
    } else {
        let date_parts = split_rec(parts[0], '-', Seq::empty());
        let time_parts = split_rec(parts[1], ':', Seq::empty());
        if date_parts.len() < 3 || time_parts.len() < 3 {
            now
        } else {
            let sec_piece = split_rec(time_parts[2], '.', Seq::empty())[0];
            fields_epoch(
                field_or(date_parts, 0, 1970),
                field_or(date_parts, 1, 1),
                field_or(date_parts, 2, 1),
                field_or(time_parts, 0, 0),
                field_or(time_parts, 1, 0),
                match parse_u32_of(sec_piece) {
                    Some(v) => v as int,
                    None => 0,
                },
            )
        }
    }
}

/// Seconds elapsed at `now` since the moment `s` denotes, never
/// negative.
pub open spec fn elapsed_secs(s: Seq<char>, now: int) -> int {
    let created = iso_epoch(s, now);
    if now >= created {
        now - created
    } else {
        0
    }
}

/// The elapsed-time text: seconds under a minute, minutes and seconds
/// under an hour, hours and minutes above.
pub open spec fn elapsed_text(e: nat) -> Seq<char> {
    if e < 60 {
        dec_str(e) + "s"@
    } else if e < 3600 {
        dec_str(e / 60) + "m"@ + dec_str(e % 60) + "s"@
    } else {
        dec_str(e / 3600) + "h"@ + dec_str((e % 3600) / 60) + "m"@
    }
}

/// Days before a month stay under a year's worth of days.
proof fn lemma_days_before_month_bound(m: int)
    requires
        m <= 13,
    ensures
        0 <= days_before_month(m) <= 372,
    decreases
            if m >= 1 {
                m
            } else {
                1
            },
{
    if m > 1 {
        lemma_days_before_month_bound(m - 1);
        assert(days_before_month(m) == days_before_month(m - 1) + month_len(m - 1));
        assert(days_before_month(m - 1) <= 31 * (m - 2)) by {
            lemma_days_before_month_small(m - 1);
        }
    }
}

proof fn lemma_days_before_month_small(m: int)
    ensures
        m >= 1 ==> days_before_month(m) <= 31 * (m - 1),
        days_before_month(m) >= 0,
    decreases
            if m >= 1 {
                m
            } else {
                1
            },
{
    if m > 1 {
        lemma_days_before_month_small(m - 1);
    }
}

fn normalize_exec(s: &str) -> (r: String)
    ensures
        r@ == normalize_ts(s@),
{
    let n = s.unicode_len();
    let mut r = String::new();
    let mut i: usize = 0;
    proof {
        assert(s@.take(0) =~= Seq::<char>::empty());
        assert(r@ =~= normalize_ts(s@.take(0)));
    }
    while i < n
        invariant
            n == s@.len(),
            i <= n,
            r@ == normalize_ts(s@.take(i as int)),
        decreases n - i,
    {
        let c = s.get_char(i);
        let ghost pre = s@.take(i as int);
        proof {
            assert(s@.take(i + 1).drop_last() =~= pre);
            assert(s@.take(i + 1).last() == s@[i as int]);
            reveal(Seq::filter);
        }
        if c != 'Z' {
            if c == 'T' {
                crate::strutil::push_char(&mut r, ' ');
            } else {
                crate::strutil::push_char(&mut r, c);
            }
            proof {
                let keep = |x: char| x != 'Z';
                let tr = |x: char|
                    if x == 'T' {
                        ' '
                    } else {
                        x
                    };
                assert(s@.take(i + 1).filter(keep) =~= pre.filter(keep).push(s@[i as int]));
                assert(normalize_ts(s@.take(i + 1)) =~= normalize_ts(pre).push(tr(s@[i as int])));
            }
        } else {
            proof {
                let keep = |x: char| x != 'Z';
                assert(s@.take(i + 1).filter(keep) =~= pre.filter(keep));
                assert(normalize_ts(s@.take(i + 1)) =~= normalize_ts(pre));
            }
        }
        i = i + 1;
    }
    proof {
        assert(s@.take(n as int) =~= s@);
    }
    r
}

fn epoch_from_fields(y: u32, mo: u32, d: u32, h: u32, mi: u32, sec: u32) -> (r: u64)
    ensures
        r as int == fields_epoch(y as int, mo as int, d as int, h as int, mi as int, sec as int),
{
    if y < 1970 {
        return 0;
    }
    let yy = y as i64;
    let cap: u64 = if mo < 13 {
        mo as u64
    } else {
        13
    };
    let mut cum: i64 = 0;
    let mut m: u64 = 1;
    while m < cap
        invariant
            1 <= m,
            cap <= 13,
            m <= 13,
            cap > 1 ==> m <= cap,
            cap <= 1 ==> m == 1,
            cum as int == days_before_month(m as int),
        decreases cap - m,
    {
        proof {
            lemma_days_before_month_bound(m as int + 1);
            lemma_days_before_month_small(m as int + 1);
        }
        cum = cum + month_len_exec(m) as i64;
        m = m + 1;
    }
    proof {
        lemma_days_before_month_bound(m as int);
        if cap <= 1 {
            assert(days_before_month(cap as int) == 0);
        }
        assert(cum as int == days_before_month(cap as int));
    }
    let leap_add: i64 = if cap > 2 && y % 4 == 0 && (y % 100 != 0 || y % 400 == 0) {
        1
    } else {
        0
    };
    let days: i64 = (yy - 1970) * 365 + (yy - 1969) / 4 - (yy - 1901) / 100 + (yy - 1601) / 400
        + cum + leap_add + (d as i64) - 1;
    let total: i64 = days * 86400 + (h as i64) * 3600 + (mi as i64) * 60 + (sec as i64);
    if total < 0 {
        0
    } else {
        total as u64
    }
}

/// Reads a `YYYY-MM-DDTHH:MM:SS`-shaped timestamp as an epoch second;
/// text without its two date and time fields counts as `now_s`, and a
/// field that does not parse takes its lowest sensible value.
pub fn parse_iso_timestamp(iso: &str, now_s: u64) -> (r: u64)
    ensures
        r as int == iso_epoch(iso@, now_s as int),
{
    let norm = normalize_exec(iso);
    let parts = split_on(norm.as_str(), ' ');
    if parts.len() < 2 {
        return now_s;
    }
    proof {
        assert(parts.deep_view()[0] == parts@[0]@);
        assert(parts.deep_view()[1] == parts@[1]@);
    }
    let date_parts = split_on(parts[0].as_str(), '-');
    let time_parts = split_on(parts[1].as_str(), ':');
    if date_parts.len() < 3 || time_parts.len() < 3 {
        return now_s;
    }
    proof {
        assert(date_parts.deep_view()[0] == date_parts@[0]@);
        assert(date_parts.deep_view()[1] == date_parts@[1]@);
        assert(date_parts.deep_view()[2] == date_parts@[2]@);
        assert(time_parts.deep_view()[0] == time_parts@[0]@);
        assert(time_parts.deep_view()[1] == time_parts@[1]@);
        assert(time_parts.deep_view()[2] == time_parts@[2]@);
    }
    let year = match parse_u32(date_parts[0].as_str()) {
        Some(v) => v,
        None => 1970,
    };
    let month = match parse_u32(date_parts[1].as_str()) {
        Some(v) => v,
        None => 1,
    };
    let day = match parse_u32(date_parts[2].as_str()) {
        Some(v) => v,
        None => 1,
    };
    let hour = match parse_u32(time_parts[0].as_str()) {
        Some(v) => v,
        None => 0,
    };
    let minute = match parse_u32(time_parts[1].as_str()) {
        Some(v) => v,
        None => 0,
    };
    let sec_pieces = split_on(time_parts[2].as_str(), '.');
    proof {
        assert(sec_pieces.deep_view()[0] == sec_pieces@[0]@);
    }
    let second = match parse_u32(sec_pieces[0].as_str()) {
        Some(v) => v,
        None => 0,
    };
    epoch_from_fields(year, month, day, hour, minute, second)
}

/// Formats how long ago the timestamp `iso` was, as of `now_s`.
pub fn format_elapsed_at(iso: &str, now_s: u64) -> (r: String)
    ensures
        r@ == elapsed_text(elapsed_secs(iso@, now_s as int) as nat),
{
    let created = parse_iso_timestamp(iso, now_s);
    let elapsed = now_s.saturating_sub(created);
    if elapsed < 60 {
        let mut t = u64_to_string(elapsed);
        t.append("s");
        proof {
            assert(t@ =~= dec_str(elapsed as nat) + "s"@);
        }
        t
    } else if elapsed < 3600 {
        let mut t = u64_to_string(elapsed / 60);
        t.append("m");
        let s2 = u64_to_string(elapsed % 60);
        t.append(s2.as_str());
        t.append("s");
        proof {
            assert(t@ =~= dec_str((elapsed / 60) as nat) + "m"@ + dec_str((elapsed % 60) as nat)
                + "s"@);
        }
        t
    } else {
        let mut t = u64_to_string(elapsed / 3600);
        t.append("h");
        let s2 = u64_to_string((elapsed % 3600) / 60);
        t.append(s2.as_str());
        t.append("m");
        proof {
            assert(t@ =~= dec_str((elapsed / 3600) as nat) + "h"@ + dec_str(
                ((elapsed % 3600) / 60) as nat,
            ) + "m"@);
        }
        t
    }
}

/// Formats how long ago the timestamp `iso` was, against the wall
/// clock.
pub fn format_elapsed_time(iso: &str) -> (r: String)
    ensures
        exists|now_s: u64| r@ == #[trigger] elapsed_text(elapsed_secs(iso@, now_s as int) as nat),
{
    let now = now_epoch_seconds();
    let now_u: u64 = if now < 0 {
        0
    } else {
        now as u64
    };
    let r = format_elapsed_at(iso, now_u);
    proof {
        assert(r@ == elapsed_text(elapsed_secs(iso@, now_u as int) as nat));
    }
    r
}

} // verus!
