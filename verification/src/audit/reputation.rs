//! Reputation signals: is this package suspiciously new, suspiciously
//! unpopular, a look-alike of a popular name, or has its maintainer set
//! changed? These are soft signals: they produce warnings, never blocks.

use crate::audit::typosquat::{nearest_popular, typosquat_of, POPULAR};
use crate::clock::now_secs;
use crate::config::Config;
use crate::registry::{Maintainer, Packument};
use crate::text::{
    after_char, before_char, chars_of, decimal, insert_sorted, join, join_strings, parse_i64, parse_signed,
    parse_u32, parse_unsigned, signed_decimal, split_once_char, str_lowercase,
    strictly_sorted, string_views, u64_to_decimal, i64_to_decimal, seq_lt, lemma_seq_lt_asymmetric,
    lemma_seq_lt_irreflexive,
};
use vstd::prelude::*;

verus! {

/// A single reputation warning for a package.
#[derive(Debug, Clone, PartialEq, Eq)]
pub struct RepWarning {
    pub message: String,
}

/// The maintainer names recorded at the last install of a package.
#[derive(Debug, Clone)]
pub struct MaintainerRecord {
    pub names: Vec<String>,
}

/// Days since 1970-01-01 of the proleptic Gregorian date `y-m-d`, by the
/// era decomposition of the calendar (eras of 400 years = 146097 days,
/// years counted from March so that the leap day comes last).
pub open spec fn days_from_civil_spec(y: int, m: int, d: int) -> int {
    let y2 = if m <= 2 { y - 1 } else { y };
    let era = y2 / 400;
    let yoe = y2 - era * 400;
    let mp = if m > 2 { m - 3 } else { m + 9 };
    let doy = (153 * mp + 2) / 5 + d - 1;
    let doe = yoe * 365 + yoe / 4 - yoe / 100 + doy;
    era * 146097 + doe - 719468
}

/// Whether computing [`days_from_civil`] on `i64` stays in range: the
/// machine limit of the computation.
pub open spec fn days_from_civil_fits(y: int, m: int, d: int) -> bool {
    let y2 = if m <= 2 { y - 1 } else { y };
    let era = y2 / 400;
    let yoe = y2 - era * 400;
    let mp = if m > 2 { m - 3 } else { m + 9 };
    let doy = (153 * mp + 2) / 5 + d - 1;
    let doe = yoe * 365 + yoe / 4 - yoe / 100 + doy;
    &&& i64::MIN < y
    &&& (y2 < 0 ==> i64::MIN <= y2 - 399)
    &&& i64::MIN <= era * 146097 <= i64::MAX
    &&& i64::MIN <= era * 146097 + doe <= i64::MAX
    &&& i64::MIN <= era * 146097 + doe - 719468 <= i64::MAX
}

/// Days since the Unix epoch of a civil date (Howard Hinnant's
/// days-from-civil algorithm; the inverse of the lockfile's civil-from-days).
pub fn days_from_civil(y: i64, m: u32, d: u32) -> (r: i64)
    requires
        m <= 0x7fff_ffff,
        days_from_civil_fits(y as int, m as int, d as int),
    ensures
        r == days_from_civil_spec(y as int, m as int, d as int),
{
    let y = if m <= 2 { y - 1 } else { y };
    let era = if y >= 0 { y } else { y - 399 } / 400;
    assert(era == y / 400);
    let yoe = y - era * 400;
    let m = m as i64;
    let d = d as i64;
    let doy = (153 * (if m > 2 { m - 3 } else { m + 9 }) + 2) / 5 + d - 1;
    let doe = yoe * 365 + yoe / 4 - yoe / 100 + doy;
    era * 146_097 + doe - 719_468
}

/// The year, month and day fields of an ISO-8601 timestamp
/// (`YYYY-MM-DD...`): the text before the first `T`, split on `-`, with the
/// first three parts parsed as `i64`, `u32` and `u32`.
pub open spec fn iso_date_fields(ts: Seq<char>) -> Option<(int, int, int)> {
    let date = before_char(ts, 'T');
    match after_char(date, '-') {
        None => None,
        Some(r0) => match after_char(r0, '-') {
            None => None,
            Some(r1) => match (
                parse_signed(before_char(date, '-'), i64::MIN as int, i64::MAX as int),
                parse_unsigned(before_char(r0, '-'), u32::MAX as nat),
                parse_unsigned(before_char(r1, '-'), u32::MAX as nat),
            ) {
                (Some(y), Some(m), Some(d)) => Some((y, m as int, d as int)),
                _ => None,
            },
        },
    }
}

/// Days since the epoch of the date part of an ISO-8601 timestamp, when its
/// fields parse and the month is in 1..=12 and the day in 1..=31.
pub open spec fn iso_date_days(ts: Seq<char>) -> Option<int> {
    match iso_date_fields(ts) {
        Some((y, m, d)) => if 1 <= m <= 12 && 1 <= d <= 31 {
            Some(days_from_civil_spec(y, m, d))
        } else {
            None
        },
        None => None,
    }
}

/// Whether converting the timestamp stays within `i64` (machine limit).
pub open spec fn iso_date_fits(ts: Seq<char>) -> bool {
    match iso_date_fields(ts) {
        Some((y, m, d)) => (1 <= m <= 12 && 1 <= d <= 31) ==> days_from_civil_fits(y, m, d),
        None => true,
    }
}

/// Parse the date portion of an ISO-8601 timestamp into days since the Unix
/// epoch. Ignores the time-of-day part.
pub fn iso_date_to_epoch_days(ts: &str) -> (r: Option<i64>)
    requires
        iso_date_fits(ts@),
    ensures
        r == match iso_date_days(ts@) {
            Some(x) => Some(x as i64),
            None => None::<i64>,
        },
{
    let v = chars_of(ts);
    let (date, _) = split_once_char(&v, 'T');
    let (p0, rest0) = split_once_char(&date, '-');
    let y = parse_i64(&p0)?;
    let r0 = rest0?;
    let (p1, rest1) = split_once_char(&r0, '-');
    let m = parse_u32(&p1)?;
    let r1 = rest1?;
    let (p2, _) = split_once_char(&r1, '-');
    let d = parse_u32(&p2)?;
    if !(1 <= m && m <= 12) || !(1 <= d && d <= 31) {
        return None;
    }
    Some(days_from_civil(y, m, d))
}

fn civil_fits(y: i64, m: u32, d: u32) -> (b: bool)
    requires
        1 <= m <= 12,
        1 <= d <= 31,
    ensures
        b == days_from_civil_fits(y as int, m as int, d as int),
{
    if y == i64::MIN {
        return false;
    }
    let y2: i128 = if m <= 2 {
        (y as i128) - 1
    } else {
        y as i128
    };
    if y2 < 0 && y2 - 399 < i64::MIN as i128 {
        return false;
    }
    let era: i128 = if y2 >= 0 {
        y2
    } else {
        y2 - 399
    } / 400;
    assert(era == y2 / 400);
    let yoe = y2 - era * 400;
    let mp: i128 = if m > 2 {
        (m as i128) - 3
    } else {
        (m as i128) + 9
    };
    let doy = (153 * mp + 2) / 5 + (d as i128) - 1;
    let doe = yoe * 365 + yoe / 4 - yoe / 100 + doy;
    let base = era * 146_097;
    let lo = i64::MIN as i128;
    let hi = i64::MAX as i128;
    lo <= base && base <= hi && lo <= base + doe && base + doe <= hi && lo <= base + doe - 719_468
        && base + doe - 719_468 <= hi
}

/// Whether converting an ISO-8601 timestamp to days stays within `i64`.
pub fn date_fits(ts: &str) -> (b: bool)
    ensures
        b == iso_date_fits(ts@),
{
    let v = chars_of(ts);
    let (date, _) = split_once_char(&v, 'T');
    let (p0, rest0) = split_once_char(&date, '-');
    let y = match parse_i64(&p0) {
        Some(y) => y,
        None => return true,
    };
    let r0 = match rest0 {
        Some(r) => r,
        None => return true,
    };
    let (p1, rest1) = split_once_char(&r0, '-');
    let m = match parse_u32(&p1) {
        Some(m) => m,
        None => return true,
    };
    let r1 = match rest1 {
        Some(r) => r,
        None => return true,
    };
    let (p2, _) = split_once_char(&r1, '-');
    let d = match parse_u32(&p2) {
        Some(d) => d,
        None => return true,
    };
    if !(1 <= m && m <= 12) || !(1 <= d && d <= 31) {
        return true;
    }
    civil_fits(y, m, d)
}

/// Whether assessing the publish age of `version` at `now_days` stays
/// within `i64`: the precondition of [`published_age_days`] and [`assess`].
pub fn age_in_range(packument: &Packument, version: &str, now_days: i64) -> (b: bool)
    ensures
        b == age_fits(packument.time@, version@, now_days as int),
{
    let ts = match packument.time.get(version) {
        Some(ts) => ts,
        None => return true,
    };
    if !date_fits(ts.as_str()) {
        return false;
    }
    match iso_date_to_epoch_days(ts.as_str()) {
        Some(day) => {
            let diff = (now_days as i128) - (day as i128);
            (i64::MIN as i128) <= diff && diff <= (i64::MAX as i128)
        },
        None => true,
    }
}

/// Days between the publish timestamp of `version` and `now`, if recorded
/// and parseable.
pub open spec fn published_age(time: Map<Seq<char>, String>, version: Seq<char>, now: int) -> Option<int> {
    if time.contains_key(version) {
        match iso_date_days(time[version]@) {
            Some(day) => Some(now - day),
            None => None,
        }
    } else {
        None
    }
}

/// Whether computing the publish age stays within `i64` (machine limit).
pub open spec fn age_fits(time: Map<Seq<char>, String>, version: Seq<char>, now: int) -> bool {
    time.contains_key(version) ==> {
        &&& iso_date_fits(time[version]@)
        &&& iso_date_days(time[version]@) matches Some(day) ==> i64::MIN <= now - day
            <= i64::MAX
    }
}

/// Days between a version's publish timestamp and `now_days`. `None` if the
/// timestamp is missing or unparseable.
pub fn published_age_days(packument: &Packument, version: &str, now_days: i64) -> (r: Option<i64>)
    requires
        age_fits(packument.time@, version@, now_days as int),
    ensures
        r == match published_age(packument.time@, version@, now_days as int) {
            Some(a) => Some(a as i64),
            None => None::<i64>,
        },
{
    let ts = packument.time.get(version)?;
    let day = iso_date_to_epoch_days(ts.as_str())?;
    Some(now_days - day)
}

/// The recency warning text.
pub open spec fn recency_message(
    name: Seq<char>,
    version: Seq<char>,
    age: int,
    window: int,
    maint: nat,
) -> Seq<char> {
    name + "@"@ + version + " was published "@ + signed_decimal(age) + " day(s) ago (< "@
        + signed_decimal(window) + "d); "@ + decimal(maint)
        + " maintainer(s) — verify this is expected (possible maintainer takeover)"@
}

/// The low-popularity warning text.
pub open spec fn popularity_message(name: Seq<char>, downloads: nat, min: nat) -> Seq<char> {
    name + " has only "@ + decimal(downloads) + " weekly downloads (< "@ + decimal(min)
        + ") — double-check the package name"@
}

/// The typosquat warning text.
pub open spec fn typosquat_message(name: Seq<char>, popular: Seq<char>) -> Seq<char> {
    name + " closely resembles the popular package `"@ + popular + "` — possible typosquat"@
}

/// The warnings of [`assess`], in order: recency, popularity, typosquat.
pub open spec fn assess_messages(
    cfg: Config,
    name: Seq<char>,
    time: Map<Seq<char>, String>,
    maintainers: nat,
    version: Seq<char>,
    downloads: Option<u64>,
    now: int,
) -> Seq<Seq<char>> {
    let window = cfg.security.warn_new_maintainer_days as int;
    let recency = match published_age(time, version, now) {
        Some(age) => if 0 <= age && age < window {
            seq![recency_message(name, version, age, window, maintainers)]
        } else {
            Seq::empty()
        },
        None => Seq::empty(),
    };
    let popularity = match downloads {
        Some(dl) => if dl < cfg.security.min_weekly_downloads {
            seq![popularity_message(name, dl as nat, cfg.security.min_weekly_downloads as nat)]
        } else {
            Seq::empty()
        },
        None => Seq::empty(),
    };
    let typo = match typosquat_of(str_lowercase(name)) {
        Some(k) => seq![typosquat_message(name, POPULAR[k]@)],
        None => Seq::empty(),
    };
    recency + popularity + typo
}

/// The messages of a sequence of warnings.
pub open spec fn warning_messages(ws: Seq<RepWarning>) -> Seq<Seq<char>> {
    ws.map_values(|w: RepWarning| w.message@)
}

/// Assess recency, popularity and name similarity for one resolved package.
///
/// `weekly_downloads` is fetched separately and passed in; `now_days` is
/// days since the epoch.
pub fn assess(
    cfg: &Config,
    packument: &Packument,
    version: &str,
    weekly_downloads: Option<u64>,
    now_days: i64,
) -> (out: Vec<RepWarning>)
    requires
        age_fits(packument.time@, version@, now_days as int),
    ensures
        warning_messages(out@) == assess_messages(
            *cfg,
            packument.name@,
            packument.time@,
            packument.maintainers@.len(),
            version@,
            weekly_downloads,
            now_days as int,
        ),
{
    let mut out: Vec<RepWarning> = Vec::new();
    let name = packument.name.as_str();

    // Recency: a version published within the configured window.
    match published_age_days(packument, version, now_days) {
        Some(age) => {
            let window = cfg.security.warn_new_maintainer_days as i64;
            if age >= 0 && age < window {
                let maint = packument.maintainers.len() as u64;
                let mut m = String::new();
                m.append(name);
                m.append("@");
                m.append(version);
                m.append(" was published ");
                m.append(i64_to_decimal(age).as_str());
                m.append(" day(s) ago (< ");
                m.append(i64_to_decimal(window).as_str());
                m.append("d); ");
                m.append(u64_to_decimal(maint).as_str());
                m.append(" maintainer(s) — verify this is expected (possible maintainer takeover)");
                out.push(RepWarning { message: m });
            }
        },
        None => {},
    }
    let ghost after_recency = warning_messages(out@);

    // Popularity: very low download counts are typical of typosquats.
    if let Some(dl) = weekly_downloads {
        if dl < cfg.security.min_weekly_downloads {
            let mut m = String::new();
            m.append(name);
            m.append(" has only ");
            m.append(u64_to_decimal(dl).as_str());
            m.append(" weekly downloads (< ");
            m.append(u64_to_decimal(cfg.security.min_weekly_downloads).as_str());
            m.append(") — double-check the package name");
            out.push(RepWarning { message: m });
        }
    }
    let ghost after_popularity = warning_messages(out@);

    // Typosquatting: does this name look like a popular package?
    if let Some(popular) = nearest_popular(name) {
        let mut m = String::new();
        m.append(name);
        m.append(" closely resembles the popular package `");
        m.append(popular);
        m.append("` — possible typosquat");
        out.push(RepWarning { message: m });
    }
    proof {
        assert(warning_messages(out@) =~= assess_messages(
            *cfg,
            packument.name@,
            packument.time@,
            packument.maintainers@.len(),
            version@,
            weekly_downloads,
            now_days as int,
        ));
    }
    out
}

/// Whether `n` is the non-empty name of some maintainer.
pub open spec fn is_maintainer_name(ms: Seq<Maintainer>, n: Seq<char>) -> bool {
    n.len() > 0 && exists|i: int| 0 <= i < ms.len() && #[trigger] ms[i].name@ == n
}

/// The names of `cur[..n]` that do not occur in `prev`, in order.
pub open spec fn new_names(cur: Seq<Seq<char>>, prev: Seq<Seq<char>>, n: nat) -> Seq<Seq<char>>
    decreases n,
{
    if n == 0 {
        Seq::empty()
    } else {
        new_names(cur, prev, (n - 1) as nat) + if prev.contains(cur[n - 1]) {
            Seq::empty()
        } else {
            seq![cur[n - 1]]
        }
    }
}

/// The maintainer-change warning text.
pub open spec fn maintainer_message(name: Seq<char>, added: Seq<Seq<char>>) -> Seq<char> {
    name + ": maintainer set changed since last install (new: "@ + join(added, ", "@)
        + ") — possible takeover"@
}

/// Whether `v` contains a string equal to `x`.
fn contains_string(v: &Vec<String>, x: &String) -> (b: bool)
    ensures
        b == string_views(v@).contains(x@),
{
    let mut i: usize = 0;
    while i < v.len()
        invariant
            i <= v.len(),
            forall|k: int| 0 <= k < i ==> v@[k]@ != x@,
        decreases v.len() - i,
    {
        if v[i] == *x {
            assert(string_views(v@)[i as int] == x@);
            return true;
        }
        i += 1;
    }
    assert(!string_views(v@).contains(x@)) by {
        if string_views(v@).contains(x@) {
            let k = choose|k: int| 0 <= k < string_views(v@).len() && string_views(v@)[k] == x@;
            assert(v@[k]@ == x@);
        }
    }
    false
}

/// What a maintainer check gives for the record `prev` of the last install
/// and the package's packument: the record to store is the distinct
/// non-empty maintainer names in sorted order; the warning lists the names
/// new to a non-empty previous record, and there is none on first sight or
/// when nobody was added.
pub open spec fn maintainer_check(
    prev: Option<MaintainerRecord>,
    packument: Packument,
    r: (Option<RepWarning>, MaintainerRecord),
) -> bool {
    &&& strictly_sorted(string_views(r.1.names@))
    &&& forall|n: Seq<char>|
        string_views(r.1.names@).contains(n) <==> is_maintainer_name(packument.maintainers@, n)
    &&& match prev {
        None => r.0 is None,
        Some(rec) => {
            let added = new_names(
                string_views(r.1.names@),
                string_views(rec.names@),
                r.1.names@.len(),
            );
            if rec.names@.len() > 0 && added.len() > 0 {
                r.0 matches Some(w) && w.message@ == maintainer_message(packument.name@, added)
            } else {
                r.0 is None
            }
        },
    }
}

/// Compare the package's current maintainer set against the record of the
/// last install and warn when new maintainers appeared.
///
/// Returns the warning (none on first sight, when the previous record is
/// empty, or when nobody was added) and the record to store: the distinct
/// non-empty maintainer names in sorted order.
pub fn check_maintainers(prev: Option<&MaintainerRecord>, packument: &Packument) -> (r: (
    Option<RepWarning>,
    MaintainerRecord,
))
    ensures
        maintainer_check(
            match prev {
                Some(rec) => Some(*rec),
                None => None,
            },
            *packument,
            r,
        ),
{
    let mut current: Vec<String> = Vec::new();
    let mut i: usize = 0;
    while i < packument.maintainers.len()
        invariant
            i <= packument.maintainers@.len(),
            strictly_sorted(string_views(current@)),
            forall|n: Seq<char>|
                string_views(current@).contains(n) <==> (n.len() > 0 && exists|j: int|
                    0 <= j < i && #[trigger] packument.maintainers@[j].name@ == n),
        decreases packument.maintainers@.len() - i,
    {
        let n = packument.maintainers[i].name.clone();
        let ghost before = string_views(current@);
        if !n.as_str().is_empty() {
            insert_sorted(&mut current, n);
        }
        assert(n@ == packument.maintainers@[i as int].name@);
        proof {
            let after = string_views(current@);
            if n@.len() > 0 {
                assert(after.to_set() == before.to_set().insert(n@));
            } else {
                assert(after == before);
            }
            assert forall|x: Seq<char>|
                after.contains(x) <==> (x.len() > 0 && exists|j: int|
                    0 <= j < i + 1 && #[trigger] packument.maintainers@[j].name@ == x) by {
                assert(after.contains(x) <==> after.to_set().contains(x));
                assert(before.contains(x) <==> before.to_set().contains(x));
                if x.len() > 0 && exists|j: int|
                    0 <= j < i + 1 && #[trigger] packument.maintainers@[j].name@ == x {
                    let j = choose|j: int|
                        0 <= j < i + 1 && #[trigger] packument.maintainers@[j].name@ == x;
                    if j < i {
                        assert(before.contains(x));
                    } else {
                        assert(x == n@);
                    }
                }
                if after.contains(x) {
                    if x != n@ || n@.len() == 0 {
                        assert(before.contains(x));
                    }
                }
            }
        }
        i += 1;
    }
    let record = MaintainerRecord { names: current };
    let warning = match prev {
        None => None,
        Some(rec) => {
            let ghost cur_views = string_views(record.names@);
            let ghost prev_views = string_views(rec.names@);
            let mut added: Vec<String> = Vec::new();
            let mut k: usize = 0;
            while k < record.names.len()
                invariant
                    k <= record.names@.len(),
                    cur_views == string_views(record.names@),
                    prev_views == string_views(rec.names@),
                    string_views(added@) == new_names(cur_views, prev_views, k as nat),
                decreases record.names@.len() - k,
            {
                if !contains_string(&rec.names, &record.names[k]) {
                    added.push(record.names[k].clone());
                }
                assert(string_views(added@) =~= new_names(cur_views, prev_views, (k + 1) as nat));
                k += 1;
            }
            if rec.names.len() > 0 && added.len() > 0 {
                let mut m = String::new();
                m.append(packument.name.as_str());
                m.append(": maintainer set changed since last install (new: ");
                let joined = join_strings(&added, ", ");
                m.append(joined.as_str());
                m.append(") — possible takeover");
                Some(RepWarning { message: m })
            } else {
                None
            }
        },
    };
    (warning, record)
}

/// Whole days in a number of seconds since the epoch.
pub fn epoch_days_of_secs(secs: u64) -> (d: i64)
    ensures
        d == secs / 86400,
{
    (secs / 86_400) as i64
}

proof fn lemma_no_new_names(cur: Seq<Seq<char>>, prev: Seq<Seq<char>>, n: nat)
    requires
        n <= cur.len(),
        forall|i: int| 0 <= i < n ==> prev.contains(#[trigger] cur[i]),
    ensures
        new_names(cur, prev, n).len() == 0,
    decreases n,
{
    if n > 0 {
        lemma_no_new_names(cur, prev, (n - 1) as nat);
    }
}

proof fn lemma_sorted_tail(a: Seq<Seq<char>>)
    requires
        strictly_sorted(a),
        a.len() > 0,
    ensures
        strictly_sorted(a.drop_first()),
        forall|x: Seq<char>| a.drop_first().contains(x) ==> seq_lt(a[0], x),
{
    let t = a.drop_first();
    assert forall|i: int, j: int| 0 <= i < j < t.len() implies seq_lt(#[trigger] t[i], #[trigger] t[j]) by {
        assert(t[i] == a[i + 1] && t[j] == a[j + 1]);
    }
    assert forall|x: Seq<char>| t.contains(x) implies seq_lt(a[0], x) by {
        let i = choose|i: int| 0 <= i < t.len() && t[i] == x;
        assert(a[i + 1] == x);
    }
}

/// Two strictly sorted lists of names with the same members are equal.
proof fn lemma_sorted_same_members(a: Seq<Seq<char>>, b: Seq<Seq<char>>)
    requires
        strictly_sorted(a),
        strictly_sorted(b),
        forall|x: Seq<char>| a.contains(x) <==> b.contains(x),
    ensures
        a == b,
    decreases a.len(),
{
    if a.len() == 0 {
        if b.len() > 0 {
            assert(b.contains(b[0]));
        }
        assert(a =~= b);
    } else if b.len() == 0 {
        assert(a.contains(a[0]));
    } else {
        assert(a.contains(a[0]));
        assert(b.contains(b[0]));
        let k = choose|k: int| 0 <= k < b.len() && b[k] == a[0];
        let m = choose|m: int| 0 <= m < a.len() && a[m] == b[0];
        if k > 0 {
            assert(seq_lt(b[0], b[k]));
            if m > 0 {
                assert(seq_lt(a[0], a[m]));
                lemma_seq_lt_asymmetric(a[0], b[0]);
            } else {
                lemma_seq_lt_irreflexive(b[0]);
            }
        }
        assert(a[0] == b[0]);
        let a1 = a.drop_first();
        let b1 = b.drop_first();
        lemma_sorted_tail(a);
        lemma_sorted_tail(b);
        assert forall|x: Seq<char>| a1.contains(x) <==> b1.contains(x) by {
            if a1.contains(x) {
                lemma_seq_lt_irreflexive(a[0]);
                assert(a.contains(x)) by {
                    let i = choose|i: int| 0 <= i < a1.len() && a1[i] == x;
                    assert(a[i + 1] == x);
                }
                let j = choose|j: int| 0 <= j < b.len() && b[j] == x;
                assert(j != 0);
                assert(b1[j - 1] == x);
            }
            if b1.contains(x) {
                lemma_seq_lt_irreflexive(b[0]);
                assert(b.contains(x)) by {
                    let i = choose|i: int| 0 <= i < b1.len() && b1[i] == x;
                    assert(b[i + 1] == x);
                }
                let j = choose|j: int| 0 <= j < a.len() && a[j] == x;
                assert(j != 0);
                assert(a1[j - 1] == x);
            }
        }
        lemma_sorted_same_members(a1, b1);
        assert(a =~= seq![a[0]] + a1);
        assert(b =~= seq![b[0]] + b1);
    }
}

/// A maintainer check repeated right after the record was updated, against
/// the same packument, warns of nothing and leaves the record as it is.
pub proof fn lemma_repeat_check_is_quiet(
    prev: Option<MaintainerRecord>,
    packument: Packument,
    first: (Option<RepWarning>, MaintainerRecord),
    second: (Option<RepWarning>, MaintainerRecord),
)
    requires
        maintainer_check(prev, packument, first),
        maintainer_check(Some(first.1), packument, second),
    ensures
        second.0 is None,
        string_views(second.1.names@) == string_views(first.1.names@),
{
    let a = string_views(first.1.names@);
    let b = string_views(second.1.names@);
    assert forall|x: Seq<char>| a.contains(x) <==> b.contains(x) by {
        assert(a.contains(x) <==> is_maintainer_name(packument.maintainers@, x));
        assert(b.contains(x) <==> is_maintainer_name(packument.maintainers@, x));
    }
    lemma_sorted_same_members(a, b);
    assert forall|i: int| 0 <= i < second.1.names@.len() implies a.contains(#[trigger] b[i]) by {
        assert(b.contains(b[i]));
    }
    lemma_no_new_names(b, a, second.1.names@.len());
}

/// Whole days in `secs` seconds.
pub open spec fn days_of_secs(secs: u64) -> int {
    (secs / 86400) as int
}

/// Current time as days since the Unix epoch (UTC): the whole days of a
/// reading of the clock in seconds (0 when the clock is before the epoch).
pub fn now_epoch_days() -> (d: i64)
    ensures
        exists|secs: u64| d == #[trigger] days_of_secs(secs),
        0 <= d <= u64::MAX / 86400,
{
    let secs = now_secs();
    let d = epoch_days_of_secs(secs);
    assert(d == days_of_secs(secs));
    d
}

} // verus!
