//! Command arguments and the read-side queries of the command-line surface.

use vstd::prelude::*;
use crate::text::{
    chars_of, find_char_exec, find_char_from, lemma_find, parse_unsigned, parse_unsigned_range,
    trim_back, trim_back_exec, trim_front, trim_front_exec, push_decimal, decimal,
};
use crate::record::{Fact, LogRecord};
use crate::aggregate::facts_of;
use crate::dismiss::DismissTarget;
use crate::config::AppConfig;
use crate::lexer::lines_view;

verus! {

/// Number of raw facts `tail` shows when no count is given.
pub const DEFAULT_TAIL_COUNT: usize = 20;

/// The value of the single `flag value` pair that `args` must be.
pub fn parse_single_string_flag(args: &Vec<String>, flag: &str) -> (r: Result<String, String>)
    ensures
        args@.len() == 2 && args@[0]@ == flag@ ==> (r matches Ok(v) && v@ == args@[1]@),
        !(args@.len() == 2 && args@[0]@ == flag@) ==> (r matches Err(e) && e@ == "usage: notilog "@
            + flag@ + " <value>"@),
{
    if args.len() == 2 && args[0].as_str().unicode_len() == flag.unicode_len() {
        if args[0] == String::from_str(flag) {
            return Ok(args[1].clone());
        }
    }
    proof {
        if args@.len() == 2 && args@[0]@ == flag@ {
            assert(args@[0]@.len() == flag@.len());
        }
    }
    Err(String::from_str("usage: notilog ").concat(flag).concat(" <value>"))
}

/// The single `flag value` pair read as an unsigned 32-bit number.
pub fn parse_single_u32_flag(args: &Vec<String>, flag: &str) -> (r: Result<u32, String>)
    ensures
        !(args@.len() == 2 && args@[0]@ == flag@) ==> (r matches Err(e) && e@ == "usage: notilog "@
            + flag@ + " <value>"@),
        args@.len() == 2 && args@[0]@ == flag@ ==> match parse_unsigned(args@[1]@, u32::MAX as nat) {
            Some(n) => r == Ok::<u32, String>(n as u32),
            None => r matches Err(e) && e@ == flag@ + " expects an integer"@,
        },
{
    let value = parse_single_string_flag(args, flag)?;
    let cs = chars_of(value.as_str());
    assert(cs@.subrange(0, cs@.len() as int) =~= cs@);
    match parse_unsigned_range(&cs, 0, cs.len(), 0xffff_ffffu64) {
        Some(n) => Ok(n as u32),
        None => Err(String::from_str(flag).concat(" expects an integer")),
    }
}

/// The single `flag value` pair read as an unsigned 64-bit number.
pub fn parse_single_u64_flag(args: &Vec<String>, flag: &str) -> (r: Result<u64, String>)
    ensures
        !(args@.len() == 2 && args@[0]@ == flag@) ==> (r matches Err(e) && e@ == "usage: notilog "@
            + flag@ + " <value>"@),
        args@.len() == 2 && args@[0]@ == flag@ ==> match parse_unsigned(args@[1]@, u64::MAX as nat) {
            Some(n) => r == Ok::<u64, String>(n as u64),
            None => r matches Err(e) && e@ == flag@ + " expects an integer"@,
        },
{
    let value = parse_single_string_flag(args, flag)?;
    let cs = chars_of(value.as_str());
    assert(cs@.subrange(0, cs@.len() as int) =~= cs@);
    match parse_unsigned_range(&cs, 0, cs.len(), u64::MAX) {
        Some(n) => Ok(n),
        None => Err(String::from_str(flag).concat(" expects an integer")),
    }
}

fn is_text(s: &String, lit: &str) -> (r: bool)
    ensures
        r == (s@ == lit@),
{
    *s == String::from_str(lit)
}

/// Checks the arguments of the logger command: exactly `run`.
pub fn handle_logger(args: &Vec<String>) -> (r: Result<(), String>)
    ensures
        r is Ok <==> args@.len() == 1 && args@[0]@ == "run"@,
        r matches Err(e) ==> e@ == "usage: notilog logger run"@,
{
    if args.len() == 1 && is_text(&args[0], "run") {
        Ok(())
    } else {
        Err(String::from_str("usage: notilog logger run"))
    }
}

/// The target of a manual override: `--event <uid>` or `--id <id>`.
pub fn parse_mark_user_args(args: &Vec<String>) -> (r: Result<DismissTarget, String>)
    ensures
        args@.len() == 2 && args@[0]@ == "--event"@ ==> (r matches Ok(DismissTarget::Event(u)) && u@
            == args@[1]@),
        args@.len() == 2 && args@[0]@ == "--id"@ ==> match parse_unsigned(args@[1]@, u32::MAX as nat) {
            Some(n) => r matches Ok(DismissTarget::Id(i)) && i == n,
            None => r matches Err(e) && e@ == "--id expects an integer"@,
        },
        !(args@.len() == 2 && (args@[0]@ == "--event"@ || args@[0]@ == "--id"@)) ==> (r matches Err(e)
            && e@ == "usage: notilog mark-user --event <uid> (or --id <id>)"@),
{
    proof {
        reveal_strlit("--event");
        reveal_strlit("--id");
        assert("--event"@.len() != "--id"@.len());
    }
    if args.len() == 2 {
        if is_text(&args[0], "--event") {
            return Ok(DismissTarget::Event(args[1].clone()));
        }
        if is_text(&args[0], "--id") {
            let cs = chars_of(args[1].as_str());
            assert(cs@.subrange(0, cs@.len() as int) =~= cs@);
            return match parse_unsigned_range(&cs, 0, cs.len(), 0xffff_ffffu64) {
                Some(n) => Ok(DismissTarget::Id(n as u32)),
                None => Err(String::from_str("--id expects an integer")),
            };
        }
    }
    Err(String::from_str("usage: notilog mark-user --event <uid> (or --id <id>)"))
}

/// The count the tail command shows, reading `--n N` pairs (the last one wins)
/// from position `i` on; a failure carries its message.
pub open spec fn tail_count_from(args: Seq<Seq<char>>, i: int, cur: nat) -> Result<nat, Seq<char>>
    decreases args.len() - i,
{
    if i < 0 || i >= args.len() {
        Ok(cur)
    } else if args[i] == "--n"@ {
        if i + 1 >= args.len() {
            Err("usage: notilog tail [--n N]"@)
        } else {
            match parse_unsigned(args[i + 1], usize::MAX as nat) {
                Some(n) => tail_count_from(args, i + 2, n),
                None => Err("--n expects a positive integer"@),
            }
        }
    } else {
        Err("usage: notilog tail [--n N]"@)
    }
}

/// The number of raw facts to show: `--n N` pairs, the last one winning, 20 when none.
pub fn parse_tail_args(args: &Vec<String>) -> (r: Result<usize, String>)
    ensures
        match tail_count_from(lines_view(args@), 0, DEFAULT_TAIL_COUNT as nat) {
            Ok(n) => r == Ok::<usize, String>(n as usize),
            Err(m) => r matches Err(e) && e@ == m,
        },
{
    let ghost av = lines_view(args@);
    let mut count: usize = DEFAULT_TAIL_COUNT;
    let mut i: usize = 0;
    while i < args.len()
        invariant
            av == lines_view(args@),
            i <= args@.len() + 1,
            tail_count_from(av, i as int, count as nat) == tail_count_from(
                av,
                0,
                DEFAULT_TAIL_COUNT as nat,
            ),
        decreases args@.len() - i,
    {
        assert(av[i as int] == args@[i as int]@);
        if !is_text(&args[i], "--n") {
            return Err(String::from_str("usage: notilog tail [--n N]"));
        }
        if i + 1 >= args.len() {
            return Err(String::from_str("usage: notilog tail [--n N]"));
        }
        assert(av[i + 1] == args@[i + 1]@);
        let cs = chars_of(args[i + 1].as_str());
        assert(cs@.subrange(0, cs@.len() as int) =~= cs@);
        match parse_unsigned_range(&cs, 0, cs.len(), usize::MAX as u64) {
            Some(n) => {
                count = n as usize;
            },
            None => {
                return Err(String::from_str("--n expects a positive integer"));
            },
        }
        i = i + 2;
    }
    Ok(count)
}

/// Where the last `count` of `len` facts start.
pub fn tail_start(len: usize, count: usize) -> (r: usize)
    ensures
        r == if count >= len {
            0
        } else {
            len - count
        },
{
    len.saturating_sub(count)
}

pub open spec fn placeholder_time() -> Seq<char> {
    "--:--"@
}

/// The one-line summary of a raw fact: `#{id} {time} {summary}` and, for a close
/// fact, ` [closed:{reason}]`.
pub open spec fn tail_line_spec(f: Fact) -> Seq<char> {
    let time = match f.hhmm {
        Some(t) => t,
        None => match f.closed_hhmm {
            Some(t) => t,
            None => placeholder_time(),
        },
    };
    let summary = match f.summary {
        Some(s) => s,
        None => "(no summary)"@,
    };
    let suffix = match f.close_reason {
        Some(r) => " [closed:"@ + r + "]"@,
        None => Seq::empty(),
    };
    "#"@ + decimal(f.id as nat) + " "@ + time + " "@ + summary + suffix
}

/// The one-line summary of a raw fact.
pub fn tail_line(record: &LogRecord) -> (r: String)
    ensures
        r@ == tail_line_spec(record@),
{
    let mut out = String::from_str("#");
    push_decimal(&mut out, record.id as u64);
    out.append(" ");
    match &record.hhmm {
        Some(t) => out.append(t.as_str()),
        None => match &record.closed_hhmm {
            Some(t) => out.append(t.as_str()),
            None => out.append("--:--"),
        },
    }
    out.append(" ");
    match &record.summary {
        Some(s) => out.append(s.as_str()),
        None => out.append("(no summary)"),
    }
    match &record.close_reason {
        Some(reason) => {
            out.append(" [closed:");
            out.append(reason.as_str());
            out.append("]");
        },
        None => {},
    }
    assert(out@ =~= tail_line_spec(record@));
    out
}

/// The first state (highest-ranked) with the given id.
pub fn query(merged: &Vec<LogRecord>, id: u32) -> (r: Option<LogRecord>)
    ensures
        r is None ==> forall|j: int| 0 <= j < merged@.len() ==> (#[trigger] merged@[j]).id != id,
        r matches Some(s) ==> exists|j: int|
            0 <= j < merged@.len() && (#[trigger] merged@[j])@ == s@ && merged@[j].id == id
                && forall|x: int| 0 <= x < j ==> (#[trigger] merged@[x]).id != id,
{
    let mut j: usize = 0;
    while j < merged.len()
        invariant
            j <= merged@.len(),
            forall|x: int| 0 <= x < j ==> (#[trigger] merged@[x]).id != id,
        decreases merged@.len() - j,
    {
        if merged[j].id == id {
            let s = merged[j].duplicate();
            assert(merged@[j as int]@ == s@);
            return Some(s);
        }
        j = j + 1;
    }
    None
}

/// The `(id, time)` pairs of a lookup over states `fs[..n]`: the first state of
/// each wanted id that has an open time.
pub open spec fn lookup_spec(fs: Seq<Fact>, wanted: Seq<u32>, n: int) -> Seq<(u32, Seq<char>)>
    decreases n,
{
    if n <= 0 {
        Seq::empty()
    } else {
        let prev = lookup_spec(fs, wanted, n - 1);
        let f = fs[n - 1];
        if wanted.contains(f.id) && f.hhmm is Some && !(exists|x: int|
            0 <= x < prev.len() && (#[trigger] prev[x]).0 == f.id) {
            prev.push((f.id, f.hhmm->0))
        } else {
            prev
        }
    }
}

pub open spec fn pairs_view(v: Seq<(u32, String)>) -> Seq<(u32, Seq<char>)> {
    v.map_values(|p: (u32, String)| (p.0, p.1@))
}

fn contains_u32(v: &Vec<u32>, x: u32) -> (r: bool)
    ensures
        r == v@.contains(x),
{
    let mut j: usize = 0;
    while j < v.len()
        invariant
            j <= v@.len(),
            forall|p: int| 0 <= p < j ==> v@[p] != x,
        decreases v@.len() - j,
    {
        if v[j] == x {
            return true;
        }
        j = j + 1;
    }
    false
}

fn has_id(out: &Vec<(u32, String)>, x: u32) -> (r: bool)
    ensures
        r == exists|p: int| 0 <= p < out@.len() && (#[trigger] pairs_view(out@)[p]).0 == x,
{
    let ghost pv = pairs_view(out@);
    let mut j: usize = 0;
    while j < out.len()
        invariant
            j <= out@.len(),
            pv == pairs_view(out@),
            forall|p: int| 0 <= p < j ==> (#[trigger] pv[p]).0 != x,
        decreases out@.len() - j,
    {
        if out[j].0 == x {
            assert(pv[j as int].0 == x);
            return true;
        }
        j = j + 1;
    }
    false
}

/// For each wanted id, the open time of its highest-ranked state that has one.
pub fn lookup(merged: &Vec<LogRecord>, wanted: &Vec<u32>) -> (r: Vec<(u32, String)>)
    ensures
        pairs_view(r@) == lookup_spec(facts_of(merged@), wanted@, merged@.len() as int),
{
    let ghost fs = facts_of(merged@);
    let mut out: Vec<(u32, String)> = Vec::new();
    let mut j: usize = 0;
    while j < merged.len()
        invariant
            j <= merged@.len(),
            fs == facts_of(merged@),
            pairs_view(out@) == lookup_spec(fs, wanted@, j as int),
        decreases merged@.len() - j,
    {
        let rec = &merged[j];
        assert(fs[j as int] == rec@);
        if contains_u32(wanted, rec.id) && !has_id(&out, rec.id) {
            match &rec.hhmm {
                Some(t) => {
                    out.push((rec.id, t.clone()));
                },
                None => {},
            }
        }
        j = j + 1;
        assert(pairs_view(out@) =~= lookup_spec(fs, wanted@, j as int));
    }
    out
}

/// The ids of a comma-separated list read from position `i` on, appended to
/// `acc`; blank items are skipped and the first invalid one fails with its message.
pub open spec fn ids_from(s: Seq<char>, i: int, acc: Seq<u32>) -> Result<Seq<u32>, Seq<char>>
    decreases s.len() + 1 - i,
{
    if i < 0 || i > s.len() {
        Ok(acc)
    } else {
        let c = match find_char_from(s, ',', i) {
            Some(c) => c,
            None => s.len() as int,
        };
        if c < i || c > s.len() {
            Ok(acc)
        } else {
            let a = trim_front(s, i, c);
            let b = trim_back(s, a, c);
            if a == b {
                ids_from(s, c + 1, acc)
            } else {
                match parse_unsigned(s.subrange(a, b), u32::MAX as nat) {
                    Some(n) => ids_from(s, c + 1, acc.push(n as u32)),
                    None => Err("invalid id '"@ + s.subrange(a, b) + "' in --ids"@),
                }
            }
        }
    }
}

/// The ids of a comma-separated list such as `3, 5,,8`.
pub fn parse_id_list(list: &str) -> (r: Result<Vec<u32>, String>)
    ensures
        match ids_from(list@, 0, Seq::empty()) {
            Ok(ids) => r matches Ok(v) && v@ == ids,
            Err(m) => r matches Err(e) && e@ == m,
        },
{
    let s = chars_of(list);
    let mut out: Vec<u32> = Vec::new();
    let mut i: usize = 0;
    while i <= s.len()
        invariant
            s@ == list@,
            i <= s@.len() + 1,
            ids_from(s@, i as int, out@) == ids_from(s@, 0, Seq::empty()),
        decreases s@.len() + 1 - i,
    {
        let c = match find_char_exec(&s, ',', i) {
            Some(c) => c,
            None => s.len(),
        };
        proof {
            lemma_find(s@, seq![], ',', i as int);
        }
        let a = trim_front_exec(&s, i, c);
        let b = trim_back_exec(&s, a, c);
        if a < b {
            match parse_unsigned_range(&s, a, b, 0xffff_ffffu64) {
                Some(n) => {
                    out.push(n as u32);
                },
                None => {
                    let mut msg = String::from_str("invalid id '");
                    let part = crate::text::string_of_range(&s, a, b);
                    msg.append(part.as_str());
                    msg.append("' in --ids");
                    return Err(msg);
                },
            }
        }
        if c >= s.len() {
            assert(ids_from(s@, c + 1, out@) == Ok::<Seq<u32>, Seq<char>>(out@));
            return Ok(out);
        }
        i = c + 1;
    }
    Ok(out)
}

/// The configured bound on distinct events.
pub fn max_notification_length(config: &AppConfig) -> (r: usize)
    ensures
        r == config.max_notification_length,
{
    config.max_notification_length
}

/// Relies on `std::time::SystemTime`: whole seconds since the Unix epoch, 0 when
/// the clock stands before it.
#[verifier::external_body]
fn seconds_since_unix_epoch() -> (r: u64) {
    std::time::SystemTime::now()
        .duration_since(std::time::UNIX_EPOCH)
        .unwrap_or_default()
        .as_secs()
}

/// The current time in whole seconds since the Unix epoch.
pub fn now_epoch() -> (r: i64)
    ensures
        r >= 0,
{
    let secs = seconds_since_unix_epoch();
    if secs > i64::MAX as u64 {
        i64::MAX
    } else {
        secs as i64
    }
}

} // verus!
