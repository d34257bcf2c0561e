//! Configuration: the log file's path and the count bound, read from key/value text.

use vstd::prelude::*;
use crate::text::{
    chars_of, find_char_exec, find_char_from, lemma_find, parse_unsigned, parse_unsigned_range,
    push_char, string_of_range, strip_back, strip_back_exec, strip_front, strip_front_exec,
    trim_back, trim_back_exec, trim_front, trim_front_exec,
};

verus! {

/// Number of distinct events kept when the configuration names none.
pub const DEFAULT_MAX_NOTIFICATIONS: usize = 30;

/// Where the log lives and how many distinct events it keeps.
#[derive(Debug)]
pub struct AppConfig {
    pub log_file_path: String,
    pub max_notification_length: usize,
}

pub ghost struct ConfigView {
    pub log_file_path: Seq<char>,
    pub max_notification_length: nat,
}

impl View for AppConfig {
    type V = ConfigView;

    open spec fn view(&self) -> ConfigView {
        ConfigView {
            log_file_path: self.log_file_path@,
            max_notification_length: self.max_notification_length as nat,
        }
    }
}

/// `p` taken relative to `base`: an absolute `p` stands alone, otherwise the two
/// are joined with one `/`.
pub open spec fn join_path(base: Seq<char>, p: Seq<char>) -> Seq<char> {
    if p.len() > 0 && p[0] == '/' {
        p
    } else if base.len() == 0 {
        p
    } else if base.last() == '/' {
        base + p
    } else {
        base + seq!['/'] + p
    }
}

/// A configured path with `~` standing for `home`; a relative path is taken
/// relative to `home`.
pub open spec fn expanded(input: Seq<char>, home: Seq<char>) -> Seq<char> {
    if input == seq!['~'] {
        home
    } else if input.len() >= 2 && input[0] == '~' && input[1] == '/' {
        join_path(home, input.skip(2))
    } else if input.len() > 0 && input[0] == '/' {
        input
    } else {
        join_path(home, input)
    }
}

pub open spec fn default_log_path() -> Seq<char> {
    seq!['~', '/', '.', 'l', 'o', 'c', 'a', 'l', '/', 's', 't', 'a', 't', 'e', '/', 'n', 'o', 't', 'i', 'l', 'o', 'g', '/', 'l', 'o', 'g', '.', 'j', 's', 'o', 'n', 'l']
}

pub open spec fn key_log_path() -> Seq<char> {
    seq!['l', 'o', 'g', '_', 'f', 'i', 'l', 'e', '_', 'p', 'a', 't', 'h']
}

pub open spec fn key_max_length() -> Seq<char> {
    seq![
        'm', 'a', 'x', '_', 'n', 'o', 't', 'i', 'f', 'i', 'c', 'a', 't', 'i', 'o', 'n', '_', 'l',
        'e', 'n', 'g', 't', 'h',
    ]
}

pub open spec fn key_max_count() -> Seq<char> {
    seq!['m', 'a', 'x', '_', 'n', 'o', 't', 'i', 'f', 'i', 'c', 'a', 't', 'i', 'o', 'n', 's']
}

/// The configuration before any line is read.
pub open spec fn default_config(home: Seq<char>) -> ConfigView {
    ConfigView {
        log_file_path: expanded(default_log_path(), home),
        max_notification_length: DEFAULT_MAX_NOTIFICATIONS as nat,
    }
}

/// What one line (`s[a..e]`) does to the configuration: everything from `#` on
/// is a comment; `key = value` with the value's whitespace, then quotes, then
/// apostrophes stripped; unknown keys, blank values and invalid counts change
/// nothing.
pub open spec fn apply_line(s: Seq<char>, a: int, e: int, home: Seq<char>, cfg: ConfigView) -> ConfigView {
    let cut = match find_char_from(s.subrange(0, e), '#', a) {
        Some(h) => h,
        None => e,
    };
    let la = trim_front(s, a, cut);
    let lb = trim_back(s, la, cut);
    match find_char_from(s.subrange(0, lb), '=', la) {
        None => cfg,
        Some(q) => {
            let ka = trim_front(s, la, q);
            let kb = trim_back(s, ka, q);
            let key = s.subrange(ka, kb);
            let va = trim_front(s, q + 1, lb);
            let vb = trim_back(s, va, lb);
            let va2 = strip_front(s, '"', va, vb);
            let vb2 = strip_back(s, '"', va2, vb);
            let va3 = strip_front(s, '\'', va2, vb2);
            let vb3 = strip_back(s, '\'', va3, vb2);
            let value = s.subrange(va3, vb3);
            if value.len() == 0 {
                cfg
            } else if key == key_log_path() {
                ConfigView { log_file_path: expanded(value, home), ..cfg }
            } else if key == key_max_length() || key == key_max_count() {
                match parse_unsigned(value, usize::MAX as nat) {
                    Some(n) => if n > 0 {
                        ConfigView { max_notification_length: n, ..cfg }
                    } else {
                        cfg
                    },
                    None => cfg,
                }
            } else {
                cfg
            }
        },
    }
}

/// The configuration after the lines of `s` from position `i` on, lines ending
/// at `\n` (a `\r` before it is dropped).
pub open spec fn apply_from(s: Seq<char>, i: int, home: Seq<char>, cfg: ConfigView) -> ConfigView
    decreases s.len() + 1 - i,
{
    if i < 0 || i >= s.len() {
        cfg
    } else {
        let nl = match find_char_from(s, '\n', i) {
            Some(n) => n,
            None => s.len() as int,
        };
        let end = if nl < s.len() && nl > i && s[nl - 1] == '\r' {
            nl - 1
        } else {
            nl
        };
        if nl < i || nl > s.len() {
            cfg
        } else {
            apply_from(s, nl + 1, home, apply_line(s, i, end, home, cfg))
        }
    }
}

fn push_str(out: &mut String, s: &Vec<char>, a: usize, b: usize)
    requires
        a <= b <= s@.len(),
    ensures
        final(out)@ == old(out)@ + s@.subrange(a as int, b as int),
{
    let mut i: usize = a;
    while i < b
        invariant
            a <= i <= b <= s@.len(),
            out@ == old(out)@ + s@.subrange(a as int, i as int),
        decreases b - i,
    {
        push_char(out, s[i]);
        i = i + 1;
        assert(out@ =~= old(out)@ + s@.subrange(a as int, i as int));
    }
}

fn join_exec(base: &str, p: &Vec<char>, a: usize) -> (r: String)
    requires
        a <= p@.len(),
    ensures
        r@ == join_path(base@, p@.skip(a as int)),
{
    let ghost tail = p@.skip(a as int);
    assert(p@.subrange(a as int, p@.len() as int) =~= tail);
    if a < p.len() && p[a] == '/' {
        return string_of_range(p, a, p.len());
    }
    let b = chars_of(base);
    let mut out = string_of_range(&b, 0, b.len());
    assert(b@.subrange(0, b@.len() as int) =~= b@);
    if b.len() > 0 && b[b.len() - 1] != '/' {
        push_char(&mut out, '/');
    }
    push_str(&mut out, p, a, p.len());
    out
}

/// Expands `~` to `home` and takes a relative path relative to `home`.
pub fn expand_path(input: &str, home: &str) -> (r: String)
    ensures
        r@ == expanded(input@, home@),
{
    let s = chars_of(input);
    if s.len() == 1 && s[0] == '~' {
        assert(s@ =~= seq!['~']);
        let h = chars_of(home);
        assert(h@.subrange(0, h@.len() as int) =~= h@);
        return string_of_range(&h, 0, h.len());
    }
    assert(s@ != seq!['~'] ==> input@ != seq!['~']);
    if s.len() >= 2 && s[0] == '~' && s[1] == '/' {
        return join_exec(home, &s, 2);
    }
    if s.len() > 0 && s[0] == '/' {
        assert(s@.subrange(0, s@.len() as int) =~= s@);
        return string_of_range(&s, 0, s.len());
    }
    assert(s@.skip(0) =~= s@);
    join_exec(home, &s, 0)
}

fn same_text(s: &Vec<char>, a: usize, b: usize, lit: &str) -> (r: bool)
    requires
        a <= b <= s@.len(),
    ensures
        r == (s@.subrange(a as int, b as int) == lit@),
{
    let k = chars_of(lit);
    if b - a != k.len() {
        return false;
    }
    let mut i: usize = 0;
    while i < k.len()
        invariant
            a <= b <= s@.len(),
            b - a == k@.len(),
            k@ == lit@,
            i <= k@.len(),
            forall|x: int| 0 <= x < i ==> s@[a + x] == k@[x],
        decreases k@.len() - i,
    {
        if s[a + i] != k[i] {
            assert(s@.subrange(a as int, b as int)[i as int] != lit@[i as int]);
            return false;
        }
        i = i + 1;
    }
    assert(s@.subrange(a as int, b as int) =~= lit@);
    true
}

fn find_char_before(s: &Vec<char>, c: char, a: usize, e: usize) -> (r: Option<usize>)
    requires
        a <= e <= s@.len(),
    ensures
        r matches Some(p) ==> find_char_from(s@.subrange(0, e as int), c, a as int) == Some(p as int) && a <= p < e,
        r is None ==> find_char_from(s@.subrange(0, e as int), c, a as int) is None,
{
    let ghost t = s@.subrange(0, e as int);
    let mut j: usize = a;
    while j < e
        invariant
            a <= j <= e <= s@.len(),
            t == s@.subrange(0, e as int),
            find_char_from(t, c, j as int) == find_char_from(t, c, a as int),
        decreases e - j,
    {
        if s[j] == c {
            assert(t[j as int] == c);
            return Some(j);
        }
        assert(t[j as int] != c);
        j = j + 1;
    }
    None
}

fn apply_line_exec(s: &Vec<char>, a: usize, e: usize, home: &str, cfg: AppConfig) -> (r: AppConfig)
    requires
        a <= e <= s@.len(),
    ensures
        r@ == apply_line(s@, a as int, e as int, home@, cfg@),
{
    proof {
        reveal_strlit("log_file_path");
        reveal_strlit("max_notification_length");
        reveal_strlit("max_notifications");
        assert("log_file_path"@ =~= key_log_path());
        assert("max_notification_length"@ =~= key_max_length());
        assert("max_notifications"@ =~= key_max_count());
    }
    let cut = match find_char_before(s, '#', a, e) {
        Some(h) => h,
        None => e,
    };
    let la = trim_front_exec(s, a, cut);
    let lb = trim_back_exec(s, la, cut);
    let q = match find_char_before(s, '=', la, lb) {
        Some(q) => q,
        None => {
            return cfg;
        },
    };
    let ka = trim_front_exec(s, la, q);
    let kb = trim_back_exec(s, ka, q);
    let va = trim_front_exec(s, q + 1, lb);
    let vb = trim_back_exec(s, va, lb);
    let va2 = strip_front_exec(s, '"', va, vb);
    let vb2 = strip_back_exec(s, '"', va2, vb);
    let va3 = strip_front_exec(s, '\'', va2, vb2);
    let vb3 = strip_back_exec(s, '\'', va3, vb2);
    if va3 == vb3 {
        return cfg;
    }
    if same_text(s, ka, kb, "log_file_path") {
        let value = string_of_range(s, va3, vb3);
        let path = expand_path(value.as_str(), home);
        return AppConfig { log_file_path: path, max_notification_length: cfg.max_notification_length };
    }
    if same_text(s, ka, kb, "max_notification_length") || same_text(s, ka, kb, "max_notifications") {
        match parse_unsigned_range(s, va3, vb3, usize::MAX as u64) {
            Some(n) => {
                if n > 0 {
                    return AppConfig { log_file_path: cfg.log_file_path, max_notification_length: n as usize };
                }
            },
            None => {},
        }
    }
    cfg
}

/// The configuration that `content` describes, starting from the defaults.
pub fn parse_config(content: &str, home: &str) -> (r: AppConfig)
    ensures
        r@ == apply_from(content@, 0, home@, default_config(home@)),
{
    proof {
        reveal_strlit("~/.local/state/notilog/log.jsonl");
        assert("~/.local/state/notilog/log.jsonl"@ =~= default_log_path());
    }
    let mut cfg = AppConfig {
        log_file_path: expand_path("~/.local/state/notilog/log.jsonl", home),
        max_notification_length: DEFAULT_MAX_NOTIFICATIONS,
    };
    let s = chars_of(content);
    let mut i: usize = 0;
    while i < s.len()
        invariant
            s@ == content@,
            i <= s@.len(),
            apply_from(s@, i as int, home@, cfg@) == apply_from(s@, 0, home@, default_config(home@)),
        decreases s@.len() - i,
    {
        let nl = match find_char_exec(&s, '\n', i) {
            Some(n) => n,
            None => s.len(),
        };
        proof {
            lemma_find(s@, seq![], '\n', i as int);
        }
        let end = if nl < s.len() && nl > i && s[nl - 1] == '\r' {
            nl - 1
        } else {
            nl
        };
        cfg = apply_line_exec(&s, i, end, home, cfg);
        if nl >= s.len() {
            i = s.len();
            assert(apply_from(s@, nl + 1, home@, cfg@) == cfg@);
        } else {
            i = nl + 1;
        }
    }
    cfg
}

} // verus!
