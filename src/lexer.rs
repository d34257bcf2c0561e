//! Transcript lexer: splitting monitor output into message blocks and reading
//! header tokens and typed argument values out of them.

use vstd::prelude::*;
use crate::text::{
    chars_of, find_char_exec, find_char_from, find_from, find_from_exec, lemma_find,
    matches_at, matches_at_exec, parse_unsigned, parse_unsigned_range, skip_non_ws,
    skip_non_ws_exec, skip_repeated, skip_repeated_exec, skip_ws, skip_ws_exec, string_of_range,
    strip_back, strip_back_exec, strip_front, strip_front_exec, trim_back, trim_back_exec,
    trim_front, trim_front_exec,
};

verus! {

/// The contents of a sequence of lines.
pub open spec fn lines_view(block: Seq<String>) -> Seq<Seq<char>> {
    block.map_values(|l: String| l@)
}

pub open spec fn string_tag() -> Seq<char> {
    seq!['S', 'T', 'R', 'I', 'N', 'G', ' ']
}

pub open spec fn uint32_tag() -> Seq<char> {
    seq!['U', 'I', 'N', 'T', '3', '2', ' ']
}

pub open spec fn type_key() -> Seq<char> {
    seq!['T', 'y', 'p', 'e', '=']
}

/// The character that opens a new message in the monitor transcript.
pub open spec fn marker() -> char {
    '\u{2023}'
}

/// The first whitespace-delimited token after `key`, without trailing `;` and
/// without surrounding `"`.
pub open spec fn token_spec(line: Seq<char>, key: Seq<char>) -> Option<Seq<char>> {
    match find_from(line, key, 0) {
        None => None,
        Some(p) => {
            let a = skip_ws(line, p + key.len());
            if a >= line.len() {
                None
            } else {
                let b = skip_non_ws(line, a);
                let e1 = strip_back(line, ';', a, b);
                let a2 = strip_front(line, '"', a, e1);
                let e2 = strip_back(line, '"', a2, e1);
                Some(line.subrange(a2, e2))
            }
        }
    }
}

/// The first double-quoted text after `key`.
pub open spec fn quoted_spec(line: Seq<char>, key: Seq<char>) -> Option<Seq<char>> {
    match find_from(line, key, 0) {
        None => None,
        Some(p) => match find_char_from(line, '"', p + key.len()) {
            None => None,
            Some(q) => match find_char_from(line, '"', q + 1) {
                None => None,
                Some(e) => Some(line.subrange(q + 1, e)),
            },
        },
    }
}

/// The quoted value of a string-typed argument line.
pub open spec fn string_arg(line: Seq<char>) -> Option<Seq<char>> {
    let a = skip_ws(line, 0);
    if matches_at(line, string_tag(), a) {
        match find_char_from(line, '"', a) {
            None => None,
            Some(q) => match find_char_from(line, '"', q + 1) {
                None => None,
                Some(e) => Some(line.subrange(q + 1, e)),
            },
        }
    } else {
        None
    }
}

/// The value of an unsigned-32-bit-typed argument line, if it parses.
pub open spec fn uint32_arg(line: Seq<char>) -> Option<nat> {
    let a = skip_ws(line, 0);
    if matches_at(line, uint32_tag(), a) {
        let b = skip_repeated(line, uint32_tag(), a);
        let e = strip_back(line, ';', b, line.len() as int);
        let b2 = trim_front(line, b, e);
        let e2 = trim_back(line, b2, e);
        parse_unsigned(line.subrange(b2, e2), u32::MAX as nat)
    } else {
        None
    }
}

/// Every string argument of a block, in block order.
pub open spec fn strings_in(block: Seq<Seq<char>>) -> Seq<Seq<char>>
    decreases block.len(),
{
    if block.len() == 0 {
        Seq::empty()
    } else {
        let prev = strings_in(block.drop_last());
        match string_arg(block.last()) {
            Some(x) => prev.push(x),
            None => prev,
        }
    }
}

/// Every unsigned 32-bit argument of a block that parses, in block order.
pub open spec fn uint32s_in(block: Seq<Seq<char>>) -> Seq<u32>
    decreases block.len(),
{
    if block.len() == 0 {
        Seq::empty()
    } else {
        let prev = uint32s_in(block.drop_last());
        match uint32_arg(block.last()) {
            Some(x) => prev.push(x as u32),
            None => prev,
        }
    }
}

/// Whether some line of the block contains `needle`.
pub open spec fn block_has(block: Seq<Seq<char>>, needle: Seq<char>) -> bool {
    exists|i: int| 0 <= i < block.len() && find_from(#[trigger] block[i], needle, 0) is Some
}

/// Whether a line opens a new message block.
pub open spec fn starts_block(line: Seq<char>) -> bool {
    line.len() > 0 && line[0] == marker() && find_from(line, type_key(), 0) is Some
}

/// Whether a line holds only whitespace.
pub open spec fn is_blank(line: Seq<char>) -> bool {
    skip_ws(line, 0) >= line.len()
}

/// The first whitespace-delimited token after `key` in `line`.
pub fn token_value(line: &str, key: &str) -> (r: Option<String>)
    ensures
        r matches Some(t) ==> token_spec(line@, key@) == Some(t@),
        r is None ==> token_spec(line@, key@) is None,
{
    let s = chars_of(line);
    let k = chars_of(key);
    match find_from_exec(&s, &k, 0) {
        None => None,
        Some(p) => {
            proof {
                lemma_find(s@, k@, ' ', 0);
                assert(s@.len() == s.len());
            }
            let a = skip_ws_exec(&s, p + k.len());
            if a >= s.len() {
                None
            } else {
                let b = skip_non_ws_exec(&s, a);
                let e1 = strip_back_exec(&s, ';', a, b);
                let a2 = strip_front_exec(&s, '"', a, e1);
                let e2 = strip_back_exec(&s, '"', a2, e1);
                Some(string_of_range(&s, a2, e2))
            }
        },
    }
}

/// The first double-quoted text after `key` in `line`.
pub fn quoted_value_after(line: &str, key: &str) -> (r: Option<String>)
    ensures
        r matches Some(t) ==> quoted_spec(line@, key@) == Some(t@),
        r is None ==> quoted_spec(line@, key@) is None,
{
    let s = chars_of(line);
    let k = chars_of(key);
    match find_from_exec(&s, &k, 0) {
        None => None,
        Some(p) => {
            proof {
                lemma_find(s@, k@, '"', 0);
                assert(s@.len() == s.len());
            }
            match find_char_exec(&s, '"', p + k.len()) {
                None => None,
                Some(q) => {
                    match find_char_exec(&s, '"', q + 1) {
                        None => None,
                        Some(e) => {
                            proof {
                                lemma_find(s@, k@, '"', q + 1);
                            }
                            Some(string_of_range(&s, q + 1, e))
                        },
                    }
                },
            }
        },
    }
}

fn string_arg_exec(line: &String, tag: &Vec<char>) -> (r: Option<String>)
    requires
        tag@ == string_tag(),
    ensures
        r matches Some(t) ==> string_arg(line@) == Some(t@),
        r is None ==> string_arg(line@) is None,
{
    let s = chars_of(line.as_str());
    let a = skip_ws_exec(&s, 0);
    if !matches_at_exec(&s, tag, a) {
        return None;
    }
    match find_char_exec(&s, '"', a) {
        None => None,
        Some(q) => match find_char_exec(&s, '"', q + 1) {
            None => None,
            Some(e) => {
                proof {
                    lemma_find(s@, tag@, '"', q + 1);
                }
                Some(string_of_range(&s, q + 1, e))
            },
        },
    }
}

fn uint32_arg_exec(line: &String, tag: &Vec<char>) -> (r: Option<u32>)
    requires
        tag@ == uint32_tag(),
    ensures
        r matches Some(v) ==> uint32_arg(line@) == Some(v as nat),
        r is None ==> uint32_arg(line@) is None,
{
    let s = chars_of(line.as_str());
    let a = skip_ws_exec(&s, 0);
    if !matches_at_exec(&s, tag, a) {
        return None;
    }
    let b = skip_repeated_exec(&s, tag, a);
    let e = strip_back_exec(&s, ';', b, s.len());
    let b2 = trim_front_exec(&s, b, e);
    let e2 = trim_back_exec(&s, b2, e);
    match parse_unsigned_range(&s, b2, e2, 0xffff_ffffu64) {
        Some(v) => Some(v as u32),
        None => None,
    }
}

/// The quoted values of the block's string-typed argument lines, in block order.
pub fn extract_strings(block: &Vec<String>) -> (r: Vec<String>)
    ensures
        lines_view(r@) == strings_in(lines_view(block@)),
{
    let tag = chars_of("STRING ");
    proof {
        reveal_strlit("STRING ");
        assert(tag@ =~= string_tag());
    }
    let ghost lv = lines_view(block@);
    let mut out: Vec<String> = Vec::new();
    let mut i: usize = 0;
    while i < block.len()
        invariant
            i <= block@.len(),
            tag@ == string_tag(),
            lv == lines_view(block@),
            lines_view(out@) == strings_in(lv.take(i as int)),
        decreases block@.len() - i,
    {
        let got = string_arg_exec(&block[i], &tag);
        assert(lv.take(i + 1).drop_last() =~= lv.take(i as int));
        assert(lv.take(i + 1).last() == block@[i as int]@);
        match got {
            Some(x) => {
                out.push(x);
            },
            None => {},
        }
        i = i + 1;
        assert(lines_view(out@) =~= strings_in(lv.take(i as int)));
    }
    assert(lv.take(block@.len() as int) =~= lv);
    out
}

/// The values of the block's unsigned-32-bit argument lines that parse, in block order.
pub fn uint32_values(block: &Vec<String>) -> (r: Vec<u32>)
    ensures
        r@ == uint32s_in(lines_view(block@)),
{
    let tag = chars_of("UINT32 ");
    proof {
        reveal_strlit("UINT32 ");
        assert(tag@ =~= uint32_tag());
    }
    let ghost lv = lines_view(block@);
    let mut out: Vec<u32> = Vec::new();
    let mut i: usize = 0;
    while i < block.len()
        invariant
            i <= block@.len(),
            tag@ == uint32_tag(),
            lv == lines_view(block@),
            out@ == uint32s_in(lv.take(i as int)),
        decreases block@.len() - i,
    {
        let got = uint32_arg_exec(&block[i], &tag);
        assert(lv.take(i + 1).drop_last() =~= lv.take(i as int));
        assert(lv.take(i + 1).last() == block@[i as int]@);
        match got {
            Some(x) => {
                out.push(x);
            },
            None => {},
        }
        i = i + 1;
        assert(out@ =~= uint32s_in(lv.take(i as int)));
    }
    assert(lv.take(block@.len() as int) =~= lv);
    out
}

/// The first unsigned 32-bit argument value of the block.
pub fn first_uint32(block: &Vec<String>) -> (r: Option<u32>)
    ensures
        r == (if uint32s_in(lines_view(block@)).len() > 0 {
            Some(uint32s_in(lines_view(block@))[0])
        } else {
            None::<u32>
        }),
{
    let values = uint32_values(block);
    if values.len() > 0 {
        Some(values[0])
    } else {
        None
    }
}

/// Whether some line of the block contains `needle`.
pub fn block_contains(block: &Vec<String>, needle: &str) -> (r: bool)
    ensures
        r == block_has(lines_view(block@), needle@),
{
    let k = chars_of(needle);
    let ghost lv = lines_view(block@);
    let mut i: usize = 0;
    while i < block.len()
        invariant
            i <= block@.len(),
            k@ == needle@,
            lv == lines_view(block@),
            forall|j: int| 0 <= j < i ==> find_from(#[trigger] lv[j], needle@, 0) is None,
        decreases block@.len() - i,
    {
        let s = chars_of(block[i].as_str());
        assert(lv[i as int] == s@);
        if find_from_exec(&s, &k, 0).is_some() {
            return true;
        }
        i = i + 1;
    }
    false
}

/// Whether a transcript line opens a new message block.
pub fn is_block_start(line: &str) -> (r: bool)
    ensures
        r == starts_block(line@),
{
    let s = chars_of(line);
    if s.len() == 0 || s[0] != '\u{2023}' {
        return false;
    }
    let k = chars_of("Type=");
    proof {
        reveal_strlit("Type=");
        assert(k@ =~= type_key());
    }
    find_from_exec(&s, &k, 0).is_some()
}

/// Whether a transcript line holds only whitespace.
pub fn is_blank_line(line: &str) -> (r: bool)
    ensures
        r == is_blank(line@),
{
    let s = chars_of(line);
    skip_ws_exec(&s, 0) >= s.len()
}

/// Gathers transcript lines into message blocks. Blank lines before the first
/// line of a block are dropped.
pub struct BlockAssembler {
    pub lines: Vec<String>,
}

impl BlockAssembler {
    pub fn new() -> (r: Self)
        ensures
            r.lines@.len() == 0,
    {
        BlockAssembler { lines: Vec::new() }
    }

    /// Takes the next line. When it opens a new block, the block gathered so far is
    /// handed back (if it holds any line) and the new one starts with this line.
    pub fn push_line(&mut self, line: String) -> (r: Option<Vec<String>>)
        ensures
            starts_block(line@) && old(self).lines@.len() > 0 ==> r == Some(old(self).lines)
                && final(self).lines@ == seq![line],
            starts_block(line@) && old(self).lines@.len() == 0 ==> r is None
                && final(self).lines@ == seq![line],
            !starts_block(line@) ==> r is None && final(self).lines@ == if is_blank(line@)
                && old(self).lines@.len() == 0 {
                old(self).lines@
            } else {
                old(self).lines@.push(line)
            },
    {
        if is_block_start(line.as_str()) {
            let mut done: Vec<String> = Vec::new();
            done.push(line);
            std::mem::swap(&mut self.lines, &mut done);
            if done.len() > 0 {
                Some(done)
            } else {
                None
            }
        } else {
            if !is_blank_line(line.as_str()) || self.lines.len() > 0 {
                self.lines.push(line);
            }
            None
        }
    }

    /// The last block, handed back when the transcript ends.
    pub fn finish(self) -> (r: Vec<String>)
        ensures
            r == self.lines,
    {
        self.lines
    }
}

} // verus!
