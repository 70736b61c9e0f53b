//! The event-stream decoder: turns the captured output of the external
//! search process into an ordered sequence of typed events.
//!
//! Each line of the captured text is one structured record, tagged
//! `begin`, `match`, `context` or `end`; `match` and `context` records
//! carry a `path` object with a `text` field, and a `lines` object that
//! either has a `text` field or is non-textual. The decoder recognizes
//! a record by its tag, reads those two quoted fields where they occur,
//! and resolves the escape forms `\"  \\  \/  \n  \t  \r` inside them;
//! any line it cannot read this way fails the whole decode — the caller
//! sees no partial event sequence.

use vstd::prelude::*;

use crate::score::match_at;
use crate::types::message_views;
use crate::types::Data;
use crate::types::DataView;
use crate::types::Message;
use crate::types::MessageView;

verus! {

/// A malformed record: the number of the line that could not be read.
#[derive(Debug)]
pub struct DecodeError {
    pub line: usize,
}

/// The first position at or after `i` where the needle stands in the
/// haystack.
pub open spec fn find_from(hay: Seq<char>, needle: Seq<char>, i: int) -> Option<int>
    decreases hay.len() - needle.len() - i + 1,
{
    if needle.len() == 0 || i < 0 || i + needle.len() > hay.len() {
        None
    } else if match_at(hay, needle, i) {
        Some(i)
    } else {
        find_from(hay, needle, i + 1)
    }
}

proof fn lemma_find_from_bounds(hay: Seq<char>, needle: Seq<char>, i: int)
    ensures
        find_from(hay, needle, i) matches Some(k) ==> i <= k && 0 <= k && k + needle.len()
            <= hay.len(),
    decreases hay.len() - needle.len() - i + 1,
{
    if needle.len() == 0 || i < 0 || i + needle.len() > hay.len() {
    } else if match_at(hay, needle, i) {
    } else {
        lemma_find_from_bounds(hay, needle, i + 1);
    }
}

/// What one escape form after a backslash stands for.
pub open spec fn spec_escape(c: char) -> Option<char> {
    if c == '"' {
        Some('"')
    } else if c == '\\' {
        Some('\\')
    } else if c == '/' {
        Some('/')
    } else if c == 'n' {
        Some('\n')
    } else if c == 't' {
        Some('\t')
    } else if c == 'r' {
        Some('\r')
    } else {
        None
    }
}

/// The quoted string starting at `i` (just after the opening quote):
/// its unescaped characters and the position after the closing quote,
/// or nothing when the string is unterminated or holds an escape form
/// the decoder does not know.
pub open spec fn take_string(cs: Seq<char>, i: int) -> Option<(Seq<char>, int)>
    decreases cs.len() - i,
{
    if i < 0 || i >= cs.len() {
        None
    } else if cs[i] == '"' {
        Some((Seq::<char>::empty(), i + 1))
    } else if cs[i] == '\\' {
        if i + 1 >= cs.len() {
            None
        } else {
            match spec_escape(cs[i + 1]) {
                None => None,
                Some(c) => match take_string(cs, i + 2) {
                    None => None,
                    Some(p) => Some((seq![c] + p.0, p.1)),
                },
            }
        }
    } else {
        match take_string(cs, i + 1) {
            None => None,
            Some(p) => Some((seq![cs[i]] + p.0, p.1)),
        }
    }
}

/// A record's optional quoted field: `None` when reading it fails,
/// `Some(None)` when the record does not carry it, `Some(Some(text))`
/// when it does.
pub open spec fn spec_opt_field(cs: Seq<char>, pat: Seq<char>) -> Option<Option<Seq<char>>> {
    match find_from(cs, pat, 0) {
        None => Some(None),
        Some(i) => match take_string(cs, i + pat.len()) {
            None => None,
            Some(p) => Some(Some(p.0)),
        },
    }
}

/// A record's line payload: textual where the `lines` object carries a
/// `text` field, non-textual where it does not.
pub open spec fn spec_opt_lines(cs: Seq<char>) -> Option<DataView> {
    match spec_opt_field(cs, "\"lines\":{\"text\":\""@) {
        None => None,
        Some(None) => Some(DataView::Bytes),
        Some(Some(t)) => Some(DataView::Text(t)),
    }
}

/// What one line of the captured output decodes to, or nothing when the
/// line is malformed.
pub open spec fn spec_parse_line(cs: Seq<char>) -> Option<MessageView> {
    if find_from(cs, "\"type\":\"begin\""@, 0) is Some {
        match spec_opt_field(cs, "\"path\":{\"text\":\""@) {
            None => None,
            Some(p) => Some(MessageView::Begin(p)),
        }
    } else if find_from(cs, "\"type\":\"match\""@, 0) is Some {
        match spec_opt_field(cs, "\"path\":{\"text\":\""@) {
            None => None,
            Some(p) => match spec_opt_lines(cs) {
                None => None,
                Some(l) => Some(MessageView::Match(p, l)),
            },
        }
    } else if find_from(cs, "\"type\":\"context\""@, 0) is Some {
        match spec_opt_field(cs, "\"path\":{\"text\":\""@) {
            None => None,
            Some(p) => match spec_opt_lines(cs) {
                None => None,
                Some(l) => Some(MessageView::Context(p, l)),
            },
        }
    } else if find_from(cs, "\"type\":\"end\""@, 0) is Some {
        Some(MessageView::End)
    } else {
        None
    }
}

/// The lines of the captured output: newline-separated segments, with
/// nothing after a trailing newline.
pub open spec fn line_split(s: Seq<char>) -> Seq<Seq<char>>
    decreases s.len(),
    via line_split_decreases
{
    if s.len() == 0 {
        Seq::<Seq<char>>::empty()
    } else {
        match find_from(s, "\n"@, 0) {
            None => seq![s],
            Some(i) => seq![s.take(i)] + line_split(s.skip(i + 1)),
        }
    }
}

#[via_fn]
proof fn line_split_decreases(s: Seq<char>) {
    reveal_strlit("\n");
    match find_from(s, "\n"@, 0) {
        None => {},
        Some(i) => {
            lemma_find_from_bounds(s, "\n"@, 0);
        },
    }
}

/// What a sequence of lines decodes to: the events in line order, or
/// nothing as soon as any line is malformed.
pub open spec fn spec_decode_lines(ls: Seq<Seq<char>>) -> Option<Seq<MessageView>>
    decreases ls.len(),
{
    if ls.len() == 0 {
        Some(Seq::<MessageView>::empty())
    } else {
        match spec_parse_line(ls[0]) {
            None => None,
            Some(m) => match spec_decode_lines(ls.drop_first()) {
                None => None,
                Some(ms) => Some(seq![m] + ms),
            },
        }
    }
}

/// What the whole captured output decodes to, or nothing when any of
/// its lines is malformed.
pub open spec fn spec_decode(s: Seq<char>) -> Option<Seq<MessageView>> {
    spec_decode_lines(line_split(s))
}

fn is_match_at(s: &str, pat: &str, i: usize) -> (r: bool)
    requires
        i + pat@.len() <= s@.len(),
    ensures
        r == match_at(s@, pat@, i as int),
{
    let m = pat.unicode_len();
    let n = s.unicode_len();
    let mut j: usize = 0;
    while j < m
        invariant
            j <= m,
            m == pat@.len(),
            n == s@.len(),
            i + m <= n,
            forall|k: int| 0 <= k < j ==> s@[i + k] == pat@[k],
        decreases m - j,
    {
        if s.get_char(i + j) != pat.get_char(j) {
            proof {
                let sub = s@.subrange(i as int, i + pat@.len());
                assert(sub[j as int] == s@[i + j]);
            }
            return false;
        }
        j = j + 1;
    }
    proof {
        assert(s@.subrange(i as int, i + pat@.len()) =~= pat@);
    }
    true
}

fn find_pat(s: &str, pat: &str) -> (r: Option<usize>)
    ensures
        match r {
            Some(k) => find_from(s@, pat@, 0) == Some(k as int) && k + pat@.len() <= s@.len(),
            None => find_from(s@, pat@, 0) is None,
        },
{
    let m = pat.unicode_len();
    let n = s.unicode_len();
    if m == 0 || m > n {
        return None;
    }
    let last = n - m;
    let mut i: usize = 0;
    while i <= last
        invariant
            m == pat@.len(),
            n == s@.len(),
            0 < m <= n,
            last == n - m,
            i <= last + 1,
            find_from(s@, pat@, 0) == find_from(s@, pat@, i as int),
        decreases last + 1 - i,
    {
        if is_match_at(s, pat, i) {
            return Some(i);
        }
        i = i + 1;
    }
    None
}

fn escape_str(c: char) -> (r: Result<&'static str, ()>)
    ensures
        match spec_escape(c) {
            Some(e) => r matches Ok(s) && s@ == seq![e],
            None => r is Err,
        },
{
    proof {
        reveal_strlit("\"");
        reveal_strlit("\\");
        reveal_strlit("/");
        reveal_strlit("\n");
        reveal_strlit("\t");
        reveal_strlit("\r");
    }
    match c {
        '"' => Ok("\""),
        '\\' => Ok("\\"),
        '/' => Ok("/"),
        'n' => Ok("\n"),
        't' => Ok("\t"),
        'r' => Ok("\r"),
        _ => Err(()),
    }
}

fn take_string_exec(line: &str, start: usize) -> (r: Result<String, ()>)
    requires
        start <= line@.len(),
    ensures
        match take_string(line@, start as int) {
            Some(p) => r matches Ok(s) && s@ == p.0,
            None => r is Err,
        },
{
    let n = line.unicode_len();
    let mut acc = String::new();
    let mut run_start = start;
    let mut j = start;
    proof {
        match take_string(line@, start as int) {
            None => {},
            Some(p) => {
                assert(Seq::<char>::empty() + line@.subrange(start as int, start as int) + p.0
                    =~= p.0);
            },
        }
    }
    while j < n
        invariant
            n == line@.len(),
            start <= run_start <= j <= n,
            forall|k: int| run_start <= k < j ==> line@[k] != '"' && line@[k] != '\\',
            match take_string(line@, j as int) {
                None => take_string(line@, start as int) is None,
                Some(p) => take_string(line@, start as int) matches Some(q) && q.0 == acc@
                    + line@.subrange(run_start as int, j as int) + p.0 && q.1 == p.1,
            },
        decreases n - j,
    {
        let c = line.get_char(j);
        if c == '"' {
            let run = line.substring_char(run_start, j);
            let mut out = acc;
            out.append(run);
            proof {
                assert(take_string(line@, j as int) == Some((Seq::<char>::empty(), j + 1int)));
                let q = take_string(line@, start as int).unwrap();
                assert(q.0 =~= out@);
            }
            return Ok(out);
        } else if c == '\\' {
            if j + 1 >= n {
                return Err(());
            }
            let e = line.get_char(j + 1);
            match escape_str(e) {
                Err(_) => {
                    return Err(());
                },
                Ok(esc) => {
                    let run = line.substring_char(run_start, j);
                    acc.append(run);
                    acc.append(esc);
                    proof {
                        let ghost ec = spec_escape(line@[j as int + 1]).unwrap();
                        match take_string(line@, j as int + 2) {
                            None => {},
                            Some(p) => {
                                assert(take_string(line@, j as int) == Some(
                                    (seq![ec] + p.0, p.1),
                                ));
                                let q = take_string(line@, start as int).unwrap();
                                assert(q.0 =~= acc@ + line@.subrange(
                                    j as int + 2,
                                    j as int + 2,
                                ) + p.0);
                            },
                        }
                    }
                    j = j + 2;
                    run_start = j;
                },
            }
        } else {
            proof {
                match take_string(line@, j as int + 1) {
                    None => {},
                    Some(p) => {
                        assert(take_string(line@, j as int) == Some((seq![line@[j as int]] + p.0, p.1)));
                        assert(acc@ + line@.subrange(run_start as int, j as int) + (seq![
                            line@[j as int],
                        ] + p.0) =~= acc@ + line@.subrange(run_start as int, j as int + 1) + p.0);
                    },
                }
            }
            j = j + 1;
        }
    }
    Err(())
}

fn opt_field(line: &str, pat: &str) -> (r: Result<Option<String>, ()>)
    ensures
        match spec_opt_field(line@, pat@) {
            None => r is Err,
            Some(None) => r matches Ok(o) && o is None,
            Some(Some(t)) => r matches Ok(o) && o matches Some(s) && s@ == t,
        },
{
    match find_pat(line, pat) {
        None => Ok(None),
        Some(i) => {
            let m = pat.unicode_len();
            let n = line.unicode_len();
            match take_string_exec(line, i + m) {
                Ok(s) => Ok(Some(s)),
                Err(_) => Err(()),
            }
        },
    }
}

fn opt_lines(line: &str) -> (r: Result<Data, ()>)
    ensures
        match spec_opt_lines(line@) {
            None => r is Err,
            Some(d) => r matches Ok(e) && e@ == d,
        },
{
    match opt_field(line, "\"lines\":{\"text\":\"") {
        Err(_) => Err(()),
        Ok(None) => Ok(Data::Bytes),
        Ok(Some(text)) => Ok(Data::Text { text }),
    }
}

fn parse_line(line: &str) -> (r: Result<Message, ()>)
    ensures
        match r {
            Ok(m) => spec_parse_line(line@) == Some(m@),
            Err(_) => spec_parse_line(line@) is None,
        },
{
    if find_pat(line, "\"type\":\"begin\"").is_some() {
        match opt_field(line, "\"path\":{\"text\":\"") {
            Err(_) => Err(()),
            Ok(path) => Ok(Message::Begin { path }),
        }
    } else if find_pat(line, "\"type\":\"match\"").is_some() {
        match opt_field(line, "\"path\":{\"text\":\"") {
            Err(_) => Err(()),
            Ok(path) => match opt_lines(line) {
                Err(_) => Err(()),
                Ok(lines) => Ok(Message::Match { path, lines }),
            },
        }
    } else if find_pat(line, "\"type\":\"context\"").is_some() {
        match opt_field(line, "\"path\":{\"text\":\"") {
            Err(_) => Err(()),
            Ok(path) => match opt_lines(line) {
                Err(_) => Err(()),
                Ok(lines) => Ok(Message::Context { path, lines }),
            },
        }
    } else if find_pat(line, "\"type\":\"end\"").is_some() {
        Ok(Message::End)
    } else {
        Err(())
    }
}

/// Decodes the whole captured output into an ordered event sequence.
/// Succeeds exactly when every line is a readable record; the first
/// malformed line fails the whole decode and names its line number,
/// counted from zero.
pub fn json_decode(output: &str) -> (r: Result<Vec<Message>, DecodeError>)
    ensures
        match r {
            Ok(ms) => spec_decode(output@) == Some(message_views(ms@)),
            Err(_) => spec_decode(output@) is None,
        },
{
    let n = output.unicode_len();
    let mut msgs: Vec<Message> = Vec::new();
    let mut line_no: usize = 0;
    let mut p: usize = 0;
    proof {
        assert(output@.skip(0) =~= output@);
        assert(message_views(msgs@) =~= Seq::<MessageView>::empty());
    }
    while p < n
        invariant
            n == output@.len(),
            p <= n,
            line_no <= p,
            match spec_decode_lines(line_split(output@.skip(p as int))) {
                None => spec_decode(output@) is None,
                Some(rest) => spec_decode(output@) matches Some(all) && all == message_views(
                    msgs@,
                ) + rest,
            },
        decreases n - p,
    {
        let rest = output.substring_char(p, n);
        let ghost lines_here = line_split(output@.skip(p as int));
        proof {
            assert(rest@ =~= output@.skip(p as int));
        }
        let (line, next_p): (&str, usize) = match find_pat(rest, "\n") {
            Some(k) => {
                proof {
                    reveal_strlit("\n");
                    assert(line_split(rest@) == seq![rest@.take(k as int)] + line_split(
                        rest@.skip(k as int + 1),
                    ));
                    assert(rest@.subrange(0, k as int) =~= rest@.take(k as int));
                    assert(rest@.skip(k as int + 1) =~= output@.skip(p + k + 1));
                    assert(lines_here.drop_first() =~= line_split(output@.skip(p + k + 1)));
                }
                (rest.substring_char(0, k), p + k + 1)
            },
            None => {
                proof {
                    assert(line_split(rest@) == seq![rest@]);
                    assert(output@.skip(n as int).len() == 0);
                    assert(lines_here.drop_first() =~= line_split(output@.skip(n as int)));
                }
                (rest, n)
            },
        };
        proof {
            assert(lines_here[0] == line@);
            assert(lines_here.drop_first() == line_split(output@.skip(next_p as int)));
        }
        match parse_line(line) {
            Ok(m) => {
                let ghost mv = m@;
                let ghost mvs_pre = message_views(msgs@);
                msgs.push(m);
                proof {
                    assert(message_views(msgs@) =~= mvs_pre.push(mv));
                    match spec_decode_lines(line_split(output@.skip(next_p as int))) {
                        None => {},
                        Some(rest_ms) => {
                            assert(mvs_pre + (seq![mv] + rest_ms) =~= message_views(msgs@)
                                + rest_ms);
                        },
                    }
                }
            },
            Err(_) => {
                return Err(DecodeError { line: line_no });
            },
        }
        p = next_p;
        line_no = line_no + 1;
    }
    proof {
        assert(output@.skip(n as int).len() == 0);
        assert(message_views(msgs@) + Seq::<MessageView>::empty() =~= message_views(msgs@));
    }
    Ok(msgs)
}

} // verus!
