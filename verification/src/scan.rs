//! The lexical scanner: one raw string to an ordered list of tokens.
//!
//! Tokens are separated by whitespace. A token may be enclosed in single or
//! double quotes to include whitespace; the closing quote must abut
//! whitespace or the end of the input. A backslash keeps the following
//! character from being interpreted, and the pair is carried into the token
//! as it stands, to be unescaped later. An unterminated quote is not an
//! error: the open token is flushed when the input ends.

use vstd::prelude::*;
use crate::error::Error;
use crate::text::push_char;

verus! {

/// Whether the character counts as whitespace: the unicode white space
/// code points.
pub open spec fn is_space(c: char) -> bool {
    (9 <= c as u32 && c as u32 <= 13) || c as u32 == 32 || c as u32 == 0x85 || c as u32 == 0xA0
        || c as u32 == 0x1680 || (0x2000 <= c as u32 && c as u32 <= 0x200A) || c as u32 == 0x2028
        || c as u32 == 0x2029 || c as u32 == 0x202F || c as u32 == 0x205F || c as u32 == 0x3000
}

/// The quote state after reading one character: a quote character opens its
/// quote when none is active and closes a matching active quote; anything
/// else leaves the state as it was.
pub open spec fn new_quote(q: Option<char>, c: char) -> Option<char> {
    if c == '"' {
        if q == Some('"') {
            None
        } else if q is None {
            Some('"')
        } else {
            q
        }
    } else if c == '\'' {
        if q == Some('\'') {
            None
        } else if q is None {
            Some('\'')
        } else {
            q
        }
    } else {
        q
    }
}

/// The buffer flushed onto the accumulated tokens: an empty buffer
/// contributes nothing.
pub open spec fn flushed(acc: Seq<Seq<char>>, buf: Seq<char>) -> Seq<Seq<char>> {
    if buf.len() > 0 {
        acc.push(buf)
    } else {
        acc
    }
}

/// The scan of the remaining characters, given the quote state before and
/// after the previous character, the accumulation buffer and the tokens
/// already cut. Nothing is returned when a quote was just closed against a
/// non-whitespace character, or when the input ends on a lone backslash.
pub open spec fn spec_scan(
    s: Seq<char>,
    oq: Option<char>,
    q: Option<char>,
    buf: Seq<char>,
    acc: Seq<Seq<char>>,
) -> Option<Seq<Seq<char>>>
    decreases s.len(),
{
    if s.len() == 0 {
        Some(flushed(acc, buf))
    } else {
        let c = s[0];
        if oq is Some && q is None && !is_space(c) {
            None
        } else if c == '\\' {
            if s.len() < 2 {
                None
            } else {
                let c2 = s[1];
                let buf1 = buf.push('\\');
                if q is None && is_space(c2) {
                    spec_scan(s.skip(2), q, q, Seq::empty(), flushed(acc, buf1))
                } else {
                    spec_scan(s.skip(2), q, q, buf1.push(c2), acc)
                }
            }
        } else {
            let q2 = new_quote(q, c);
            if q != q2 || (q2 is None && is_space(c)) {
                spec_scan(s.skip(1), q, q2, Seq::empty(), flushed(acc, buf))
            } else {
                spec_scan(s.skip(1), q, q2, buf.push(c), acc)
            }
        }
    }
}

/// The tokens the scanner cuts the command into, from a fresh start.
pub open spec fn scan_tokens(s: Seq<char>) -> Option<Seq<Seq<char>>> {
    spec_scan(s, None, None, Seq::empty(), Seq::empty())
}

/// Whether the character counts as whitespace.
fn space(c: char) -> (r: bool)
    ensures
        r == is_space(c),
{
    let u = c as u32;
    (9 <= u && u <= 13) || u == 32 || u == 0x85 || u == 0xA0 || u == 0x1680 || (0x2000 <= u && u
        <= 0x200A) || u == 0x2028 || u == 0x2029 || u == 0x202F || u == 0x205F || u == 0x3000
}

/// The quote state after reading one character.
fn quote_step(q: Option<char>, c: char) -> (r: Option<char>)
    ensures
        r == new_quote(q, c),
{
    match q {
        None => if c == '"' {
            Some('"')
        } else if c == '\'' {
            Some('\'')
        } else {
            None
        },
        Some(x) => if c == x && (c == '"' || c == '\'') {
            None
        } else {
            Some(x)
        },
    }
}

/// Cut the raw command into tokens, honouring quotes and backslash pairs.
#[verifier::loop_isolation(false)]
pub fn scan(command: &str) -> (r: Result<Vec<String>, Error>)
    ensures
        match r {
            Ok(parts) => scan_tokens(command@) == Some(crate::token_views(parts@)),
            Err(e) => scan_tokens(command@) is None && e.message@ == "Todo: Help."@,
        },
{
    let n: usize = command.unicode_len();
    let mut parts: Vec<String> = Vec::new();
    let mut buf = String::new();
    let mut oq: Option<char> = None;
    let mut q: Option<char> = None;
    let mut i: usize = 0;
    proof {
        assert(command@.skip(0) =~= command@);
        assert(crate::token_views(parts@) =~= Seq::<Seq<char>>::empty());
    }
    while i < n
        invariant
            i <= n,
            scan_tokens(command@) == spec_scan(
                command@.skip(i as int),
                oq,
                q,
                buf@,
                crate::token_views(parts@),
            ),
        decreases n - i,
    {
        let c = command.get_char(i);
        proof {
            let cur = command@.skip(i as int);
            assert(cur[0] == c);
            assert(cur.skip(1) =~= command@.skip(i + 1));
            if i + 2 <= n {
                assert(cur.skip(2) =~= command@.skip(i + 2));
            }
        }
        if oq.is_some() && q.is_none() && !space(c) {
            return Err(Error::new("Todo: Help."));
        }
        if c == '\\' {
            if i + 1 >= n {
                return Err(Error::new("Todo: Help."));
            }
            let c2 = command.get_char(i + 1);
            push_char(&mut buf, '\\');
            oq = q;
            if q.is_none() && space(c2) {
                let ghost pv = crate::token_views(parts@);
                let ghost bv = buf@;
                parts.push(buf);
                buf = String::new();
                proof {
                    assert(crate::token_views(parts@) =~= pv.push(bv));
                    assert(buf@ =~= Seq::<char>::empty());
                }
            } else {
                push_char(&mut buf, c2);
            }
            i = i + 2;
        } else {
            let q2 = quote_step(q, c);
            let changed = !crate::text::opt_char_eq(&q, &q2);
            if changed || (q2.is_none() && space(c)) {
                let ghost pv = crate::token_views(parts@);
                let ghost bv = buf@;
                if !buf.as_str().is_empty() {
                    parts.push(buf);
                    buf = String::new();
                    proof {
                        assert(crate::token_views(parts@) =~= pv.push(bv));
                    }
                }
                proof {
                    assert(buf@ =~= Seq::<char>::empty());
                    assert(crate::token_views(parts@) == flushed(pv, bv));
                }
            } else {
                push_char(&mut buf, c);
            }
            oq = q;
            q = q2;
            i = i + 1;
        }
    }
    proof {
        assert(command@.skip(n as int) =~= Seq::<char>::empty());
    }
    let ghost pv = crate::token_views(parts@);
    let ghost bv = buf@;
    if !buf.as_str().is_empty() {
        parts.push(buf);
        proof {
            assert(crate::token_views(parts@) =~= pv.push(bv));
        }
    }
    proof {
        assert(crate::token_views(parts@) == flushed(pv, bv));
    }
    Ok(parts)
}

} // verus!
