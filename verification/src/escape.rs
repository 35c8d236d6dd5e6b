//! Backslash escaping of token values.
//!
//! Exactly four two-character sequences are rewritten when a token is
//! unescaped: `\'` to `'`, `\"` to `"`, `\-` to `-` and `\\` to `\`. Any other
//! backslash-prefixed pair passes through unchanged, backslash included. The
//! escaping direction prefixes each of those four characters with a
//! backslash; unescaping an escaped value gives that value back unchanged.

use vstd::prelude::*;

verus! {

/// The four characters that a backslash escapes.
pub open spec fn is_escapable(c: char) -> bool {
    c == '\'' || c == '"' || c == '-' || c == '\\'
}

/// The unescaped form of a character sequence: each backslash followed by an
/// escapable character collapses to that character alone; everything else is
/// kept as it stands.
pub open spec fn spec_unescape(s: Seq<char>) -> Seq<char>
    decreases s.len(),
{
    if s.len() == 0 {
        Seq::empty()
    } else if s[0] == '\\' && s.len() >= 2 && is_escapable(s[1]) {
        seq![s[1]] + spec_unescape(s.skip(2))
    } else {
        seq![s[0]] + spec_unescape(s.skip(1))
    }
}

/// The escaped form of a character sequence: each escapable character gains a
/// backslash in front of it.
pub open spec fn spec_escape(s: Seq<char>) -> Seq<char>
    decreases s.len(),
{
    if s.len() == 0 {
        Seq::empty()
    } else if is_escapable(s[0]) {
        seq!['\\', s[0]] + spec_escape(s.skip(1))
    } else {
        seq![s[0]] + spec_escape(s.skip(1))
    }
}

/// Escaping and then unescaping any value returns that value unchanged.
pub proof fn lemma_escape_round_trip(s: Seq<char>)
    ensures
        spec_unescape(spec_escape(s)) == s,
    decreases s.len(),
{
    if s.len() == 0 {
        assert(spec_unescape(spec_escape(s)) =~= s);
    } else if is_escapable(s[0]) {
        let e = seq!['\\', s[0]] + spec_escape(s.skip(1));
        assert(e[0] == '\\' && e.len() >= 2 && is_escapable(e[1]));
        assert(e.skip(2) =~= spec_escape(s.skip(1)));
        lemma_escape_round_trip(s.skip(1));
        assert(spec_unescape(e) =~= s);
    } else {
        let e = seq![s[0]] + spec_escape(s.skip(1));
        assert(e[0] == s[0] && s[0] != '\\');
        assert(e.skip(1) =~= spec_escape(s.skip(1)));
        lemma_escape_round_trip(s.skip(1));
        assert(spec_unescape(e) =~= s);
    }
}

/// Whether a character is one of the four escapable ones.
fn escapable(c: char) -> (r: bool)
    ensures
        r == is_escapable(c),
{
    c == '\'' || c == '"' || c == '-' || c == '\\'
}

/// Rewrite the four escape sequences in the value, left to right.
pub fn unescape(value: &str) -> (r: String)
    ensures
        r@ == spec_unescape(value@),
{
    let n: usize = value.unicode_len();
    let mut out = String::new();
    let mut i: usize = 0;
    proof {
        assert(out@ =~= Seq::<char>::empty());
        assert(value@.skip(0) =~= value@);
        assert(Seq::<char>::empty() + spec_unescape(value@) =~= spec_unescape(value@));
    }
    while i < n
        invariant
            n == value@.len(),
            i <= n,
            spec_unescape(value@) == out@ + spec_unescape(value@.skip(i as int)),
        decreases n - i,
    {
        let c = value.get_char(i);
        if c == '\\' && i + 1 < n && escapable(value.get_char(i + 1)) {
            let c2 = value.get_char(i + 1);
            proof {
                let rest = value@.skip(i as int);
                assert(rest[0] == c && rest[1] == c2);
                assert(rest.skip(2) =~= value@.skip(i + 2));
                assert(spec_unescape(rest) =~= seq![c2] + spec_unescape(value@.skip(i + 2)));
                assert(out@.push(c2) =~= out@ + seq![c2]);
            }
            crate::text::push_char(&mut out, c2);
            i = i + 2;
        } else {
            proof {
                let rest = value@.skip(i as int);
                assert(rest[0] == c);
                assert(rest.skip(1) =~= value@.skip(i + 1));
                assert(spec_unescape(rest) =~= seq![c] + spec_unescape(value@.skip(i + 1)));
                assert(out@.push(c) =~= out@ + seq![c]);
            }
            crate::text::push_char(&mut out, c);
            i = i + 1;
        }
    }
    proof {
        assert(value@.skip(n as int) =~= Seq::<char>::empty());
        assert(out@ + Seq::<char>::empty() =~= out@);
    }
    out
}

/// Prefix each escapable character in the value with a backslash.
pub fn escape(value: &str) -> (r: String)
    ensures
        r@ == spec_escape(value@),
{
    let n: usize = value.unicode_len();
    let mut out = String::new();
    let mut i: usize = 0;
    proof {
        assert(out@ =~= Seq::<char>::empty());
        assert(value@.skip(0) =~= value@);
        assert(Seq::<char>::empty() + spec_escape(value@) =~= spec_escape(value@));
    }
    while i < n
        invariant
            n == value@.len(),
            i <= n,
            spec_escape(value@) == out@ + spec_escape(value@.skip(i as int)),
        decreases n - i,
    {
        let c = value.get_char(i);
        proof {
            let rest = value@.skip(i as int);
            assert(rest[0] == c);
            assert(rest.skip(1) =~= value@.skip(i + 1));
            if is_escapable(c) {
                assert(spec_escape(rest) =~= seq!['\\', c] + spec_escape(value@.skip(i + 1)));
                assert(out@.push('\\').push(c) =~= out@ + seq!['\\', c]);
            } else {
                assert(spec_escape(rest) =~= seq![c] + spec_escape(value@.skip(i + 1)));
                assert(out@.push(c) =~= out@ + seq![c]);
            }
        }
        if escapable(c) {
            crate::text::push_char(&mut out, '\\');
        }
        crate::text::push_char(&mut out, c);
        i = i + 1;
    }
    proof {
        assert(value@.skip(n as int) =~= Seq::<char>::empty());
        assert(out@ + Seq::<char>::empty() =~= out@);
    }
    out
}

} // verus!
