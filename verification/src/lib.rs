//! A command-line invocation parser.
//!
//! A `Cherry` holds a tree of named actions, each declaring positional
//! arguments, named fields that take a value, and boolean flags. Parsing
//! turns a raw token list (or a raw string) into a `Request` bound to
//! exactly one action, ready for dispatch.
//!
//! Resolution walks the token list left to right. The first token selects a
//! top-level action; while the child path is active, each further token is
//! matched against child action keywords and descends on a match. The first
//! token that matches no child ends the child path for good, and that token
//! and all later ones are classified against the resolved action: `--name`
//! sets a flag or stores the next token as a field value, `-c` does the
//! same through one-character shorts, `-abc` sets one flag per byte, and
//! anything else is the next positional argument. A parse succeeds when the
//! argument count matches the schema exactly.

use vstd::prelude::*;

mod action;
mod error;
mod escape;
mod request;
mod scan;
mod text;
pub mod validate;

pub use action::{Action, Argument, Field, Flag, Handler, Validator};
pub use error::Error;
pub use escape::{escape, unescape};
pub use request::{FieldEntry, FlagEntry, Payload, Request};

use action::{find_child, find_child_index};
use escape::spec_unescape;
use request::{
    argument_filtered, field_filtered, init_state, spec_insert_argument, spec_insert_field,
    spec_insert_flag, ReqState,
};
use text::push_char;

verus! {

/// The registry and entry point: a name-keyed collection of top-level
/// actions, parsed against as one tree.
#[verifier::reject_recursive_types(T)]
pub struct Cherry<T> {
    /// The available actions inserted into the Cherry instance.
    pub actions: Vec<Action<T>>,
}

/// What a parse of a token list must come to.
///
/// `Reject` means the parse fails. `Accept` carries the one state the parse
/// must return. `Maybe` carries the one state a successful parse must
/// return, but a user-supplied filter was consulted along the way, so the
/// parse may instead fail with the filter's rejection.
#[verifier::reject_recursive_types(T)]
pub ghost enum Outcome<T> {
    /// The token list is rejected.
    Reject,
    /// The token list yields exactly this request state.
    Accept(ReqState<T>),
    /// The token list yields this request state unless a filter rejects it.
    Maybe(ReqState<T>),
}

/// An outcome whose success now also depends on a consulted filter.
pub open spec fn demote<T>(o: Outcome<T>) -> Outcome<T> {
    match o {
        Outcome::Accept(m) => Outcome::Maybe(m),
        _ => o,
    }
}

/// The outcome once every token is consumed: the collected argument count
/// must equal the action's declared count.
pub open spec fn finish<T>(s: ReqState<T>) -> Outcome<T> {
    if s.arguments.len() == s.action.arguments@.len() {
        Outcome::Accept(s)
    } else {
        Outcome::Reject
    }
}

/// The number of bytes the character takes in utf-8.
pub open spec fn char_byte_len(c: char) -> int {
    if (c as u32) < 0x80 {
        1
    } else if (c as u32) < 0x800 {
        2
    } else if (c as u32) < 0x10000 {
        3
    } else {
        4
    }
}

/// The number of bytes the character sequence takes in utf-8.
pub open spec fn byte_len(s: Seq<char>) -> int
    decreases s.len(),
{
    if s.len() == 0 {
        0
    } else {
        char_byte_len(s[0]) + byte_len(s.skip(1))
    }
}

/// The characters a byte-wise reading of the sequence yields: an ascii
/// character stands for its one byte, and every byte of a wider character
/// reads as the replacement character.
pub open spec fn lossy_chars(s: Seq<char>) -> Seq<char>
    decreases s.len(),
{
    if s.len() == 0 {
        Seq::empty()
    } else {
        let head = if (s[0] as u32) < 0x80 {
            seq![s[0]]
        } else {
            Seq::new(char_byte_len(s[0]) as nat, |k: int| '\u{FFFD}')
        };
        head + lossy_chars(s.skip(1))
    }
}

/// Set one flag per character, left to right; nothing when any character
/// resolves to no flag.
pub open spec fn apply_short_flags<T>(s: ReqState<T>, ds: Seq<char>) -> Option<ReqState<T>>
    decreases ds.len(),
{
    if ds.len() == 0 {
        Some(s)
    } else {
        match spec_insert_flag(s, seq![ds[0]]) {
            None => None,
            Some(s2) => apply_short_flags(s2, ds.skip(1)),
        }
    }
}

/// The outcome of consuming a `--name` or `-c` token under the given key:
/// a known flag is set; otherwise the next token is consumed as the value
/// of the field the key names.
pub open spec fn step_key<T>(s: ReqState<T>, key: Seq<char>, toks: Seq<Seq<char>>) -> Outcome<T>
    decreases toks.len(), 0nat,
{
    if toks.len() == 0 {
        Outcome::Reject
    } else {
        match spec_insert_flag(s, key) {
        Some(s2) => walk_opts(s2, toks.skip(1)),
        None => {
            if toks.len() < 2 {
                Outcome::Reject
            } else {
                let value = spec_unescape(toks[1]);
                match spec_insert_field(s, key, value) {
                    None => Outcome::Reject,
                    Some(s2) => if field_filtered(s, key) {
                        demote(walk_opts(s2, toks.skip(2)))
                    } else {
                        walk_opts(s2, toks.skip(2))
                    },
                }
            }
        },
        }
    }
}

/// The outcome of classifying every remaining token against the resolved
/// action, the child path being over.
pub open spec fn walk_opts<T>(s: ReqState<T>, toks: Seq<Seq<char>>) -> Outcome<T>
    decreases toks.len(), 1nat,
{
    if toks.len() == 0 {
        finish(s)
    } else {
        let v = spec_unescape(toks[0]);
        if v.len() > 0 && v[0] == '-' {
            let rest = v.skip(1);
            if rest.len() > 0 && rest[0] == '-' {
                step_key(s, rest.skip(1), toks)
            } else if byte_len(rest) > 1 {
                match apply_short_flags(s, lossy_chars(rest)) {
                    None => Outcome::Reject,
                    Some(s2) => walk_opts(s2, toks.skip(1)),
                }
            } else {
                step_key(s, rest, toks)
            }
        } else {
            match spec_insert_argument(s, v) {
                None => Outcome::Reject,
                Some(s2) => if argument_filtered(s) {
                    demote(walk_opts(s2, toks.skip(1)))
                } else {
                    walk_opts(s2, toks.skip(1))
                },
            }
        }
    }
}

/// The outcome of resolving the remaining tokens with the child path still
/// active: each token descends into a matching child, and the first token
/// that matches no child keyword ends the child path for good.
pub open spec fn walk_children<T>(action: Action<T>, toks: Seq<Seq<char>>) -> Outcome<T>
    decreases toks.len(), 2nat,
{
    if toks.len() == 0 {
        finish(init_state(action))
    } else {
        let v = spec_unescape(toks[0]);
        match find_child(action.children@, v) {
            Some(i) => walk_children(action.children@[i], toks.skip(1)),
            None => walk_opts(init_state(action), toks),
        }
    }
}

/// The views of a list of owned tokens.
pub open spec fn token_views(toks: Seq<String>) -> Seq<Seq<char>> {
    toks.map_values(|s: String| s@)
}

/// The outcome of parsing the token list against the registry: the first
/// token, unescaped, selects a top-level action, and the rest resolve
/// against its tree.
pub open spec fn spec_parse<T>(cherry: Cherry<T>, toks: Seq<Seq<char>>) -> Outcome<T> {
    if toks.len() == 0 {
        Outcome::Reject
    } else {
        let kw = spec_unescape(toks[0]);
        match find_child(cherry.actions@, kw) {
            None => Outcome::Reject,
            Some(i) => walk_children(cherry.actions@[i], toks.skip(1)),
        }
    }
}

impl<T> Cherry<T> {
    /// Create a new Cherry instance with no actions.
    pub fn new() -> (r: Self)
        ensures
            r.actions@.len() == 0,
    {
        Cherry { actions: Vec::new() }
    }

    /// Insert a top-level Action. Fails on an empty keyword or when an
    /// action with the same keyword already exists.
    pub fn insert(self, action: Action<T>) -> (r: Result<Self, Error>)
        ensures
            match r {
                Ok(c) => action.keyword@.len() > 0 && find_child(self.actions@, action.keyword@)
                    is None && c.actions@ == self.actions@.push(action),
                Err(e) => (action.keyword@.len() == 0 && e.message@
                    == "Action must have a non-empty keyword."@) || (action.keyword@.len() > 0
                    && find_child(self.actions@, action.keyword@) is Some && e.message@
                    == "Action '"@ + action.keyword@ + "' already exists."@),
            },
    {
        if action.keyword.as_str().is_empty() {
            return Err(Error::new("Action must have a non-empty keyword."));
        }
        if find_child_index(&self.actions, action.keyword.as_str()).is_some() {
            let mut m = String::new();
            m.append("Action '");
            m.append(action.keyword.as_str());
            m.append("' already exists.");
            proof {
                assert(m@ =~= "Action '"@ + action.keyword@ + "' already exists."@);
            }
            return Err(Error { message: m });
        }
        let Cherry { mut actions } = self;
        actions.push(action);
        Ok(Cherry { actions })
    }
}

/// Demoting an outcome twice is the same as demoting it once.
proof fn lemma_demote_idempotent<T>(o: Outcome<T>)
    ensures
        demote(demote(o)) == demote(o),
{
}

/// A byte count is never negative.
proof fn lemma_byte_len_nonneg(s: Seq<char>)
    ensures
        byte_len(s) >= 0,
    decreases s.len(),
{
    if s.len() > 0 {
        lemma_byte_len_nonneg(s.skip(1));
    }
}

/// The utf-8 width of one character, in bytes.
fn char_width(c: char) -> (r: usize)
    ensures
        r == char_byte_len(c),
{
    let u = c as u32;
    if u < 0x80 {
        1
    } else if u < 0x800 {
        2
    } else if u < 0x10000 {
        3
    } else {
        4
    }
}

/// Whether the token is more than one byte long in utf-8.
fn token_is_multibyte(s: &str) -> (r: bool)
    ensures
        r == (byte_len(s@) > 1),
{
    let n: usize = s.unicode_len();
    let mut acc: usize = 0;
    let mut i: usize = 0;
    proof {
        assert(s@.skip(0) =~= s@);
    }
    while i < n
        invariant
            n == s@.len(),
            i <= n,
            acc <= 1,
            byte_len(s@) == acc + byte_len(s@.skip(i as int)),
        decreases n - i,
    {
        let c = s.get_char(i);
        let w = char_width(c);
        proof {
            let rest = s@.skip(i as int);
            assert(rest[0] == c);
            assert(rest.skip(1) =~= s@.skip(i + 1));
            lemma_byte_len_nonneg(s@.skip(i + 1));
        }
        if acc + w > 1 {
            return true;
        }
        acc = acc + w;
        i = i + 1;
    }
    proof {
        assert(s@.skip(n as int) =~= Seq::<char>::empty());
    }
    false
}

impl<T> Cherry<T> {
    /// Parse the provided command tokens into a Request against this
    /// registry. The first token selects an action; the rest descend into
    /// child actions and then classify as flags, fields and positional
    /// arguments, as `spec_parse` lays down.
    #[verifier::loop_isolation(false)]
    pub fn parse<'a>(&'a self, command: &[String]) -> (r: Result<Request<'a, T>, Error>)
        ensures
            match r {
                Ok(req) => (spec_parse(*self, token_views(command@)) == Outcome::Accept(req@)
                    || spec_parse(*self, token_views(command@)) == Outcome::Maybe(req@))
                    && req@.arguments.len() == req@.action.arguments@.len(),
                Err(e) => e.message@ == "Todo: Help."@ && !(spec_parse(
                    *self,
                    token_views(command@),
                ) is Accept),
            },
    {
        let ghost toks = token_views(command@);
        let ghost out = spec_parse(*self, toks);
        let n = command.len();
        if n == 0 {
            return Err(Error::new("Todo: Help."));
        }
        let keyword = unescape(command[0].as_str());
        proof {
            assert(toks[0] == command@[0]@);
        }
        let root = match find_child_index(&self.actions, keyword.as_str()) {
            None => {
                return Err(Error::new("Todo: Help."));
            },
            Some(idx) => idx,
        };
        let mut action: &Action<T> = &self.actions[root];
        let mut request: Request<'a, T> = Request::new(action);
        let mut child_path = true;
        let mut i: usize = 1;
        proof {
            assert(out == walk_children(*action, toks.skip(1)));
        }
        while i < n
            invariant
                n == command@.len(),
                toks == token_views(command@),
                toks.len() == n,
                out == spec_parse(*self, toks),
                1 <= i <= n,
                request.action == action,
                child_path ==> request@ == init_state(*action) && (out == walk_children(
                    *action,
                    toks.skip(i as int),
                ) || out == demote(walk_children(*action, toks.skip(i as int)))),
                !child_path ==> (out == walk_opts(request@, toks.skip(i as int)) || out == demote(
                    walk_opts(request@, toks.skip(i as int)),
                )),
            decreases n - i,
        {
            let value = unescape(command[i].as_str());
            proof {
                assert(toks[i as int] == command@[i as int]@);
                assert(toks.skip(i as int)[0] == toks[i as int]);
                assert(toks.skip(i as int).len() == n - i);
                assert(toks.skip(i as int).skip(1) =~= toks.skip(i + 1));
                if i + 2 <= n {
                    assert(toks.skip(i as int).skip(2) =~= toks.skip(i + 2));
                }
            }
            let mut descended = false;
            if child_path {
                let ghost cont = walk_children(*action, toks.skip(i as int));
                match find_child_index(&action.children, value.as_str()) {
                    Some(ci) => {
                        proof {
                            assert(cont == walk_children(
                                action.children@[ci as int],
                                toks.skip(i + 1),
                            ));
                        }
                        action = &action.children[ci];
                        request = Request::new(action);
                        descended = true;
                    },
                    None => {
                        proof {
                            assert(cont == walk_opts(init_state(*action), toks.skip(i as int)));
                        }
                        child_path = false;
                    },
                }
            }
            if descended {
                i = i + 1;
            } else {
                let ghost cont = walk_opts(request@, toks.skip(i as int));
                let ghost v = spec_unescape(toks[i as int]);
                proof {
                    assert(v == value@);
                }
                let vlen = value.as_str().unicode_len();
                if vlen > 0 && value.as_str().get_char(0) == '-' {
                    let rest: &str = value.as_str().substring_char(1, vlen);
                    proof {
                        assert(rest@ =~= v.skip(1));
                    }
                    let rlen = vlen - 1;
                    let long = rlen > 0 && rest.get_char(0) == '-';
                    let multibyte = if long {
                        false
                    } else {
                        token_is_multibyte(rest)
                    };
                    if multibyte {
                        // one flag per byte of the combined short token
                        let ghost entry = request@;
                        proof {
                            assert(cont == (match apply_short_flags(entry, lossy_chars(rest@)) {
                                None => Outcome::<T>::Reject,
                                Some(s2) => walk_opts(s2, toks.skip(i + 1)),
                            }));
                            assert(rest@.skip(0) =~= rest@);
                        }
                        let mut j: usize = 0;
                        while j < rlen
                            invariant
                                rlen == rest@.len(),
                                j <= rlen,
                                request.action == action,
                                apply_short_flags(entry, lossy_chars(rest@))
                                    == apply_short_flags(
                                    request@,
                                    lossy_chars(rest@.skip(j as int)),
                                ),
                            decreases rlen - j,
                        {
                            let c = rest.get_char(j);
                            let ghost tail = lossy_chars(rest@.skip(j + 1));
                            proof {
                                let cur = rest@.skip(j as int);
                                assert(cur[0] == c);
                                assert(cur.skip(1) =~= rest@.skip(j + 1));
                            }
                            if (c as u32) < 0x80 {
                                let mut key = String::new();
                                push_char(&mut key, c);
                                proof {
                                    let cur = rest@.skip(j as int);
                                    assert(lossy_chars(cur) =~= seq![c] + tail);
                                    assert((seq![c] + tail)[0] == c);
                                    assert((seq![c] + tail).skip(1) =~= tail);
                                    assert(key@ =~= seq![c]);
                                }
                                match request.insert_flag(key.as_str()) {
                                    Ok(r2) => {
                                        request = r2;
                                    },
                                    Err(e) => {
                                        proof {
                                            assert(apply_short_flags(
                                                entry,
                                                lossy_chars(rest@),
                                            ) is None);
                                            assert(cont == Outcome::<T>::Reject);
                                        }
                                        return Err(e);
                                    },
                                }
                            } else {
                                let w = char_width(c);
                                proof {
                                    let cur = rest@.skip(j as int);
                                    assert(lossy_chars(cur) =~= Seq::new(
                                        char_byte_len(c) as nat,
                                        |k: int| '\u{FFFD}',
                                    ) + tail);
                                }
                                let mut k: usize = 0;
                                while k < w
                                    invariant
                                        w == char_byte_len(rest@[j as int]),
                                        j < rlen == rest@.len(),
                                        k <= w,
                                        request.action == action,
                                        apply_short_flags(entry, lossy_chars(rest@))
                                            == apply_short_flags(
                                            request@,
                                            Seq::new((w - k) as nat, |k2: int| '\u{FFFD}')
                                                + lossy_chars(rest@.skip(j + 1)),
                                        ),
                                    decreases w - k,
                                {
                                    let mut key = String::new();
                                    push_char(&mut key, '\u{FFFD}');
                                    let ghost run = Seq::new((w - k) as nat, |k2: int| '\u{FFFD}')
                                        + lossy_chars(rest@.skip(j + 1));
                                    proof {
                                        assert(key@ =~= seq!['\u{FFFD}']);
                                        assert(run[0] == '\u{FFFD}');
                                        assert(run.skip(1) =~= Seq::new(
                                            (w - k - 1) as nat,
                                            |k2: int| '\u{FFFD}',
                                        ) + lossy_chars(rest@.skip(j + 1)));
                                    }
                                    match request.insert_flag(key.as_str()) {
                                        Ok(r2) => {
                                            request = r2;
                                        },
                                        Err(e) => {
                                            proof {
                                                assert(apply_short_flags(
                                                    entry,
                                                    lossy_chars(rest@),
                                                ) is None);
                                                assert(cont == Outcome::<T>::Reject);
                                            }
                                            return Err(e);
                                        },
                                    }
                                    k = k + 1;
                                }
                                proof {
                                    assert(Seq::new(0nat, |k2: int| '\u{FFFD}') + lossy_chars(
                                        rest@.skip(j + 1),
                                    ) =~= lossy_chars(rest@.skip(j + 1)));
                                }
                            }
                            j = j + 1;
                        }
                        proof {
                            assert(rest@.skip(rlen as int) =~= Seq::<char>::empty());
                            assert(lossy_chars(rest@.skip(rlen as int)) =~= Seq::<char>::empty());
                            assert(apply_short_flags(entry, lossy_chars(rest@)) == Some(request@));
                            assert(cont == walk_opts(request@, toks.skip(i + 1)));
                        }
                        i = i + 1;
                    } else {
                        // a long name or a single short: a flag, or a field
                        // taking the next token as its value
                        let key: &str = if long {
                            let k = rest.substring_char(1, rlen);
                            proof {
                                assert(k@ =~= v.skip(1).skip(1));
                            }
                            k
                        } else {
                            rest
                        };
                        let ghost sk = step_key(request@, key@, toks.skip(i as int));
                        proof {
                            assert(cont == sk);
                        }
                        if request.has_flag(key) {
                            proof {
                                action::lemma_find_flag_means_has(action.flags@, key@, 0);
                            }
                            match request.insert_flag(key) {
                                Ok(r2) => {
                                    proof {
                                        assert(sk == walk_opts(r2@, toks.skip(i + 1)));
                                    }
                                    request = r2;
                                    i = i + 1;
                                },
                                Err(e) => {
                                    proof {
                                        assert(false);
                                    }
                                    return Err(e);
                                },
                            }
                        } else {
                            proof {
                                action::lemma_find_flag_means_has(action.flags@, key@, 0);
                                assert(spec_insert_flag(request@, key@) is None);
                            }
                            if i + 1 >= n {
                                proof {
                                    assert(sk == Outcome::<T>::Reject);
                                }
                                return Err(Error::new("Todo: Help."));
                            }
                            let field_value = unescape(command[i + 1].as_str());
                            proof {
                                assert(toks[i + 1] == command@[i + 1]@);
                                assert(toks.skip(i as int)[1] == toks[i + 1]);
                            }
                            let ghost filtered = field_filtered(request@, key@);
                            match request.insert_field(key, field_value.as_str()) {
                                Ok(r2) => {
                                    proof {
                                        if filtered {
                                            assert(sk == demote(walk_opts(r2@, toks.skip(i + 2))));
                                        } else {
                                            assert(sk == walk_opts(r2@, toks.skip(i + 2)));
                                        }
                                        lemma_demote_idempotent(walk_opts(r2@, toks.skip(i + 2)));
                                    }
                                    request = r2;
                                    i = i + 2;
                                },
                                Err(e) => {
                                    proof {
                                        if spec_insert_field(request@, key@, field_value@)
                                            is None {
                                            assert(sk == Outcome::<T>::Reject);
                                        } else {
                                            assert(filtered);
                                            assert(!(sk is Accept));
                                        }
                                    }
                                    return Err(e);
                                },
                            }
                        }
                    }
                } else {
                    // a positional argument value
                    let ghost filtered = argument_filtered(request@);
                    match request.insert_argument(value.as_str()) {
                        Ok(r2) => {
                            proof {
                                if filtered {
                                    assert(cont == demote(walk_opts(r2@, toks.skip(i + 1))));
                                } else {
                                    assert(cont == walk_opts(r2@, toks.skip(i + 1)));
                                }
                                lemma_demote_idempotent(walk_opts(r2@, toks.skip(i + 1)));
                            }
                            request = r2;
                            i = i + 1;
                        },
                        Err(e) => {
                            proof {
                                if spec_insert_argument(request@, value@) is None {
                                    assert(cont == Outcome::<T>::Reject);
                                } else {
                                    assert(filtered);
                                    assert(!(cont is Accept));
                                }
                            }
                            return Err(e);
                        },
                    }
                }
            }
        }
        proof {
            assert(toks.skip(n as int) =~= Seq::<Seq<char>>::empty());
        }
        if request.validate() {
            Ok(request)
        } else {
            Err(Error::new("Todo: Help."))
        }
    }

    /// Parse a command given as a slice of string slices; a convenience
    /// front for `parse`.
    pub fn parse_slice<'a>(&'a self, command: &[&str]) -> (r: Result<Request<'a, T>, Error>)
        ensures
            match r {
                Ok(req) => (spec_parse(*self, command@.map_values(|s: &str| s@))
                    == Outcome::Accept(req@) || spec_parse(
                    *self,
                    command@.map_values(|s: &str| s@),
                ) == Outcome::Maybe(req@)) && req@.arguments.len()
                    == req@.action.arguments@.len(),
                Err(e) => e.message@ == "Todo: Help."@ && !(spec_parse(
                    *self,
                    command@.map_values(|s: &str| s@),
                ) is Accept),
            },
    {
        let n = command.len();
        let mut owned: Vec<String> = Vec::new();
        let mut j: usize = 0;
        while j < n
            invariant
                n == command@.len(),
                j <= n,
                owned@.len() == j,
                forall|t: int| 0 <= t < j ==> (#[trigger] owned@[t])@ == command@[t]@,
            decreases n - j,
        {
            let token: &str = command[j];
            owned.push(token.to_owned());
            j = j + 1;
        }
        proof {
            assert(token_views(owned@) =~= command@.map_values(|s: &str| s@));
        }
        self.parse(owned.as_slice())
    }

    /// Parse a command given as one raw string: the scanner cuts it into
    /// tokens, honouring quotes and backslash pairs, and the tokens resolve
    /// as `parse` lays down.
    pub fn parse_str<'a>(&'a self, command: &str) -> (r: Result<Request<'a, T>, Error>)
        ensures
            match r {
                Ok(req) => scan::scan_tokens(command@) matches Some(toks) && (spec_parse(
                    *self,
                    toks,
                ) == Outcome::Accept(req@) || spec_parse(*self, toks) == Outcome::Maybe(req@))
                    && req@.arguments.len() == req@.action.arguments@.len(),
                Err(e) => e.message@ == "Todo: Help."@ && (scan::scan_tokens(command@) is None
                    || !(spec_parse(*self, scan::scan_tokens(command@)->Some_0) is Accept)),
            },
    {
        let parts = match scan::scan(command) {
            Ok(parts) => parts,
            Err(e) => {
                return Err(e);
            },
        };
        self.parse(parts.as_slice())
    }
}

impl Default for Cherry<()> {
    /// Create a new Cherry instance, as `new` does.
    fn default() -> (r: Self)
        ensures
            r.actions@.len() == 0,
    {
        Cherry::new()
    }
}

impl<T> PartialEq for Cherry<T> {
    fn eq(&self, other: &Self) -> bool {
        if self.actions.len() != other.actions.len() {
            return false;
        }
        let n = self.actions.len();
        let mut i: usize = 0;
        while i < n
            invariant
                n == self.actions@.len() == other.actions@.len(),
                i <= n,
                forall|j: int|
                    0 <= j < i ==> (#[trigger] self.actions@[j]).keyword@
                        == other.actions@[j].keyword@ && text::opt_view(
                        self.actions@[j].description,
                    ) == text::opt_view(other.actions@[j].description),
            decreases n - i,
        {
            let same = text::str_eq(
                self.actions[i].keyword.as_str(),
                other.actions[i].keyword.as_str(),
            ) && text::opt_str_eq(&self.actions[i].description, &other.actions[i].description);
            if !same {
                return false;
            }
            i = i + 1;
        }
        true
    }
}

impl<T> vstd::std_specs::cmp::PartialEqSpecImpl for Cherry<T> {
    open spec fn obeys_eq_spec() -> bool {
        true
    }

    open spec fn eq_spec(&self, other: &Self) -> bool {
        self.actions@.len() == other.actions@.len() && (forall|j: int|
            0 <= j < self.actions@.len() ==> (#[trigger] self.actions@[j]).keyword@
                == other.actions@[j].keyword@ && text::opt_view(self.actions@[j].description)
                == text::opt_view(other.actions@[j].description))
    }
}

/// Setting flags one character at a time never changes the bound action.
proof fn lemma_apply_short_flags_action<T>(s: ReqState<T>, ds: Seq<char>)
    ensures
        apply_short_flags(s, ds) matches Some(s2) ==> s2.action == s.action,
    decreases ds.len(),
{
    if ds.len() > 0 {
        match spec_insert_flag(s, seq![ds[0]]) {
            None => {},
            Some(s2) => {
                assert(s2.action == s.action);
                lemma_apply_short_flags_action(s2, ds.skip(1));
            },
        }
    }
}

/// Part of the option walk: consuming a `--name` or `-c` token never
/// changes the bound action either.
proof fn lemma_no_descent_step_key<T>(s: ReqState<T>, key: Seq<char>, toks: Seq<Seq<char>>)
    ensures
        step_key(s, key, toks) matches Outcome::Accept(m) ==> m.action == s.action,
        step_key(s, key, toks) matches Outcome::Maybe(m) ==> m.action == s.action,
    decreases toks.len(), 0nat,
{
    if toks.len() > 0 {
        match spec_insert_flag(s, key) {
            Some(s2) => {
                lemma_no_descent_opts(s2, toks.skip(1));
            },
            None => {
                if toks.len() >= 2 {
                    let value = spec_unescape(toks[1]);
                    match spec_insert_field(s, key, value) {
                        None => {},
                        Some(s2) => {
                            lemma_no_descent_opts(s2, toks.skip(2));
                        },
                    }
                }
            },
        }
    }
}

/// Once a token has failed to match a child keyword, the child path is
/// over: no later token is ever matched as a child, so every request the
/// option walk can yield is bound to the very action the walk entered
/// with, whatever the remaining tokens hold.
pub proof fn lemma_no_descent_opts<T>(s: ReqState<T>, toks: Seq<Seq<char>>)
    ensures
        walk_opts(s, toks) matches Outcome::Accept(m) ==> m.action == s.action,
        walk_opts(s, toks) matches Outcome::Maybe(m) ==> m.action == s.action,
    decreases toks.len(), 1nat,
{
    if toks.len() > 0 {
        let v = spec_unescape(toks[0]);
        if v.len() > 0 && v[0] == '-' {
            let rest = v.skip(1);
            if rest.len() > 0 && rest[0] == '-' {
                lemma_no_descent_step_key(s, rest.skip(1), toks);
            } else if byte_len(rest) > 1 {
                lemma_apply_short_flags_action(s, lossy_chars(rest));
                match apply_short_flags(s, lossy_chars(rest)) {
                    None => {},
                    Some(s2) => {
                        lemma_no_descent_opts(s2, toks.skip(1));
                    },
                }
            } else {
                lemma_no_descent_step_key(s, rest, toks);
            }
        } else {
            match spec_insert_argument(s, v) {
                None => {},
                Some(s2) => {
                    lemma_no_descent_opts(s2, toks.skip(1));
                },
            }
        }
    }
}

/// Part of the argument-count law, over one `--name` or `-c` step.
proof fn lemma_arity_step_key<T>(s: ReqState<T>, key: Seq<char>, toks: Seq<Seq<char>>)
    ensures
        step_key(s, key, toks) matches Outcome::Accept(m) ==> m.arguments.len()
            == m.action.arguments@.len(),
        step_key(s, key, toks) matches Outcome::Maybe(m) ==> m.arguments.len()
            == m.action.arguments@.len(),
    decreases toks.len(), 0nat,
{
    if toks.len() > 0 {
        match spec_insert_flag(s, key) {
            Some(s2) => {
                lemma_arity_opts(s2, toks.skip(1));
            },
            None => {
                if toks.len() >= 2 {
                    let value = spec_unescape(toks[1]);
                    match spec_insert_field(s, key, value) {
                        None => {},
                        Some(s2) => {
                            lemma_arity_opts(s2, toks.skip(2));
                        },
                    }
                }
            },
        }
    }
}

/// Part of the argument-count law, over the option walk.
proof fn lemma_arity_opts<T>(s: ReqState<T>, toks: Seq<Seq<char>>)
    ensures
        walk_opts(s, toks) matches Outcome::Accept(m) ==> m.arguments.len()
            == m.action.arguments@.len(),
        walk_opts(s, toks) matches Outcome::Maybe(m) ==> m.arguments.len()
            == m.action.arguments@.len(),
    decreases toks.len(), 1nat,
{
    if toks.len() > 0 {
        let v = spec_unescape(toks[0]);
        if v.len() > 0 && v[0] == '-' {
            let rest = v.skip(1);
            if rest.len() > 0 && rest[0] == '-' {
                lemma_arity_step_key(s, rest.skip(1), toks);
            } else if byte_len(rest) > 1 {
                match apply_short_flags(s, lossy_chars(rest)) {
                    None => {},
                    Some(s2) => {
                        lemma_arity_opts(s2, toks.skip(1));
                    },
                }
            } else {
                lemma_arity_step_key(s, rest, toks);
            }
        } else {
            match spec_insert_argument(s, v) {
                None => {},
                Some(s2) => {
                    lemma_arity_opts(s2, toks.skip(1));
                },
            }
        }
    }
}

/// Part of the argument-count law, over the child descent.
proof fn lemma_arity_children<T>(action: Action<T>, toks: Seq<Seq<char>>)
    ensures
        walk_children(action, toks) matches Outcome::Accept(m) ==> m.arguments.len()
            == m.action.arguments@.len(),
        walk_children(action, toks) matches Outcome::Maybe(m) ==> m.arguments.len()
            == m.action.arguments@.len(),
    decreases toks.len(), 2nat,
{
    if toks.len() > 0 {
        let v = spec_unescape(toks[0]);
        match find_child(action.children@, v) {
            Some(i) => {
                lemma_arity_children(action.children@[i], toks.skip(1));
            },
            None => {
                lemma_arity_opts(init_state(action), toks);
            },
        }
    }
}

/// For every schema and every token list, a request that resolution can
/// yield holds exactly as many argument values as its bound action
/// declares.
pub proof fn lemma_parse_argument_count<T>(cherry: Cherry<T>, toks: Seq<Seq<char>>)
    ensures
        spec_parse(cherry, toks) matches Outcome::Accept(m) ==> m.arguments.len()
            == m.action.arguments@.len(),
        spec_parse(cherry, toks) matches Outcome::Maybe(m) ==> m.arguments.len()
            == m.action.arguments@.len(),
{
    if toks.len() > 0 {
        let kw = spec_unescape(toks[0]);
        match find_child(cherry.actions@, kw) {
            None => {},
            Some(i) => {
                lemma_arity_children(cherry.actions@[i], toks.skip(1));
            },
        }
    }
}

} // verus!
