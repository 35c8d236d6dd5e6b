//! Actions and the values they declare.
//!
//! An `Action` is a named command node. It declares positional `Argument`s,
//! named `Field`s that take a value, boolean `Flag`s, child actions reached
//! by keyword, and an optional callback run when the action is dispatched.
//! Within one action the combined key space of field titles, field shorts,
//! flag titles and flag shorts holds no duplicates: insertion fails on the
//! first collision.

use vstd::prelude::*;
use crate::error::Error;
use crate::request::{Payload, Request};
use crate::text::{push_char, str_eq, str_is_char};

verus! {

/// A user-supplied predicate run against a parsed value to decide whether
/// the value is acceptable.
pub trait Validator {
    /// Decide whether the provided value passes this rule.
    fn accept(&self, value: &str) -> bool;
}

/// A user-supplied callback run when a parsed request is dispatched. The
/// callback receives the parsed values of the request as a `Payload`.
pub trait Handler<T> {
    /// Consume the parsed values and produce the action's result.
    fn handle(&self, payload: Payload) -> T;
}

/// A positional value declared on an action, consumed in declaration order.
pub struct Argument {
    /// The Argument title for use in help text.
    pub title: String,
    /// The Argument description for use in help text.
    pub description: Option<String>,
    /// The rule to determine if a provided value is valid.
    pub filter: Option<Box<dyn Validator>>,
}

/// A named option requiring a value, with an optional one-character short
/// alias and an optional default.
pub struct Field {
    /// The Field title, the full specifier to utilise this Field.
    pub title: String,
    /// The Field description for use in help text.
    pub description: Option<String>,
    /// The single character short specifier for this Field.
    pub short: Option<char>,
    /// The Field default value.
    pub default: Option<String>,
    /// The rule to determine if a provided value is valid.
    pub filter: Option<Box<dyn Validator>>,
}

/// A named boolean option, with an optional one-character short alias,
/// requiring no value.
#[derive(Clone)]
pub struct Flag {
    /// The Flag title, the full specifier to utilise this Flag.
    pub title: String,
    /// The Flag description for use in help text.
    pub description: Option<String>,
    /// The single character short specifier for this Flag.
    pub short: Option<char>,
}

/// A named command node: the schema one keyword selects.
#[verifier::reject_recursive_types(T)]
pub struct Action<T> {
    /// The keyword to invoke this Action.
    pub keyword: String,
    /// The description for this Action.
    pub description: Option<String>,
    /// The Arguments this Action accepts, in positional order.
    pub arguments: Vec<Argument>,
    /// The Fields this Action accepts.
    pub fields: Vec<Field>,
    /// The Flags this Action accepts.
    pub flags: Vec<Flag>,
    /// The child Actions reachable from this Action by keyword.
    pub children: Vec<Action<T>>,
    /// The callback invoked when this Action is run.
    pub callback: Option<Box<dyn Handler<T>>>,
}

/// Whether a declared title or short answers to the given key: either the
/// key is the title itself, or the key is the one-character string of the
/// short.
pub open spec fn key_matches(title: Seq<char>, short: Option<char>, key: Seq<char>) -> bool {
    title == key || (short matches Some(c) && key == seq![c])
}

/// Whether some field of the sequence answers to the key.
pub open spec fn has_field_key(fields: Seq<Field>, key: Seq<char>) -> bool {
    exists|i: int|
        0 <= i < fields.len() && key_matches(
            (#[trigger] fields[i]).title@,
            fields[i].short,
            key,
        )
}

/// Whether some flag of the sequence answers to the key.
pub open spec fn has_flag_key(flags: Seq<Flag>, key: Seq<char>) -> bool {
    exists|i: int|
        0 <= i < flags.len() && key_matches((#[trigger] flags[i]).title@, flags[i].short, key)
}

/// The first field of the sequence answering to the key, from position `i`.
pub open spec fn find_field_from(fields: Seq<Field>, key: Seq<char>, i: int) -> Option<int>
    decreases fields.len() - i,
{
    if i < 0 || i >= fields.len() {
        None
    } else if key_matches(fields[i].title@, fields[i].short, key) {
        Some(i)
    } else {
        find_field_from(fields, key, i + 1)
    }
}

/// The first field of the sequence answering to the key.
pub open spec fn find_field(fields: Seq<Field>, key: Seq<char>) -> Option<int> {
    find_field_from(fields, key, 0)
}

/// The first flag of the sequence answering to the key, from position `i`.
pub open spec fn find_flag_from(flags: Seq<Flag>, key: Seq<char>, i: int) -> Option<int>
    decreases flags.len() - i,
{
    if i < 0 || i >= flags.len() {
        None
    } else if key_matches(flags[i].title@, flags[i].short, key) {
        Some(i)
    } else {
        find_flag_from(flags, key, i + 1)
    }
}

/// The first flag of the sequence answering to the key.
pub open spec fn find_flag(flags: Seq<Flag>, key: Seq<char>) -> Option<int> {
    find_flag_from(flags, key, 0)
}

/// The first child of the sequence whose keyword is the key, from `i`.
pub open spec fn find_child_from<T>(children: Seq<Action<T>>, key: Seq<char>, i: int) -> Option<
    int,
>
    decreases children.len() - i,
{
    if i < 0 || i >= children.len() {
        None
    } else if children[i].keyword@ == key {
        Some(i)
    } else {
        find_child_from(children, key, i + 1)
    }
}

/// The first child of the sequence whose keyword is the key.
pub open spec fn find_child<T>(children: Seq<Action<T>>, key: Seq<char>) -> Option<int> {
    find_child_from(children, key, 0)
}

/// Whether the argument declared at the given position carries a filter.
pub open spec fn argument_has_filter_at(arguments: Seq<Argument>, i: int) -> bool {
    0 <= i < arguments.len() && arguments[i].filter is Some
}

/// Whether the field answering to the key carries a filter.
pub open spec fn field_has_filter(fields: Seq<Field>, key: Seq<char>) -> bool {
    find_field(fields, key) matches Some(i) && fields[i].filter is Some
}

/// A field search succeeds exactly when some field answers to the key.
pub proof fn lemma_find_field_means_has(fields: Seq<Field>, key: Seq<char>, i: int)
    requires
        0 <= i <= fields.len(),
    ensures
        find_field_from(fields, key, i) is Some <==> exists|j: int|
            i <= j < fields.len() && key_matches(
                (#[trigger] fields[j]).title@,
                fields[j].short,
                key,
            ),
        find_field_from(fields, key, i) matches Some(j) ==> i <= j < fields.len() && key_matches(
            fields[j].title@,
            fields[j].short,
            key,
        ),
    decreases fields.len() - i,
{
    if i < fields.len() {
        lemma_find_field_means_has(fields, key, i + 1);
    }
}

/// A flag search succeeds exactly when some flag answers to the key.
pub proof fn lemma_find_flag_means_has(flags: Seq<Flag>, key: Seq<char>, i: int)
    requires
        0 <= i <= flags.len(),
    ensures
        find_flag_from(flags, key, i) is Some <==> exists|j: int|
            i <= j < flags.len() && key_matches(
                (#[trigger] flags[j]).title@,
                flags[j].short,
                key,
            ),
        find_flag_from(flags, key, i) matches Some(j) ==> i <= j < flags.len() && key_matches(
            flags[j].title@,
            flags[j].short,
            key,
        ),
    decreases flags.len() - i,
{
    if i < flags.len() {
        lemma_find_flag_means_has(flags, key, i + 1);
    }
}

/// Whether an exec field answers to an exec key.
fn field_answers(field: &Field, key: &str) -> (r: bool)
    ensures
        r == key_matches(field.title@, field.short, key@),
{
    if str_eq(field.title.as_str(), key) {
        true
    } else {
        match field.short {
            Some(c) => str_is_char(key, c),
            None => false,
        }
    }
}

/// Whether an exec flag answers to an exec key.
fn flag_answers(flag: &Flag, key: &str) -> (r: bool)
    ensures
        r == key_matches(flag.title@, flag.short, key@),
{
    if str_eq(flag.title.as_str(), key) {
        true
    } else {
        match flag.short {
            Some(c) => str_is_char(key, c),
            None => false,
        }
    }
}

/// Find the first field answering to the key.
pub fn find_field_index(fields: &Vec<Field>, key: &str) -> (r: Option<usize>)
    ensures
        match r {
            Some(i) => i < fields@.len() && find_field(fields@, key@) == Some(i as int),
            None => find_field(fields@, key@) is None,
        },
{
    let n = fields.len();
    let mut i: usize = 0;
    while i < n
        invariant
            n == fields@.len(),
            i <= n,
            find_field(fields@, key@) == find_field_from(fields@, key@, i as int),
        decreases n - i,
    {
        if field_answers(&fields[i], key) {
            return Some(i);
        }
        i = i + 1;
    }
    None
}

/// Find the first flag answering to the key.
pub fn find_flag_index(flags: &Vec<Flag>, key: &str) -> (r: Option<usize>)
    ensures
        match r {
            Some(i) => i < flags@.len() && find_flag(flags@, key@) == Some(i as int),
            None => find_flag(flags@, key@) is None,
        },
{
    let n = flags.len();
    let mut i: usize = 0;
    while i < n
        invariant
            n == flags@.len(),
            i <= n,
            find_flag(flags@, key@) == find_flag_from(flags@, key@, i as int),
        decreases n - i,
    {
        if flag_answers(&flags[i], key) {
            return Some(i);
        }
        i = i + 1;
    }
    None
}

/// Whether any field of the vector answers to the key.
fn fields_have_key(fields: &Vec<Field>, key: &str) -> (r: bool)
    ensures
        r == has_field_key(fields@, key@),
{
    proof {
        lemma_find_field_means_has(fields@, key@, 0);
    }
    match find_field_index(fields, key) {
        Some(_) => true,
        None => false,
    }
}

/// Whether any flag of the vector answers to the key.
fn flags_have_key(flags: &Vec<Flag>, key: &str) -> (r: bool)
    ensures
        r == has_flag_key(flags@, key@),
{
    proof {
        lemma_find_flag_means_has(flags@, key@, 0);
    }
    match find_flag_index(flags, key) {
        Some(_) => true,
        None => false,
    }
}

/// Build `Action '<keyword>'<middle><name>'.`, the shape every collision
/// message takes.
fn contains_message(keyword: &str, middle: &str, name: &str) -> (r: String)
    ensures
        r@ == "Action '"@ + keyword@ + middle@ + name@ + "'."@,
{
    let mut m = String::new();
    m.append("Action '");
    m.append(keyword);
    m.append(middle);
    m.append(name);
    m.append("'.");
    proof {
        assert(m@ =~= "Action '"@ + keyword@ + middle@ + name@ + "'."@);
    }
    m
}

/// Build the same collision message for a one-character short tag.
fn contains_short_message(keyword: &str, middle: &str, c: char) -> (r: String)
    ensures
        r@ == "Action '"@ + keyword@ + middle@ + seq![c] + "'."@,
{
    let mut m = String::new();
    m.append("Action '");
    m.append(keyword);
    m.append(middle);
    push_char(&mut m, c);
    m.append("'.");
    proof {
        assert(m@ =~= "Action '"@ + keyword@ + middle@ + seq![c] + "'."@);
    }
    m
}

/// The failure that inserting this field into this action reports, if any:
/// an empty title, or the first collision in check order (title against
/// fields, title against flags, short against fields, short against flags).
pub open spec fn insert_field_error<T>(a: Action<T>, field: Field) -> Option<Seq<char>> {
    if field.title@.len() == 0 {
        Some("Field must have a non-empty title."@)
    } else if has_field_key(a.fields@, field.title@) {
        Some("Action '"@ + a.keyword@ + "' already contains a Field '"@ + field.title@ + "'."@)
    } else if has_flag_key(a.flags@, field.title@) {
        Some("Action '"@ + a.keyword@ + "' already contains a Flag '"@ + field.title@ + "'."@)
    } else {
        match field.short {
            Some(c) => if has_field_key(a.fields@, seq![c]) {
                Some(
                    "Action '"@ + a.keyword@ + "' already contains a Field with short tag '"@
                        + seq![c] + "'."@,
                )
            } else if has_flag_key(a.flags@, seq![c]) {
                Some(
                    "Action '"@ + a.keyword@ + "' already contains a Flag with short tag '"@
                        + seq![c] + "'."@,
                )
            } else {
                None
            },
            None => None,
        }
    }
}

/// The failure that inserting this flag into this action reports, if any:
/// an empty title, or the first collision in check order (title against
/// flags, title against fields, short against flags, short against fields).
pub open spec fn insert_flag_error<T>(a: Action<T>, flag: Flag) -> Option<Seq<char>> {
    if flag.title@.len() == 0 {
        Some("Flag must have a non-empty title."@)
    } else if has_flag_key(a.flags@, flag.title@) {
        Some("Action '"@ + a.keyword@ + "' already contains a Flag '"@ + flag.title@ + "'."@)
    } else if has_field_key(a.fields@, flag.title@) {
        Some("Action '"@ + a.keyword@ + "' already contains a Field '"@ + flag.title@ + "'."@)
    } else {
        match flag.short {
            Some(c) => if has_flag_key(a.flags@, seq![c]) {
                Some(
                    "Action '"@ + a.keyword@ + "' already contains a Flag with short tag '"@
                        + seq![c] + "'."@,
                )
            } else if has_field_key(a.fields@, seq![c]) {
                Some(
                    "Action '"@ + a.keyword@ + "' already contains a Field with short tag '"@
                        + seq![c] + "'."@,
                )
            } else {
                None
            },
            None => None,
        }
    }
}

impl Argument {
    /// Create a new Argument with the given title and nothing else set.
    pub fn new(title: &str) -> (r: Result<Self, Error>)
        ensures
            match r {
                Ok(a) => title@.len() > 0 && a.title@ == title@ && a.description is None
                    && a.filter is None,
                Err(e) => title@.len() == 0 && e.message@
                    == "Argument must have a non-empty title."@,
            },
    {
        if title.is_empty() {
            return Err(Error::new("Argument must have a non-empty title."));
        }
        Ok(Argument { title: title.to_owned(), description: None, filter: None })
    }

    /// Update the description used by help text.
    pub fn description(self, description: &str) -> (r: Self)
        ensures
            r.title == self.title,
            r.description matches Some(d) && d@ == description@,
            r.filter == self.filter,
    {
        Argument { description: Some(description.to_owned()), ..self }
    }

    /// Update the validation rule run against a provided value.
    pub fn filter(self, filter: Box<dyn Validator>) -> (r: Self)
        ensures
            r.title == self.title,
            r.description == self.description,
            r.filter is Some,
    {
        Argument { filter: Some(filter), ..self }
    }
}

impl Field {
    /// Create a new Field with the given title and nothing else set.
    pub fn new(title: &str) -> (r: Result<Self, Error>)
        ensures
            match r {
                Ok(f) => title@.len() > 0 && f.title@ == title@ && f.description is None
                    && f.short is None && f.default is None && f.filter is None,
                Err(e) => title@.len() == 0 && e.message@
                    == "Field must have a non-empty title."@,
            },
    {
        if title.is_empty() {
            return Err(Error::new("Field must have a non-empty title."));
        }
        Ok(
            Field {
                title: title.to_owned(),
                description: None,
                short: None,
                default: None,
                filter: None,
            },
        )
    }

    /// Set the default value handed to a request when the field is not
    /// provided.
    pub fn default(self, default: &str) -> (r: Self)
        ensures
            r.title == self.title,
            r.description == self.description,
            r.short == self.short,
            r.default matches Some(d) && d@ == default@,
            r.filter == self.filter,
    {
        Field { default: Some(default.to_owned()), ..self }
    }

    /// Update the description used by help text.
    pub fn description(self, description: &str) -> (r: Self)
        ensures
            r.title == self.title,
            r.description matches Some(d) && d@ == description@,
            r.short == self.short,
            r.default == self.default,
            r.filter == self.filter,
    {
        Field { description: Some(description.to_owned()), ..self }
    }

    /// Update the validation rule run against a provided value.
    pub fn filter(self, filter: Box<dyn Validator>) -> (r: Self)
        ensures
            r.title == self.title,
            r.description == self.description,
            r.short == self.short,
            r.default == self.default,
            r.filter is Some,
    {
        Field { filter: Some(filter), ..self }
    }

    /// Update the one-character short tag.
    pub fn short(self, short: char) -> (r: Self)
        ensures
            r.title == self.title,
            r.description == self.description,
            r.short == Some(short),
            r.default == self.default,
            r.filter == self.filter,
    {
        Field { short: Some(short), ..self }
    }
}

impl Flag {
    /// Create a new Flag with the given title and nothing else set.
    pub fn new(title: &str) -> (r: Result<Self, Error>)
        ensures
            match r {
                Ok(f) => title@.len() > 0 && f.title@ == title@ && f.description is None
                    && f.short is None,
                Err(e) => title@.len() == 0 && e.message@
                    == "Flag must have a non-empty title."@,
            },
    {
        if title.is_empty() {
            return Err(Error::new("Flag must have a non-empty title."));
        }
        Ok(Flag { title: title.to_owned(), description: None, short: None })
    }

    /// Update the description used by help text.
    pub fn description(self, description: &str) -> (r: Self)
        ensures
            r.title == self.title,
            r.description matches Some(d) && d@ == description@,
            r.short == self.short,
    {
        Flag { description: Some(description.to_owned()), ..self }
    }

    /// Update the one-character short tag.
    pub fn short(self, short: char) -> (r: Self)
        ensures
            r.title == self.title,
            r.description == self.description,
            r.short == Some(short),
    {
        Flag { short: Some(short), ..self }
    }
}

impl<T> Action<T> {
    /// Create a new Action with the given keyword and an empty schema.
    pub fn new(keyword: &str) -> (r: Result<Self, Error>)
        ensures
            match r {
                Ok(a) => keyword@.len() > 0 && a.keyword@ == keyword@ && a.description is None
                    && a.arguments@.len() == 0 && a.fields@.len() == 0 && a.flags@.len() == 0
                    && a.children@.len() == 0 && a.callback is None,
                Err(e) => keyword@.len() == 0 && e.message@
                    == "Action must have a non-empty keyword."@,
            },
    {
        if keyword.is_empty() {
            return Err(Error::new("Action must have a non-empty keyword."));
        }
        Ok(
            Action {
                keyword: keyword.to_owned(),
                description: None,
                arguments: Vec::new(),
                fields: Vec::new(),
                flags: Vec::new(),
                children: Vec::new(),
                callback: None,
            },
        )
    }

    /// Update the description used by help text.
    pub fn description(self, description: &str) -> (r: Self)
        ensures
            r.keyword == self.keyword,
            r.description matches Some(d) && d@ == description@,
            r.arguments == self.arguments,
            r.fields == self.fields,
            r.flags == self.flags,
            r.children == self.children,
            r.callback == self.callback,
    {
        Action { description: Some(description.to_owned()), ..self }
    }

    /// Append a positional Argument to the schema. Fails when the argument's
    /// title is empty.
    pub fn insert_argument(self, argument: Argument) -> (r: Result<Self, Error>)
        ensures
            match r {
                Ok(a) => argument.title@.len() > 0 && a.keyword == self.keyword && a.description
                    == self.description && a.arguments@ == self.arguments@.push(argument)
                    && a.fields == self.fields && a.flags == self.flags && a.children
                    == self.children && a.callback == self.callback,
                Err(e) => argument.title@.len() == 0 && e.message@
                    == "Argument must have a non-empty title."@,
            },
    {
        if argument.title.as_str().is_empty() {
            return Err(Error::new("Argument must have a non-empty title."));
        }
        let Action { keyword, description, mut arguments, fields, flags, children, callback } =
            self;
        arguments.push(argument);
        Ok(Action { keyword, description, arguments, fields, flags, children, callback })
    }

    /// Insert a Field into the schema. Fails on an empty title or when the
    /// field's title or short collides with any existing field or flag title
    /// or short.
    pub fn insert_field(self, field: Field) -> (r: Result<Self, Error>)
        ensures
            match r {
                Ok(a) => insert_field_error(self, field) is None && a.keyword == self.keyword
                    && a.description == self.description && a.arguments == self.arguments
                    && a.fields@ == self.fields@.push(field) && a.flags == self.flags
                    && a.children == self.children && a.callback == self.callback,
                Err(e) => insert_field_error(self, field) matches Some(m) && e.message@ == m,
            },
    {
        if field.title.as_str().is_empty() {
            return Err(Error::new("Field must have a non-empty title."));
        }
        if fields_have_key(&self.fields, field.title.as_str()) {
            return Err(
                Error {
                    message: contains_message(
                        self.keyword.as_str(),
                        "' already contains a Field '",
                        field.title.as_str(),
                    ),
                },
            );
        }
        if flags_have_key(&self.flags, field.title.as_str()) {
            return Err(
                Error {
                    message: contains_message(
                        self.keyword.as_str(),
                        "' already contains a Flag '",
                        field.title.as_str(),
                    ),
                },
            );
        }
        if let Some(c) = field.short {
            let mut key = String::new();
            push_char(&mut key, c);
            proof {
                assert(key@ =~= seq![c]);
            }
            if fields_have_key(&self.fields, key.as_str()) {
                return Err(
                    Error {
                        message: contains_short_message(
                            self.keyword.as_str(),
                            "' already contains a Field with short tag '",
                            c,
                        ),
                    },
                );
            }
            if flags_have_key(&self.flags, key.as_str()) {
                return Err(
                    Error {
                        message: contains_short_message(
                            self.keyword.as_str(),
                            "' already contains a Flag with short tag '",
                            c,
                        ),
                    },
                );
            }
        }
        let Action { keyword, description, arguments, mut fields, flags, children, callback } =
            self;
        fields.push(field);
        Ok(Action { keyword, description, arguments, fields, flags, children, callback })
    }

    /// Insert a Flag into the schema. Fails on an empty title or when the
    /// flag's title or short collides with any existing field or flag title
    /// or short.
    pub fn insert_flag(self, flag: Flag) -> (r: Result<Self, Error>)
        ensures
            match r {
                Ok(a) => insert_flag_error(self, flag) is None && a.keyword == self.keyword
                    && a.description == self.description && a.arguments == self.arguments
                    && a.fields == self.fields && a.flags@ == self.flags@.push(flag)
                    && a.children == self.children && a.callback == self.callback,
                Err(e) => insert_flag_error(self, flag) matches Some(m) && e.message@ == m,
            },
    {
        if flag.title.as_str().is_empty() {
            return Err(Error::new("Flag must have a non-empty title."));
        }
        if flags_have_key(&self.flags, flag.title.as_str()) {
            return Err(
                Error {
                    message: contains_message(
                        self.keyword.as_str(),
                        "' already contains a Flag '",
                        flag.title.as_str(),
                    ),
                },
            );
        }
        if fields_have_key(&self.fields, flag.title.as_str()) {
            return Err(
                Error {
                    message: contains_message(
                        self.keyword.as_str(),
                        "' already contains a Field '",
                        flag.title.as_str(),
                    ),
                },
            );
        }
        if let Some(c) = flag.short {
            let mut key = String::new();
            push_char(&mut key, c);
            proof {
                assert(key@ =~= seq![c]);
            }
            if flags_have_key(&self.flags, key.as_str()) {
                return Err(
                    Error {
                        message: contains_short_message(
                            self.keyword.as_str(),
                            "' already contains a Flag with short tag '",
                            c,
                        ),
                    },
                );
            }
            if fields_have_key(&self.fields, key.as_str()) {
                return Err(
                    Error {
                        message: contains_short_message(
                            self.keyword.as_str(),
                            "' already contains a Field with short tag '",
                            c,
                        ),
                    },
                );
            }
        }
        let Action { keyword, description, arguments, fields, mut flags, children, callback } =
            self;
        flags.push(flag);
        Ok(Action { keyword, description, arguments, fields, flags, children, callback })
    }

    /// Insert a child Action under this one. Fails on an empty keyword or
    /// when a child with the same keyword already exists.
    pub fn insert_child(self, child: Action<T>) -> (r: Result<Self, Error>)
        ensures
            match r {
                Ok(a) => child.keyword@.len() > 0 && find_child(self.children@, child.keyword@)
                    is None && a.keyword == self.keyword && a.description == self.description
                    && a.arguments == self.arguments && a.fields == self.fields && a.flags
                    == self.flags && a.children@ == self.children@.push(child) && a.callback
                    == self.callback,
                Err(e) => (child.keyword@.len() == 0 && e.message@
                    == "Action must have a non-empty keyword."@) || (child.keyword@.len() > 0
                    && find_child(self.children@, child.keyword@) is Some && e.message@
                    == "Action '"@ + child.keyword@ + "' already exists."@),
            },
    {
        if child.keyword.as_str().is_empty() {
            return Err(Error::new("Action must have a non-empty keyword."));
        }
        if find_child_index(&self.children, child.keyword.as_str()).is_some() {
            let mut m = String::new();
            m.append("Action '");
            m.append(child.keyword.as_str());
            m.append("' already exists.");
            proof {
                assert(m@ =~= "Action '"@ + child.keyword@ + "' already exists."@);
            }
            return Err(Error { message: m });
        }
        let Action { keyword, description, arguments, fields, flags, mut children, callback } =
            self;
        children.push(child);
        Ok(Action { keyword, description, arguments, fields, flags, children, callback })
    }

    /// Look up a direct child by its keyword.
    pub fn get_child(&self, keyword: &str) -> (r: Option<&Action<T>>)
        ensures
            match r {
                Some(c) => find_child(self.children@, keyword@) matches Some(i) && *c
                    == self.children@[i],
                None => find_child(self.children@, keyword@) is None,
            },
    {
        match find_child_index(&self.children, keyword) {
            Some(i) => Some(&self.children[i]),
            None => None,
        }
    }

    /// Set the callback invoked when this Action is run.
    pub fn callback(self, callback: Box<dyn Handler<T>>) -> (r: Self)
        ensures
            r.keyword == self.keyword,
            r.description == self.description,
            r.arguments == self.arguments,
            r.fields == self.fields,
            r.flags == self.flags,
            r.children == self.children,
            r.callback is Some,
    {
        Action { callback: Some(callback), ..self }
    }

    /// Execute this Action's callback with the provided Request. Fails when
    /// the request is bound to a different action (by keyword and
    /// description), or when no callback is set.
    pub fn run(&self, request: Request<'_, T>) -> (r: Result<T, Error>)
        ensures
            match r {
                Ok(_) => request.action.keyword@ == self.keyword@ && crate::text::opt_view(
                    request.action.description,
                ) == crate::text::opt_view(self.description) && self.callback is Some,
                Err(e) => (!(request.action.keyword@ == self.keyword@ && crate::text::opt_view(
                    request.action.description,
                ) == crate::text::opt_view(self.description)) && e.message@
                    == "Cannot run request for action '"@ + request.action.keyword@
                    + "' on action '"@ + self.keyword@ + "'."@) || (request.action.keyword@
                    == self.keyword@ && crate::text::opt_view(request.action.description)
                    == crate::text::opt_view(self.description) && self.callback is None
                    && e.message@ == "Todo: Help."@),
            },
    {
        let same = str_eq(request.action.keyword.as_str(), self.keyword.as_str())
            && crate::text::opt_str_eq(&request.action.description, &self.description);
        if !same {
            let mut m = String::new();
            m.append("Cannot run request for action '");
            m.append(request.action.keyword.as_str());
            m.append("' on action '");
            m.append(self.keyword.as_str());
            m.append("'.");
            proof {
                assert(m@ =~= "Cannot run request for action '"@ + request.action.keyword@
                    + "' on action '"@ + self.keyword@ + "'."@);
            }
            return Err(Error { message: m });
        }
        match &self.callback {
            None => Err(Error::new("Todo: Help.")),
            Some(cb) => {
                let Request { action: _, arguments, fields, flags } = request;
                Ok(cb.handle(Payload { arguments, fields, flags }))
            },
        }
    }
}

/// Find the first child whose keyword equals the key.
pub fn find_child_index<T>(children: &Vec<Action<T>>, key: &str) -> (r: Option<usize>)
    ensures
        match r {
            Some(i) => i < children@.len() && find_child(children@, key@) == Some(i as int),
            None => find_child(children@, key@) is None,
        },
{
    let n = children.len();
    let mut i: usize = 0;
    while i < n
        invariant
            n == children@.len(),
            i <= n,
            find_child(children@, key@) == find_child_from(children@, key@, i as int),
        decreases n - i,
    {
        if str_eq(children[i].keyword.as_str(), key) {
            return Some(i);
        }
        i = i + 1;
    }
    None
}

impl PartialEq for Argument {
    fn eq(&self, other: &Self) -> bool {
        str_eq(self.title.as_str(), other.title.as_str()) && crate::text::opt_str_eq(
            &self.description,
            &other.description,
        )
    }
}

impl vstd::std_specs::cmp::PartialEqSpecImpl for Argument {
    open spec fn obeys_eq_spec() -> bool {
        true
    }

    open spec fn eq_spec(&self, other: &Self) -> bool {
        self.title@ == other.title@ && crate::text::opt_view(self.description)
            == crate::text::opt_view(other.description)
    }
}

impl PartialEq for Field {
    fn eq(&self, other: &Self) -> bool {
        str_eq(self.title.as_str(), other.title.as_str()) && crate::text::opt_str_eq(
            &self.description,
            &other.description,
        ) && crate::text::opt_char_eq(&self.short, &other.short) && crate::text::opt_str_eq(
            &self.default,
            &other.default,
        )
    }
}

impl vstd::std_specs::cmp::PartialEqSpecImpl for Field {
    open spec fn obeys_eq_spec() -> bool {
        true
    }

    open spec fn eq_spec(&self, other: &Self) -> bool {
        self.title@ == other.title@ && crate::text::opt_view(self.description)
            == crate::text::opt_view(other.description) && self.short == other.short
            && crate::text::opt_view(self.default) == crate::text::opt_view(other.default)
    }
}

impl PartialEq for Flag {
    fn eq(&self, other: &Self) -> bool {
        str_eq(self.title.as_str(), other.title.as_str()) && crate::text::opt_str_eq(
            &self.description,
            &other.description,
        ) && crate::text::opt_char_eq(&self.short, &other.short)
    }
}

impl vstd::std_specs::cmp::PartialEqSpecImpl for Flag {
    open spec fn obeys_eq_spec() -> bool {
        true
    }

    open spec fn eq_spec(&self, other: &Self) -> bool {
        self.title@ == other.title@ && crate::text::opt_view(self.description)
            == crate::text::opt_view(other.description) && self.short == other.short
    }
}

impl<T> PartialEq for Action<T> {
    fn eq(&self, other: &Self) -> bool {
        str_eq(self.keyword.as_str(), other.keyword.as_str()) && crate::text::opt_str_eq(
            &self.description,
            &other.description,
        )
    }
}

impl<T> vstd::std_specs::cmp::PartialEqSpecImpl for Action<T> {
    open spec fn obeys_eq_spec() -> bool {
        true
    }

    open spec fn eq_spec(&self, other: &Self) -> bool {
        self.keyword@ == other.keyword@ && crate::text::opt_view(self.description)
            == crate::text::opt_view(other.description)
    }
}

/// Inserting a Field whose short matches the short of a Flag already on the
/// action always fails.
pub proof fn lemma_field_collides_with_flag_short<T>(a: Action<T>, flag: Flag, field: Field, c: char)
    requires
        a.flags@.contains(flag),
        flag.short == Some(c),
        field.short == Some(c),
    ensures
        insert_field_error(a, field) is Some,
{
    let i = choose|i: int| 0 <= i < a.flags@.len() && a.flags@[i] == flag;
    assert(key_matches(a.flags@[i].title@, a.flags@[i].short, seq![c]));
    assert(has_flag_key(a.flags@, seq![c]));
}

/// Inserting a Flag whose short matches the short of a Field already on the
/// action always fails: the collision check is symmetric in both directions.
pub proof fn lemma_flag_collides_with_field_short<T>(a: Action<T>, field: Field, flag: Flag, c: char)
    requires
        a.fields@.contains(field),
        field.short == Some(c),
        flag.short == Some(c),
    ensures
        insert_flag_error(a, flag) is Some,
{
    let i = choose|i: int| 0 <= i < a.fields@.len() && a.fields@[i] == field;
    assert(key_matches(a.fields@[i].title@, a.fields@[i].short, seq![c]));
    assert(has_field_key(a.fields@, seq![c]));
}

} // verus!
