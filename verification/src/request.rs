//! The parsed binding of input tokens to one action's schema.
//!
//! A `Request` is bound to one `Action` and accumulates the values parsed
//! for it: positional argument values in order, one value slot per declared
//! field (initialised from the field's default), and one boolean per
//! declared flag (initialised false). Its ghost model is a `ReqState`.

use vstd::prelude::*;
use crate::action::{
    Action, argument_has_filter_at, field_has_filter, find_field, find_flag, has_field_key,
    has_flag_key, lemma_find_field_means_has, lemma_find_flag_means_has, find_field_index,
    find_flag_index,
};
use crate::error::Error;
use crate::text::{opt_view, str_eq};

verus! {

/// One field slot of a request: the field's title and its current value.
pub struct FieldEntry {
    /// The owning field's title.
    pub title: String,
    /// The value parsed for the field, or its default, or nothing.
    pub value: Option<String>,
}

/// One flag slot of a request: the flag's title and whether it was seen.
pub struct FlagEntry {
    /// The owning flag's title.
    pub title: String,
    /// Whether the flag has been set.
    pub value: bool,
}

/// The ghost model of one field slot.
pub ghost struct FieldState {
    /// The owning field's title.
    pub title: Seq<char>,
    /// The value held for the field.
    pub value: Option<Seq<char>>,
}

/// The ghost model of one flag slot.
pub ghost struct FlagState {
    /// The owning flag's title.
    pub title: Seq<char>,
    /// Whether the flag has been set.
    pub value: bool,
}

/// The ghost model of a request: the bound action and the accumulated
/// values.
#[verifier::reject_recursive_types(T)]
pub ghost struct ReqState<T> {
    /// The action the request is bound to.
    pub action: Action<T>,
    /// The positional argument values, in order.
    pub arguments: Seq<Seq<char>>,
    /// The field slots, in the action's declaration order.
    pub fields: Seq<FieldState>,
    /// The flag slots, in the action's declaration order.
    pub flags: Seq<FlagState>,
}

/// The parsed values of a request, handed to an action's callback: the
/// argument values, the field slots and the flag slots, without the schema.
pub struct Payload {
    /// The Argument values, in positional order.
    pub arguments: Vec<String>,
    /// The Field values.
    pub fields: Vec<FieldEntry>,
    /// The Flag values.
    pub flags: Vec<FlagEntry>,
}

impl Payload {
    /// Retrieve the argument value at the given position.
    pub fn get_argument(&self, index: usize) -> (r: Option<&String>)
        ensures
            match r {
                Some(s) => index < self.arguments@.len() && s == self.arguments@[index as int],
                None => index >= self.arguments@.len(),
            },
    {
        if index < self.arguments.len() {
            Some(&self.arguments[index])
        } else {
            None
        }
    }

    /// Retrieve the value held for the field with the given title, if the
    /// slot exists and holds one.
    pub fn get_field(&self, key: &str) -> (r: Option<&String>)
        ensures
            match r {
                Some(s) => find_field_slot(field_entries_view(self.fields@), key@) matches Some(i)
                    && field_entries_view(self.fields@)[i].value == Some(s@),
                None => find_field_slot(field_entries_view(self.fields@), key@) is None || (
                find_field_slot(field_entries_view(self.fields@), key@) matches Some(i)
                    && field_entries_view(self.fields@)[i].value is None),
            },
    {
        field_value_at(&self.fields, key)
    }

    /// Retrieve whether the flag with the given title has been set, if its
    /// slot exists.
    pub fn get_flag(&self, key: &str) -> (r: Option<&bool>)
        ensures
            match r {
                Some(b) => find_flag_slot(flag_entries_view(self.flags@), key@) matches Some(i)
                    && flag_entries_view(self.flags@)[i].value == *b,
                None => find_flag_slot(flag_entries_view(self.flags@), key@) is None,
            },
    {
        flag_value_at(&self.flags, key)
    }
}

/// Find the value of the first field slot with the given title.
fn field_value_at<'x>(fields: &'x Vec<FieldEntry>, key: &str) -> (r: Option<&'x String>)
    ensures
        match r {
            Some(s) => find_field_slot(field_entries_view(fields@), key@) matches Some(i)
                && field_entries_view(fields@)[i].value == Some(s@),
            None => find_field_slot(field_entries_view(fields@), key@) is None || (find_field_slot(
                field_entries_view(fields@),
                key@,
            ) matches Some(i) && field_entries_view(fields@)[i].value is None),
        },
{
    let ghost fv = field_entries_view(fields@);
    let n = fields.len();
    let mut i: usize = 0;
    while i < n
        invariant
            n == fields@.len(),
            fv == field_entries_view(fields@),
            find_field_slot(fv, key@) == find_field_slot_from(fv, key@, i as int),
            i <= n,
        decreases n - i,
    {
        if str_eq(fields[i].title.as_str(), key) {
            return match &fields[i].value {
                Some(v) => Some(v),
                None => None,
            };
        }
        i = i + 1;
    }
    None
}

/// Find the value of the first flag slot with the given title.
fn flag_value_at<'x>(flags: &'x Vec<FlagEntry>, key: &str) -> (r: Option<&'x bool>)
    ensures
        match r {
            Some(b) => find_flag_slot(flag_entries_view(flags@), key@) matches Some(i)
                && flag_entries_view(flags@)[i].value == *b,
            None => find_flag_slot(flag_entries_view(flags@), key@) is None,
        },
{
    let ghost fv = flag_entries_view(flags@);
    let n = flags.len();
    let mut i: usize = 0;
    while i < n
        invariant
            n == flags@.len(),
            fv == flag_entries_view(flags@),
            find_flag_slot(fv, key@) == find_flag_slot_from(fv, key@, i as int),
            i <= n,
        decreases n - i,
    {
        if str_eq(flags[i].title.as_str(), key) {
            return Some(&flags[i].value);
        }
        i = i + 1;
    }
    None
}

/// The parsed, validated binding of input tokens to one Action's schema.
#[verifier::reject_recursive_types(T)]
pub struct Request<'a, T> {
    /// The Action this Request is bound to.
    pub action: &'a Action<T>,
    /// The Argument values loaded into this Request.
    pub arguments: Vec<String>,
    /// The Field values loaded into this Request.
    pub fields: Vec<FieldEntry>,
    /// The Flag values loaded into this Request.
    pub flags: Vec<FlagEntry>,
}

/// The ghost view of a sequence of field slots.
pub open spec fn field_entries_view(s: Seq<FieldEntry>) -> Seq<FieldState> {
    s.map_values(|f: FieldEntry| FieldState { title: f.title@, value: opt_view(f.value) })
}

/// The ghost view of a sequence of flag slots.
pub open spec fn flag_entries_view(s: Seq<FlagEntry>) -> Seq<FlagState> {
    s.map_values(|f: FlagEntry| FlagState { title: f.title@, value: f.value })
}

impl<'a, T> View for Request<'a, T> {
    type V = ReqState<T>;

    open spec fn view(&self) -> ReqState<T> {
        ReqState {
            action: *self.action,
            arguments: self.arguments@.map_values(|s: String| s@),
            fields: field_entries_view(self.fields@),
            flags: flag_entries_view(self.flags@),
        }
    }
}

/// The field slots a fresh request starts from: each declared field's title
/// with its default value.
pub open spec fn init_fields(fields: Seq<crate::action::Field>) -> Seq<FieldState> {
    fields.map_values(
        |f: crate::action::Field| FieldState { title: f.title@, value: opt_view(f.default) },
    )
}

/// The flag slots a fresh request starts from: each declared flag's title,
/// not yet set.
pub open spec fn init_flags(flags: Seq<crate::action::Flag>) -> Seq<FlagState> {
    flags.map_values(|f: crate::action::Flag| FlagState { title: f.title@, value: false })
}

/// The state of a request freshly bound to the action.
pub open spec fn init_state<T>(action: Action<T>) -> ReqState<T> {
    ReqState {
        action,
        arguments: Seq::empty(),
        fields: init_fields(action.fields@),
        flags: init_flags(action.flags@),
    }
}

/// The first slot of the sequence with the given title, from position `i`.
pub open spec fn find_field_slot_from(fields: Seq<FieldState>, title: Seq<char>, i: int) -> Option<
    int,
>
    decreases fields.len() - i,
{
    if i < 0 || i >= fields.len() {
        None
    } else if fields[i].title == title {
        Some(i)
    } else {
        find_field_slot_from(fields, title, i + 1)
    }
}

/// The first slot of the sequence with the given title.
pub open spec fn find_field_slot(fields: Seq<FieldState>, title: Seq<char>) -> Option<int> {
    find_field_slot_from(fields, title, 0)
}

/// The first flag slot of the sequence with the given title, from `i`.
pub open spec fn find_flag_slot_from(flags: Seq<FlagState>, title: Seq<char>, i: int) -> Option<
    int,
>
    decreases flags.len() - i,
{
    if i < 0 || i >= flags.len() {
        None
    } else if flags[i].title == title {
        Some(i)
    } else {
        find_flag_slot_from(flags, title, i + 1)
    }
}

/// The first flag slot of the sequence with the given title.
pub open spec fn find_flag_slot(flags: Seq<FlagState>, title: Seq<char>) -> Option<int> {
    find_flag_slot_from(flags, title, 0)
}

/// Store a value under a field title: the first slot with that title is
/// overwritten, or a new slot is appended when none exists.
pub open spec fn store_field(
    fields: Seq<FieldState>,
    title: Seq<char>,
    value: Seq<char>,
) -> Seq<FieldState> {
    match find_field_slot(fields, title) {
        Some(i) => fields.update(i, FieldState { title, value: Some(value) }),
        None => fields.push(FieldState { title, value: Some(value) }),
    }
}

/// Set a flag title: the first slot with that title becomes set, or a new,
/// set slot is appended when none exists.
pub open spec fn store_flag(flags: Seq<FlagState>, title: Seq<char>) -> Seq<FlagState> {
    match find_flag_slot(flags, title) {
        Some(i) => flags.update(i, FlagState { title, value: true }),
        None => flags.push(FlagState { title, value: true }),
    }
}

/// The state after consuming one positional argument value, or nothing when
/// the action declares no further position.
pub open spec fn spec_insert_argument<T>(s: ReqState<T>, value: Seq<char>) -> Option<ReqState<T>> {
    if s.arguments.len() < s.action.arguments@.len() {
        Some(ReqState { arguments: s.arguments.push(value), ..s })
    } else {
        None
    }
}

/// Whether consuming the next positional argument consults a filter.
pub open spec fn argument_filtered<T>(s: ReqState<T>) -> bool {
    s.arguments.len() < s.action.arguments@.len() && argument_has_filter_at(
        s.action.arguments@,
        s.arguments.len() as int,
    )
}

/// The state after storing a field value under the given key, or nothing
/// when no declared field answers to the key.
pub open spec fn spec_insert_field<T>(s: ReqState<T>, key: Seq<char>, value: Seq<char>) -> Option<
    ReqState<T>,
> {
    match find_field(s.action.fields@, key) {
        Some(i) => Some(
            ReqState { fields: store_field(s.fields, s.action.fields@[i].title@, value), ..s },
        ),
        None => None,
    }
}

/// Whether storing a field value under the given key consults a filter.
pub open spec fn field_filtered<T>(s: ReqState<T>, key: Seq<char>) -> bool {
    field_has_filter(s.action.fields@, key)
}

/// The state after setting the flag answering to the given key, or nothing
/// when no declared flag answers to the key.
pub open spec fn spec_insert_flag<T>(s: ReqState<T>, key: Seq<char>) -> Option<ReqState<T>> {
    match find_flag(s.action.flags@, key) {
        Some(i) => Some(ReqState { flags: store_flag(s.flags, s.action.flags@[i].title@), ..s }),
        None => None,
    }
}

impl<'a, T> Request<'a, T> {
    /// Create a new Request freshly bound to the action, with no argument
    /// values, each field at its default, and every flag unset.
    pub fn new(action: &'a Action<T>) -> (r: Self)
        ensures
            r@ == init_state(*action),
            r.action == action,
    {
        let mut fields: Vec<FieldEntry> = Vec::new();
        let mut i: usize = 0;
        let n = action.fields.len();
        while i < n
            invariant
                n == action.fields@.len(),
                i <= n,
                fields@.len() == i,
                forall|j: int|
                    0 <= j < i ==> (#[trigger] fields@[j]).title@ == action.fields@[j].title@
                        && opt_view(fields@[j].value) == opt_view(action.fields@[j].default),
            decreases n - i,
        {
            let f = &action.fields[i];
            let value = match &f.default {
                Some(d) => Some(d.clone()),
                None => None,
            };
            fields.push(FieldEntry { title: f.title.clone(), value });
            i = i + 1;
        }
        let mut flags: Vec<FlagEntry> = Vec::new();
        let mut k: usize = 0;
        let m = action.flags.len();
        while k < m
            invariant
                m == action.flags@.len(),
                k <= m,
                flags@.len() == k,
                forall|j: int|
                    0 <= j < k ==> (#[trigger] flags@[j]).title@ == action.flags@[j].title@
                        && flags@[j].value == false,
            decreases m - k,
        {
            let f = &action.flags[k];
            flags.push(FlagEntry { title: f.title.clone(), value: false });
            k = k + 1;
        }
        let r = Request { action, arguments: Vec::new(), fields, flags };
        proof {
            assert(r@.arguments =~= init_state(*action).arguments);
            assert(r@.fields =~= init_state(*action).fields);
            assert(r@.flags =~= init_state(*action).flags);
        }
        r
    }

    /// Retrieve the argument value at the given position.
    pub fn get_argument(&self, index: usize) -> (r: Option<&String>)
        ensures
            match r {
                Some(s) => index < self@.arguments.len() && s@ == self@.arguments[index as int],
                None => index >= self@.arguments.len(),
            },
    {
        if index < self.arguments.len() {
            Some(&self.arguments[index])
        } else {
            None
        }
    }

    /// Retrieve the value held for the field with the given title, if the
    /// slot exists and holds one.
    pub fn get_field(&self, key: &str) -> (r: Option<&String>)
        ensures
            match r {
                Some(s) => find_field_slot(self@.fields, key@) matches Some(i)
                    && self@.fields[i].value == Some(s@),
                None => find_field_slot(self@.fields, key@) is None || (find_field_slot(
                    self@.fields,
                    key@,
                ) matches Some(i) && self@.fields[i].value is None),
            },
    {
        field_value_at(&self.fields, key)
    }

    /// Retrieve whether the flag with the given title has been set, if its
    /// slot exists.
    pub fn get_flag(&self, key: &str) -> (r: Option<&bool>)
        ensures
            match r {
                Some(b) => find_flag_slot(self@.flags, key@) matches Some(i)
                    && self@.flags[i].value == *b,
                None => find_flag_slot(self@.flags, key@) is None,
            },
    {
        flag_value_at(&self.flags, key)
    }

    /// Query whether an argument value exists at the given position.
    pub fn has_argument(&self, index: usize) -> (r: bool)
        ensures
            r == (index < self@.arguments.len()),
    {
        index < self.arguments.len()
    }

    /// Query whether the bound action declares a field answering to the
    /// given key.
    pub fn has_field(&self, key: &str) -> (r: bool)
        ensures
            r == has_field_key(self.action.fields@, key@),
    {
        proof {
            lemma_find_field_means_has(self.action.fields@, key@, 0);
        }
        find_field_index(&self.action.fields, key).is_some()
    }

    /// Query whether the bound action declares a flag answering to the
    /// given key.
    pub fn has_flag(&self, key: &str) -> (r: bool)
        ensures
            r == has_flag_key(self.action.flags@, key@),
    {
        proof {
            lemma_find_flag_means_has(self.action.flags@, key@, 0);
        }
        find_flag_index(&self.action.flags, key).is_some()
    }

    /// Append the next positional argument value. Fails when the action
    /// declares no further position, or when the declared position's filter
    /// rejects the value.
    pub fn insert_argument(self, argument: &str) -> (r: Result<Self, Error>)
        ensures
            match r {
                Ok(r2) => spec_insert_argument(self@, argument@) matches Some(m) && r2@ == m,
                Err(e) => e.message@ == "Todo: Help."@ && (spec_insert_argument(self@, argument@)
                    is None || argument_filtered(self@)),
            },
            spec_insert_argument(self@, argument@) is Some && !argument_filtered(self@) ==> r
                is Ok,
    {
        let k = self.arguments.len();
        if k >= self.action.arguments.len() {
            return Err(Error::new("Todo: Help."));
        }
        let passed = match &self.action.arguments[k].filter {
            Some(f) => f.accept(argument),
            None => true,
        };
        if !passed {
            return Err(Error::new("Todo: Help."));
        }
        let ghost pre = self@;
        let mut arguments = self.arguments;
        arguments.push(argument.to_owned());
        let r2 = Request { arguments, ..self };
        proof {
            assert(r2@.arguments =~= pre.arguments.push(argument@));
        }
        Ok(r2)
    }

    /// Store a value for the field answering to the given key. Fails when
    /// no declared field answers, or when the field's filter rejects the
    /// value.
    pub fn insert_field(self, field: &str, value: &str) -> (r: Result<Self, Error>)
        ensures
            match r {
                Ok(r2) => spec_insert_field(self@, field@, value@) matches Some(m) && r2@ == m,
                Err(e) => e.message@ == "Todo: Help."@ && (spec_insert_field(self@, field@, value@)
                    is None || field_filtered(self@, field@)),
            },
            spec_insert_field(self@, field@, value@) is Some && !field_filtered(self@, field@)
                ==> r is Ok,
    {
        let found = find_field_index(&self.action.fields, field);
        let i = match found {
            None => {
                return Err(Error::new("Todo: Help."));
            },
            Some(i) => i,
        };
        let declared = &self.action.fields[i];
        let passed = match &declared.filter {
            Some(f) => f.accept(value),
            None => true,
        };
        if !passed {
            return Err(Error::new("Todo: Help."));
        }
        let ghost pre = self@;
        let title = declared.title.clone();
        let Request { action, arguments, mut fields, flags } = self;
        store_field_entry(&mut fields, title.as_str(), value);
        let r2 = Request { action, arguments, fields, flags };
        proof {
            assert(r2@ == spec_insert_field(pre, field@, value@)->Some_0);
        }
        Ok(r2)
    }

    /// Set the flag answering to the given key. Fails when no declared flag
    /// answers to it. Setting a flag that is already set keeps it set.
    pub fn insert_flag(self, flag: &str) -> (r: Result<Self, Error>)
        ensures
            match r {
                Ok(r2) => spec_insert_flag(self@, flag@) matches Some(m) && r2@ == m,
                Err(e) => spec_insert_flag(self@, flag@) is None && e.message@ == "Todo: Help."@,
            },
    {
        let found = find_flag_index(&self.action.flags, flag);
        let i = match found {
            None => {
                return Err(Error::new("Todo: Help."));
            },
            Some(i) => i,
        };
        let ghost pre = self@;
        let title = self.action.flags[i].title.clone();
        let Request { action, arguments, fields, mut flags } = self;
        store_flag_entry(&mut flags, title.as_str());
        let r2 = Request { action, arguments, fields, flags };
        proof {
            assert(r2@ == spec_insert_flag(pre, flag@)->Some_0);
        }
        Ok(r2)
    }

    /// Run the bound action's callback, consuming this Request.
    pub fn run(self) -> (r: Result<T, Error>)
        ensures
            match r {
                Ok(_) => self.action.callback is Some,
                Err(e) => (self.action.callback is None && e.message@ == "Todo: Help."@),
            },
    {
        let action = self.action;
        action.run(self)
    }

    /// Validate the Request: the number of collected argument values must
    /// equal the action's declared argument count.
    pub fn validate(&self) -> (r: bool)
        ensures
            r == (self@.arguments.len() == self.action.arguments@.len()),
    {
        self.arguments.len() == self.action.arguments.len()
    }
}

/// Overwrite the first field slot with the given title, or append a new
/// slot when none exists.
fn store_field_entry(fields: &mut Vec<FieldEntry>, title: &str, value: &str)
    ensures
        field_entries_view(final(fields)@) == store_field(
            field_entries_view(old(fields)@),
            title@,
            value@,
        ),
{
    let ghost pre = field_entries_view(fields@);
    let n = fields.len();
    let mut j: usize = 0;
    while j < n
        invariant
            n == fields@.len(),
            j <= n,
            fields@ == old(fields)@,
            find_field_slot(pre, title@) == find_field_slot_from(pre, title@, j as int),
            pre == field_entries_view(fields@),
        decreases n - j,
    {
        if str_eq(fields[j].title.as_str(), title) {
            let _ = fields.remove(j);
            fields.insert(j, FieldEntry { title: title.to_owned(), value: Some(value.to_owned()) });
            proof {
                assert(find_field_slot(pre, title@) == Some(j as int));
                assert(field_entries_view(fields@) =~= pre.update(
                    j as int,
                    FieldState { title: title@, value: Some(value@) },
                ));
            }
            return ;
        }
        j = j + 1;
    }
    fields.push(FieldEntry { title: title.to_owned(), value: Some(value.to_owned()) });
    proof {
        assert(find_field_slot(pre, title@) is None);
        assert(field_entries_view(fields@) =~= pre.push(
            FieldState { title: title@, value: Some(value@) },
        ));
    }
}

/// Set the first flag slot with the given title, or append a new, set slot
/// when none exists.
fn store_flag_entry(flags: &mut Vec<FlagEntry>, title: &str)
    ensures
        flag_entries_view(final(flags)@) == store_flag(flag_entries_view(old(flags)@), title@),
{
    let ghost pre = flag_entries_view(flags@);
    let n = flags.len();
    let mut j: usize = 0;
    while j < n
        invariant
            n == flags@.len(),
            j <= n,
            flags@ == old(flags)@,
            find_flag_slot(pre, title@) == find_flag_slot_from(pre, title@, j as int),
            pre == flag_entries_view(flags@),
        decreases n - j,
    {
        if str_eq(flags[j].title.as_str(), title) {
            let _ = flags.remove(j);
            flags.insert(j, FlagEntry { title: title.to_owned(), value: true });
            proof {
                assert(find_flag_slot(pre, title@) == Some(j as int));
                assert(flag_entries_view(flags@) =~= pre.update(
                    j as int,
                    FlagState { title: title@, value: true },
                ));
            }
            return ;
        }
        j = j + 1;
    }
    flags.push(FlagEntry { title: title.to_owned(), value: true });
    proof {
        assert(find_flag_slot(pre, title@) is None);
        assert(flag_entries_view(flags@) =~= pre.push(FlagState { title: title@, value: true }));
    }
}

/// Compare two owned token lists by contents.
fn vec_string_eq(a: &Vec<String>, b: &Vec<String>) -> (r: bool)
    ensures
        r == (a@.map_values(|s: String| s@) == b@.map_values(|s: String| s@)),
{
    let ghost av = a@.map_values(|s: String| s@);
    let ghost bv = b@.map_values(|s: String| s@);
    if a.len() != b.len() {
        proof {
            assert(av.len() != bv.len());
        }
        return false;
    }
    let n = a.len();
    let mut i: usize = 0;
    while i < n
        invariant
            n == a@.len() == b@.len(),
            i <= n,
            av == a@.map_values(|s: String| s@),
            bv == b@.map_values(|s: String| s@),
            forall|j: int| 0 <= j < i ==> av[j] == bv[j],
        decreases n - i,
    {
        if !str_eq(a[i].as_str(), b[i].as_str()) {
            proof {
                assert(av[i as int] != bv[i as int]);
            }
            return false;
        }
        i = i + 1;
    }
    proof {
        assert(av =~= bv);
    }
    true
}

/// Compare two field slot lists by contents.
fn field_entries_eq(a: &Vec<FieldEntry>, b: &Vec<FieldEntry>) -> (r: bool)
    ensures
        r == (field_entries_view(a@) == field_entries_view(b@)),
{
    let ghost av = field_entries_view(a@);
    let ghost bv = field_entries_view(b@);
    if a.len() != b.len() {
        proof {
            assert(av.len() != bv.len());
        }
        return false;
    }
    let n = a.len();
    let mut i: usize = 0;
    while i < n
        invariant
            n == a@.len() == b@.len(),
            i <= n,
            av == field_entries_view(a@),
            bv == field_entries_view(b@),
            forall|j: int| 0 <= j < i ==> av[j] == bv[j],
        decreases n - i,
    {
        let same = str_eq(a[i].title.as_str(), b[i].title.as_str()) && crate::text::opt_str_eq(
            &a[i].value,
            &b[i].value,
        );
        if !same {
            proof {
                assert(av[i as int] != bv[i as int]);
            }
            return false;
        }
        i = i + 1;
    }
    proof {
        assert(av =~= bv);
    }
    true
}

/// Compare two flag slot lists by contents.
fn flag_entries_eq(a: &Vec<FlagEntry>, b: &Vec<FlagEntry>) -> (r: bool)
    ensures
        r == (flag_entries_view(a@) == flag_entries_view(b@)),
{
    let ghost av = flag_entries_view(a@);
    let ghost bv = flag_entries_view(b@);
    if a.len() != b.len() {
        proof {
            assert(av.len() != bv.len());
        }
        return false;
    }
    let n = a.len();
    let mut i: usize = 0;
    while i < n
        invariant
            n == a@.len() == b@.len(),
            i <= n,
            av == flag_entries_view(a@),
            bv == flag_entries_view(b@),
            forall|j: int| 0 <= j < i ==> av[j] == bv[j],
        decreases n - i,
    {
        let same = str_eq(a[i].title.as_str(), b[i].title.as_str()) && a[i].value == b[i].value;
        if !same {
            proof {
                assert(av[i as int] != bv[i as int]);
            }
            return false;
        }
        i = i + 1;
    }
    proof {
        assert(av =~= bv);
    }
    true
}

impl<'a, T> PartialEq for Request<'a, T> {
    fn eq(&self, other: &Self) -> bool {
        str_eq(self.action.keyword.as_str(), other.action.keyword.as_str())
            && crate::text::opt_str_eq(&self.action.description, &other.action.description)
            && vec_string_eq(&self.arguments, &other.arguments) && field_entries_eq(
            &self.fields,
            &other.fields,
        ) && flag_entries_eq(&self.flags, &other.flags)
    }
}

impl<'a, T> vstd::std_specs::cmp::PartialEqSpecImpl for Request<'a, T> {
    open spec fn obeys_eq_spec() -> bool {
        true
    }

    open spec fn eq_spec(&self, other: &Self) -> bool {
        self.action.keyword@ == other.action.keyword@ && opt_view(self.action.description)
            == opt_view(other.action.description) && self@.arguments == other@.arguments
            && self@.fields == other@.fields && self@.flags == other@.flags
    }
}

/// A successful slot search lands in range, on a slot with the title.
proof fn lemma_find_flag_slot_bounds(f: Seq<FlagState>, t: Seq<char>, k: int)
    requires
        0 <= k <= f.len(),
    ensures
        find_flag_slot_from(f, t, k) matches Some(j) ==> k <= j < f.len() && f[j].title == t,
    decreases f.len() - k,
{
    if k < f.len() && f[k].title != t {
        lemma_find_flag_slot_bounds(f, t, k + 1);
    }
}

/// A slot search in an updated sequence still lands on the updated slot,
/// when the update stands where the search first hit.
proof fn lemma_find_flag_slot_update(f: Seq<FlagState>, t: Seq<char>, j: int, e: FlagState, k: int)
    requires
        0 <= k <= f.len(),
        find_flag_slot_from(f, t, k) == Some(j),
        e.title == t,
    ensures
        find_flag_slot_from(f.update(j, e), t, k) == Some(j),
    decreases f.len() - k,
{
    assert(k < f.len());
    lemma_find_flag_slot_bounds(f, t, k);
    if f[k].title == t {
        assert(j == k);
        assert(f.update(j, e)[k].title == t);
    } else {
        assert(f.update(j, e)[k] == f[k]);
        lemma_find_flag_slot_update(f, t, j, e, k + 1);
    }
}

/// A slot search that failed finds exactly a slot pushed at the end.
proof fn lemma_find_flag_slot_push(f: Seq<FlagState>, t: Seq<char>, e: FlagState, k: int)
    requires
        0 <= k <= f.len(),
        find_flag_slot_from(f, t, k) is None,
        e.title == t,
    ensures
        find_flag_slot_from(f.push(e), t, k) == Some(f.len() as int),
    decreases f.len() - k,
{
    if k < f.len() {
        lemma_find_flag_slot_push(f, t, e, k + 1);
    } else {
        assert(f.push(e)[k] == e);
    }
}

/// Setting a flag title twice is the same as setting it once.
proof fn lemma_store_flag_idempotent(f: Seq<FlagState>, t: Seq<char>)
    ensures
        store_flag(store_flag(f, t), t) == store_flag(f, t),
{
    let e = FlagState { title: t, value: true };
    lemma_find_flag_slot_bounds(f, t, 0);
    match find_flag_slot(f, t) {
        Some(j) => {
            let f2 = f.update(j, e);
            lemma_find_flag_slot_update(f, t, j, e, 0);
            assert(find_flag_slot(f2, t) == Some(j));
            assert(f2.update(j, e) =~= f2);
        },
        None => {
            let f2 = f.push(e);
            lemma_find_flag_slot_push(f, t, e, 0);
            assert(find_flag_slot(f2, t) == Some(f.len() as int));
            assert(f2.update(f.len() as int, e) =~= f2);
        },
    }
}

/// Setting the same flag twice leaves the request exactly as setting it
/// once did, and the second setting never fails.
pub proof fn lemma_insert_flag_idempotent<T>(s: ReqState<T>, m: ReqState<T>, key: Seq<char>)
    requires
        spec_insert_flag(s, key) == Some(m),
    ensures
        spec_insert_flag(m, key) == Some(m),
{
    let flags = s.action.flags@;
    let i = find_flag(flags, key)->Some_0;
    assert(m.action == s.action);
    lemma_store_flag_idempotent(s.flags, flags[i].title@);
}

} // verus!
