//! Tests for Action, Argument, Field and Flag construction and insertion.

use cherry::{Action, Argument, Error, Field, Flag, Handler, Payload, Request, Validator};

struct EqHello;

impl Validator for EqHello {
    fn accept(&self, value: &str) -> bool {
        value == "Hello"
    }
}

struct ReturnOne;

impl Handler<u8> for ReturnOne {
    fn handle(&self, _payload: Payload) -> u8 {
        1_u8
    }
}

struct ReturnTwo;

impl Handler<u8> for ReturnTwo {
    fn handle(&self, _payload: Payload) -> u8 {
        2_u8
    }
}

struct SayHello;

impl Handler<()> for SayHello {
    fn handle(&self, _payload: Payload) {
        println!("Hello World!");
    }
}

/// Action::new must create an empty schema under the keyword.
#[test]
fn action_new() {
    let actual = Action::<()>::new("my_action").unwrap();
    assert!(
        actual.keyword == "my_action"
            && actual.description.is_none()
            && actual.arguments.is_empty()
            && actual.fields.is_empty()
            && actual.flags.is_empty()
            && actual.children.is_empty()
            && actual.callback.is_none()
    );
}

/// Action::new must error on empty keyword.
#[test]
fn action_new_empty() {
    let expected = Error::new("Action must have a non-empty keyword.");
    let actual = Action::<()>::new("");
    assert_eq!(expected, actual.err().unwrap());
}

/// Action::description must correctly set the description.
#[test]
fn action_description() {
    let action = Action::<()>::new("my_action")
        .unwrap()
        .description("My description.");
    assert_eq!(Some(String::from("My description.")), action.description);
}

/// Action::insert_argument must insert an Argument.
#[test]
fn action_insert_argument() {
    let actual = Action::<()>::new("my_action")
        .unwrap()
        .insert_argument(Argument::new("my_argument").unwrap())
        .unwrap();
    assert!(actual.arguments.len() == 1 && actual.arguments[0].title == "my_argument");
}

/// Action::insert_argument must error with empty Argument title.
#[test]
fn action_insert_argument_empty() {
    let expected = Error::new("Argument must have a non-empty title.");
    let action = Action::<()>::new("my_action").unwrap();
    let mut argument = Argument::new("my_argument").unwrap();
    argument.title = String::from("");
    let actual = action.insert_argument(argument);
    assert_eq!(expected, actual.err().unwrap());
}

/// Action::insert_field must insert a Field.
#[test]
fn action_insert_field() {
    let actual = Action::<()>::new("my_action")
        .unwrap()
        .insert_field(Field::new("my_field").unwrap())
        .unwrap();
    assert!(actual.fields.len() == 1 && actual.fields[0].title == "my_field");
}

/// Action::insert_field must error with empty Field title.
#[test]
fn action_insert_field_empty() {
    let expected = Error::new("Field must have a non-empty title.");
    let action = Action::<()>::new("my_action").unwrap();
    let mut field = Field::new("my_field").unwrap();
    field.title = String::from("");
    let actual = action.insert_field(field);
    assert_eq!(expected, actual.err().unwrap());
}

/// Action::insert_field must error on a Field collision.
#[test]
fn action_insert_field_collide_field() {
    let expected = Error::new("Action 'my_action' already contains a Field 'my_field'.");
    let actual = Action::<()>::new("my_action")
        .unwrap()
        .insert_field(Field::new("my_field").unwrap())
        .unwrap()
        .insert_field(Field::new("my_field").unwrap())
        .err()
        .unwrap();
    assert_eq!(expected, actual);
}

/// Action::insert_field must error on a Field short collision.
#[test]
fn action_insert_field_collide_field_short() {
    let expected = Error::new("Action 'my_action' already contains a Field with short tag 'm'.");
    let actual = Action::<()>::new("my_action")
        .unwrap()
        .insert_field(Field::new("my_field").unwrap().short('m'))
        .unwrap()
        .insert_field(Field::new("another_field").unwrap().short('m'))
        .err()
        .unwrap();
    assert_eq!(expected, actual);
}

/// Action::insert_field must error on a Flag collision.
#[test]
fn action_insert_field_collide_flag() {
    let expected = Error::new("Action 'my_action' already contains a Flag 'collide'.");
    let actual = Action::<()>::new("my_action")
        .unwrap()
        .insert_flag(Flag::new("collide").unwrap())
        .unwrap()
        .insert_field(Field::new("collide").unwrap())
        .err()
        .unwrap();
    assert_eq!(expected, actual);
}

/// Action::insert_field must error on a Flag short collision.
#[test]
fn action_insert_field_collide_flag_short() {
    let expected = Error::new("Action 'my_action' already contains a Flag with short tag 'm'.");
    let actual = Action::<()>::new("my_action")
        .unwrap()
        .insert_flag(Flag::new("my_flag").unwrap().short('m'))
        .unwrap()
        .insert_field(Field::new("my_field").unwrap().short('m'))
        .err()
        .unwrap();
    assert_eq!(expected, actual);
}

/// Action::insert_flag must insert a Flag.
#[test]
fn action_insert_flag() {
    let actual = Action::<()>::new("my_action")
        .unwrap()
        .insert_flag(Flag::new("my_flag").unwrap())
        .unwrap();
    assert!(actual.flags.len() == 1 && actual.flags[0].title == "my_flag");
}

/// Action::insert_flag must error with empty Flag title.
#[test]
fn action_insert_flag_empty() {
    let expected = Error::new("Flag must have a non-empty title.");
    let action = Action::<()>::new("my_action").unwrap();
    let mut flag = Flag::new("my_flag").unwrap();
    flag.title = String::from("");
    let actual = action.insert_flag(flag);
    assert_eq!(expected, actual.err().unwrap());
}

/// Action::insert_flag must error on a Flag collision.
#[test]
fn action_insert_flag_collide_flag() {
    let expected = Error::new("Action 'my_action' already contains a Flag 'my_flag'.");
    let actual = Action::<()>::new("my_action")
        .unwrap()
        .insert_flag(Flag::new("my_flag").unwrap())
        .unwrap()
        .insert_flag(Flag::new("my_flag").unwrap())
        .err()
        .unwrap();
    assert_eq!(expected, actual);
}

/// Action::insert_flag must error on a Flag short collision.
#[test]
fn action_insert_flag_collide_flag_short() {
    let expected = Error::new("Action 'my_action' already contains a Flag with short tag 'm'.");
    let actual = Action::<()>::new("my_action")
        .unwrap()
        .insert_flag(Flag::new("my_flag").unwrap().short('m'))
        .unwrap()
        .insert_flag(Flag::new("another_flag").unwrap().short('m'))
        .err()
        .unwrap();
    assert_eq!(expected, actual);
}

/// Action::insert_flag must error on a Field collision.
#[test]
fn action_insert_flag_collide_field() {
    let expected = Error::new("Action 'my_action' already contains a Field 'collide'.");
    let actual = Action::<()>::new("my_action")
        .unwrap()
        .insert_field(Field::new("collide").unwrap())
        .unwrap()
        .insert_flag(Flag::new("collide").unwrap())
        .err()
        .unwrap();
    assert_eq!(expected, actual);
}

/// Action::insert_flag must error on a Field short collision.
#[test]
fn action_insert_flag_collide_field_short() {
    let expected = Error::new("Action 'my_action' already contains a Field with short tag 'm'.");
    let actual = Action::<()>::new("my_action")
        .unwrap()
        .insert_field(Field::new("my_field").unwrap().short('m'))
        .unwrap()
        .insert_flag(Flag::new("my_flag").unwrap().short('m'))
        .err()
        .unwrap();
    assert_eq!(expected, actual);
}

/// Action::run must correctly run the callback.
#[test]
fn action_run() {
    let action = Action::new("my_action").unwrap().callback(Box::new(ReturnOne));
    let request = Request::new(&action);
    assert_eq!(1, action.run(request).unwrap());
}

/// Action::run must error on a reference mismatch.
#[test]
fn action_run_reference_mismatch() {
    let action = Action::new("my_action").unwrap().callback(Box::new(ReturnOne));
    let ref_action = Action::new("my_ref_action")
        .unwrap()
        .callback(Box::new(ReturnTwo));
    let request = Request::new(&ref_action);
    let error = Error::new("Cannot run request for action 'my_ref_action' on action 'my_action'.");
    assert_eq!(error, action.run(request).err().unwrap());
}

/// Action::run must error when no callback is set.
#[test]
fn action_run_missing_then() {
    let action = Action::<()>::new("my_action").unwrap();
    let request = Request::new(&action);
    let error = Error::new("Todo: Help.");
    assert_eq!(error, action.run(request).err().unwrap());
}

/// Action::callback must correctly set the callback from a unit struct.
#[test]
fn action_then_closure() {
    let action = Action::new("my_action").unwrap().callback(Box::new(SayHello));
    assert!(action.callback.is_some());
}

/// Action::callback must correctly set the callback from a named impl.
#[test]
fn action_then_method() {
    struct Callback;
    impl Handler<()> for Callback {
        fn handle(&self, _payload: Payload) {
            println!("Hello World!");
        }
    }
    let action = Action::new("my_action").unwrap().callback(Box::new(Callback));
    assert!(action.callback.is_some());
}

/// Argument::new must create an Argument with only the title set.
#[test]
fn argument_new() {
    let actual = Argument::new("Title").unwrap();
    assert!(
        actual.title == "Title" && actual.description.is_none() && actual.filter.is_none()
    );
}

/// Argument::new must error on empty title.
#[test]
fn argument_new_empty() {
    let expected = Error::new("Argument must have a non-empty title.");
    let actual = Argument::new("");
    assert_eq!(expected, actual.err().unwrap());
}

/// Argument::description must correctly set the description.
#[test]
fn argument_description() {
    let argument = Argument::new("my_argument")
        .unwrap()
        .description("My description.");
    assert_eq!(Some(String::from("My description.")), argument.description);
}

/// Argument::filter must correctly set the filter from a unit struct.
#[test]
fn argument_filter_closure() {
    let argument = Argument::new("my_argument")
        .unwrap()
        .filter(Box::new(EqHello));
    assert!(argument.filter.is_some());
}

/// Argument::filter must correctly set the filter from a named impl.
#[test]
fn argument_filter_method() {
    struct Callback;
    impl Validator for Callback {
        fn accept(&self, value: &str) -> bool {
            value == "Hello"
        }
    }
    let argument = Argument::new("my_argument")
        .unwrap()
        .filter(Box::new(Callback));
    assert!(argument.filter.is_some());
}

/// Field::new must create a Field with only the title set.
#[test]
fn field_new() {
    let actual = Field::new("Title").unwrap();
    assert!(
        actual.title == "Title"
            && actual.description.is_none()
            && actual.short.is_none()
            && actual.default.is_none()
            && actual.filter.is_none()
    );
}

/// Field::new must error on empty title.
#[test]
fn field_new_empty() {
    let expected = Error::new("Field must have a non-empty title.");
    let actual = Field::new("");
    assert_eq!(expected, actual.err().unwrap());
}

/// Field::description must correctly set the description.
#[test]
fn field_description() {
    let field = Field::new("my_field").unwrap().description("My description.");
    assert_eq!(Some(String::from("My description.")), field.description);
}

/// Field::short must correctly set the short.
#[test]
fn field_short() {
    let field = Field::new("my_field").unwrap().short('m');
    assert_eq!(Some('m'), field.short);
}

/// Field::default must correctly set the default.
#[test]
fn field_default() {
    let field = Field::new("my_field").unwrap().default("My default.");
    assert_eq!(Some(String::from("My default.")), field.default);
}

/// Field::filter must correctly set the filter from a unit struct.
#[test]
fn field_filter_closure() {
    let field = Field::new("my_field").unwrap().filter(Box::new(EqHello));
    assert!(field.filter.is_some());
}

/// Field::filter must correctly set the filter from a named impl.
#[test]
fn field_filter_method() {
    struct Callback;
    impl Validator for Callback {
        fn accept(&self, value: &str) -> bool {
            value == "Hello"
        }
    }
    let field = Field::new("my_field").unwrap().filter(Box::new(Callback));
    assert!(field.filter.is_some());
}

/// Flag::new must create a Flag with only the title set.
#[test]
fn flag_new() {
    let actual = Flag::new("verbose").unwrap();
    assert!(actual.title == "verbose" && actual.description.is_none() && actual.short.is_none());
}

/// Flag::new must error on empty title.
#[test]
fn flag_new_empty() {
    let expected = Error::new("Flag must have a non-empty title.");
    let actual = Flag::new("");
    assert_eq!(expected, actual.err().unwrap());
}

/// Flag::description must correctly set the description.
#[test]
fn flag_description() {
    let flag = Flag::new("verbose").unwrap().description("My description.");
    assert_eq!(Some(String::from("My description.")), flag.description);
}

/// Flag::short must correctly set the short tag.
#[test]
fn flag_short() {
    let flag = Flag::new("verbose").unwrap().short('v');
    assert_eq!(Some('v'), flag.short);
}
