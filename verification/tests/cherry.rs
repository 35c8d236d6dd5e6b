//! Tests for the Cherry registry: insertion and the three parse fronts.

use cherry::{Action, Argument, Cherry, Error, Field, Flag, Request};

/// Cherry::new must create an empty registry.
#[test]
fn cherry_new() {
    let expected = Cherry { actions: Vec::new() };
    let actual = Cherry::<()>::new();
    assert!(expected == actual);
}

/// Cherry::default must create an empty registry, as new does.
#[test]
fn cherry_default() {
    let expected = Cherry { actions: Vec::new() };
    let actual = Cherry::<()>::default();
    assert!(expected == actual);
}

/// Cherry::parse must correctly parse a Request.
#[test]
fn cherry_parse() {
    let cherry = Cherry::<()>::new()
        .insert(Action::new("my_action").unwrap())
        .unwrap();

    let expected = Request::new(&cherry.actions[0]);
    let actual = cherry.parse(&[String::from("my_action")]).unwrap();

    assert!(expected == actual);
}

/// Cherry::parse must correctly parse a Request with escapes.
#[test]
fn cherry_parse_escapes() {
    let cherry = Cherry::<()>::new()
        .insert(Action::new("action \'\"-\\").unwrap())
        .unwrap();

    let expected = Request::new(&cherry.actions[0]);
    let actual = cherry
        .parse(&[String::from("action \\\'\\\"\\-\\\\")])
        .unwrap();

    assert!(expected == actual);
}

/// Cherry::parse must error when no Actions exist.
#[test]
fn cherry_parse_empty_actions() {
    let expected = Error::new("Todo: Help.");
    let actual = Cherry::<()>::new()
        .parse(&[String::from("my_action")])
        .err()
        .unwrap();

    assert_eq!(expected, actual);
}

/// Cherry::parse must error when no command is provided.
#[test]
fn cherry_parse_empty_command() {
    let args: [String; 0] = [];
    let expected = Error::new("Todo: Help.");
    let actual = Cherry::<()>::new()
        .insert(Action::new("my_action").unwrap())
        .unwrap()
        .parse(&args)
        .err()
        .unwrap();

    assert_eq!(expected, actual);
}

/// Cherry::parse must correctly parse a child Action.
#[test]
fn cherry_parse_child_action() {
    let cherry = Cherry::<()>::new()
        .insert(
            Action::new("action")
                .unwrap()
                .insert_child(Action::new("child").unwrap())
                .unwrap(),
        )
        .unwrap();

    let expected = Request::new(cherry.actions[0].get_child("child").unwrap());
    let actual = cherry
        .parse(&[String::from("action"), String::from("child")])
        .unwrap();

    assert!(expected == actual);
}

/// Cherry::parse must correctly parse a missing child Action.
#[test]
fn cherry_parse_child_action_missing() {
    let cherry = Cherry::<()>::new()
        .insert(
            Action::new("action")
                .unwrap()
                .insert_child(Action::new("child").unwrap())
                .unwrap()
                .insert_argument(Argument::new("one").unwrap())
                .unwrap(),
        )
        .unwrap();

    let expected = Request::new(&cherry.actions[0])
        .insert_argument("not_child")
        .unwrap();
    let actual = cherry
        .parse(&[String::from("action"), String::from("not_child")])
        .unwrap();

    assert!(expected == actual);
}

/// Cherry::parse must treat a late child keyword as an argument.
#[test]
fn cherry_parse_child_action_late() {
    let cherry = Cherry::<()>::new()
        .insert(
            Action::new("action")
                .unwrap()
                .insert_child(Action::new("child").unwrap())
                .unwrap()
                .insert_argument(Argument::new("one").unwrap())
                .unwrap()
                .insert_argument(Argument::new("two").unwrap())
                .unwrap(),
        )
        .unwrap();

    let expected = Request::new(&cherry.actions[0])
        .insert_argument("one")
        .unwrap()
        .insert_argument("child")
        .unwrap();
    let actual = cherry
        .parse(&[
            String::from("action"),
            String::from("one"),
            String::from("child"),
        ])
        .unwrap();

    assert!(expected == actual);
}

/// Cherry::parse must correctly parse Arguments.
#[test]
fn cherry_parse_argument() {
    let cherry = Cherry::<()>::new()
        .insert(
            Action::new("my_action")
                .unwrap()
                .insert_argument(Argument::new("my_argument").unwrap())
                .unwrap(),
        )
        .unwrap();

    let expected = Request::new(&cherry.actions[0])
        .insert_argument("first")
        .unwrap();
    let actual = cherry
        .parse(&[String::from("my_action"), String::from("first")])
        .unwrap();

    assert!(expected == actual);
}

/// Cherry::parse must handle Arguments after Flags.
#[test]
fn cherry_parse_argument_late() {
    let cherry = Cherry::<()>::new()
        .insert(
            Action::new("my_action")
                .unwrap()
                .insert_argument(Argument::new("my_argument").unwrap())
                .unwrap()
                .insert_flag(Flag::new("my_flag").unwrap())
                .unwrap(),
        )
        .unwrap();

    let expected = Request::new(&cherry.actions[0])
        .insert_argument("value")
        .unwrap()
        .insert_flag("my_flag")
        .unwrap();
    let actual = cherry
        .parse(&[
            String::from("my_action"),
            String::from("--my_flag"),
            String::from("value"),
        ])
        .unwrap();

    assert!(expected == actual);
}

/// Cherry::parse must error if too many Arguments are supplied.
#[test]
fn cherry_parse_argument_overflow() {
    let cherry = Cherry::<()>::new()
        .insert(
            Action::new("my_action")
                .unwrap()
                .insert_argument(Argument::new("my_argument").unwrap())
                .unwrap(),
        )
        .unwrap();

    let expected = Error::new("Todo: Help.");
    let actual = cherry
        .parse(&[
            String::from("my_action"),
            String::from("first"),
            String::from("second"),
        ])
        .err()
        .unwrap();

    assert_eq!(expected, actual);
}

/// Cherry::parse must error if too few Arguments are supplied.
#[test]
fn cherry_parse_argument_underflow() {
    let cherry = Cherry::<()>::new()
        .insert(
            Action::new("my_action")
                .unwrap()
                .insert_argument(Argument::new("my_argument").unwrap())
                .unwrap(),
        )
        .unwrap();

    let expected = Error::new("Todo: Help.");
    let actual = cherry.parse(&[String::from("my_action")]).err().unwrap();

    assert_eq!(expected, actual);
}

/// Cherry::parse must correctly parse Fields.
#[test]
fn cherry_parse_field() {
    let cherry = Cherry::<()>::new()
        .insert(
            Action::new("my_action")
                .unwrap()
                .insert_field(Field::new("my_field").unwrap())
                .unwrap(),
        )
        .unwrap();

    let expected = Request::new(&cherry.actions[0])
        .insert_field("my_field", "value")
        .unwrap();
    let actual = cherry
        .parse(&[
            String::from("my_action"),
            String::from("--my_field"),
            String::from("value"),
        ])
        .unwrap();

    assert!(expected == actual);
}

/// Cherry::parse must correctly parse short Fields.
#[test]
fn cherry_parse_field_short() {
    let cherry = Cherry::<()>::new()
        .insert(
            Action::new("my_action")
                .unwrap()
                .insert_field(Field::new("my_field").unwrap().short('m'))
                .unwrap(),
        )
        .unwrap();

    let expected = Request::new(&cherry.actions[0])
        .insert_field("my_field", "value")
        .unwrap();
    let actual = cherry
        .parse(&[
            String::from("my_action"),
            String::from("-m"),
            String::from("value"),
        ])
        .unwrap();

    assert!(expected == actual);
}

/// Cherry::parse must error if no Field value is supplied.
#[test]
fn cherry_parse_field_no_value_none() {
    let cherry = Cherry::<()>::new()
        .insert(
            Action::new("my_action")
                .unwrap()
                .insert_field(Field::new("my_field").unwrap())
                .unwrap(),
        )
        .unwrap();

    let expected = Error::new("Todo: Help.");
    let actual = cherry
        .parse(&[String::from("my_action"), String::from("--my_field")])
        .err()
        .unwrap();

    assert_eq!(expected, actual);
}

/// Cherry::parse must correctly parse Flags.
#[test]
fn cherry_parse_flag() {
    let cherry = Cherry::<()>::new()
        .insert(
            Action::new("my_action")
                .unwrap()
                .insert_flag(Flag::new("my_flag").unwrap())
                .unwrap(),
        )
        .unwrap();

    let expected = Request::new(&cherry.actions[0])
        .insert_flag("my_flag")
        .unwrap();
    let actual = cherry
        .parse(&[String::from("my_action"), String::from("--my_flag")])
        .unwrap();

    assert!(expected == actual);
}

/// Cherry::parse must correctly parse short Flags.
#[test]
fn cherry_parse_flag_short() {
    let cherry = Cherry::<()>::new()
        .insert(
            Action::new("my_action")
                .unwrap()
                .insert_flag(Flag::new("my_flag").unwrap().short('m'))
                .unwrap(),
        )
        .unwrap();

    let expected = Request::new(&cherry.actions[0])
        .insert_flag("my_flag")
        .unwrap();
    let actual = cherry
        .parse(&[String::from("my_action"), String::from("-m")])
        .unwrap();

    assert!(expected == actual);
}

/// Cherry::parse must correctly parse combined short Flags.
#[test]
fn cherry_parse_flag_short_combined() {
    let cherry = Cherry::<()>::new()
        .insert(
            Action::new("my_action")
                .unwrap()
                .insert_flag(Flag::new("first").unwrap().short('a'))
                .unwrap()
                .insert_flag(Flag::new("second").unwrap().short('b'))
                .unwrap()
                .insert_flag(Flag::new("third").unwrap().short('c'))
                .unwrap(),
        )
        .unwrap();

    let expected = Request::new(&cherry.actions[0])
        .insert_flag("first")
        .unwrap()
        .insert_flag("third")
        .unwrap();
    let actual = cherry
        .parse(&[String::from("my_action"), String::from("-ac")])
        .unwrap();

    assert!(expected == actual);
}

/// Cherry::parse must error if the Flag is not found.
#[test]
fn cherry_parse_flag_not_found() {
    let cherry = Cherry::<()>::new()
        .insert(
            Action::new("my_action")
                .unwrap()
                .insert_flag(Flag::new("my_flag").unwrap().short('a'))
                .unwrap(),
        )
        .unwrap();

    let expected = Error::new("Todo: Help.");
    let actual = cherry
        .parse(&[String::from("my_action"), String::from("--not_my_flag")])
        .err()
        .unwrap();

    assert_eq!(expected, actual);
}

/// Cherry::parse_slice must correctly parse a Request.
#[test]
fn cherry_parse_slice() {
    let cherry = Cherry::<()>::new()
        .insert(Action::new("my_action").unwrap())
        .unwrap();

    let expected = Request::new(&cherry.actions[0]);
    let actual = cherry.parse_slice(&["my_action"]).unwrap();

    assert!(expected == actual);
}

/// Cherry::parse_slice must correctly parse a Request with escapes.
#[test]
fn cherry_parse_slice_escapes() {
    let cherry = Cherry::<()>::new()
        .insert(Action::new("action \'\"-\\").unwrap())
        .unwrap();

    let expected = Request::new(&cherry.actions[0]);
    let actual = cherry.parse_slice(&["action \\\'\\\"\\-\\\\"]).unwrap();

    assert!(expected == actual);
}

/// Cherry::parse_slice must error when no command is provided.
#[test]
fn cherry_parse_slice_empty_command() {
    let expected = Error::new("Todo: Help.");
    let actual = Cherry::<()>::new()
        .insert(Action::new("my_action").unwrap())
        .unwrap()
        .parse_slice(&[""])
        .err()
        .unwrap();

    assert_eq!(expected, actual);
}

/// Cherry::parse_str must correctly parse a Request.
#[test]
fn cherry_parse_str() {
    let cherry = Cherry::<()>::new()
        .insert(Action::new("my_action").unwrap())
        .unwrap();

    let expected = Request::new(&cherry.actions[0]);
    let actual = cherry.parse_str("my_action").unwrap();

    assert!(expected == actual);
}

/// Cherry::parse_str must handle whitespace within quotes.
#[test]
fn cherry_parse_str_quoted() {
    let cherry = Cherry::<()>::new()
        .insert(Action::new("my action").unwrap())
        .unwrap();

    let expected = Request::new(&cherry.actions[0]);
    let actual = cherry.parse_str("'my action'").unwrap();

    assert!(expected == actual);
}

/// Cherry::parse_str must handle internal quotes of the other style.
#[test]
fn cherry_parse_str_internal_quotes() {
    let cherry = Cherry::<()>::new()
        .insert(Action::new("my 'action'").unwrap())
        .unwrap();

    let expected = Request::new(&cherry.actions[0]);
    let actual = cherry.parse_str("\"my 'action'\"").unwrap();

    assert!(expected == actual);
}

/// Cherry::parse_str must handle internal matching quotes when escaped.
#[test]
fn cherry_parse_str_internal_match_quotes() {
    let cherry = Cherry::<()>::new()
        .insert(Action::new("my \"action\"").unwrap())
        .unwrap();

    let expected = Request::new(&cherry.actions[0]);
    let actual = cherry.parse_str("\"my \\\"action\\\"\"").unwrap();

    assert!(expected == actual);
}

/// Cherry::parse_str must correctly parse a Request with escapes.
#[test]
fn cherry_parse_str_escapes() {
    let cherry = Cherry::<()>::new()
        .insert(Action::new("action \'\"-\\").unwrap())
        .unwrap();

    let expected = Request::new(&cherry.actions[0]);
    let actual = cherry.parse_str("\"action \\\'\\\"\\-\\\\\"").unwrap();

    assert!(expected == actual);
}

/// Cherry::parse_str must error when no command is provided.
#[test]
fn cherry_parse_str_empty_command() {
    let expected = Error::new("Todo: Help.");
    let actual = Cherry::<()>::new()
        .insert(Action::new("my_action").unwrap())
        .unwrap()
        .parse_str("")
        .err()
        .unwrap();

    assert_eq!(expected, actual);
}

/// Cherry::parse_str must error when a closing quote abuts a value.
#[test]
fn cherry_parse_str_invalid_quotes() {
    let cherry = Cherry::<()>::new()
        .insert(
            Action::new("my action")
                .unwrap()
                .insert_argument(Argument::new("argument").unwrap())
                .unwrap(),
        )
        .unwrap();

    let expected = Error::new("Todo: Help.");
    let actual = cherry.parse_str("'my action'value").err().unwrap();

    assert_eq!(expected, actual);
}

/// Cherry::insert must insert an Action under its keyword.
#[test]
fn cherry_insert() {
    let actual = Cherry::new()
        .insert(Action::<()>::new("my_action").unwrap())
        .unwrap();

    assert!(actual.actions.len() == 1 && actual.actions[0].keyword == "my_action");
}

/// Cherry::insert must error with an empty Action keyword.
#[test]
fn cherry_insert_empty() {
    let expected = Error::new("Action must have a non-empty keyword.");

    let cherry = Cherry::<()>::new();
    let mut action = Action::new("action").unwrap();
    action.keyword = String::from("");
    let actual = cherry.insert(action);

    assert_eq!(expected, actual.err().unwrap());
}

/// Cherry::insert must error when a keyword collision occurs.
#[test]
fn cherry_insert_collision() {
    let expected = Error::new("Action \'my_action\' already exists.");
    let cherry = Cherry::<()>::new();
    let actual = cherry
        .insert(Action::new("my_action").unwrap())
        .unwrap()
        .insert(Action::new("my_action").unwrap())
        .err()
        .unwrap();

    assert_eq!(expected, actual);
}
