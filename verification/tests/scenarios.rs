//! End-to-end scenarios: whole-schema parses, escaping round trips,
//! repeated flags, collision symmetry and child-path greediness.

use cherry::validate::is_integer;
use cherry::{escape, unescape, Action, Argument, Cherry, Error, Field, Flag, Handler, Payload};

/// A resolved request holds exactly as many argument values as the schema
/// declares: `deploy staging` yields the one argument `staging`.
#[test]
fn resolve_argument_count_matches_schema() {
    let cherry = Cherry::<()>::new()
        .insert(
            Action::new("deploy")
                .unwrap()
                .insert_argument(Argument::new("target").unwrap())
                .unwrap(),
        )
        .unwrap();

    let request = cherry.parse_str("deploy staging").unwrap();
    assert!(
        request.validate()
            && request.arguments.len() == 1
            && request.get_argument(0).unwrap() == "staging"
    );
}

/// Escaping and then unescaping the four special characters is the
/// identity.
#[test]
fn escape_unescape_round_trip() {
    let token = "'\"-\\";
    let escaped = escape(token);
    assert!(escaped == "\\'\\\"\\-\\\\" && unescape(escaped.as_str()) == token);
}

/// Unescaping rewrites exactly the four pairs; any other backslash pair
/// passes through unchanged.
#[test]
fn unescape_leaves_other_pairs() {
    assert!(unescape("\\'\\\"\\-\\\\") == "'\"-\\" && unescape("\\x\\n") == "\\x\\n");
}

/// Setting the same flag twice leaves it true and never errors.
#[test]
fn repeated_flag_stays_true() {
    let cherry = Cherry::<()>::new()
        .insert(
            Action::new("run")
                .unwrap()
                .insert_flag(Flag::new("verbose").unwrap())
                .unwrap(),
        )
        .unwrap();

    let request = cherry
        .parse(&[
            String::from("run"),
            String::from("--verbose"),
            String::from("--verbose"),
        ])
        .unwrap();
    assert_eq!(Some(&true), request.get_flag("verbose"));
}

/// A Field whose short matches an existing Flag's short always collides,
/// in either insertion order.
#[test]
fn short_collision_is_symmetric() {
    let flag_first = Action::<()>::new("a")
        .unwrap()
        .insert_flag(Flag::new("force").unwrap().short('x'))
        .unwrap()
        .insert_field(Field::new("extra").unwrap().short('x'));
    let field_first = Action::<()>::new("a")
        .unwrap()
        .insert_field(Field::new("extra").unwrap().short('x'))
        .unwrap()
        .insert_flag(Flag::new("force").unwrap().short('x'));
    assert!(flag_first.is_err() && field_first.is_err());
}

/// Once a token fails to match a child keyword, a later token equal to the
/// child keyword is ordinary input, never a descent.
#[test]
fn child_path_is_greedy() {
    let cherry = Cherry::<()>::new()
        .insert(
            Action::new("group")
                .unwrap()
                .insert_child(Action::new("sub").unwrap())
                .unwrap()
                .insert_argument(Argument::new("first").unwrap())
                .unwrap()
                .insert_argument(Argument::new("second").unwrap())
                .unwrap(),
        )
        .unwrap();

    let request = cherry.parse_str("group other sub").unwrap();
    assert!(
        request.action.keyword == "group"
            && request.get_argument(0).unwrap() == "other"
            && request.get_argument(1).unwrap() == "sub"
    );
}

/// Combined short flags: `run -vf` sets both flags.
#[test]
fn combined_short_flags_set_both() {
    let cherry = Cherry::<()>::new()
        .insert(
            Action::new("run")
                .unwrap()
                .insert_flag(Flag::new("verbose").unwrap().short('v'))
                .unwrap()
                .insert_flag(Flag::new("force").unwrap().short('f'))
                .unwrap(),
        )
        .unwrap();

    let request = cherry
        .parse(&[String::from("run"), String::from("-vf")])
        .unwrap();
    assert!(
        request.get_flag("verbose") == Some(&true) && request.get_flag("force") == Some(&true)
    );
}

/// A field default holds until a value is parsed for it.
#[test]
fn field_default_and_override() {
    let cherry = Cherry::<()>::new()
        .insert(
            Action::new("set")
                .unwrap()
                .insert_field(Field::new("env").unwrap().short('e').default("prod"))
                .unwrap(),
        )
        .unwrap();

    let defaulted = cherry.parse(&[String::from("set")]).unwrap();
    assert_eq!(Some(&String::from("prod")), defaulted.get_field("env"));

    let overridden = cherry
        .parse(&[
            String::from("set"),
            String::from("-e"),
            String::from("dev"),
        ])
        .unwrap();
    assert_eq!(Some(&String::from("dev")), overridden.get_field("env"));
}

/// A parent with a child and a parent-level argument: `group sub` resolves
/// to the child, `group value` to the parent with the argument.
#[test]
fn child_or_argument() {
    let cherry = Cherry::<()>::new()
        .insert(
            Action::new("group")
                .unwrap()
                .insert_child(Action::new("sub").unwrap())
                .unwrap()
                .insert_argument(Argument::new("value").unwrap())
                .unwrap(),
        )
        .unwrap();

    let child = cherry.parse_str("group sub").unwrap();
    assert!(child.action.keyword == "sub");

    let parent = cherry.parse_str("group value").unwrap();
    assert!(
        parent.action.keyword == "group" && parent.get_argument(0).unwrap() == "value"
    );
}

/// A quoted token carries its whitespace: `action 'my value'` tokenizes to
/// two tokens.
#[test]
fn quoted_token_keeps_whitespace() {
    let cherry = Cherry::<()>::new()
        .insert(
            Action::new("action")
                .unwrap()
                .insert_argument(Argument::new("value").unwrap())
                .unwrap(),
        )
        .unwrap();

    let request = cherry.parse_str("action 'my value'").unwrap();
    assert_eq!(Some(&String::from("my value")), request.get_argument(0));
}

/// An unterminated quote is not a scan error: the open token is flushed
/// when the input ends.
#[test]
fn unterminated_quote_flushes() {
    let cherry = Cherry::<()>::new()
        .insert(Action::new("unterminated value").unwrap())
        .unwrap();

    let request = cherry.parse_str("'unterminated value").unwrap();
    assert!(request.action.keyword == "unterminated value");
}

/// The integer validator respects the 32-bit signed range exactly.
#[test]
fn is_integer_range_bounds() {
    assert!(
        is_integer("2147483647")
            && is_integer("-2147483648")
            && !is_integer("2147483648")
            && !is_integer("-2147483649")
            && is_integer("+41")
            && !is_integer("")
            && !is_integer("-")
    );
}

/// A callback receives the parsed values and can read them back.
#[test]
fn callback_reads_payload() {
    struct EchoTarget;
    impl Handler<String> for EchoTarget {
        fn handle(&self, payload: Payload) -> String {
            let target = payload.get_argument(0).cloned().unwrap_or_default();
            let env = payload.get_field("env").cloned().unwrap_or_default();
            let verbose = *payload.get_flag("verbose").unwrap_or(&false);
            format!("{target}/{env}/{verbose}")
        }
    }

    let cherry = Cherry::new()
        .insert(
            Action::new("deploy")
                .unwrap()
                .insert_argument(Argument::new("target").unwrap())
                .unwrap()
                .insert_field(Field::new("env").unwrap().default("prod"))
                .unwrap()
                .insert_flag(Flag::new("verbose").unwrap())
                .unwrap()
                .callback(Box::new(EchoTarget)),
        )
        .unwrap();

    let request = cherry.parse_str("deploy staging --verbose").unwrap();
    assert_eq!("staging/prod/true", request.run().unwrap());
}

/// An empty quoted token contributes nothing: only non-empty buffers are
/// flushed.
#[test]
fn empty_quoted_token_discarded() {
    let cherry = Cherry::<()>::new()
        .insert(Action::new("action").unwrap())
        .unwrap();

    let request = cherry.parse_str("action \"\"").unwrap();
    assert!(request.action.keyword == "action" && request.arguments.is_empty());
}

/// A command ending on a lone backslash is a scan error.
#[test]
fn trailing_backslash_rejected() {
    let cherry = Cherry::<()>::new()
        .insert(Action::new("action").unwrap())
        .unwrap();

    let expected = Error::new("Todo: Help.");
    assert_eq!(expected, cherry.parse_str("action \\").err().unwrap());
}
