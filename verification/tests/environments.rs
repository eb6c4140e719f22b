use rox::environment::{Environment, Error};
use rox::scanner::{Token, TokenType};
use rox::value::Value;

fn name(text: &str) -> Token {
    Token::new(TokenType::Identifier, text.to_string(), None, 0)
}

fn word(text: &str) -> Value {
    Value::String(text.to_string())
}

#[test]
fn a_new_environment_holds_nothing() {
    let environment = Environment::new();
    assert_eq!(environment.get(&name("a")), Err(Error::NameDoesNotExist));
    assert!(environment.into_enclosing().is_none());
}

#[test]
fn a_defined_name_can_be_read() {
    let mut environment = Environment::new();
    environment.define("a".to_string(), Some(word("x")));
    environment.define("b".to_string(), None);
    assert_eq!(environment.get(&name("a")), Ok(Some(word("x"))));
    assert_eq!(environment.get(&name("b")), Ok(None));
    assert_eq!(environment.get(&name("c")), Err(Error::NameDoesNotExist));
}

#[test]
fn defining_a_name_again_replaces_its_binding() {
    let mut environment = Environment::new();
    environment.define("a".to_string(), Some(word("x")));
    environment.define("b".to_string(), Some(word("y")));
    environment.define("a".to_string(), Some(word("z")));
    assert_eq!(environment.get(&name("a")), Ok(Some(word("z"))));
    assert_eq!(environment.get(&name("b")), Ok(Some(word("y"))));
    environment.define("a".to_string(), None);
    assert_eq!(environment.get(&name("a")), Ok(None));
}

#[test]
fn an_inner_definition_leaves_the_outer_one_alone() {
    let mut outer = Environment::new();
    outer.define("a".to_string(), Some(word("outer")));
    let mut inner = Environment::enclosing(outer);
    assert_eq!(inner.get(&name("a")), Ok(Some(word("outer"))));
    inner.define("a".to_string(), Some(word("inner")));
    assert_eq!(inner.get(&name("a")), Ok(Some(word("inner"))));
    let outer = inner.into_enclosing().unwrap();
    assert_eq!(outer.get(&name("a")), Ok(Some(word("outer"))));
}

#[test]
fn an_assignment_changes_the_first_frame_that_holds_the_name() {
    let mut global = Environment::new();
    global.define("a".to_string(), Some(word("global")));
    global.define("b".to_string(), Some(word("global")));
    let mut middle = Environment::enclosing(global);
    middle.define("a".to_string(), Some(word("middle")));
    let mut inner = Environment::enclosing(middle);
    assert!(inner.assign(&name("a"), word("changed")));
    assert!(inner.assign(&name("b"), word("changed")));
    assert_eq!(inner.get(&name("a")), Ok(Some(word("changed"))));
    let middle = inner.into_enclosing().unwrap();
    assert_eq!(middle.get(&name("a")), Ok(Some(word("changed"))));
    let global = middle.into_enclosing().unwrap();
    assert_eq!(global.get(&name("a")), Ok(Some(word("global"))));
    assert_eq!(global.get(&name("b")), Ok(Some(word("changed"))));
}

#[test]
fn an_assignment_declares_nothing() {
    let mut environment = Environment::enclosing(Environment::new());
    assert!(!environment.assign(&name("a"), word("x")));
    assert_eq!(environment.get(&name("a")), Err(Error::NameDoesNotExist));
}

#[test]
fn an_assignment_gives_a_value_to_a_name_without_one() {
    let mut environment = Environment::new();
    environment.define("a".to_string(), None);
    assert!(environment.assign(&name("a"), Value::Nil));
    assert_eq!(environment.get(&name("a")), Ok(Some(Value::Nil)));
}

#[test]
fn names_are_told_apart_by_their_whole_text() {
    let mut environment = Environment::new();
    environment.define("ab".to_string(), Some(word("x")));
    assert_eq!(environment.get(&name("a")), Err(Error::NameDoesNotExist));
    assert_eq!(environment.get(&name("abc")), Err(Error::NameDoesNotExist));
    assert!(!environment.assign(&name("AB"), word("y")));
}
