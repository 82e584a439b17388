use scripteval::env::Env;
use scripteval::value::Value;

fn name(s: &str) -> String {
    s.to_string()
}

#[test]
fn new_environment_has_an_empty_root() {
    let env = Env::new();
    assert_eq!(env.len(), 1);
    assert_eq!(env.get(0, &name("x")), None);
}

#[test]
fn defined_name_is_read_back() {
    let mut env = Env::new();
    env.define(0, &name("x"), Value::Integer(1));
    assert_eq!(env.get(0, &name("x")), Some(Value::Integer(1)));
    env.define(0, &name("x"), Value::Integer(2));
    assert_eq!(env.get(0, &name("x")), Some(Value::Integer(2)));
    assert_eq!(env.get(0, &name("y")), None);
}

#[test]
fn lookup_walks_from_the_innermost_frame_to_the_root() {
    let mut env = Env::new();
    env.define(0, &name("x"), Value::Integer(1));
    let a = env.push(0);
    let b = env.push(a);
    assert_eq!((a, b), (1, 2));
    assert_eq!(env.len(), 3);
    env.define(a, &name("y"), Value::Integer(2));
    assert_eq!(env.get(b, &name("x")), Some(Value::Integer(1)));
    assert_eq!(env.get(b, &name("y")), Some(Value::Integer(2)));
    assert_eq!(env.get(0, &name("y")), None);
    env.define(b, &name("x"), Value::Integer(3));
    assert_eq!(env.get(b, &name("x")), Some(Value::Integer(3)));
    assert_eq!(env.get(a, &name("x")), Some(Value::Integer(1)));
}

#[test]
fn assignment_to_an_outer_name_changes_it_in_place() {
    let mut env = Env::new();
    env.define(0, &name("x"), Value::Integer(1));
    let a = env.push(0);
    let b = env.push(a);
    env.assign(b, &name("x"), Value::Integer(9));
    assert_eq!(env.get(0, &name("x")), Some(Value::Integer(9)));
    assert_eq!(env.get(a, &name("x")), Some(Value::Integer(9)));
    assert_eq!(env.get(b, &name("x")), Some(Value::Integer(9)));
}

#[test]
fn assignment_to_a_new_name_binds_it_in_the_innermost_frame() {
    let mut env = Env::new();
    let a = env.push(0);
    let b = env.push(a);
    env.assign(b, &name("z"), Value::Integer(5));
    assert_eq!(env.get(b, &name("z")), Some(Value::Integer(5)));
    assert_eq!(env.get(a, &name("z")), None);
    assert_eq!(env.get(0, &name("z")), None);
}

#[test]
fn assignment_leaves_other_names_alone() {
    let mut env = Env::new();
    env.define(0, &name("x"), Value::Integer(1));
    env.define(0, &name("y"), Value::Integer(2));
    let a = env.push(0);
    env.assign(a, &name("x"), Value::Integer(7));
    assert_eq!(env.get(a, &name("y")), Some(Value::Integer(2)));
    assert_eq!(env.get(a, &name("x")), Some(Value::Integer(7)));
}

#[test]
fn sibling_frames_do_not_see_each_other() {
    let mut env = Env::new();
    let a = env.push(0);
    let b = env.push(0);
    env.define(a, &name("x"), Value::Integer(1));
    assert_eq!(env.get(b, &name("x")), None);
    assert_eq!(env.get(a, &name("x")), Some(Value::Integer(1)));
}

#[test]
fn reading_from_a_frame_that_does_not_exist_finds_nothing() {
    let mut env = Env::new();
    env.define(0, &name("x"), Value::Integer(1));
    assert_eq!(env.get(7, &name("x")), None);
}
