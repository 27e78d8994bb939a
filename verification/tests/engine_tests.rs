use minikv::{execute, display, Command, Container, Kind, Primitive, Store, Value};

fn s(t: &str) -> String {
    t.to_string()
}

fn get(st: &mut Store, key: &str) -> Value {
    execute(st, Command::Get { key: s(key) }).unwrap().unwrap()
}

fn put(st: &mut Store, key: &str, arg: Primitive) -> Value {
    execute(st, Command::Put { key: s(key), arg }).unwrap().unwrap()
}

#[test]
fn get_on_key_never_written_returns_nil() {
    let mut st = Store::new();
    assert_eq!(get(&mut st, "missing"), Value::Primitive(Primitive::Nil));
}

#[test]
fn get_after_del_returns_nil() {
    let mut st = Store::new();
    put(&mut st, "a", Primitive::Int(5));
    let r = execute(&mut st, Command::Del { keys: vec![s("a")] }).unwrap().unwrap();
    assert_eq!(r, Value::Primitive(Primitive::Int(1)));
    assert_eq!(get(&mut st, "a"), Value::Primitive(Primitive::Nil));
}

#[test]
fn set_then_get_round_trips() {
    let mut st = Store::new();
    let ok = put(&mut st, "a", Primitive::Int(5));
    assert_eq!(ok, Value::Primitive(Primitive::Okay));
    assert_eq!(get(&mut st, "a"), Value::Primitive(Primitive::Int(5)));
    let f = put(&mut st, "f", Primitive::Flt(s("2.50")));
    assert_eq!(f, Value::Primitive(Primitive::Okay));
    assert_eq!(get(&mut st, "f"), Value::Primitive(Primitive::Flt(s("2.50"))));
}

#[test]
fn second_set_fully_replaces() {
    let mut st = Store::new();
    put(&mut st, "a", Primitive::Int(5));
    put(&mut st, "a", Primitive::Str(s("hello")));
    assert_eq!(get(&mut st, "a"), Value::Primitive(Primitive::Str(s("hello"))));
}

#[test]
fn set_replaces_a_container_entirely() {
    let mut st = Store::new();
    execute(&mut st, Command::LPush { key: s("k"), args: vec![Primitive::Int(1)] }).unwrap();
    put(&mut st, "k", Primitive::Int(7));
    assert_eq!(get(&mut st, "k"), Value::Primitive(Primitive::Int(7)));
}

#[test]
fn del_counts_only_present_keys() {
    let mut st = Store::new();
    put(&mut st, "a", Primitive::Int(1));
    put(&mut st, "b", Primitive::Int(2));
    let r = execute(&mut st, Command::Del { keys: vec![s("a"), s("b"), s("c")] })
        .unwrap()
        .unwrap();
    assert_eq!(r, Value::Primitive(Primitive::Int(2)));
    assert_eq!(get(&mut st, "a"), Value::Primitive(Primitive::Nil));
    assert_eq!(get(&mut st, "b"), Value::Primitive(Primitive::Nil));
}

#[test]
fn del_counts_a_repeated_key_once() {
    let mut st = Store::new();
    put(&mut st, "a", Primitive::Int(1));
    let r = execute(&mut st, Command::Del { keys: vec![s("a"), s("a")] }).unwrap().unwrap();
    assert_eq!(r, Value::Primitive(Primitive::Int(1)));
}

#[test]
fn del_of_no_keys_counts_zero() {
    let mut st = Store::new();
    let r = execute(&mut st, Command::Del { keys: vec![] }).unwrap().unwrap();
    assert_eq!(r, Value::Primitive(Primitive::Int(0)));
}

#[test]
fn lpush_reports_new_length_and_reverses() {
    let mut st = Store::new();
    let args = vec![Primitive::Int(1), Primitive::Int(2), Primitive::Int(3)];
    let r = execute(&mut st, Command::LPush { key: s("k"), args }).unwrap().unwrap();
    assert_eq!(r, Value::Primitive(Primitive::Int(3)));
    assert_eq!(display(get(&mut st, "k")), "1) 3\n2) 2\n3) 1\n");
}

#[test]
fn rpush_keeps_argument_order() {
    let mut st = Store::new();
    let args = vec![Primitive::Int(1), Primitive::Int(2), Primitive::Int(3)];
    let r = execute(&mut st, Command::RPush { key: s("k"), args }).unwrap().unwrap();
    assert_eq!(r, Value::Primitive(Primitive::Int(3)));
    assert_eq!(display(get(&mut st, "k")), "1) 1\n2) 2\n3) 3\n");
}

#[test]
fn lpop_takes_from_the_front() {
    let mut st = Store::new();
    let args = vec![Primitive::Int(1), Primitive::Int(2), Primitive::Int(3)];
    execute(&mut st, Command::LPush { key: s("k"), args }).unwrap();
    let r = execute(&mut st, Command::LPop { key: s("k"), count: None }).unwrap().unwrap();
    assert_eq!(r, Value::Primitive(Primitive::Int(1)));
    assert_eq!(display(get(&mut st, "k")), "1) 2\n2) 1\n");
}

#[test]
fn rpop_takes_from_the_back() {
    let mut st = Store::new();
    let args = vec![Primitive::Int(1), Primitive::Int(2), Primitive::Int(3)];
    execute(&mut st, Command::RPush { key: s("k"), args }).unwrap();
    let r = execute(&mut st, Command::RPop { key: s("k"), count: Some(2) }).unwrap().unwrap();
    assert_eq!(r, Value::Primitive(Primitive::Int(2)));
    assert_eq!(display(get(&mut st, "k")), "1) 1\n");
}

#[test]
fn pop_past_emptiness_is_clamped_and_reports_actual() {
    let mut st = Store::new();
    let args = vec![Primitive::Int(1), Primitive::Int(2)];
    execute(&mut st, Command::RPush { key: s("k"), args }).unwrap();
    let r = execute(&mut st, Command::LPop { key: s("k"), count: Some(5) }).unwrap().unwrap();
    assert_eq!(r, Value::Primitive(Primitive::Int(2)));
    assert_eq!(display(get(&mut st, "k")), "");
}

#[test]
fn pop_on_absent_key_reports_zero_without_creating() {
    let mut st = Store::new();
    let r = execute(&mut st, Command::LPop { key: s("k"), count: Some(3) }).unwrap().unwrap();
    assert_eq!(r, Value::Primitive(Primitive::Int(0)));
    assert_eq!(get(&mut st, "k"), Value::Primitive(Primitive::Nil));
}

#[test]
fn pop_with_negative_count_removes_nothing() {
    let mut st = Store::new();
    execute(&mut st, Command::RPush { key: s("k"), args: vec![Primitive::Int(9)] }).unwrap();
    let r = execute(&mut st, Command::RPop { key: s("k"), count: Some(-4) }).unwrap().unwrap();
    assert_eq!(r, Value::Primitive(Primitive::Int(0)));
    assert_eq!(display(get(&mut st, "k")), "1) 9\n");
}

#[test]
fn sadd_counts_a_duplicate_argument_once() {
    let mut st = Store::new();
    let args = vec![
        Primitive::Str(s("a")),
        Primitive::Str(s("a")),
        Primitive::Str(s("b")),
    ];
    let r = execute(&mut st, Command::SAdd { key: s("k"), args }).unwrap().unwrap();
    assert_eq!(r, Value::Primitive(Primitive::Int(2)));
    let r2 = execute(
        &mut st,
        Command::SAdd { key: s("k"), args: vec![Primitive::Str(s("a"))] },
    )
    .unwrap()
    .unwrap();
    assert_eq!(r2, Value::Primitive(Primitive::Int(0)));
}

#[test]
fn srem_on_absent_key_reports_zero_without_creating() {
    let mut st = Store::new();
    let r = execute(
        &mut st,
        Command::SRem { key: s("k"), args: vec![Primitive::Str(s("x"))] },
    )
    .unwrap()
    .unwrap();
    assert_eq!(r, Value::Primitive(Primitive::Int(0)));
    assert_eq!(get(&mut st, "k"), Value::Primitive(Primitive::Nil));
}

#[test]
fn srem_counts_removed_elements() {
    let mut st = Store::new();
    let args = vec![Primitive::Str(s("x")), Primitive::Str(s("y"))];
    execute(&mut st, Command::SAdd { key: s("k"), args }).unwrap();
    let r = execute(
        &mut st,
        Command::SRem {
            key: s("k"),
            args: vec![Primitive::Str(s("x")), Primitive::Str(s("z"))],
        },
    )
    .unwrap()
    .unwrap();
    assert_eq!(r, Value::Primitive(Primitive::Int(1)));
    assert_eq!(display(get(&mut st, "k")), "1) y\n");
}

#[test]
fn sismember_on_absent_key_is_false_and_creates_nothing() {
    let mut st = Store::new();
    let r = execute(
        &mut st,
        Command::SIsMember { key: s("k"), arg: Primitive::Str(s("x")) },
    )
    .unwrap()
    .unwrap();
    assert_eq!(r, Value::Primitive(Primitive::Int(0)));
    let llen = execute(&mut st, Command::LLen { key: s("k") }).unwrap().unwrap();
    assert_eq!(llen, Value::Primitive(Primitive::Int(0)));
}

#[test]
fn llen_reports_list_length_set_cardinality_and_zero() {
    let mut st = Store::new();
    let args = vec![Primitive::Int(1), Primitive::Int(2), Primitive::Int(3)];
    execute(&mut st, Command::LPush { key: s("l"), args }).unwrap();
    let r = execute(&mut st, Command::LLen { key: s("l") }).unwrap().unwrap();
    assert_eq!(r, Value::Primitive(Primitive::Int(3)));
    let sargs = vec![
        Primitive::Str(s("x")),
        Primitive::Str(s("x")),
        Primitive::Str(s("y")),
    ];
    execute(&mut st, Command::SAdd { key: s("s"), args: sargs }).unwrap();
    let r2 = execute(&mut st, Command::LLen { key: s("s") }).unwrap().unwrap();
    assert_eq!(r2, Value::Primitive(Primitive::Int(2)));
    let r3 = execute(&mut st, Command::LLen { key: s("absent") }).unwrap().unwrap();
    assert_eq!(r3, Value::Primitive(Primitive::Int(0)));
}

#[test]
fn list_command_against_scalar_key_is_a_type_mismatch() {
    let mut st = Store::new();
    put(&mut st, "a", Primitive::Int(5));
    let e = execute(&mut st, Command::LPush { key: s("a"), args: vec![Primitive::Int(1)] })
        .unwrap_err();
    assert_eq!(e.key, "a");
    assert_eq!(e.expected, Kind::List);
    assert_eq!(e.actual, Kind::Scalar);
    assert_eq!(get(&mut st, "a"), Value::Primitive(Primitive::Int(5)));
}

#[test]
fn set_command_against_list_key_is_a_type_mismatch() {
    let mut st = Store::new();
    execute(&mut st, Command::RPush { key: s("k"), args: vec![Primitive::Int(1)] }).unwrap();
    let e = execute(&mut st, Command::SAdd { key: s("k"), args: vec![Primitive::Int(1)] })
        .unwrap_err();
    assert_eq!(e.expected, Kind::UnorderedSet);
    assert_eq!(e.actual, Kind::List);
}

#[test]
fn pop_against_set_key_is_a_type_mismatch() {
    let mut st = Store::new();
    execute(&mut st, Command::SAdd { key: s("k"), args: vec![Primitive::Int(1)] }).unwrap();
    let e = execute(&mut st, Command::LPop { key: s("k"), count: None }).unwrap_err();
    assert_eq!(e.expected, Kind::List);
    assert_eq!(e.actual, Kind::UnorderedSet);
}

#[test]
fn llen_against_scalar_key_is_a_type_mismatch() {
    let mut st = Store::new();
    put(&mut st, "a", Primitive::Flt(s("1.5")));
    let e = execute(&mut st, Command::LLen { key: s("a") }).unwrap_err();
    assert_eq!(e.key, "a");
    assert_eq!(e.actual, Kind::Scalar);
}

#[test]
fn sismember_against_list_key_is_a_type_mismatch() {
    let mut st = Store::new();
    execute(&mut st, Command::RPush { key: s("k"), args: vec![Primitive::Int(1)] }).unwrap();
    let e = execute(
        &mut st,
        Command::SIsMember { key: s("k"), arg: Primitive::Int(1) },
    )
    .unwrap_err();
    assert_eq!(e.expected, Kind::UnorderedSet);
    assert_eq!(e.actual, Kind::List);
}

#[test]
fn srem_against_scalar_key_is_a_type_mismatch() {
    let mut st = Store::new();
    put(&mut st, "a", Primitive::Str(s("v")));
    let e = execute(&mut st, Command::SRem { key: s("a"), args: vec![Primitive::Int(1)] })
        .unwrap_err();
    assert_eq!(e.expected, Kind::UnorderedSet);
    assert_eq!(e.actual, Kind::Scalar);
}

#[test]
fn a_failed_mutation_leaves_the_store_as_it_was() {
    let mut st = Store::new();
    execute(&mut st, Command::RPush { key: s("k"), args: vec![Primitive::Int(1)] }).unwrap();
    execute(&mut st, Command::SAdd { key: s("k"), args: vec![Primitive::Int(2)] }).unwrap_err();
    assert_eq!(
        get(&mut st, "k"),
        Value::Container(Container::List(vec![Primitive::Int(1)].into()))
    );
}

#[test]
fn clear_and_end_of_input_produce_no_value_and_change_nothing() {
    let mut st = Store::new();
    put(&mut st, "a", Primitive::Int(5));
    assert_eq!(execute(&mut st, Command::Clear).unwrap(), None);
    assert_eq!(execute(&mut st, Command::Eoi).unwrap(), None);
    assert_eq!(get(&mut st, "a"), Value::Primitive(Primitive::Int(5)));
}

#[test]
fn push_on_existing_list_extends_it() {
    let mut st = Store::new();
    execute(&mut st, Command::RPush { key: s("k"), args: vec![Primitive::Int(1)] }).unwrap();
    let r = execute(
        &mut st,
        Command::RPush { key: s("k"), args: vec![Primitive::Int(2), Primitive::Int(3)] },
    )
    .unwrap()
    .unwrap();
    assert_eq!(r, Value::Primitive(Primitive::Int(3)));
    assert_eq!(display(get(&mut st, "k")), "1) 1\n2) 2\n3) 3\n");
}

#[test]
fn store_get_set_remove_contains_work_directly() {
    let mut st = Store::new();
    let key = s("k");
    assert!(!st.contains(&key));
    assert_eq!(st.get(&key), None);
    st.set(key.clone(), Value::Primitive(Primitive::Int(9)));
    assert!(st.contains(&key));
    assert_eq!(st.get(&key), Some(Value::Primitive(Primitive::Int(9))));
    assert!(st.remove(&key));
    assert!(!st.remove(&key));
    assert!(!st.contains(&key));
}
