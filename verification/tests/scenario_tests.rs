use minikv::{display, execute, Command, Primitive, Store};

fn s(t: &str) -> String {
    t.to_string()
}

fn run(st: &mut Store, cmd: Command) -> String {
    display(execute(st, cmd).unwrap().unwrap())
}

#[test]
fn scalar_session_set_get_del_get() {
    let mut st = Store::new();
    assert_eq!(run(&mut st, Command::Put { key: s("a"), arg: Primitive::Int(5) }), "OK");
    assert_eq!(run(&mut st, Command::Get { key: s("a") }), "5");
    assert_eq!(run(&mut st, Command::Del { keys: vec![s("a")] }), "1");
    assert_eq!(run(&mut st, Command::Get { key: s("a") }), "(nil)");
}

#[test]
fn set_session_sadd_srem_sismember() {
    let mut st = Store::new();
    assert_eq!(
        run(
            &mut st,
            Command::SAdd {
                key: s("s"),
                args: vec![Primitive::Str(s("x")), Primitive::Str(s("y"))],
            },
        ),
        "2"
    );
    assert_eq!(
        run(&mut st, Command::SAdd { key: s("s"), args: vec![Primitive::Str(s("x"))] }),
        "0"
    );
    assert_eq!(
        run(&mut st, Command::SRem { key: s("s"), args: vec![Primitive::Str(s("y"))] }),
        "1"
    );
    assert_eq!(
        run(&mut st, Command::SIsMember { key: s("s"), arg: Primitive::Str(s("x")) }),
        "1"
    );
}

#[test]
fn list_session_push_llen_render() {
    let mut st = Store::new();
    let args = vec![Primitive::Int(1), Primitive::Int(2), Primitive::Int(3)];
    assert_eq!(run(&mut st, Command::LPush { key: s("k"), args }), "3");
    assert_eq!(run(&mut st, Command::LLen { key: s("k") }), "3");
    assert_eq!(run(&mut st, Command::Get { key: s("k") }), "1) 3\n2) 2\n3) 1\n");
}
