use std::collections::VecDeque;

use minikv::{display, Container, Primitive, Value};

fn s(t: &str) -> String {
    t.to_string()
}

#[test]
fn scalars_render_as_their_text() {
    assert_eq!(display(Value::Primitive(Primitive::Okay)), "OK");
    assert_eq!(display(Value::Primitive(Primitive::Nil)), "(nil)");
    assert_eq!(display(Value::Primitive(Primitive::Str(s("hello")))), "hello");
}

#[test]
fn floats_render_as_their_original_text() {
    assert_eq!(display(Value::Primitive(Primitive::Flt(s("2.50")))), "2.50");
    assert_eq!(display(Value::Primitive(Primitive::Flt(s("-0.100")))), "-0.100");
}

#[test]
fn integers_render_in_decimal() {
    assert_eq!(display(Value::Primitive(Primitive::Int(0))), "0");
    assert_eq!(display(Value::Primitive(Primitive::Int(5))), "5");
    assert_eq!(display(Value::Primitive(Primitive::Int(1234567890))), "1234567890");
    assert_eq!(display(Value::Primitive(Primitive::Int(-42))), "-42");
    assert_eq!(
        display(Value::Primitive(Primitive::Int(i64::MAX))),
        "9223372036854775807"
    );
    assert_eq!(
        display(Value::Primitive(Primitive::Int(i64::MIN))),
        "-9223372036854775808"
    );
}

#[test]
fn an_empty_list_renders_as_nothing() {
    let l: VecDeque<Primitive> = VecDeque::new();
    assert_eq!(display(Value::Container(Container::List(l))), "");
}

#[test]
fn a_list_renders_one_numbered_line_per_element() {
    let l: VecDeque<Primitive> = vec![
        Primitive::Int(3),
        Primitive::Str(s("two")),
        Primitive::Flt(s("1.0")),
    ]
    .into();
    assert_eq!(
        display(Value::Container(Container::List(l))),
        "1) 3\n2) two\n3) 1.0\n"
    );
}

#[test]
fn a_set_renders_its_elements_numbered() {
    let v = vec![Primitive::Str(s("x")), Primitive::Str(s("y"))];
    assert_eq!(
        display(Value::Container(Container::UnorderedSet(v))),
        "1) x\n2) y\n"
    );
}

#[test]
fn a_long_list_numbers_past_ten() {
    let l: VecDeque<Primitive> = (1..=11).map(Primitive::Int).collect();
    let text = display(Value::Container(Container::List(l)));
    assert!(text.ends_with("10) 10\n11) 11\n"));
}
