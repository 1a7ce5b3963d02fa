use scene_graph::msg::Message;
use scene_graph::msg::cast;

#[derive(PartialEq, Eq, Debug)]
struct Msg1;

impl Message for Msg1 {

}

#[derive(PartialEq, Eq, Debug)]
struct Msg2;

impl Message for Msg2 {

}

#[test]
fn cast_to_some() {
    let generic: Box<Msg1> = Box::new(Msg1);

    let casted = cast::<Msg1, Msg1>(generic);

    assert_eq!(casted, Some(Msg1));
}

#[test]
fn cast_to_none() {
    let generic: Box<Msg1> = Box::new(Msg1);

    let casted = cast::<Msg1, Msg2>(generic);

    assert_eq!(casted, None);
}

#[derive(PartialEq, Eq, Debug)]
struct Payload {
    value: u64,
}

impl Message for Payload {

}

#[test]
fn cast_keeps_the_value() {
    let generic: Box<Payload> = Box::new(Payload { value: 42 });

    let casted = cast::<Payload, Payload>(generic);

    assert_eq!(casted, Some(Payload { value: 42 }));
}
