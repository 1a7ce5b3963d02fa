use scene_graph::property::AccessType;
use scene_graph::property::Constant;
use scene_graph::property::Property;
use scene_graph::property::ValueSource;
use scene_graph::property::Variable;

#[test]
fn property_name_get() {
    let prop = Property::new("foo", AccessType::ReadWrite, Variable::new(0)).unwrap();

    assert_eq!(prop.name(), "foo");
}

#[test]
fn variable_property() {
    let mut prop = Property::new("foo", AccessType::ReadWrite, Variable::new(0)).unwrap();

    assert_eq!(prop.get(), 0);

    prop.set(3);

    assert_eq!(prop.get(), 3);
}

#[test]
fn access_type_queries() {
    assert!(AccessType::ReadOnly.read_enabled());
    assert!(!AccessType::ReadOnly.write_enabled());
    assert!(!AccessType::ReadOnly.read_write_enabled());

    assert!(!AccessType::WriteOnly.read_enabled());
    assert!(AccessType::WriteOnly.write_enabled());
    assert!(!AccessType::WriteOnly.read_write_enabled());

    assert!(AccessType::ReadWrite.read_enabled());
    assert!(AccessType::ReadWrite.write_enabled());
    assert!(AccessType::ReadWrite.read_write_enabled());
}

#[test]
fn suits_demands_the_needed_access() {
    // a read-write source serves everything
    assert!(AccessType::ReadOnly.suits(AccessType::ReadWrite));
    assert!(AccessType::WriteOnly.suits(AccessType::ReadWrite));
    assert!(AccessType::ReadWrite.suits(AccessType::ReadWrite));

    // a read-only source serves reads alone
    assert!(AccessType::ReadOnly.suits(AccessType::ReadOnly));
    assert!(!AccessType::WriteOnly.suits(AccessType::ReadOnly));
    assert!(!AccessType::ReadWrite.suits(AccessType::ReadOnly));

    // a write-only source serves writes alone
    assert!(!AccessType::ReadOnly.suits(AccessType::WriteOnly));
    assert!(AccessType::WriteOnly.suits(AccessType::WriteOnly));
    assert!(!AccessType::ReadWrite.suits(AccessType::WriteOnly));
}

#[test]
fn unsuitable_source_is_rejected() {
    let err = Property::new("foo", AccessType::ReadWrite, Constant::new(7));
    assert!(err.is_err());
    assert_eq!(err.err().unwrap(), "Unsiutable value source provided");

    let writes = Property::new("foo", AccessType::WriteOnly, Constant::new(7));
    assert!(writes.is_err());

    let ok = Property::new("foo", AccessType::ReadOnly, Constant::new(7));
    assert!(ok.is_ok());
    assert_eq!(ok.unwrap().get(), 7);
}

#[test]
fn variable_source_is_read_write() {
    let v: Variable<u8> = Variable::new(9);
    assert!(matches!(v.access_type(), AccessType::ReadWrite));
    assert_eq!(v.get(), 9);
}
