//! Tests for the generic identity function and the counter cell.

use record_match::basics::{do_something, Foo};

#[test]
fn do_something_returns_its_argument() {
    assert_eq!(do_something(5), 5);
    assert_eq!(do_something("hello"), "hello");
    assert_eq!(do_something((1, 2)), (1, 2));
}

#[test]
fn foo_new_and_consume() {
    let foo = Foo::new();
    assert_eq!(foo.0, 0);

    let new_foo = Foo::consume(foo);
    assert_eq!(new_foo.0, 1);
    let new_new_foo = new_foo.consume();
    assert_eq!(new_new_foo.0, 2);
}

#[test]
fn foo_borrow_forms() {
    let foo = Foo::new().consume().consume();
    let borrow_1 = Foo::borrow(&foo);
    let borrow_2 = foo.borrow();
    assert_eq!(borrow_1, borrow_2);

    let mut foo = Foo::new();
    *Foo::borrow_mut(&mut foo) += 1;
    assert_eq!(foo.0, 1);
    *foo.borrow_mut() += 1;
    assert_eq!(foo.0, 2);
}
