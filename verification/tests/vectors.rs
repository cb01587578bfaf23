use defunct::global::{Global, HeapObject};
use defunct::intrinsics::{call, fault, vector_get, vector_pop, vector_set, ErrorKind, Outcome};
use defunct::values::native_fns::Intrinsic;
use defunct::values::{Val, Vector};

fn vector_of(global: &mut Global, items: &[i32]) -> Val {
    let mut v = Vector::new();
    for i in items {
        v.push(Val::from_int(*i));
    }
    global.new_object(HeapObject::Vector(v)).unwrap()
}

#[test]
fn basic_vector_usage() {
    let mut v = Vector::new();
    for i in 0..100 {
        v.push(Val::from_int(i));
    }
    assert_eq!(Val::from_int(50), v.get(50).unwrap());
    assert_eq!(v.len(), Val::from_int(100));
    v.set(50, Val::from_int(951));
    assert_eq!(v.get(50).unwrap(), Val::from_int(951));
    for _ in 0..99 {
        v.pop();
    }
    assert_eq!(v.len(), Val::from_int(1));
    assert_eq!(v.pop().unwrap(), Val::from_int(0));
}

#[test]
#[should_panic]
fn no_setting_past_last() {
    let mut v = Vector::new();
    for i in 0..100 {
        v.push(Val::from_int(i));
    }
    v.set(100, Val::from_int(1000)).unwrap();
}

#[test]
#[should_panic]
fn no_getting_past_last() {
    let mut v = Vector::new();
    for i in 0..100 {
        v.push(Val::from_int(i));
    }
    v.get(100).unwrap();
}

#[test]
#[should_panic]
fn no_popping_after_empty() {
    let mut v = Vector::new();
    for i in 0..100 {
        v.push(Val::from_int(i));
    }

    for _ in 0..100 {
        v.pop();
    }

    v.pop().unwrap();
}

#[test]
fn push_then_pop_restores_the_vector() {
    let mut v = Vector::new();
    v.push(Val::from_int(1));
    v.push(Val::from_int(2));
    let before = v.iter();
    v.push(Val::from_int(3));
    assert_eq!(v.count(), 3);
    assert_eq!(v.pop(), Some(Val::from_int(3)));
    assert_eq!(v.iter(), before);
    assert_eq!(v.count(), 2);
}

#[test]
fn set_changes_one_item() {
    let mut v = Vector::new();
    for i in 0..5 {
        v.push(Val::from_int(i));
    }
    assert_eq!(v.set(3, Val::from_int(-1)), Some(()));
    assert_eq!(v.get(3), Some(Val::from_int(-1)));
    assert_eq!(v.get(2), Some(Val::from_int(2)));
    assert_eq!(v.get(4), Some(Val::from_int(4)));
    assert_eq!(v.count(), 5);
    assert_eq!(v.set(5, Val::from_int(0)), None);
    assert_eq!(v.get(5), None);
    assert_eq!(v.count(), 5);
    let mut empty = Vector::new();
    assert_eq!(empty.pop(), None);
    assert_eq!(empty.len(), Val::from_int(0));
}

#[test]
fn an_index_outside_the_vector_is_a_fault() {
    let mut global = Global::new();
    let v = vector_of(&mut global, &[1, 2, 3, 4]);
    for index in [-1, 4, 5, i32::MAX, i32::MIN] {
        let get = [v, Val::from_int(index)];
        let set = [v, Val::from_int(index), Val::from_int(9)];
        assert_eq!(fault(Intrinsic::VectorGet, &get, &global), Some(ErrorKind::IndexOutOfBounds));
        assert_eq!(fault(Intrinsic::VectorSet, &set, &global), Some(ErrorKind::IndexOutOfBounds));
        assert_eq!(
            call(Intrinsic::VectorGet, &get, &mut global),
            Outcome::Failed(ErrorKind::IndexOutOfBounds)
        );
        assert_eq!(
            call(Intrinsic::VectorSet, &set, &mut global),
            Outcome::Failed(ErrorKind::IndexOutOfBounds)
        );
    }
    for index in 0..4 {
        let get = [v, Val::from_int(index)];
        assert_eq!(fault(Intrinsic::VectorGet, &get, &global), None);
        assert_eq!(
            call(Intrinsic::VectorGet, &get, &mut global),
            Outcome::Return(Val::from_int(index + 1), false)
        );
        assert_eq!(vector_get(&get, &mut global), Outcome::Return(Val::from_int(index + 1), false));
    }
    assert_eq!(
        call(Intrinsic::VectorLength, &[v], &mut global),
        Outcome::Return(Val::from_int(4), false)
    );
}

#[test]
fn a_pop_of_an_empty_vector_is_a_fault() {
    let mut global = Global::new();
    let v = vector_of(&mut global, &[7]);
    assert_eq!(fault(Intrinsic::VectorPop, &[v], &global), None);
    assert_eq!(vector_pop(&[v], &mut global), Outcome::Return(Val::from_int(7), false));
    assert_eq!(fault(Intrinsic::VectorPop, &[v], &global), Some(ErrorKind::EmptyVector));
    assert_eq!(
        call(Intrinsic::VectorPop, &[v], &mut global),
        Outcome::Failed(ErrorKind::EmptyVector)
    );
    assert_eq!(
        call(Intrinsic::VectorLength, &[v], &mut global),
        Outcome::Return(Val::from_int(0), false)
    );
}

#[test]
fn what_is_no_vector_call_is_no_fault() {
    let mut global = Global::new();
    let v = vector_of(&mut global, &[1]);
    assert_eq!(fault(Intrinsic::VectorGet, &[v], &global), None);
    assert_eq!(fault(Intrinsic::VectorGet, &[Val::from_int(1), Val::from_int(5)], &global), None);
    assert_eq!(fault(Intrinsic::VectorPush, &[v, Val::from_int(5)], &global), None);
    assert_eq!(fault(Intrinsic::MapGet, &[v, Val::from_int(5)], &global), None);
    assert_eq!(call(Intrinsic::VectorGet, &[v], &mut global), Outcome::Failed(ErrorKind::BadArity));
    assert_eq!(
        call(Intrinsic::VectorGet, &[Val::from_int(1), Val::from_int(5)], &mut global),
        Outcome::Failed(ErrorKind::TypeError)
    );
}

#[test]
fn set_in_range_changes_the_stored_vector() {
    let mut global = Global::new();
    let v = vector_of(&mut global, &[1, 2, 3]);
    let set = [v, Val::from_int(1), Val::from_int(20)];
    assert_eq!(fault(Intrinsic::VectorSet, &set, &global), None);
    assert_eq!(vector_set(&set, &mut global), Outcome::Return(Val::nil(), false));
    for (index, expected) in [(0, 1), (1, 20), (2, 3)] {
        assert_eq!(
            call(Intrinsic::VectorGet, &[v, Val::from_int(index)], &mut global),
            Outcome::Return(Val::from_int(expected), false)
        );
    }
}
