use std::cell::RefCell;
use std::rc::Rc;

#[test]
fn duplicate_equals_source_and_owns_its_storage() {
    let x: Vec<u32> = vec![1, 2, 3];
    let mut y: Vec<u32> = dyn_clone::clone(&x);
    assert_eq!(x, y);
    // the duplicate owns its storage: growing it leaves the source alone
    y.push(4);
    assert_eq!(x, vec![1, 2, 3]);
    assert_eq!(y, vec![1, 2, 3, 4]);

    let n: u32 = 5;
    assert_eq!(dyn_clone::clone(&n), 5);
}

trait Describe {
    fn describe(&self) -> &'static str;
}

#[derive(Clone)]
struct Circle;

impl Describe for Circle {
    fn describe(&self) -> &'static str {
        "circle"
    }
}

#[derive(Clone)]
struct Square;

impl Describe for Square {
    fn describe(&self) -> &'static str {
        "square"
    }
}

fn describe_source_and_duplicate<T: Describe + Clone>(t: &T) -> (&'static str, &'static str) {
    let duplicate = dyn_clone::clone_box(t);
    (t.describe(), duplicate.describe())
}

#[test]
fn duplicated_handle_dispatches_to_the_source_type() {
    assert_eq!(describe_source_and_duplicate(&Circle), ("circle", "circle"));
    assert_eq!(describe_source_and_duplicate(&Square), ("square", "square"));
}

#[derive(Clone)]
struct Holder {
    shared: Rc<u32>,
}

#[test]
fn duplication_shares_counted_subresources_one_for_one() {
    let shared = Rc::new(7u32);
    let holder = Holder { shared: Rc::clone(&shared) };
    assert_eq!(Rc::strong_count(&shared), 2);

    let duplicate = dyn_clone::clone(&holder);
    assert_eq!(Rc::strong_count(&shared), 3);
    let boxed = dyn_clone::clone_box(&holder);
    assert_eq!(Rc::strong_count(&shared), 4);

    drop(boxed);
    assert_eq!(Rc::strong_count(&shared), 3);
    drop(duplicate);
    assert_eq!(Rc::strong_count(&shared), 2);
    assert_eq!(*holder.shared, 7);
}

struct Traced {
    id: u32,
    releases: Rc<RefCell<Vec<u32>>>,
}

impl Clone for Traced {
    fn clone(&self) -> Traced {
        Traced { id: self.id + 100, releases: Rc::clone(&self.releases) }
    }
}

impl Drop for Traced {
    fn drop(&mut self) {
        self.releases.borrow_mut().push(self.id);
    }
}

#[test]
fn destruction_order_is_not_imposed_by_duplication() {
    // duplicate first, destroy the duplicate before the original
    let releases = Rc::new(RefCell::new(Vec::new()));
    let original = Traced { id: 1, releases: Rc::clone(&releases) };
    let duplicate = dyn_clone::clone(&original);
    drop(duplicate);
    drop(original);
    assert_eq!(*releases.borrow(), vec![101, 1]);

    // same duplication, destroying the original first
    let releases = Rc::new(RefCell::new(Vec::new()));
    let original = Traced { id: 2, releases: Rc::clone(&releases) };
    let duplicate = dyn_clone::clone(&original);
    drop(original);
    drop(duplicate);
    assert_eq!(*releases.borrow(), vec![2, 102]);
}

struct Numbered {
    id: u32,
    releases: Rc<RefCell<Vec<u32>>>,
}

impl Clone for Numbered {
    fn clone(&self) -> Numbered {
        Numbered { id: self.id + 1, releases: Rc::clone(&self.releases) }
    }
}

impl Drop for Numbered {
    fn drop(&mut self) {
        self.releases.borrow_mut().push(self.id);
    }
}

trait Identified {
    fn ident(&self) -> u32;
}

impl Identified for Numbered {
    fn ident(&self) -> u32 {
        self.id
    }
}

fn duplicate_through_interface<T: Identified + Clone>(handle: &T) -> Box<T> {
    dyn_clone::clone_box(handle)
}

#[test]
fn end_to_end_identifier_and_release_order() {
    let releases = Rc::new(RefCell::new(Vec::new()));
    let original = Numbered { id: 11, releases: Rc::clone(&releases) };

    let duplicate = duplicate_through_interface(&original);
    assert_eq!(original.ident(), 11);
    assert_eq!(duplicate.ident(), 12);

    drop(duplicate);
    drop(original);
    assert_eq!(*releases.borrow(), vec![12, 11]);
}
