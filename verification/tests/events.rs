use mioco::{EventSet, RW};

#[test]
fn rw_kinds() {
    assert!(RW::Read.has_read() && !RW::Read.has_write());
    assert!(!RW::Write.has_read() && RW::Write.has_write());
    assert!(RW::Both.has_read() && RW::Both.has_write());
}

#[test]
fn event_sets_hold_what_they_are_made_of() {
    assert_eq!(
        EventSet::none(),
        EventSet { readable: false, writable: false, hup: false }
    );
    let set = EventSet::readable().union(EventSet::hup());
    assert!(set.is_readable() && !set.is_writable() && set.is_hup());
    let set = set.union(EventSet::writable());
    assert_eq!(set, EventSet { readable: true, writable: true, hup: true });
    assert_eq!(EventSet::none().union(EventSet::writable()), EventSet::writable());
}
