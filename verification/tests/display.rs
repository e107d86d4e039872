use named_registry::display::{debug, display};
use named_registry::{Id, Name, Registry};

#[derive(Debug, Clone, Copy, PartialEq, Eq)]
struct Slot(usize);

impl Id for Slot {
    fn from_index(index: usize) -> Self {
        Slot(index)
    }

    fn to_index(self) -> usize {
        self.0
    }
}

fn sample() -> Registry<Slot, u8> {
    let mut registry = Registry::new();
    registry.add_anonymous(0);
    registry
        .add_named(Name::from_static("asset:player"), 1)
        .unwrap();
    registry
}

#[test]
fn display_shows_the_qualified_name() {
    assert_eq!(display(Slot(1), &sample()), "asset:player");
}

#[test]
fn display_shows_the_index_where_there_is_no_name() {
    let registry = sample();
    assert_eq!(display(Slot(0), &registry), "unknown(0)");
    assert_eq!(display(Slot(2), &registry), "unknown(2)");
    assert_eq!(display(Slot(9), &registry), "unknown(9)");
    assert_eq!(display(Slot(10), &registry), "unknown(10)");
    assert_eq!(display(Slot(12), &registry), "unknown(12)");
    assert_eq!(display(Slot(100), &registry), "unknown(100)");
    assert_eq!(display(Slot(9_876_543_210), &registry), "unknown(9876543210)");
    assert_eq!(
        display(Slot(usize::MAX), &registry),
        format!("unknown({})", usize::MAX)
    );
}

#[test]
fn display_writes_every_index_as_std_does() {
    let registry = Registry::<Slot, u8>::new();
    for index in (0..3000).chain([65_535, 65_536, 1_000_000, 4_294_967_295]) {
        assert_eq!(display(Slot(index), &registry), format!("unknown({index})"));
    }
}

#[test]
fn debug_puts_the_label_in_front() {
    let registry = sample();
    assert_eq!(debug("Slot", Slot(1), &registry), "Slot(asset:player)");
    assert_eq!(debug("Slot", Slot(0), &registry), "Slot(unknown(0))");
    assert_eq!(debug("a::b::Slot", Slot(42), &registry), "a::b::Slot(unknown(42))");
    assert_eq!(debug("", Slot(7), &registry), "(unknown(7))");
}
