use named_registry::{Id, Name, Registry};

#[derive(Debug, Clone, Copy, PartialEq, Eq)]
struct MyId(u8);

impl Id for MyId {
    fn from_index(index: usize) -> Self {
        MyId(index as u8)
    }

    fn to_index(self) -> usize {
        self.0 as usize
    }
}

#[derive(Debug, Clone, Copy, PartialEq, Eq)]
struct Wide(usize);

impl Id for Wide {
    fn from_index(index: usize) -> Self {
        Wide(index)
    }

    fn to_index(self) -> usize {
        self.0
    }
}

fn name(text: &'static str) -> Name {
    Name::from_static(text)
}

#[test]
fn test_registry() {
    let mut registry = Registry::<MyId, bool>::new();

    assert_eq!(registry.add_anonymous(true), MyId(0));
    assert!(*registry.get(MyId(0)) == true);
    assert_eq!(
        registry.add_named(Name::from_static("test:name"), false),
        Ok(MyId(1))
    );
    assert_eq!(registry.find(&Name::from_static("test:name")), Some(MyId(1)));
    assert!(!registry.contains(&Name::from_static("test:other")));
    assert!(registry.contains(&Name::from_static("test:name")));
    assert_eq!(*registry.get(MyId(1)), false);
    assert!(registry
        .add_named(Name::from_static("test:name"), true)
        .is_err());
}

#[test]
fn end_to_end() {
    let mut registry = Registry::<MyId, bool>::new();
    assert_eq!(registry.add_anonymous(true), MyId(0));
    assert_eq!(registry.add_named(name("test:name"), false), Ok(MyId(1)));
    assert_eq!(registry.find(&name("test:name")), Some(MyId(1)));
    assert!(!registry.contains(&name("test:other")));
    assert!(registry.contains(&name("test:name")));
    assert_eq!(*registry.get(MyId(1)), false);
    assert_eq!(registry.add_named(name("test:name"), true), Err(name("test:name")));
    assert_eq!(registry.entries().len(), 2);
}

#[test]
fn new_registry_is_empty() {
    let registry = Registry::<Wide, u32>::new();
    assert!(registry.entries().is_empty());
    assert!(registry.iter().is_empty());
    assert!(!registry.contains(&name("test:name")));
    assert_eq!(registry.find(&name("test:name")), None);
    assert_eq!(registry.get_name(Wide(0)), None);

    let by_default: Registry<Wide, u32> = Default::default();
    assert!(by_default.entries().is_empty());
}

#[test]
fn handles_count_up_from_zero() {
    let mut registry = Registry::<Wide, usize>::new();
    for index in 0..50 {
        let id = if index % 3 == 0 {
            let text = format!("item:n{index}");
            registry
                .add_named(Name::new(&text).unwrap(), index * 10)
                .unwrap()
        } else {
            registry.add_anonymous(index * 10)
        };
        assert_eq!(id, Wide(index));
        assert_eq!(id.to_index(), index);
        assert_eq!(*registry.get(id), index * 10);
        assert_eq!(registry.entries().len(), index + 1);
    }
    for index in 0..50 {
        assert_eq!(*registry.get(Wide(index)), index * 10);
    }
}

#[test]
fn rejected_name_comes_back_and_nothing_changes() {
    let mut registry = Registry::<Wide, char>::new();
    assert_eq!(registry.add_named(name("kind:first"), 'a'), Ok(Wide(0)));
    assert_eq!(registry.add_named(name("kind:second"), 'b'), Ok(Wide(1)));

    let rejected = registry.add_named(name("kind:first"), 'c');
    assert_eq!(rejected, Err(name("kind:first")));
    assert_eq!(registry.entries().len(), 2);
    assert_eq!(*registry.get(Wide(0)), 'a');
    assert_eq!(*registry.get(Wide(1)), 'b');
    assert_eq!(registry.find(&name("kind:first")), Some(Wide(0)));

    assert_eq!(registry.add_named(name("kind:third"), 'c'), Ok(Wide(2)));
    assert_eq!(registry.entries().len(), 3);
}

#[test]
fn found_handle_leads_back_to_name_and_value() {
    let mut registry = Registry::<Wide, &'static str>::new();
    registry.add_anonymous("nobody");
    registry.add_named(name("pet:cat"), "meow").unwrap();
    registry.add_anonymous("nothing");
    registry.add_named(name("pet:dog"), "woof").unwrap();

    for (text, value) in [("pet:cat", "meow"), ("pet:dog", "woof")] {
        let wanted = Name::new(text).unwrap();
        let id = registry.find(&wanted).unwrap();
        assert_eq!(registry.get_name(id), Some(&wanted));
        assert_eq!(*registry.get(id), value);
    }
    assert_eq!(registry.find(&name("pet:cat")), Some(Wide(1)));
    assert_eq!(registry.find(&name("pet:dog")), Some(Wide(3)));
    assert_eq!(registry.find(&name("pet:cow")), None);
    assert_eq!(registry.find(&name("cat:pet")), None);
}

#[test]
fn get_name_is_absent_without_a_name_or_an_entry() {
    let mut registry = Registry::<Wide, u8>::new();
    registry.add_anonymous(1);
    registry.add_named(name("some:name"), 2).unwrap();
    assert_eq!(registry.get_name(Wide(0)), None);
    assert_eq!(registry.get_name(Wide(1)), Some(&name("some:name")));
    assert_eq!(registry.get_name(Wide(2)), None);
    assert_eq!(registry.get_name(Wide(usize::MAX)), None);
}

#[test]
fn try_get_is_absent_where_the_handle_points_at_no_entry() {
    let mut registry = Registry::<Wide, u8>::new();
    assert_eq!(registry.try_get(Wide(0)), None);
    registry.add_anonymous(1);
    registry.add_named(name("some:name"), 2).unwrap();
    assert_eq!(registry.try_get(Wide(0)), Some(&1));
    assert_eq!(registry.try_get(Wide(1)), Some(&2));
    assert_eq!(registry.try_get(Wide(2)), None);
    assert_eq!(registry.try_get(Wide(usize::MAX)), None);
}

#[test]
fn initializer_gets_the_handle_of_its_entry() {
    let mut registry = Registry::<Wide, (Wide, u8)>::new();
    let first = registry.add_anonymous_with(|id| (id, 7));
    assert_eq!(first, Wide(0));
    assert_eq!(*registry.get(first), (Wide(0), 7));

    let second = registry.add_named_with(name("self:aware"), |id| (id, 8));
    assert_eq!(second, Ok(Wide(1)));
    assert_eq!(*registry.get(Wide(1)), (Wide(1), 8));
    assert_eq!(registry.find(&name("self:aware")), Some(Wide(1)));

    let third = registry.add_anonymous_with(|id| (id, 9));
    assert_eq!(third, Wide(2));
    assert_eq!(*registry.get(third), (Wide(2), 9));
}

#[test]
fn initializer_is_not_called_for_a_rejected_name() {
    let mut registry = Registry::<Wide, u8>::new();
    registry.add_named(name("taken:name"), 1).unwrap();
    let mut calls = 0;
    let rejected = registry.add_named_with(name("taken:name"), |_| {
        calls += 1;
        2
    });
    assert_eq!(rejected, Err(name("taken:name")));
    assert_eq!(calls, 0);
    assert_eq!(registry.entries().len(), 1);
    assert_eq!(*registry.get(Wide(0)), 1);

    let accepted = registry.add_named_with(name("free:name"), |_| {
        calls += 1;
        3
    });
    assert_eq!(accepted, Ok(Wide(1)));
    assert_eq!(calls, 1);
}

#[test]
fn iter_walks_the_entries_in_insertion_order() {
    let mut registry = Registry::<Wide, i32>::new();
    registry.add_named(name("n:one"), 1).unwrap();
    registry.add_anonymous(2);
    registry.add_named(name("n:three"), 3).unwrap();

    let one = name("n:one");
    let three = name("n:three");
    let items = registry.iter();
    assert_eq!(
        items,
        vec![
            (Wide(0), Some(&one), &1),
            (Wide(1), None, &2),
            (Wide(2), Some(&three), &3),
        ]
    );
    assert_eq!(registry.iter(), items);
}

#[test]
fn entries_are_the_stored_pairs() {
    let mut registry = Registry::<Wide, i32>::new();
    registry.add_anonymous(5);
    registry.add_named(name("n:six"), 6).unwrap();
    assert_eq!(registry.entries(), &vec![(None, 5), (Some(name("n:six")), 6)]);
}

#[test]
fn from_entries_assigns_handles_by_position() {
    let entries = vec![
        (Some(name("n:zero")), 'a'),
        (None, 'b'),
        (Some(name("n:two")), 'c'),
    ];
    let mut registry = Registry::<Wide, char>::from_entries(entries);
    assert_eq!(registry.entries().len(), 3);
    assert_eq!(registry.find(&name("n:zero")), Some(Wide(0)));
    assert_eq!(registry.find(&name("n:two")), Some(Wide(2)));
    assert_eq!(registry.find(&name("n:one")), None);
    assert!(registry.contains(&name("n:two")));
    assert_eq!(*registry.get(Wide(1)), 'b');
    assert_eq!(registry.get_name(Wide(2)), Some(&name("n:two")));

    assert_eq!(registry.add_named(name("n:zero"), 'd'), Err(name("n:zero")));
    assert_eq!(registry.add_anonymous('e'), Wide(3));
    assert_eq!(registry.add_named(name("n:four"), 'f'), Ok(Wide(4)));
}

#[test]
fn from_entries_lets_the_last_of_equal_names_win() {
    let entries = vec![
        (Some(name("n:twice")), 1),
        (Some(name("n:once")), 2),
        (Some(name("n:twice")), 3),
    ];
    let registry = Registry::<Wide, i32>::from_entries(entries);
    assert_eq!(registry.find(&name("n:twice")), Some(Wide(2)));
    assert_eq!(registry.find(&name("n:once")), Some(Wide(1)));
    assert_eq!(*registry.get(Wide(0)), 1);
    assert_eq!(registry.get_name(Wide(0)), Some(&name("n:twice")));
    assert_eq!(*registry.get(Wide(2)), 3);
}

#[test]
fn from_entries_of_nothing_is_empty() {
    let registry = Registry::<Wide, i32>::from_entries(Vec::new());
    assert!(registry.entries().is_empty());
    assert_eq!(registry.find(&name("n:any")), None);
}

#[test]
fn clone_keeps_names_values_and_lookups() {
    let mut registry = Registry::<Wide, String>::new();
    registry.add_named(name("n:one"), "one".to_string()).unwrap();
    registry.add_anonymous("two".to_string());
    let mut copy = registry.clone();
    assert_eq!(copy.entries(), registry.entries());
    assert_eq!(copy.find(&name("n:one")), Some(Wide(0)));
    assert_eq!(*copy.get(Wide(1)), "two");

    copy.add_named(name("n:three"), "three".to_string()).unwrap();
    assert_eq!(copy.entries().len(), 3);
    assert_eq!(registry.entries().len(), 2);
    assert!(!registry.contains(&name("n:three")));
}

#[test]
fn narrow_handles_wrap_around() {
    let mut registry = Registry::<MyId, usize>::new();
    for index in 0..256 {
        assert_eq!(registry.add_anonymous(index), MyId(index as u8));
    }
    assert_eq!(registry.add_named(name("n:late"), 256), Ok(MyId(0)));
    assert_eq!(registry.find(&name("n:late")), Some(MyId(0)));
    assert_eq!(registry.get_name(MyId(0)), None);
    assert_eq!(*registry.get(MyId(0)), 0);
    assert_eq!(registry.entries().len(), 257);
}
