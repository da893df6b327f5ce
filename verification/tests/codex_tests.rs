use expl::codex::{Codex, Id};

#[derive(Debug)]
struct MenuItem {
    value: u32,
    text: String,
}

impl MenuItem {
    pub fn new(value: u32) -> Self {
        Self {
            value,
            text: String::from("standard text"),
        }
    }
}

#[test]
fn id_equals() {
    let id: Id<MenuItem> = Id::from_tag("spam");

    assert_eq!(id, Id::from_tag("spam"));
    assert_ne!(id, Id::from_tag("egg"));
}

#[test]
fn codex_from_iter() {
    let spam: Id<MenuItem> = Id::from_tag("spam");
    let codex: Codex<MenuItem> = Codex::from_iter(vec![
        ("spam", MenuItem::new(10)),
        ("bacon", MenuItem::new(11)),
        ("spam", MenuItem::new(12)),
        ("spam", MenuItem::new(13)),
        ("egg", MenuItem::new(14)),
    ]);

    assert_eq!(codex[&spam].value, 13);
}

#[test]
fn codex_build() {
    let spam: Id<MenuItem> = Id::from_tag("spam");
    let codex: Codex<MenuItem> = Codex::builder_with_capacity(0)
        .add("spam", MenuItem::new(10))
        .add("bacon", MenuItem::new(11))
        .build();

    assert_eq!(codex[&spam].value, 10);
    assert_eq!(codex[&Id::from_tag("bacon")].value, 11);
    assert_eq!(codex[&spam].text, "standard text");
}

#[test]
fn tag_hash_values() {
    let empty: Id<MenuItem> = Id::from_tag("");
    assert_eq!(empty.value, 0);
    let a: Id<MenuItem> = Id::from_tag("a");
    assert_eq!(a.value, 98);
    let ab: Id<MenuItem> = Id::from_tag("ab");
    assert_eq!(ab.value, 98 + 99 * 53);
    assert_eq!(Id::<MenuItem>::hash_bytes(b"ab"), 98 + 99 * 53);
    assert_eq!(Id::<MenuItem>::new(7).value, 7);
    assert_eq!(Id::<MenuItem>::default().value, 0);
}

#[test]
fn codex_iter_and_lookup() {
    let codex: Codex<MenuItem> = Codex::from_iter(vec![("spam", MenuItem::new(1)), ("egg", MenuItem::new(2))]);
    let pairs = codex.iter();
    assert_eq!(pairs.len(), 2);
    let mut values: Vec<u32> = pairs.iter().map(|(_, e)| e.value).collect();
    values.sort();
    assert_eq!(values, vec![1, 2]);
    assert!(codex.contains(&Id::from_tag("egg")));
    assert!(!codex.contains(&Id::from_tag("bacon")));
    assert_eq!(codex.get(&Id::from_tag("egg")).value, 2);
}
