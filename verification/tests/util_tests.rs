use std::collections::HashMap;
use std::time::Duration;

use search_utils::bisection_method::ExpandDirection;
use search_utils::common::{Invertible, Numeric, NumericNeg, NumericWithUnitValue};
use search_utils::pretty_print::PrettyPrint;
use search_utils::store::{Store, StoreData};
use search_utils::timeout::Timeout;
use search_utils::timer::Timer;

#[test]
fn test() {
    let map: HashMap<usize, usize> = [(2, 4), (3, 3), (1, 6), (5, 1)].into_iter().collect();
    println!("{}", map.pretty_print());
    assert_eq!(map.pretty_print(), "{ 1: 6, 2: 4, 3: 3, 5: 1 }");

    let map: HashMap<usize, usize> = [
        (2, 4),
        (3, 3),
        (1, 6),
        (5, 1),
        (13, 2),
        (52, 2),
        (123, 2),
        (4321, 5),
        (342432, 2),
        (42314, 1),
        (432, 2),
        (4, 234),
        (4235, 23),
        (752, 1),
        (32423, 2),
        (43214, 2),
        (453212, 23),
        (421, 2),
    ]
    .into_iter()
    .collect();
    println!("{}", map.pretty_print());
    assert_eq!(map.pretty_print(), "{       1: 6,       2: 4,       3: 3,     4: 234,       5: 1,      13: 2,      52: 2,     123: 2,     421: 2,     432: 2,     752: 1,   4235: 23
     4321: 5,   32423: 2,   42314: 1,   43214: 2,  342432: 2, 453212: 23 }");

    let vec: Vec<usize> = vec![
        2, 3, 1, 5, 13, 52, 123, 4321, 342432, 42314, 432, 4, 4235, 752, 32423, 43214, 453212,
        421, 1223, 253, 256, 7563, 24,
    ];
    println!("{}", vec.pretty_print());
    assert_eq!(vec.pretty_print(), "[      1,      2,      3,      4,      5,     13,     24,     52,    123,    253,    256,    421,    432,    752,   1223,   4235,   4321,   7563,  32423,  42314
   43214, 342432, 453212 ]");
}

#[derive(Default, Eq, PartialEq, Debug)]
struct A {
    b: u8,
    c: u8,
}

impl StoreData for A {
    fn serialized_spec(&self) -> Vec<u8> {
        vec![self.b, self.c]
    }

    fn parsed_spec(bytes: &[u8]) -> Option<Self> {
        let s = match bytes.len() {
            1 => Self { b: bytes[0], c: 0 },
            2 => Self {
                b: bytes[0],
                c: bytes[1],
            },
            _ => Self::default(),
        };
        Some(s)
    }

    fn serialize(&self) -> Vec<u8> {
        vec![self.b, self.c]
    }

    fn deserialize(bytes: &[u8]) -> std::io::Result<Self> {
        let s = match bytes.len() {
            1 => Self { b: bytes[0], c: 0 },
            2 => Self {
                b: bytes[0],
                c: bytes[1],
            },
            _ => Self::default(),
        };
        Ok(s)
    }
}

#[test]
fn test_write_read() {
    let mut store: Store<A> = Store::new(None).unwrap();
    let flushed = store.with_mut(|mut val| {
        assert_eq!(val, A::default());
        val.b = 10;
        val.c = 211;
        val
    });

    drop(store);

    let store: Store<A> = Store::new(Some(&flushed)).unwrap();
    store.with(|val| {
        assert_eq!(10, val.b);
        assert_eq!(211, val.c);
    })
}

#[test]
fn empty_collections_print_as_bare_brackets() {
    let vec: Vec<usize> = vec![];
    assert_eq!(vec.pretty_print(), "[]");
    let map: HashMap<usize, usize> = HashMap::new();
    assert_eq!(map.pretty_print(), "{}");
}

#[derive(Default, Eq, PartialEq, Debug)]
struct Strict(u8);

impl StoreData for Strict {
    fn serialized_spec(&self) -> Vec<u8> {
        vec![self.0]
    }

    fn parsed_spec(bytes: &[u8]) -> Option<Self> {
        if bytes.len() == 1 {
            Some(Strict(bytes[0]))
        } else {
            None
        }
    }

    fn serialize(&self) -> Vec<u8> {
        vec![self.0]
    }

    fn deserialize(bytes: &[u8]) -> std::io::Result<Self> {
        if bytes.len() == 1 {
            Ok(Strict(bytes[0]))
        } else {
            Err(std::io::Error::new(
                std::io::ErrorKind::InvalidData,
                "expected exactly one byte",
            ))
        }
    }
}

#[test]
fn store_rejects_malformed_saved_bytes() {
    let result: std::io::Result<Store<Strict>> = Store::new(Some(&[1, 2, 3]));
    assert!(result.is_err());
    let fresh: Store<Strict> = Store::new(None).unwrap();
    fresh.with(|val| assert_eq!(*val, Strict(0)));
}

#[test]
fn should_update_value() {
    let mut value = 0i32;
    {
        let _timer = Timer::start(|_| {
            value = 1;
        });
    }
    assert_eq!(value, 1);
}

#[test]
fn fresh_timeout_is_not_done() {
    let timeout = Timeout::start(Duration::from_secs(120));
    assert!(!timeout.is_done());
}

#[test]
fn restart_rearms_the_timeout() {
    let mut timeout = Timeout::start(Duration::from_secs(120));
    timeout.restart();
    assert!(!timeout.is_done());
}

#[test]
fn saturating_plus_stops_at_the_bounds() {
    assert_eq!(2i32.plus(3), 5);
    assert_eq!(i32::MAX.plus(1), i32::MAX);
    assert_eq!(i32::MIN.plus(-1), i32::MIN);
    assert_eq!(u64::MAX.plus(7), u64::MAX);
    assert_eq!(0u64.plus(9), 9);
    assert_eq!(<i64 as Numeric>::zero(), 0);
}

#[test]
fn le_orders_costs() {
    assert!(3i32.le(3));
    assert!((-5i32).le(2));
    assert!(!7u32.le(2));
}

#[test]
fn invert_truncates_to_the_unit_cases() {
    assert_eq!(1i32.invert(), 1);
    assert_eq!((-1i32).invert(), -1);
    assert_eq!(5i32.invert(), 0);
    assert_eq!(1u64.invert(), 1);
    assert_eq!(7u64.invert(), 0);
}

#[test]
fn neg_saturates_at_the_extreme() {
    assert_eq!(5i32.neg(), -5);
    assert_eq!((-5i64).neg(), 5);
    assert_eq!(i32::MIN.neg(), i32::MAX);
}

#[test]
fn unit_is_one() {
    assert_eq!(<i32 as NumericWithUnitValue>::unit(), 1);
    assert_eq!(<usize as NumericWithUnitValue>::unit(), 1);
}

#[test]
fn expand_direction_variants_are_distinct() {
    assert_ne!(ExpandDirection::Neither, ExpandDirection::Left);
    assert_ne!(ExpandDirection::Left, ExpandDirection::Right);
    assert_eq!(ExpandDirection::Right, ExpandDirection::Right);
}
