use apache_beam::elem_types::KV;
use apache_beam::internals::serialize::{get_do_fn, get_extractor, ObjectRegistry};
use apache_beam::transforms::group_by_key::{DynamicKeyExtractor, GroupByKey, KeyExtractor};
use apache_beam::transforms::pardo::{DoFn, ParDo};
use apache_beam::transforms::testing::{sorted_copy, AssertEqualUnordered};

#[test]
fn registry_names_objects_in_order() {
    let mut reg: ObjectRegistry<u64> = ObjectRegistry::new();
    assert_eq!(reg.store(10), "object0");
    assert_eq!(reg.store(20), "object1");
    assert_eq!(reg.len(), 2);
    assert_eq!(reg.get("object1"), Some(&20));
    assert_eq!(reg.get("object2"), None);
}

#[test]
fn par_do_from_map() {
    let mut reg = ObjectRegistry::new();
    let pardo = ParDo::from_map(&mut reg, |x: &u64| *x * 2);
    let spec = pardo.expand_spec();
    assert_eq!(spec.urn, "beam:transform:pardo:v1");
    assert_eq!(spec.payload, b"object0".to_vec());
    let do_fn = get_do_fn(&reg, "object0").unwrap();
    assert_eq!(do_fn.process(&21), vec![42]);
}

#[test]
fn par_do_from_flat_map() {
    let mut reg = ObjectRegistry::new();
    let twice: fn(&u64) -> Vec<u64> = |x: &u64| vec![*x; 2];
    let below: fn(&u64) -> Vec<u64> = |x: &u64| (0..*x).collect::<Vec<u64>>();
    ParDo::from_flat_map(&mut reg, twice);
    let second = ParDo::from_flat_map(&mut reg, below);
    assert_eq!(second.expand_spec().payload, b"object1".to_vec());
    assert_eq!(reg.get("object0").unwrap().process(&7), vec![7, 7]);
    assert_eq!(reg.get("object1").unwrap().process(&3), vec![0, 1, 2]);
    assert!(reg.get("object1").unwrap().process(&0).is_empty());
}

#[test]
fn group_by_key_groups_in_order() {
    let mut extractors = ObjectRegistry::new();
    let gbk = GroupByKey::new(&mut extractors, KeyExtractor::<u64>::new());
    let spec = gbk.expand_spec();
    assert_eq!(spec.urn, "beam:transform:group_by_key:v1");
    assert_eq!(spec.payload, b"object0".to_vec());

    let ke = get_extractor(&extractors, "object0").unwrap();
    let mut groups = ke.new_grouped_values();
    ke.extract(KV::new("a".to_string(), 1), &mut groups);
    ke.extract(KV::new("b".to_string(), 2), &mut groups);
    ke.extract(KV::new("a".to_string(), 3), &mut groups);
    assert_eq!(groups.len(), 2);
    let out = ke.recombine(&groups);
    assert_eq!(
        out,
        vec![KV::new("a".to_string(), vec![1, 3]), KV::new("b".to_string(), vec![2])]
    );
    ke.clear_grouped_values(&mut groups);
    assert_eq!(groups.len(), 0);
    assert!(ke.recombine(&groups).is_empty());
}

#[test]
fn assert_equal_unordered_ignores_order_and_nones() {
    let check = AssertEqualUnordered::new(&[3, 1, 2, 1]);
    assert!(check.matches(&[Some(1), None, Some(2), Some(1), Some(3)]));
    assert!(!check.matches(&[Some(1), Some(2), Some(3)]));
    assert!(!check.matches(&[Some(1), Some(2), Some(3), Some(3)]));
    assert!(AssertEqualUnordered::new(&[]).matches(&[None]));
}

#[test]
fn sorted_copy_sorts() {
    assert_eq!(sorted_copy(&[5, 3, 9, 3, 0]), vec![0, 3, 3, 5, 9]);
    assert!(sorted_copy(&[]).is_empty());
}

#[test]
fn kv_orders_by_key_then_value() {
    assert!(KV::new(1u64, 9u64) < KV::new(2u64, 0u64));
    assert!(KV::new(1u64, 1u64) < KV::new(1u64, 2u64));
    assert_eq!(KV::new(1u64, 2u64), KV::new(1u64, 2u64));
    assert_eq!(*KV::new("k".to_string(), 5u64).as_values(), 5);
}
