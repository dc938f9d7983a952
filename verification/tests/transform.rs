use rx::Observable;
use rx::transform::Doubler;
use rx::transform::MapObservable;

#[test]
fn transform_map() {
    let values: &[u8] = &[2u8, 3, 5, 7, 11, 13];
    let expected = &[4u8, 6, 10, 14, 22, 26];
    let mut mapped = MapObservable::new(values, Doubler);
    let (observer, _sub) = mapped.subscribe_next();
    assert_eq!(&expected[..], &observer.received[..]);
}
