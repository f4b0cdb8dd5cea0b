use dynners::http::{Response, BODY_LIMIT};
use dynners::util::FixedVec;

#[test]
fn fixed_vec() {
    let mut vec = FixedVec::<u32, 2>::new();
    assert!(vec.push(10).is_none());
    assert!(vec.push(20).is_none());
    assert!(!vec.push(30).is_none());

    assert!(vec.get(0).is_some());
    assert!(vec.get(1).is_some());
    assert!(!vec.get(2).is_some());
    assert!(!vec.get(12345678).is_some());

    assert_eq!(vec.as_slice().len(), 2);

    let mut vec = FixedVec::<u32, 2>::new();
    assert_eq!(vec.as_slice().len(), 0);
    assert!(vec.push(10).is_none());
    assert_eq!(vec.as_slice().len(), 1);
    assert!(vec.push(20).is_none());
    assert_eq!(vec.as_slice().len(), 2);
    assert!(!vec.push(30).is_none());
    assert_eq!(vec.as_slice().len(), 2);
}

#[test]
fn fixed_vec_keeps_order() {
    let mut vec = FixedVec::<u32, 3>::new();
    vec.push(5);
    vec.push(6);
    assert_eq!(vec.as_slice(), &[5, 6]);
    assert_eq!(vec.get(1), Some(&6));
}

#[test]
fn response_text() {
    let r = Response { body: b"good 1.2.3.4".to_vec() };
    assert_eq!(r.into_string(), Ok("good 1.2.3.4".to_string()));
    let r = Response { body: vec![0xff] };
    assert!(r.into_string().is_err());
    let mut big = vec![b'a'; BODY_LIMIT];
    big.extend_from_slice(&[0xff, 0xff]);
    assert_eq!(Response { body: big }.into_string().map(|s| s.len()), Ok(BODY_LIMIT));
}
