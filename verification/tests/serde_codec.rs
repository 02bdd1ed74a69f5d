use circ_buffer::RingBuffer;

/// Collects the elements the borrowing iterator yields, oldest first.
fn collect_refs<'a, T, const N: usize>(buffer: &'a RingBuffer<T, N>) -> Vec<&'a T> {
    let mut iter = buffer.iter();
    let mut out = Vec::new();
    while let Some(element) = iter.next() {
        out.push(element);
    }
    out
}

#[test]
fn test_serialize_full() {
    let mut circ_buffer = RingBuffer::<_, 4>::default();
    circ_buffer.push(1_u128);
    circ_buffer.push(2);
    circ_buffer.push(55);
    circ_buffer.push(12999);

    let serialized = serde_json::to_string(&circ_buffer.to_vec()).unwrap();
    assert_eq!(serialized, "[1,2,55,12999]");
}

#[test]
fn test_serialize_partially_filled() {
    let mut circ_buffer = RingBuffer::<_, 4>::default();
    circ_buffer.push(1_u128);
    circ_buffer.push(2);

    let serialized = serde_json::to_string(&circ_buffer.to_vec()).unwrap();
    assert_eq!(serialized, "[1,2]");
}

#[test]
fn test_deserialize_full() {
    let circ_buffer_string = "[-3,2,1023,-112]";
    let values: Vec<i16> = serde_json::de::from_str(circ_buffer_string).unwrap();
    let circ_buffer: RingBuffer<i16, 4> = RingBuffer::try_from_vec(values).unwrap();
    assert_eq!(collect_refs(&circ_buffer), vec![&-3, &2, &1023, &-112]);
}

#[test]
fn test_deserialize_partially_filled() {
    for i in 0..50 {
        let circ_buffer_values: Vec<i32> = (0..i).collect();
        let string = format!("{:?}", circ_buffer_values);
        let values: Vec<i32> = serde_json::de::from_str(&string).unwrap();
        let circ_buffer: RingBuffer<_, 100> = RingBuffer::try_from_vec(values).unwrap();
        assert_eq!(circ_buffer.to_vec(), circ_buffer_values);
    }
}

#[test]
#[should_panic]
fn test_deserialize_too_many_values() {
    let circ_buffer_values: Vec<usize> = (0..11).collect();
    let string = format!("{:?}", circ_buffer_values);
    println!("{}", string);
    let values: Vec<usize> = serde_json::de::from_str(&string).unwrap();
    let _circ_buffer: RingBuffer<usize, 10> = RingBuffer::try_from_vec(values).unwrap();
}
