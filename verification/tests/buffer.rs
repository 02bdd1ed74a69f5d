use circ_buffer::RingBuffer;

/// Collects the elements the borrowing iterator yields, oldest first.
fn collect_refs<'a, T, const N: usize>(buffer: &'a RingBuffer<T, N>) -> Vec<&'a T> {
    let mut iter = buffer.iter();
    let mut out = Vec::new();
    while let Some(element) = iter.next() {
        out.push(element);
    }
    out
}

#[test]
fn test_pushing_full() {
    let mut circ_buffer = RingBuffer::<_, 12>::default();
    for i in 0..100 {
        circ_buffer.push(i);
        let elements = collect_refs(&circ_buffer);
        assert_eq!(elements.last().copied(), Some(&i));
        println!("{i}");
    }
}

#[test]
fn test_pushing_overflow() {
    let mut circ_buffer = RingBuffer::<_, 4>::default();
    circ_buffer.push("ce");
    assert_eq!(collect_refs(&circ_buffer), vec![&"ce"]);
    circ_buffer.push("ll");
    assert_eq!(collect_refs(&circ_buffer), vec![&"ce", &"ll"]);
    circ_buffer.push("ular");
    assert_eq!(collect_refs(&circ_buffer), vec![&"ce", &"ll", &"ular"]);
    circ_buffer.push(" ");
    assert_eq!(collect_refs(&circ_buffer), vec![&"ce", &"ll", &"ular", &" "]);
    circ_buffer.push("raza");
    assert_eq!(collect_refs(&circ_buffer), vec![&"ll", &"ular", &" ", &"raza"]);
}

#[test]
fn test_clone_full() {
    let mut circ_buffer = RingBuffer::<_, 4>::default();
    circ_buffer.push(1_usize);
    circ_buffer.push(2);
    circ_buffer.push(3);
    circ_buffer.push(4);
    let new_circ_buffer = circ_buffer.clone();
    assert_eq!(collect_refs(&circ_buffer), collect_refs(&new_circ_buffer));
}

#[test]
fn test_clone_partial() {
    let mut circ_buffer = RingBuffer::<_, 87>::default();
    for i in 0..100 {
        circ_buffer.push(i);
        let new_circ_buffer = circ_buffer.clone();
        assert_eq!(collect_refs(&circ_buffer), collect_refs(&new_circ_buffer));
    }
}

struct S(#[allow(unused)] i32, std::rc::Rc<std::cell::Cell<i32>>);

impl Drop for S {
    fn drop(&mut self) {
        self.1.set(self.1.get() + 1);
    }
}

#[test]
fn test_drop_valid() {
    let counter = std::rc::Rc::new(std::cell::Cell::new(0));
    let mut circ_buffer = RingBuffer::<_, 234>::new();
    circ_buffer.push(S(5, counter.clone()));
    circ_buffer.push(S(2, counter.clone()));
    circ_buffer.push(S(11, counter.clone()));
    circ_buffer.push(S(87, counter.clone()));
    drop(circ_buffer);
    assert_eq!(counter.get(), 4);
}

#[test]
fn test_miri_push_drop_valid() {
    let mut ring_buffer = RingBuffer::<String, 2>::new();
    ring_buffer.push(format!("some string"));
    ring_buffer.push(format!("this has something"));
    ring_buffer.push(format!("this should drop the first string"));
    ring_buffer.push(format!("this should drop the second string"));
}

#[test]
fn test_miri_iter_valid() {
    let mut ring_buffer = RingBuffer::<Vec<u8>, 8>::new();
    ring_buffer.push(vec![1, 2, 3]);
    ring_buffer.push(vec![128, 00, 3]);
    ring_buffer.push(vec![87, 3, 0, 1]);
    ring_buffer.push(vec![36, 048, 5, 20, 40]);
    ring_buffer.push(vec![16, 40, 3, 5, 3]);
    for e in collect_refs(&ring_buffer) {
        println!("{:?}", e);
    }
}

#[test]
fn test_empty_circ_buffer() {
    let mut ring_buffer = RingBuffer::<&str, 0>::new();
    ring_buffer.push("I am a dog");
    ring_buffer.push("I was a dog");
    for _ in collect_refs(&ring_buffer) {
        panic!("This should not be called since the loop is empty");
    }
}
