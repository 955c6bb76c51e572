use geiger::counters::{Count, CounterBlock};

#[test]
fn count_adds_component_wise() {
    let a = Count { safe: 1, unsafe_: 2 };
    let b = Count { safe: 10, unsafe_: 20 };
    assert_eq!(a.add(b), Count { safe: 11, unsafe_: 22 });
}

#[test]
fn empty_block_has_no_unsafe() {
    assert!(!CounterBlock::default().has_unsafe());
}
