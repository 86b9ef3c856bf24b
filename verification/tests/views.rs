use eval_wasm::ptr::{Readable, Writable};

#[test]
fn shared_slice_reads_by_offset() {
    let data = [10u32, 20, 30];
    let view: &[u32] = &data;
    assert_eq!(view.read(0), 10);
    assert_eq!(view.read(1), 20);
    assert_eq!(view.read(2), 30);
}

#[test]
fn exclusive_slice_reads_by_offset() {
    let mut data = [true, false, true];
    let view: &mut [bool] = &mut data;
    assert!(view.read(0));
    assert!(!view.read(1));
    assert!(view.read(2));
}

#[test]
fn exclusive_slice_writes_by_offset() {
    let mut data = [1u8, 2, 3, 4];
    {
        let mut view: &mut [u8] = &mut data;
        view.write(2, 9);
        assert_eq!(view.read(2), 9);
        view.write(0, 7);
    }
    assert_eq!(data, [7, 2, 9, 4]);
}

#[test]
fn write_then_read_round_trips_on_tuples() {
    let mut data = vec![(0usize, 0usize, 0usize, 0usize); 3];
    let mut view: &mut [(usize, usize, usize, usize)] = &mut data;
    view.write(1, (1, 2, 3, 4));
    assert_eq!(view.read(1), (1, 2, 3, 4));
    assert_eq!(view.read(0), (0, 0, 0, 0));
    assert_eq!(view.read(2), (0, 0, 0, 0));
}
