use image_effects::bytes::{move_chunk, reverse_bytes, swap_chunks};
use image_effects::corrupt::{
    Accelerate, Corruption, Entropy, Increment, Loop, PartialCorrupt, Reverse, Shift, Shuffle,
    Swap, Voidout,
};
use image_effects::databend;
use image_effects::databend::{BendGlobal, BendLocal};
use image_effects::utils::{
    get_dimensions_of_matrix, map_to_2d, process_range, sq_u8, sum, Edge,
};

fn digits() -> Vec<u8> {
    vec![0, 1, 2, 3, 4, 5, 6, 7, 8, 9]
}

#[test]
fn reverse_bytes_in_place() {
    let mut bytes = digits();
    reverse_bytes(&mut bytes);
    assert_eq!(bytes, vec![9, 8, 7, 6, 5, 4, 3, 2, 1, 0]);
    let mut odd = vec![1, 2, 3];
    reverse_bytes(&mut odd);
    assert_eq!(odd, vec![3, 2, 1]);
    let mut empty: Vec<u8> = vec![];
    reverse_bytes(&mut empty);
    assert!(empty.is_empty());
}

#[test]
fn swap_chunks_exchanges() {
    let mut bytes = digits();
    swap_chunks(&mut bytes, 1, 6, 3);
    assert_eq!(bytes, vec![0, 6, 7, 8, 4, 5, 1, 2, 3, 9]);
}

#[test]
fn move_chunk_right_and_left() {
    let mut bytes = vec![1, 2, 3, 4, 5, 6, 7, 8, 9];
    move_chunk(&mut bytes, 3, 6, 1);
    assert_eq!(bytes, vec![1, 4, 5, 6, 2, 3, 7, 8, 9]);
    move_chunk(&mut bytes, 3, 6, 6);
    assert_eq!(bytes, vec![1, 4, 5, 7, 8, 9, 6, 2, 3]);
    move_chunk(&mut bytes, 0, 3, 0);
    assert_eq!(bytes, vec![1, 4, 5, 7, 8, 9, 6, 2, 3]);
}

#[test]
fn corrupt_reverse_and_voidout() {
    let mut bytes = digits();
    Reverse.corrupt(&mut bytes);
    assert_eq!(bytes, vec![9, 8, 7, 6, 5, 4, 3, 2, 1, 0]);
    Voidout.corrupt(&mut bytes);
    assert_eq!(bytes, vec![0; 10]);
    assert_eq!(Reverse.get_name(), "Reverse");
    assert_eq!(Voidout.get_name(), "Voidout");
}

#[test]
fn corrupt_increment_wraps() {
    let mut bytes = vec![0, 1, 250, 255];
    Increment(10).corrupt(&mut bytes);
    assert_eq!(bytes, vec![10, 11, 4, 9]);
    Increment(256).corrupt(&mut bytes);
    assert_eq!(bytes, vec![10, 11, 4, 9]);
    assert_eq!(Increment(1).get_name(), "Increment");
}

#[test]
fn corrupt_accelerate_grows() {
    let mut bytes = vec![0, 0, 0, 0, 250];
    Accelerate { start: 1, accel: 2 }.corrupt(&mut bytes);
    assert_eq!(bytes, vec![1, 3, 5, 7, 3]);
    assert_eq!(Accelerate { start: 1, accel: 2 }.get_name(), "Accelerate");
}

#[test]
fn corrupt_swap_uses_the_byte_before_the_second_start() {
    let mut bytes = digits();
    Swap { start1: 0, start2: 6, chunksize: 2 }.corrupt(&mut bytes);
    assert_eq!(bytes, vec![5, 6, 2, 3, 4, 0, 1, 7, 8, 9]);
    assert_eq!(Swap { start1: 0, start2: 6, chunksize: 2 }.get_name(), "Swap");
}

#[test]
fn corrupt_shift_moves_the_chunk() {
    let mut bytes = vec![1, 2, 3, 4, 5, 6, 7, 8, 9];
    Shift { subslice: (3, 6), shift_by: -2 }.corrupt(&mut bytes);
    assert_eq!(bytes, vec![1, 4, 5, 6, 2, 3, 7, 8, 9]);
    Shift { subslice: (3, 6), shift_by: 3 }.corrupt(&mut bytes);
    assert_eq!(bytes, vec![1, 4, 5, 7, 8, 9, 6, 2, 3]);
    Shift { subslice: (2, 4), shift_by: -100 }.corrupt(&mut bytes);
    assert_eq!(bytes, vec![5, 7, 1, 4, 8, 9, 6, 2, 3]);
    assert_eq!(Shift { subslice: (3, 6), shift_by: 3 }.get_name(), "Shift");
}

#[test]
fn corrupt_loop_repeats_the_template() {
    let mut bytes = digits();
    Loop { chunk: 3, times: 2 }.corrupt(&mut bytes);
    assert_eq!(bytes, vec![0, 1, 2, 0, 1, 2, 0, 1, 2, 0]);
    let mut bytes = digits();
    Loop { chunk: 3, times: 0 }.corrupt(&mut bytes);
    assert_eq!(bytes, digits());
    // no more bytes follow than the chunk holds: nothing is written
    let mut bytes = digits();
    Loop { chunk: 5, times: 3 }.corrupt(&mut bytes);
    assert_eq!(bytes, digits());
    assert_eq!(Loop { chunk: 1, times: 1 }.get_name(), "Loop");
}

#[test]
fn corrupt_shuffle_keeps_the_bytes() {
    let mut bytes: Vec<u8> = (0..200).collect();
    Shuffle.corrupt(&mut bytes);
    assert_eq!(bytes.len(), 200);
    assert!(bytes != (0..200).collect::<Vec<u8>>());
    let mut sorted = bytes.clone();
    sorted.sort();
    assert_eq!(sorted, (0..200).collect::<Vec<u8>>());
    assert_eq!(Shuffle.get_name(), "Shuffle");
}

#[test]
fn corrupt_entropy_never_gives_the_largest_byte() {
    let mut bytes = vec![255u8; 4096];
    Entropy.corrupt(&mut bytes);
    assert_eq!(bytes.len(), 4096);
    assert!(bytes.iter().all(|b| *b < 255));
    assert!(bytes.iter().any(|b| *b != bytes[0]));
    assert_eq!(Entropy.get_name(), "Entropy");
}

#[test]
fn partial_corrupt_touches_only_its_chunk() {
    let mut bytes = vec![0u8, 1, 2, 3, 4, 5, 6, 7, 8, 9, 10];
    let partial = PartialCorrupt::from_corruption(Loop { chunk: 1, times: 3 }, 3, 6);
    partial.corrupt(&mut bytes);
    assert_eq!(bytes, vec![0, 1, 2, 3, 3, 3, 6, 7, 8, 9, 10]);
    assert_eq!(partial.get_name(), "Partial[Loop]");
    let mut bytes = digits();
    PartialCorrupt::from_corruption(Reverse, 2, 6).corrupt(&mut bytes);
    assert_eq!(bytes, vec![0, 1, 5, 4, 3, 2, 6, 7, 8, 9]);
    let nested = PartialCorrupt::from_corruption(PartialCorrupt::from_corruption(Voidout, 0, 1), 4, 8);
    let mut bytes = digits();
    nested.corrupt(&mut bytes);
    assert_eq!(bytes, vec![0, 1, 2, 3, 0, 5, 6, 7, 8, 9]);
    assert_eq!(nested.get_name(), "Partial[Partial[Voidout]]");
}

#[test]
fn bend_local_effects() {
    let mut bytes = vec![1u8, 2, 3, 200];
    databend::Reverse.bend(&mut bytes);
    assert_eq!(bytes, vec![200, 3, 2, 1]);
    databend::Multiply { multiply_by: 3 }.bend(&mut bytes);
    assert_eq!(bytes, vec![88, 9, 6, 3]);
    databend::Multiply { multiply_by: usize::MAX }.bend(&mut bytes);
    assert_eq!(bytes, vec![168, 247, 250, 253]);
    databend::Increment { increment_by: 260 }.bend(&mut bytes);
    assert_eq!(bytes, vec![172, 251, 254, 1]);
    databend::Increment { increment_by: usize::MAX }.bend(&mut bytes);
    assert_eq!(bytes, vec![171, 250, 253, 0]);
    databend::Blackout.bend(&mut bytes);
    assert_eq!(bytes, vec![0, 0, 0, 0]);
}

#[test]
fn bend_global_shift() {
    let mut bytes = digits();
    databend::Shift { shift_by: 2 }.bend(&mut bytes, (Edge::Included(3), Edge::Excluded(6)));
    assert_eq!(bytes, vec![0, 1, 2, 6, 7, 3, 4, 5, 8, 9]);
    databend::Shift { shift_by: -3 }.bend(&mut bytes, (Edge::Included(5), Edge::Included(7)));
    assert_eq!(bytes, vec![0, 1, 3, 4, 5, 2, 6, 7, 8, 9]);
    databend::Shift { shift_by: 0 }.bend(&mut bytes, (Edge::Unbounded, Edge::Unbounded));
    assert_eq!(bytes, vec![0, 1, 3, 4, 5, 2, 6, 7, 8, 9]);
}

#[test]
fn bend_global_repeat() {
    let mut bytes: Vec<u8> = (0..12).collect();
    // the chunk 1..3 is written at 0, at 3 and at 6
    databend::Repeat { n: 3 }.bend(&mut bytes, (Edge::Included(1), Edge::Excluded(3)));
    assert_eq!(bytes, vec![1, 2, 2, 1, 2, 5, 1, 2, 8, 9, 10, 11]);
}

#[test]
fn bend_global_swap() {
    let mut bytes = digits();
    databend::Swap { block_at: 6 }.bend(&mut bytes, (Edge::Included(1), Edge::Excluded(4)));
    assert_eq!(bytes, vec![0, 6, 7, 8, 4, 5, 1, 2, 3, 9]);
    databend::Swap { block_at: 0 }.bend(&mut bytes, (Edge::Included(8), Edge::Unbounded));
    assert_eq!(bytes, vec![3, 9, 7, 8, 4, 5, 1, 2, 0, 6]);
}

#[test]
fn utils_sum_and_square() {
    assert_eq!(sum(&[]), 0);
    assert_eq!(sum(&[1, 2, 3, 255]), 261);
    assert_eq!(sum(&[255; 1000]), 255000);
    assert_eq!(sq_u8(&0), 0);
    assert_eq!(sq_u8(&255), 65025);
}

#[test]
fn utils_map_to_2d() {
    assert_eq!(map_to_2d(0, 4), (0, 0));
    assert_eq!(map_to_2d(7, 4), (3, 1));
    assert_eq!(map_to_2d(8, 4), (0, 2));
}

#[test]
fn utils_dimensions() {
    let empty: Vec<Vec<u8>> = vec![];
    assert_eq!(get_dimensions_of_matrix(&empty), (0, 0));
    assert_eq!(get_dimensions_of_matrix(&vec![vec![1u8, 2, 3], vec![4, 5, 6]]), (3, 2));
}

#[test]
fn utils_process_range() {
    assert_eq!(process_range(Edge::Unbounded, Edge::Unbounded, 9), (0, 9));
    assert_eq!(process_range(Edge::Included(2), Edge::Excluded(5), 9), (2, 5));
    assert_eq!(process_range(Edge::Included(2), Edge::Included(5), 9), (2, 6));
    assert_eq!(process_range(Edge::Excluded(2), Edge::Unbounded, 9), (2, 9));
}

#[test]
fn corrupt_effects_test() {
    let mut bytesim: Vec<u8> = vec![0, 1, 2, 3, 4, 5, 6, 7, 8, 9, 10];
    PartialCorrupt::from_corruption(Loop { chunk: 1, times: 3 }, 3, 6).corrupt(&mut bytesim);
    assert_eq!(bytesim, vec![0, 1, 2, 3, 3, 3, 6, 7, 8, 9, 10]);

    let mut bytes: Vec<u8> = (0..=255).collect();
    let len = bytes.len();
    PartialCorrupt::from_corruption(Reverse, 130, len).corrupt(&mut bytes);
    assert_eq!(bytes[..130], (0..130).collect::<Vec<u8>>()[..]);
    assert_eq!(bytes[130], 255);
    assert_eq!(bytes[255], 130);
}
