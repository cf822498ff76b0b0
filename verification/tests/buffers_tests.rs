use skwd_paper::buffers::{
    add_free_buffers, buffers_free, init_free_buffers, remove_free_buffers, shared_scene_slot,
    OutputBuffers,
};

fn output(closed: bool, free: &[usize]) -> OutputBuffers {
    OutputBuffers { closed, free_buffers: free.to_vec() }
}

#[test]
fn every_buffer_starts_free() {
    let mut outputs = vec![output(false, &[]), output(true, &[7])];
    init_free_buffers(&mut outputs, 3);
    assert_eq!(outputs[0].free_buffers, [0, 1, 2]);
    assert_eq!(outputs[1].free_buffers, [0, 1, 2]);
    assert!(outputs[1].closed);
}

#[test]
fn closed_outputs_do_not_hold_buffers_back() {
    let outputs = vec![output(false, &[0, 1, 2]), output(true, &[])];
    assert!(buffers_free(&outputs, 0, 3));
    assert!(!buffers_free(&[output(false, &[0, 2])], 0, 3));
    assert!(buffers_free(&[output(false, &[])], 2, 2));
}

#[test]
fn buffers_leave_and_return_together() {
    let mut outputs = vec![output(false, &[0, 1, 2, 3]), output(false, &[1, 3])];
    remove_free_buffers(&mut outputs, 1, 3);
    assert_eq!(outputs[0].free_buffers, [0, 3]);
    assert_eq!(outputs[1].free_buffers, [3]);
    add_free_buffers(&mut outputs, 1, 3);
    assert!(buffers_free(&outputs, 1, 3));
}

#[test]
fn shared_slot_is_the_lowest_free_everywhere() {
    let free = vec![vec![2, 0, 1], vec![1, 2]];
    assert_eq!(shared_scene_slot(&free, 3), Some(1));
    assert_eq!(shared_scene_slot(&free, 1), None);
    assert_eq!(shared_scene_slot(&[], 2), Some(0));
}
