use hog::buffer::{Gradients, GrayBuffer};

#[test]
fn gradients_are_read_row_by_row() {
    let gradients =
        Gradients::from_raw(3, 2, vec![1, 2, 3, 4, 5, 6], vec![-1, -2, -3, -4, -5, -6]).unwrap();
    assert_eq!(gradients.dimensions(), (3, 2));
    assert_eq!(gradients.get_pixel(0, 0), (1, -1));
    assert_eq!(gradients.get_pixel(2, 0), (3, -3));
    assert_eq!(gradients.get_pixel(1, 1), (5, -5));
}

#[test]
fn gradients_need_a_sample_for_each_pixel() {
    assert!(Gradients::from_raw(3, 2, vec![0; 5], vec![0; 6]).is_none());
    assert!(Gradients::from_raw(3, 2, vec![0; 6], vec![0; 5]).is_none());
    assert!(Gradients::from_raw(3, 2, vec![0; 7], vec![0; 6]).is_some());
    assert!(Gradients::from_raw(0, 9, vec![], vec![]).is_some());
    assert!(Gradients::from_raw(1 << 31, 1 << 31, vec![], vec![]).is_none());
}

#[test]
fn new_gray_buffer_is_black() {
    let buffer = GrayBuffer::new(3, 2);
    assert_eq!(buffer.dimensions(), (3, 2));
    assert_eq!(buffer.into_raw(), vec![0u8; 6]);
}

#[test]
fn gray_buffer_keeps_its_samples() {
    let buffer = GrayBuffer::from_raw(2, 2, vec![9, 8, 7, 6]).unwrap();
    assert_eq!(buffer.dimensions(), (2, 2));
    assert_eq!(buffer.into_raw(), vec![9, 8, 7, 6]);
    assert!(GrayBuffer::from_raw(2, 2, vec![9, 8, 7]).is_none());
    assert!(GrayBuffer::from_raw(u32::MAX, u32::MAX, vec![]).is_none());
}
