use circle_buffer::CircleBuffer;

fn new_buffer(capacity: usize) -> CircleBuffer<i32> {
    CircleBuffer::with_capacity(capacity).unwrap()
}

#[test]
fn test_push() {
    let mut buffer = new_buffer(3);
    buffer.push(1);
    assert_eq!(&[1], buffer.as_slice());
    buffer.push(2);
    assert_eq!(&[1, 2], buffer.as_slice());
    buffer.push(3);
    assert_eq!(&[1, 2, 3], buffer.as_slice());
    buffer.push(4);
    assert_eq!(&[2, 3, 4], buffer.as_slice());
    buffer.push(5);
    assert_eq!(&[3, 4, 5], buffer.as_slice());
    buffer.push(6);
    assert_eq!(&[4, 5, 6], buffer.as_slice());
    buffer.push(7);
    assert_eq!(&[5, 6, 7], buffer.as_slice());
    buffer.push(8);
    assert_eq!(&[6, 7, 8], buffer.as_slice());
    buffer.push(9);
    assert_eq!(&[7, 8, 9], buffer.as_slice());
    buffer.push(10);
    assert_eq!(&[8, 9, 10], buffer.as_slice());
    buffer.push(11);
    assert_eq!(&[9, 10, 11], buffer.as_slice());
    buffer.push(12);
    assert_eq!(&[10, 11, 12], buffer.as_slice());
    buffer.push(13);
    assert_eq!(&[11, 12, 13], buffer.as_slice());
    buffer.push(14);
    assert_eq!(&[12, 13, 14], buffer.as_slice());
    buffer.push(15);
    assert_eq!(&[13, 14, 15], buffer.as_slice());
    buffer.push(16);
    assert_eq!(&[14, 15, 16], buffer.as_slice());
    buffer.push(17);
    assert_eq!(&[15, 16, 17], buffer.as_slice());
}

#[test]
fn test_capacity() {
    let mut buffer = new_buffer(3);
    assert_eq!(3, buffer.capacity());
    buffer.push(1);
    assert_eq!(3, buffer.capacity());
    buffer.push(2);
    assert_eq!(3, buffer.capacity());
    buffer.push(3);
    assert_eq!(3, buffer.capacity());
    buffer.push(4);
    assert_eq!(3, buffer.capacity());
    buffer.push(5);
    assert_eq!(3, buffer.capacity());
}

#[test]
fn test_len() {
    let mut buffer = new_buffer(3);
    assert_eq!(0, buffer.len());
    buffer.push(1);
    assert_eq!(1, buffer.len());
    buffer.push(2);
    assert_eq!(2, buffer.len());
    buffer.push(3);
    assert_eq!(3, buffer.len());
    buffer.push(4);
    assert_eq!(3, buffer.len());
    buffer.push(5);
    assert_eq!(3, buffer.len());
}

#[test]
fn test_is_empty() {
    let mut buffer = new_buffer(3);
    assert_eq!(true, buffer.is_empty());
    buffer.push(1);
    assert_eq!(false, buffer.is_empty());
}

#[test]
fn test_index() {
    let mut buffer = new_buffer(3);
    buffer.push(1);
    assert_eq!(1, buffer[0]);
    buffer.push(2);
    assert_eq!(1, buffer[0]);
    assert_eq!(2, buffer[1]);
    buffer.push(3);
    assert_eq!(1, buffer[0]);
    assert_eq!(2, buffer[1]);
    assert_eq!(3, buffer[2]);
    buffer.push(4);
    assert_eq!(2, buffer[0]);
    assert_eq!(3, buffer[1]);
    assert_eq!(4, buffer[2]);
    buffer.push(5);
    assert_eq!(3, buffer[0]);
    assert_eq!(4, buffer[1]);
    assert_eq!(5, buffer[2]);
}

#[test]
fn test_index_mut() {
    let mut buffer = new_buffer(3);
    buffer.push(1);
    assert_eq!(1, buffer[0]);
    buffer.push(2);
    assert_eq!(1, buffer[0]);
    assert_eq!(2, buffer[1]);
    buffer.push(3);
    assert_eq!(1, buffer[0]);
    assert_eq!(2, buffer[1]);
    assert_eq!(3, buffer[2]);
    buffer.push(4);
    assert_eq!(2, buffer[0]);
    assert_eq!(3, buffer[1]);
    assert_eq!(4, buffer[2]);

    buffer.set(0, 1);
    assert_eq!(1, buffer[0]);
    assert_eq!(3, buffer[1]);
    assert_eq!(4, buffer[2]);
}

#[test]
fn test_iter() {
    let mut buffer = new_buffer(3);
    buffer.push(1);
    buffer.push(2);
    buffer.push(3);
    let add1: Vec<i32> = buffer.iter().map(|x| x + 1).collect();
    assert_eq!(add1, vec![2, 3, 4]);

    buffer.push(4);
    buffer.push(5);
    let add2: Vec<i32> = buffer.iter().map(|x| x + 2).collect();
    assert_eq!(add2, vec![5, 6, 7]);
}

#[test]
fn test_iter_mut() {
    let mut buffer = new_buffer(3);
    buffer.push(1);
    buffer.push(2);
    buffer.push(3);
    for x in buffer.iter_mut() {
        *x += 1;
    }
    assert_eq!(buffer.as_slice(), &[2, 3, 4]);

    buffer.push(4);
    buffer.push(5);
    for x in buffer.iter_mut() {
        *x += 2;
    }
    assert_eq!(buffer.as_slice(), &[6, 6, 7]);
}
