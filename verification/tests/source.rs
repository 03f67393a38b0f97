use ahrs_stream::receiver::Data_Reciever;

#[test]
fn forwards_exactly_the_read_bytes() {
    let mut source = Data_Reciever::new();
    let buffer: Vec<u8> = vec![10, 20, 30, 40, 50];
    let chunk = source.accept_read(&buffer, 3);
    assert_eq!(chunk, Some(vec![10, 20, 30]));
    let whole = source.accept_read(&buffer, 5);
    assert_eq!(whole, Some(vec![10, 20, 30, 40, 50]));
}

#[test]
fn zero_length_read_forwards_nothing() {
    let mut source = Data_Reciever::new();
    let buffer: Vec<u8> = vec![1, 2, 3];
    assert_eq!(source.accept_read(&buffer, 0), None);
}
