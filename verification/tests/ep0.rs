use sddc::ep0::{ctl_code, ep0_read_result, ep0_request_buffer, ioctl_send_ep0_control_transfer, SINGLE_TRANSFER_LEN};

#[test]
fn ep0_ioctl_code() {
    assert_eq!(ioctl_send_ep0_control_transfer(), 0x0022_0020);
    assert_eq!(ctl_code(8, 0), 0x0022_0020);
    assert_eq!(ctl_code(1, 3), 0x0022_0007);
}

#[test]
fn ep0_write_buffer_layout() {
    let data = [0xAAu8, 0xBB, 0xCC];
    let buf = ep0_request_buffer(0xAC, 0x1234_5678, &data, 0, false);
    assert_eq!(buf.len(), SINGLE_TRANSFER_LEN + 3);
    let header: Vec<u8> = vec![
        0x40, 0xAC, // bmRequest (vendor, host to device), bRequest
        0x78, 0x56, // wValue
        0x34, 0x12, // wIndex
        0x03, 0x00, // wLength
        0x05, 0x00, 0x00, 0x00, // timeout
        0x00, 0x00, // reserved, endpoint
        0, 0, 0, 0, 0, 0, 0, 0, 0, 0, 0, 0, 0, 0, 0, 0, // status and iso fields
        38, 0, 0, 0, // buffer offset
        3, 0, 0, 0, // buffer length
    ];
    assert_eq!(&buf[..38], &header[..]);
    assert_eq!(&buf[38..], &data[..]);
}

#[test]
fn ep0_read_buffer_layout() {
    let buf = ep0_request_buffer(0xAD, 0x0000_0102, &[], 4, true);
    assert_eq!(buf.len(), SINGLE_TRANSFER_LEN + 4);
    assert_eq!(buf[0], 0xC0);
    assert_eq!(buf[1], 0xAD);
    assert_eq!(&buf[2..8], &[0x02, 0x01, 0x00, 0x00, 0x04, 0x00]);
    assert_eq!(&buf[34..38], &[4, 0, 0, 0]);
    assert!(buf[38..].iter().all(|b| *b == 0));
}

#[test]
fn ep0_read_result_takes_returned_bytes() {
    let mut reply = ep0_request_buffer(0xAD, 0, &[], 4, true);
    reply[38] = 1;
    reply[39] = 2;
    reply[40] = 3;
    reply[41] = 4;
    assert_eq!(ep0_read_result(&reply, 4), vec![1, 2, 3, 4]);
    // the driver reports fewer bytes than asked for
    reply[34] = 2;
    assert_eq!(ep0_read_result(&reply, 4), vec![1, 2]);
    // an offset that points past the buffer gives nothing
    reply[30] = 200;
    assert_eq!(ep0_read_result(&reply, 4), Vec::<u8>::new());
}
