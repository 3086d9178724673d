use bronze::message::Code;
use bronze::message::Error;
use bronze::message::Message;
use bronze::message::Mtype;
use bronze::opt::MsgOption;
use bronze::opt::Number;

#[test]
fn message_test_msg_parse_empty() {
    let ref_bin = [64, 0, 0, 0];

    let msg = Message::from_bytes(&ref_bin).unwrap();

    assert!(msg.version == 1);
    assert!(msg.mtype == Mtype::Confirmable);
    assert!(msg.code == Code::Empty);
    assert!(msg.code.class() == 0);
    assert!(msg.code.detail() == 0);
    assert!(msg.mid == 0);
    assert!(msg.token == []);
    assert!(msg.options == []);
    assert!(msg.payload == []);
}

#[test]
fn test_msg_serialize_empty() {
    let ref_bin = [64, 0, 0, 0];
    let msg = Message {
        version: 1,
        mtype: Mtype::Confirmable,
        code: Code::Empty,
        mid: 0,
        token: vec![],
        options: vec![],
        payload: vec![],
    };

    let test_bin = msg.to_bytes().unwrap();

    assert!(test_bin == ref_bin);
}

#[test]
fn message_test_msg_parse_empty_con_with_token() {
    let ref_bin = [66, 0, 0, 0, 37, 42];

    let msg = Message::from_bytes(&ref_bin).unwrap();

    assert!(msg.version == 1);
    assert!(msg.mtype == Mtype::Confirmable);
    assert!(msg.code == Code::Empty);
    assert!(msg.code.class() == 0);
    assert!(msg.code.detail() == 0);
    assert!(msg.mid == 0);
    assert!(msg.token == [37, 42]);
    assert!(msg.options == []);
    assert!(msg.payload == []);
}

#[test]
fn message_test_msg_parse_get_con() {
    let ref_bin = [0x41, 0x01, 0x00, 0x37, 0x99, 0xFF, 0x01, 0x02];

    let msg = Message::from_bytes(&ref_bin).unwrap();

    assert!(msg.version == 1);
    assert!(msg.mtype == Mtype::Confirmable);
    assert!(msg.code == Code::Get);
    assert!(msg.code.class() == 0);
    assert!(msg.code.detail() == 1);
    assert!(msg.mid == 0x37);
    assert!(msg.token == [0x99]);
    assert!(msg.options == []);
    assert!(msg.payload == [0x01, 0x02]);
}

#[test]
fn message_test_msg_parse_get_con_with_opts() {
    let ref_bin = [
        0x40, 0x02, 0x00, 0x37, 0xb2, 0x31, 0x61, 0x04, 0x74, 0x65, 0x6d, 0x70, 0x4d, 0x1b, 0x61,
        0x33, 0x32, 0x63, 0x38, 0x35, 0x62, 0x61, 0x39, 0x64, 0x64, 0x61, 0x34, 0x35, 0x38, 0x32,
        0x33, 0x62, 0x65, 0x34, 0x31, 0x36, 0x32, 0x34, 0x36, 0x63, 0x66, 0x38, 0x62, 0x34, 0x33,
        0x33, 0x62, 0x61, 0x61, 0x30, 0x36, 0x38, 0x64, 0x37, 0xFF, 0x39, 0x39,
    ];

    let msg = Message::from_bytes(&ref_bin).unwrap();

    assert!(msg.version == 1);
    assert!(msg.mtype == Mtype::Confirmable);
    assert!(msg.code == Code::Post);
    assert!(msg.code.class() == 0);
    assert!(msg.code.detail() == 2);
    assert!(msg.mid == 0x0037);
    assert!(msg.token == []);
    assert!(
        msg.options
            == [
                MsgOption { number: Number::UriPath, value: vec![0x31, 0x61] },
                MsgOption { number: Number::UriPath, value: vec![0x74, 0x65, 0x6d, 0x70] },
                MsgOption {
                    number: Number::UriQuery,
                    value: vec![
                        0x61, 0x33, 0x32, 0x63, 0x38, 0x35, 0x62, 0x61, 0x39, 0x64, 0x64, 0x61,
                        0x34, 0x35, 0x38, 0x32, 0x33, 0x62, 0x65, 0x34, 0x31, 0x36, 0x32, 0x34,
                        0x36, 0x63, 0x66, 0x38, 0x62, 0x34, 0x33, 0x33, 0x62, 0x61, 0x61, 0x30,
                        0x36, 0x38, 0x64, 0x37
                    ]
                },
            ]
    );
    assert!(msg.payload == [0x39, 0x39]);
}

#[test]
fn test_msg_parse_short_buffer_rejected() {
    assert!(Message::from_bytes(&[]) == Err(Error::MessageFormat));
    assert!(Message::from_bytes(&[0x40]) == Err(Error::MessageFormat));
    assert!(Message::from_bytes(&[0x40, 0x00, 0x00]) == Err(Error::MessageFormat));
}

#[test]
fn test_msg_parse_token_overrun_rejected() {
    // Token length nibble claims 2 bytes but only 1 remains.
    assert!(Message::from_bytes(&[0x42, 0x00, 0x00, 0x00, 0x25]) == Err(Error::MessageFormat));
    // Token length nibble claims 15 bytes on a bare header.
    assert!(Message::from_bytes(&[0x4F, 0x00, 0x00, 0x00]) == Err(Error::MessageFormat));
}

#[test]
fn test_msg_parse_reserved_nibble_rejected() {
    // Delta nibble 15.
    assert!(
        Message::from_bytes(&[0x40, 0x00, 0x00, 0x00, 0xF1, 0x00]) == Err(Error::MessageFormat)
    );
    // Length nibble 15.
    assert!(Message::from_bytes(&[0x40, 0x00, 0x00, 0x00, 0x1F]) == Err(Error::MessageFormat));
}

#[test]
fn test_msg_parse_truncated_option_rejected() {
    // Option claims a 3-byte value with nothing behind it.
    assert!(Message::from_bytes(&[0x40, 0x00, 0x00, 0x00, 0x03]) == Err(Error::MessageFormat));
    // 13-form delta with the extension byte missing.
    assert!(Message::from_bytes(&[0x40, 0x00, 0x00, 0x00, 0xD0]) == Err(Error::MessageFormat));
    // 14-form length with only one of two extension bytes.
    assert!(
        Message::from_bytes(&[0x40, 0x00, 0x00, 0x00, 0x0E, 0x01]) == Err(Error::MessageFormat)
    );
}

#[test]
fn test_msg_parse_oversized_length_rejected() {
    // 14-form length resolving to exactly 65000.
    assert!(
        Message::from_bytes(&[0x40, 0x00, 0x00, 0x00, 0x0E, 0xFC, 0xDB])
            == Err(Error::MessageFormat)
    );
}

#[test]
fn test_msg_parse_extended_options() {
    // Two consecutive options: a 13-form delta, then a 14-form delta, with
    // payload behind the marker. Identifiers accumulate across options.
    let ref_bin = [
        0x40, 0x01, 0x00, 0x01, 0xD2, 0x00, 0xAA, 0xBB, 0xE1, 0x01, 0x00, 0xCC, 0xFF, 0x01, 0x02,
    ];

    let msg = Message::from_bytes(&ref_bin).unwrap();

    assert!(msg.code == Code::Get);
    assert!(
        msg.options
            == [
                MsgOption { number: Number::Unknown(13), value: vec![0xAA, 0xBB] },
                MsgOption { number: Number::Unknown(538), value: vec![0xCC] },
            ]
    );
    assert!(msg.payload == [0x01, 0x02]);
}

#[test]
fn test_msg_serialize_oversized_token_rejected() {
    let msg = Message {
        version: 1,
        mtype: Mtype::Confirmable,
        code: Code::Empty,
        mid: 0,
        token: vec![0; 9],
        options: vec![],
        payload: vec![],
    };

    assert!(msg.to_bytes() == Err(Error::MessageFormat));
}

#[test]
fn test_msg_serialize_unsorted_options_rejected() {
    let msg = Message {
        version: 1,
        mtype: Mtype::Confirmable,
        code: Code::Get,
        mid: 1,
        token: vec![],
        options: vec![
            MsgOption { number: Number::UriQuery, value: vec![] },
            MsgOption { number: Number::UriPath, value: vec![] },
        ],
        payload: vec![],
    };

    assert!(msg.to_bytes() == Err(Error::MessageFormat));
}

#[test]
fn test_msg_serialize_oversized_option_rejected() {
    let big = Message {
        version: 1,
        mtype: Mtype::Confirmable,
        code: Code::Get,
        mid: 1,
        token: vec![],
        options: vec![MsgOption { number: Number::UriPath, value: vec![0; 65000] }],
        payload: vec![],
    };
    assert!(big.to_bytes() == Err(Error::MessageFormat));

    let far = Message {
        version: 1,
        mtype: Mtype::Confirmable,
        code: Code::Get,
        mid: 1,
        token: vec![],
        options: vec![MsgOption { number: Number::Unknown(65000), value: vec![] }],
        payload: vec![],
    };
    assert!(far.to_bytes() == Err(Error::MessageFormat));
}

#[test]
fn test_msg_round_trip_with_options() {
    let msg = Message {
        version: 1,
        mtype: Mtype::NonConfirmable,
        code: Code::Content,
        mid: 0xBEEF,
        token: vec![0x01, 0x02, 0x03],
        options: vec![
            MsgOption { number: Number::UriPath, value: vec![b't', b'e', b'm', b'p'] },
            MsgOption { number: Number::UriPath, value: vec![b'x'] },
            MsgOption { number: Number::UriQuery, value: vec![0; 20] },
            MsgOption { number: Number::Unknown(300), value: vec![0xAB; 300] },
        ],
        payload: vec![0xDE, 0xAD],
    };

    let bytes = msg.to_bytes().unwrap();
    let back = Message::from_bytes(&bytes).unwrap();

    assert!(back == msg);
}

#[test]
fn test_msg_round_trip_empty_payload_with_token() {
    let msg = Message {
        version: 1,
        mtype: Mtype::Acknowledgement,
        code: Code::NotFound,
        mid: 7,
        token: vec![0x11, 0x22, 0x33, 0x44, 0x55, 0x66, 0x77, 0x88],
        options: vec![],
        payload: vec![],
    };

    let bytes = msg.to_bytes().unwrap();
    let back = Message::from_bytes(&bytes).unwrap();

    assert!(back == msg);
}

#[test]
fn test_mtype_numeric_values() {
    assert!(Mtype::from_u8(0) == Mtype::Confirmable);
    assert!(Mtype::from_u8(1) == Mtype::NonConfirmable);
    assert!(Mtype::from_u8(2) == Mtype::Acknowledgement);
    assert!(Mtype::from_u8(3) == Mtype::Reset);
    assert!(Mtype::Confirmable.as_u8() == 0);
    assert!(Mtype::NonConfirmable.as_u8() == 1);
    assert!(Mtype::Acknowledgement.as_u8() == 2);
    assert!(Mtype::Reset.as_u8() == 3);
}

#[test]
fn test_code_classification() {
    assert!(Code::from_u8(0) == Code::Empty);
    assert!(Code::from_u8(1) == Code::Get);
    assert!(Code::from_u8(69) == Code::Content);
    assert!(Code::from_u8(132) == Code::NotFound);
    assert!(Code::from_u8(143) == Code::UnsupportedContentFormat);
    assert!(Code::from_u8(160) == Code::InternalServerError);
    assert!(Code::from_u8(99) == Code::Unknown(99));

    assert!(Code::Content.as_u8() == 69);
    assert!(Code::Content.class() == 2);
    assert!(Code::Content.detail() == 5);
    assert!(Code::NotFound.class() == 4);
    assert!(Code::NotFound.detail() == 4);
    assert!(Code::Unknown(99).as_u8() == 99);

    assert!(Code::build(2, 5) == 69);
    assert!(Code::build(4, 4) == 132);
    // Overflow in either field cannot corrupt the other.
    assert!(Code::build(10, 37) == Code::build(2, 5));
}
