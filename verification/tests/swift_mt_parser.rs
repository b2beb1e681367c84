use swift_mt::application_header::ApplicationHeader;
use swift_mt::basic_header::ServiceIdentifier;
use swift_mt::datetime::UtcDateTime;
use swift_mt::swift_mt_parser::SwiftMtParser;

#[test]
fn positive_tests_parse() {
    let mut msg = "{1:F01FOOBARXXAXXX0000000000}{2:I103FOOBARXXAXXXN}{3:{108:themur}{433:field433}}{5:{PDE:pde}{CHK:chk}}";
    let mut parser = SwiftMtParser::new();
    let mut message = parser.parse(msg.into()).unwrap();

    assert_eq!(
        message.user_header.message_user_reference.unwrap(),
        "themur"
    );
    assert_eq!(
        message.user_header.screening_information_receiver.unwrap(),
        "field433"
    );
    assert_eq!(message.user_header.service_identifier.is_none(), true);
    assert_eq!(message.user_header.banking_priority.is_none(), true);

    assert_eq!(message.trailer.pde.unwrap(), "pde");
    assert_eq!(message.trailer.chk.unwrap(), "chk");
    assert_eq!(message.trailer.pdm.is_none(), true);

    assert_eq!(message.basic_header.application_identifier, "F");
    assert_eq!(
        message.basic_header.service_identifier,
        ServiceIdentifier::Message
    );
    assert_eq!(message.basic_header.logical_terminal, "FOOBARXXAXXX");
    assert_eq!(message.basic_header.session_number, 0);
    assert_eq!(message.basic_header.sequence_number, 0);

    match message.application_header {
        ApplicationHeader::Input { data } => {
            assert_eq!(data.message_type, "103");
            assert_eq!(data.destination, "FOOBARXXAXXX");
            assert_eq!(data.priority, "N");
            assert_eq!(data.delivery_monitoring, "");
            assert_eq!(data.obsolescence_period, "");
        }
        _ => {
            panic!(
                "Application header is not input but {:?}",
                message.application_header
            );
        }
    }

    msg = "{1:F01FOOBARXXAXXX0000000000}{2:O0511511010606ABLRXXXXGXXX00000130850106141149S}{3:{108:themur}{433:field433}}{5:{PDE:pde}{CHK:chk}}";
    parser = SwiftMtParser::new();
    message = parser.parse(msg.into()).unwrap();

    match message.application_header {
        ApplicationHeader::Output { data } => {
            assert_eq!(data.message_type, "051");
            assert_eq!(
                data.sender_datetime,
                UtcDateTime {
                    year: 2001,
                    month: 6,
                    day: 6,
                    hour: 15,
                    minute: 11,
                }
            );
            assert_eq!(data.sender_address, "ABLRXXXXGXXX");
            assert_eq!(data.session_number, "0000");
            assert_eq!(data.sequence_number, "013085");
            assert_eq!(
                data.receiver_datetime,
                UtcDateTime {
                    year: 2001,
                    month: 6,
                    day: 14,
                    hour: 11,
                    minute: 49,
                }
            );
            assert_eq!(data.message_priority, "S");
        }
        _ => {
            panic!(
                "Application header is not input but {:?}",
                message.application_header
            );
        }
    }
}

#[test]
fn positive_tests_parse_blocks() {
    let mut msg = "{1:F01FOOBARXXAXXX0000000000}{2:I103FOOBARXXAXXXN}";
    let mut parser = SwiftMtParser::new();
    let mut result = parser.parse_blocks(msg.to_string()).unwrap();

    assert_eq!(result.len(), 2);
    assert_eq!(
        result.get('1').unwrap().content,
        "F01FOOBARXXAXXX0000000000"
    );
    assert_eq!(result.get('2').unwrap().content, "I103FOOBARXXAXXXN");

    msg = "{1:F01FOOBARXXAXXX0000000000}{2:I103FOOBARXXAXXXN}{3:{108:asdf}{205:1233}}";
    parser = SwiftMtParser::new();
    result = parser.parse_blocks(msg.to_string()).unwrap();

    assert_eq!(result.len(), 3);
    assert_eq!(
        result.get('1').unwrap().content,
        "F01FOOBARXXAXXX0000000000"
    );
    assert_eq!(result.get('2').unwrap().content, "I103FOOBARXXAXXXN");
    assert_eq!(result.get('3').unwrap().content, "{108:asdf}{205:1233}");

    msg = "{1:F01FOOBARXXAXXX0000000000}{2:I103FOOBARXXAXXXN}{3:{108:asdf}{205:1233}}{4:\r\n23G:NEWM\r\n-}";
    parser = SwiftMtParser::new();
    result = parser.parse_blocks(msg.to_string()).unwrap();

    assert_eq!(result.len(), 4);
    assert_eq!(
        result.get('1').unwrap().content,
        "F01FOOBARXXAXXX0000000000"
    );
    assert_eq!(result.get('2').unwrap().content, "I103FOOBARXXAXXXN");
    assert_eq!(result.get('3').unwrap().content, "{108:asdf}{205:1233}");
    assert_eq!(result.get('4').unwrap().content, "23G:NEWM\r\n");

    msg = "{1:F01FOOBARXXAXXX0000000000}{2:I103FOOBARXXAXXXN}{3:{108:asdf}{205:1233}}{4:\r\n23G:NEWM\r\n-}{5:{CHK:1234567890}}";
    parser = SwiftMtParser::new();
    result = parser.parse_blocks(msg.to_string()).unwrap();

    assert_eq!(result.len(), 5);
    assert_eq!(
        result.get('1').unwrap().content,
        "F01FOOBARXXAXXX0000000000"
    );
    assert_eq!(result.get('2').unwrap().content, "I103FOOBARXXAXXXN");
    assert_eq!(result.get('3').unwrap().content, "{108:asdf}{205:1233}");
    assert_eq!(result.get('4').unwrap().content, "23G:NEWM\r\n");
    assert_eq!(result.get('5').unwrap().content, "{CHK:1234567890}");

    msg = "{1:F01FOOBARXXAXXX0000000000}{2:I103FOOBARXXAXXXN}{3:{108:asdf}{205:1233}}{4:\r\n-}{5:{CHK:1234567890}}";
    parser = SwiftMtParser::new();
    result = parser.parse_blocks(msg.to_string()).unwrap();

    assert_eq!(result.len(), 5);
    assert_eq!(
        result.get('1').unwrap().content,
        "F01FOOBARXXAXXX0000000000"
    );
    assert_eq!(result.get('2').unwrap().content, "I103FOOBARXXAXXXN");
    assert_eq!(result.get('3').unwrap().content, "{108:asdf}{205:1233}");
    assert_eq!(result.get('4').unwrap().content, "");
    assert_eq!(result.get('5').unwrap().content, "{CHK:1234567890}");

    msg = "{1:F01FOOBARXXAXXX0000000000}{2:I103FOOBARXXAXXXN}{3:{108:asdf}{205:1233}}{4:\r\n23G:NEWM\r\n20C:SEME//asdf\r\n-}{5:{CHK:1234567890}}";
    parser = SwiftMtParser::new();
    result = parser.parse_blocks(msg.to_string()).unwrap();

    assert_eq!(result.len(), 5);
    assert_eq!(
        result.get('1').unwrap().content,
        "F01FOOBARXXAXXX0000000000"
    );
    assert_eq!(result.get('2').unwrap().content, "I103FOOBARXXAXXXN");
    assert_eq!(result.get('3').unwrap().content, "{108:asdf}{205:1233}");
    assert_eq!(
        result.get('4').unwrap().content,
        "23G:NEWM\r\n20C:SEME//asdf\r\n"
    );
    assert_eq!(result.get('5').unwrap().content, "{CHK:1234567890}");
}

#[test]
fn unknown_tags_are_kept() {
    let msg = "{1:F01FOOBARXXAXXX0000000000}{2:I103FOOBARXXAXXXN}{3:{108:asdf}{205:1233}}";
    let message = SwiftMtParser::new().parse(msg.to_string()).unwrap();
    assert_eq!(message.user_header.message_user_reference.unwrap(), "asdf");
    assert_eq!(message.user_header.unk_fields.len(), 1);
    assert_eq!(message.user_header.unk_fields[0].0, "205");
    assert_eq!(message.user_header.unk_fields[0].1, "1233");
}

#[test]
fn absent_blocks_get_defaults() {
    let message = SwiftMtParser::new().parse(String::new()).unwrap();
    assert_eq!(message.basic_header.application_identifier, "F");
    assert_eq!(
        message.basic_header.service_identifier,
        ServiceIdentifier::Message
    );
    assert_eq!(message.basic_header.logical_terminal, "            ");
    assert_eq!(message.basic_header.session_number, 0);
    assert_eq!(message.basic_header.sequence_number, 0);
    assert!(matches!(
        message.application_header,
        ApplicationHeader::Empty
    ));
    assert!(message.user_header.service_identifier.is_none());
    assert!(message.user_header.unk_fields.is_empty());
    assert!(message.trailer.chk.is_none());
    assert!(message.trailer.unk_fields.is_empty());

    let message = SwiftMtParser::new()
        .parse("{1:F01FOOBARXXAXXX0000000000}".to_string())
        .unwrap();
    assert_eq!(message.basic_header.logical_terminal, "FOOBARXXAXXX");
    assert!(matches!(
        message.application_header,
        ApplicationHeader::Empty
    ));
}

#[test]
fn framer_rejects_malformed_messages() {
    // an invalid label
    assert!(SwiftMtParser::new().parse_blocks("{9:x}".to_string()).is_err());
    // not starting with a brace
    assert!(SwiftMtParser::new().parse_blocks("x".to_string()).is_err());
    // ends inside the label or separator
    assert!(SwiftMtParser::new().parse_blocks("{".to_string()).is_err());
    assert!(SwiftMtParser::new().parse_blocks("{1".to_string()).is_err());
    assert!(SwiftMtParser::new().parse_blocks("{1x".to_string()).is_err());
    // a system block nested too deep
    assert!(SwiftMtParser::new()
        .parse_blocks("{3:{a:{b}}}".to_string())
        .is_err());
    // a system block never closed
    assert!(SwiftMtParser::new().parse_blocks("{3:abc".to_string()).is_err());
    // block 4 without its sentinel
    assert!(SwiftMtParser::new()
        .parse_blocks("{4:\r\nabc\r\n".to_string())
        .is_err());
}

#[test]
fn input_header_optional_tail() {
    let msg = "{2:I103FOOBARXXAXXXN3}";
    let message = SwiftMtParser::new().parse(msg.to_string()).unwrap();
    match message.application_header {
        ApplicationHeader::Input { data } => {
            assert_eq!(data.delivery_monitoring, "3");
            assert_eq!(data.obsolescence_period, "");
        }
        _ => panic!("not an input header"),
    }

    let msg = "{2:I103FOOBARXXAXXXN3003}";
    let message = SwiftMtParser::new().parse(msg.to_string()).unwrap();
    match message.application_header {
        ApplicationHeader::Input { data } => {
            assert_eq!(data.delivery_monitoring, "3");
            assert_eq!(data.obsolescence_period, "003");
        }
        _ => panic!("not an input header"),
    }
}

#[test]
fn header_decoders_reject_bad_fields() {
    // non-digit session number
    assert!(SwiftMtParser::new()
        .parse("{1:F01FOOBARXXAXXX0x00000000}".to_string())
        .is_err());
    // unknown service identifier code
    assert!(SwiftMtParser::new()
        .parse("{1:F99FOOBARXXAXXX0000000000}".to_string())
        .is_err());
    // block 1 too short
    assert!(SwiftMtParser::new().parse("{1:F01}".to_string()).is_err());
    // bad application header direction
    assert!(SwiftMtParser::new()
        .parse("{2:X103FOOBARXXAXXXN}".to_string())
        .is_err());
    // invalid calendar date in an output header
    assert!(SwiftMtParser::new()
        .parse("{2:O0511511999999ABLRXXXXGXXX00000130850106141149S}".to_string())
        .is_err());
}

#[test]
fn output_header_leap_years() {
    // the 29th of February 2000 exists
    let msg = "{2:O0511511000229ABLRXXXXGXXX00000130850106141149S}";
    let message = SwiftMtParser::new().parse(msg.to_string()).unwrap();
    match message.application_header {
        ApplicationHeader::Output { data } => {
            assert_eq!(
                data.sender_datetime,
                UtcDateTime {
                    year: 2000,
                    month: 2,
                    day: 29,
                    hour: 15,
                    minute: 11,
                }
            );
        }
        _ => panic!("not an output header"),
    }
    // the 29th of February 2001 does not
    let msg = "{2:O0511511010229ABLRXXXXGXXX00000130850106141149S}";
    assert!(SwiftMtParser::new().parse(msg.to_string()).is_err());
}

#[test]
fn later_blocks_replace_earlier_ones() {
    let msg = "{1:F01FOOBARXXAXXX0000000000}{1:F01BARBAZXXAXXX0000000000}";
    let result = SwiftMtParser::new().parse_blocks(msg.to_string()).unwrap();
    assert_eq!(result.len(), 1);
    assert_eq!(
        result.get('1').unwrap().content,
        "F01BARBAZXXAXXX0000000000"
    );
}
