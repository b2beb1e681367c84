use swift_mt::basic_header::BasicHeader;
use swift_mt::basic_header::ServiceIdentifier;
use swift_mt::string_parser::StringParser;
use swift_mt::tag_blocks::Trailer;
use swift_mt::tag_blocks::UserHeader;

#[test]
fn basic_header_encodes_fixed_widths() {
    let h = BasicHeader {
        application_identifier: "F".to_string(),
        service_identifier: ServiceIdentifier::MessageAck,
        logical_terminal: "FOOBARXXAXXX".to_string(),
        session_number: 12,
        sequence_number: 345,
    };
    assert_eq!(h.to_raw(), "F21FOOBARXXAXXX0012000345");
    assert_eq!(BasicHeader::new().to_raw(), "F01            0000000000");
}

#[test]
fn basic_header_round_trip() {
    let raw = "F01FOOBARXXAXXX0042013085";
    let mut parser = StringParser::new(raw.to_string());
    let h = BasicHeader::from_raw(&mut parser).unwrap();
    assert_eq!(h.session_number, 42);
    assert_eq!(h.sequence_number, 13085);
    assert_eq!(h.to_raw(), raw);
}

#[test]
fn basic_header_rejects_plus_signed_numbers() {
    // string parsing that accepts a sign would take this; digits only
    let mut parser = StringParser::new("F01FOOBARXXAXXX+042013085".to_string());
    assert!(BasicHeader::from_raw(&mut parser).is_err());
}

#[test]
fn user_header_encodes_canonical_order() {
    let u = UserHeader::from_raw("{433:field433}{108:themur}{205:x}".to_string()).unwrap();
    assert_eq!(u.to_raw(), "{3:{108:themur}{433:field433}{205:x}}");
}

#[test]
fn user_header_round_trip() {
    let raw = "{108:themur}{433:field433}{205:x}";
    let u = UserHeader::from_raw(raw.to_string()).unwrap();
    let encoded = u.to_raw();
    // strip the {3: ... } wrapper and decode again
    let inner = &encoded[3..encoded.len() - 1];
    let u2 = UserHeader::from_raw(inner.to_string()).unwrap();
    assert_eq!(u2.message_user_reference.unwrap(), "themur");
    assert_eq!(u2.screening_information_receiver.unwrap(), "field433");
    assert_eq!(u2.unk_fields.len(), 1);
    assert_eq!(u2.unk_fields[0].0, "205");
    assert_eq!(u2.unk_fields[0].1, "x");
}

#[test]
fn trailer_encodes_canonical_order() {
    let t = Trailer::from_raw("{PDE:pde}{CHK:chk}".to_string()).unwrap();
    assert_eq!(t.to_raw(), "{5:{CHK:chk}{PDE:pde}}");
}

#[test]
fn trailer_round_trip() {
    let raw = "{PDE:pde}{CHK:chk}{ZZZ:misc}";
    let t = Trailer::from_raw(raw.to_string()).unwrap();
    let encoded = t.to_raw();
    let inner = &encoded[3..encoded.len() - 1];
    let t2 = Trailer::from_raw(inner.to_string()).unwrap();
    assert_eq!(t2.pde.unwrap(), "pde");
    assert_eq!(t2.chk.unwrap(), "chk");
    assert_eq!(t2.unk_fields.len(), 1);
    assert_eq!(t2.unk_fields[0].0, "ZZZ");
    assert_eq!(t2.unk_fields[0].1, "misc");
}

#[test]
fn tag_value_without_colon_reads_as_empty() {
    let u = UserHeader::from_raw("{108}".to_string()).unwrap();
    assert_eq!(u.message_user_reference.unwrap(), "");
}

#[test]
fn repeated_tag_keeps_last_value() {
    let u = UserHeader::from_raw("{108:first}{108:second}".to_string()).unwrap();
    assert_eq!(u.message_user_reference.unwrap(), "second");
    assert!(u.unk_fields.is_empty());
}
