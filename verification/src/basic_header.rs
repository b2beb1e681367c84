//! The fixed-width basic header of block 1: application identifier (1),
//! service identifier (2 digits, closed code set), logical terminal (12),
//! session number (4 digits) and sequence number (6 digits).

use vstd::prelude::*;
use vstd::string::StringExecFns;

use crate::digits::all_digits;
use crate::digits::digits_val;
use crate::digits::lemma_digits_val_bound;
use crate::digits::lemma_padded_digits_round_trip;
use crate::digits::padded_digits;
use crate::digits::parse_u32_digits;
use crate::digits::u32_to_padded;
use crate::string_parser::StringParser;
use crate::strutil::chars_of;
use crate::swift_mt_parser::ParsingError;

verus! {

/// The closed set of service identifier codes carried by the two-digit
/// field of the basic header.
#[derive(Debug, Clone, Copy, PartialEq, Eq, Structural)]
pub enum ServiceIdentifier {
    Message,
    LoginRequest,
    Select,
    Quit,
    Logout,
    RemoveTerminalRequest,
    SystemLogout,
    MessageAck,
    LoginAck,
    SelectAck,
    QuitAck,
    LogoutAck,
    LoginNegativeAck,
    SelectNegativeAck,
}

/// The wire code of each service identifier.
pub open spec fn service_code(si: ServiceIdentifier) -> int {
    match si {
        ServiceIdentifier::Message => 1,
        ServiceIdentifier::LoginRequest => 2,
        ServiceIdentifier::Select => 3,
        ServiceIdentifier::Quit => 5,
        ServiceIdentifier::Logout => 6,
        ServiceIdentifier::RemoveTerminalRequest => 14,
        ServiceIdentifier::SystemLogout => 16,
        ServiceIdentifier::MessageAck => 21,
        ServiceIdentifier::LoginAck => 22,
        ServiceIdentifier::SelectAck => 23,
        ServiceIdentifier::QuitAck => 25,
        ServiceIdentifier::LogoutAck => 26,
        ServiceIdentifier::LoginNegativeAck => 42,
        ServiceIdentifier::SelectNegativeAck => 43,
    }
}

/// The service identifier a wire code denotes, if any.
pub open spec fn service_of_code(n: int) -> Option<ServiceIdentifier> {
    if n == 1 {
        Some(ServiceIdentifier::Message)
    } else if n == 2 {
        Some(ServiceIdentifier::LoginRequest)
    } else if n == 3 {
        Some(ServiceIdentifier::Select)
    } else if n == 5 {
        Some(ServiceIdentifier::Quit)
    } else if n == 6 {
        Some(ServiceIdentifier::Logout)
    } else if n == 14 {
        Some(ServiceIdentifier::RemoveTerminalRequest)
    } else if n == 16 {
        Some(ServiceIdentifier::SystemLogout)
    } else if n == 21 {
        Some(ServiceIdentifier::MessageAck)
    } else if n == 22 {
        Some(ServiceIdentifier::LoginAck)
    } else if n == 23 {
        Some(ServiceIdentifier::SelectAck)
    } else if n == 25 {
        Some(ServiceIdentifier::QuitAck)
    } else if n == 26 {
        Some(ServiceIdentifier::LogoutAck)
    } else if n == 42 {
        Some(ServiceIdentifier::LoginNegativeAck)
    } else if n == 43 {
        Some(ServiceIdentifier::SelectNegativeAck)
    } else {
        None
    }
}

fn service_identifier_of_code(n: u32) -> (r: Option<ServiceIdentifier>)
    ensures
        r == service_of_code(n as int),
{
    if n == 1 {
        Some(ServiceIdentifier::Message)
    } else if n == 2 {
        Some(ServiceIdentifier::LoginRequest)
    } else if n == 3 {
        Some(ServiceIdentifier::Select)
    } else if n == 5 {
        Some(ServiceIdentifier::Quit)
    } else if n == 6 {
        Some(ServiceIdentifier::Logout)
    } else if n == 14 {
        Some(ServiceIdentifier::RemoveTerminalRequest)
    } else if n == 16 {
        Some(ServiceIdentifier::SystemLogout)
    } else if n == 21 {
        Some(ServiceIdentifier::MessageAck)
    } else if n == 22 {
        Some(ServiceIdentifier::LoginAck)
    } else if n == 23 {
        Some(ServiceIdentifier::SelectAck)
    } else if n == 25 {
        Some(ServiceIdentifier::QuitAck)
    } else if n == 26 {
        Some(ServiceIdentifier::LogoutAck)
    } else if n == 42 {
        Some(ServiceIdentifier::LoginNegativeAck)
    } else if n == 43 {
        Some(ServiceIdentifier::SelectNegativeAck)
    } else {
        None
    }
}

fn service_code_of(si: ServiceIdentifier) -> (r: u32)
    ensures
        r as int == service_code(si),
{
    match si {
        ServiceIdentifier::Message => 1,
        ServiceIdentifier::LoginRequest => 2,
        ServiceIdentifier::Select => 3,
        ServiceIdentifier::Quit => 5,
        ServiceIdentifier::Logout => 6,
        ServiceIdentifier::RemoveTerminalRequest => 14,
        ServiceIdentifier::SystemLogout => 16,
        ServiceIdentifier::MessageAck => 21,
        ServiceIdentifier::LoginAck => 22,
        ServiceIdentifier::SelectAck => 23,
        ServiceIdentifier::QuitAck => 25,
        ServiceIdentifier::LogoutAck => 26,
        ServiceIdentifier::LoginNegativeAck => 42,
        ServiceIdentifier::SelectNegativeAck => 43,
    }
}

/// The decoded basic header.
#[derive(Debug)]
pub struct BasicHeader {
    pub application_identifier: String,
    pub service_identifier: ServiceIdentifier,
    pub logical_terminal: String,
    pub session_number: u32,
    pub sequence_number: u32,
}

/// The mathematical value of a basic header.
pub struct BasicHeaderView {
    pub application_identifier: Seq<char>,
    pub service_identifier: ServiceIdentifier,
    pub logical_terminal: Seq<char>,
    pub session_number: int,
    pub sequence_number: int,
}

impl View for BasicHeader {
    type V = BasicHeaderView;

    open spec fn view(&self) -> BasicHeaderView {
        BasicHeaderView {
            application_identifier: self.application_identifier@,
            service_identifier: self.service_identifier,
            logical_terminal: self.logical_terminal@,
            session_number: self.session_number as int,
            sequence_number: self.sequence_number as int,
        }
    }
}

/// The default used when block 1 is absent: `F`, code 1, a blank logical
/// terminal, session and sequence 0.
pub open spec fn default_basic_header() -> BasicHeaderView {
    BasicHeaderView {
        application_identifier: seq!['F'],
        service_identifier: ServiceIdentifier::Message,
        logical_terminal: Seq::new(12, |k: int| ' '),
        session_number: 0,
        sequence_number: 0,
    }
}

/// The basic header encoded at position `i` of `s`: 25 characters whose
/// three numeric fields are digits and whose service code is in the
/// closed set.
pub open spec fn basic_header_at(s: Seq<char>, i: int) -> Option<BasicHeaderView> {
    if 0 <= i && i + 25 <= s.len() {
        let sc = s.subrange(i + 1, i + 3);
        let sess = s.subrange(i + 15, i + 19);
        let sq = s.subrange(i + 19, i + 25);
        if all_digits(sc) && all_digits(sess) && all_digits(sq) {
            match service_of_code(digits_val(sc)) {
                Some(si) => Some(
                    BasicHeaderView {
                        application_identifier: s.subrange(i, i + 1),
                        service_identifier: si,
                        logical_terminal: s.subrange(i + 3, i + 15),
                        session_number: digits_val(sess),
                        sequence_number: digits_val(sq),
                    },
                ),
                None => None,
            }
        } else {
            None
        }
    } else {
        None
    }
}

/// The wire form of a basic header: the five fields at their fixed
/// widths, numbers zero-padded.
pub open spec fn basic_header_raw(h: BasicHeaderView) -> Seq<char> {
    h.application_identifier + padded_digits(service_code(h.service_identifier), 2)
        + h.logical_terminal + padded_digits(h.session_number, 4) + padded_digits(
        h.sequence_number,
        6,
    )
}

impl BasicHeader {
    /// The default basic header, used when block 1 is absent.
    pub fn new() -> (r: BasicHeader)
        ensures
            r@ == default_basic_header(),
    {
        let r = BasicHeader {
            application_identifier: String::from_str("F"),
            service_identifier: ServiceIdentifier::Message,
            logical_terminal: String::from_str("            "),
            session_number: 0,
            sequence_number: 0,
        };
        proof {
            reveal_strlit("F");
            reveal_strlit("            ");
            assert(r.application_identifier@ =~= seq!['F']);
            assert(r.logical_terminal@ =~= Seq::new(12, |k: int| ' '));
        }
        r
    }

    /// Decodes a basic header from the cursor's position: succeeds exactly
    /// when 25 characters remain there forming a well-formed header, and
    /// then consumes exactly those 25 characters.
    pub fn from_raw(parser: &mut StringParser) -> (r: Result<BasicHeader, ParsingError>)
        requires
            old(parser).wf(),
        ensures
            final(parser).wf(),
            final(parser).text() == old(parser).text(),
            match basic_header_at(old(parser).text(), old(parser).pos()) {
                Some(h) => {
                    &&& r matches Ok(b) && b@ == h
                    &&& final(parser).pos() == old(parser).pos() + 25
                },
                None => r is Err,
            },
    {
        let application_identifier = match parser.n_chars(1) {
            Ok(s) => s,
            Err(e) => { return Err(e); },
        };
        let service_identifier_raw = match parser.n_chars(2) {
            Ok(s) => s,
            Err(e) => { return Err(e); },
        };
        let logical_terminal = match parser.n_chars(12) {
            Ok(s) => s,
            Err(e) => { return Err(e); },
        };
        let session_raw = match parser.n_chars(4) {
            Ok(s) => s,
            Err(e) => { return Err(e); },
        };
        let sequence_raw = match parser.n_chars(6) {
            Ok(s) => s,
            Err(e) => { return Err(e); },
        };
        let session_number = match parse_u32_digits(&chars_of(session_raw.as_str())) {
            Some(n) => n,
            None => {
                return Err(
                    ParsingError { message: String::from_str("session number is not numeric") },
                );
            },
        };
        let sequence_number = match parse_u32_digits(&chars_of(sequence_raw.as_str())) {
            Some(n) => n,
            None => {
                return Err(
                    ParsingError { message: String::from_str("sequence number is not numeric") },
                );
            },
        };
        let service_identifier_num = match parse_u32_digits(
            &chars_of(service_identifier_raw.as_str()),
        ) {
            Some(n) => n,
            None => {
                return Err(
                    ParsingError {
                        message: String::from_str(
                            "could not convert the service identifier field to a number",
                        ),
                    },
                );
            },
        };
        let service_identifier = match service_identifier_of_code(service_identifier_num) {
            Some(si) => si,
            None => {
                return Err(
                    ParsingError {
                        message: String::from_str("unknown value for the service identifier"),
                    },
                );
            },
        };
        Ok(
            BasicHeader {
                application_identifier,
                service_identifier,
                logical_terminal,
                session_number,
                sequence_number,
            },
        )
    }

    /// Encodes this header back to its 25-character wire form.
    pub fn to_raw(&self) -> (r: String)
        ensures
            r@ == basic_header_raw(self@),
    {
        let mut ret = String::new();
        ret.append(self.application_identifier.as_str());
        let sc = u32_to_padded(service_code_of(self.service_identifier), 2);
        ret.append(sc.as_str());
        ret.append(self.logical_terminal.as_str());
        let sess = u32_to_padded(self.session_number, 4);
        ret.append(sess.as_str());
        let sq = u32_to_padded(self.sequence_number, 6);
        ret.append(sq.as_str());
        ret
    }
}

/// Round trip of the basic header: every well-formed 25-character header
/// string is reproduced exactly by decoding it and encoding the result.
pub proof fn lemma_basic_header_round_trip(s: Seq<char>)
    requires
        s.len() == 25,
        basic_header_at(s, 0) is Some,
    ensures
        basic_header_raw(basic_header_at(s, 0)->0) == s,
{
    let h = basic_header_at(s, 0)->0;
    let sc = s.subrange(1, 3);
    let sess = s.subrange(15, 19);
    let sq = s.subrange(19, 25);
    lemma_padded_digits_round_trip(sc);
    lemma_padded_digits_round_trip(sess);
    lemma_padded_digits_round_trip(sq);
    assert(service_code(h.service_identifier) == digits_val(sc));
    assert(basic_header_raw(h) =~= s);
}

} // verus!
