//! The application header of block 2: a union discriminated by its first
//! character, `I` for messages going to the network, `O` for messages
//! coming from it, with `Empty` standing for an absent block 2.

use vstd::prelude::*;
use vstd::string::StringExecFns;

use crate::datetime::datetime_of;
use crate::datetime::parse_yymmddhhmm;
use crate::datetime::UtcDateTime;
use crate::string_parser::StringParser;
use crate::strutil::chars_of;
use crate::swift_mt_parser::ParsingError;

verus! {

/// The input direction: message type, destination and priority, then two
/// optional fields that read as empty when the header ends early.
#[derive(Debug)]
pub struct InputData {
    pub message_type: String,
    pub destination: String,
    pub priority: String,
    pub delivery_monitoring: String,
    pub obsolescence_period: String,
}

/// The output direction: sender and receiver timestamps around the
/// sender's address; session and sequence numbers stay raw strings here.
#[derive(Debug)]
pub struct OutputData {
    pub message_type: String,
    pub sender_datetime: UtcDateTime,
    pub sender_address: String,
    pub session_number: String,
    pub sequence_number: String,
    pub receiver_datetime: UtcDateTime,
    pub message_priority: String,
}

#[derive(Debug)]
pub enum ApplicationHeader {
    Input { data: InputData },
    Output { data: OutputData },
    Empty,
}

#[verifier::ext_equal]
pub struct InputDataView {
    pub message_type: Seq<char>,
    pub destination: Seq<char>,
    pub priority: Seq<char>,
    pub delivery_monitoring: Seq<char>,
    pub obsolescence_period: Seq<char>,
}

#[verifier::ext_equal]
pub struct OutputDataView {
    pub message_type: Seq<char>,
    pub sender_datetime: UtcDateTime,
    pub sender_address: Seq<char>,
    pub session_number: Seq<char>,
    pub sequence_number: Seq<char>,
    pub receiver_datetime: UtcDateTime,
    pub message_priority: Seq<char>,
}

#[verifier::ext_equal]
pub enum ApplicationHeaderView {
    Input(InputDataView),
    Output(OutputDataView),
    Empty,
}

impl View for InputData {
    type V = InputDataView;

    open spec fn view(&self) -> InputDataView {
        InputDataView {
            message_type: self.message_type@,
            destination: self.destination@,
            priority: self.priority@,
            delivery_monitoring: self.delivery_monitoring@,
            obsolescence_period: self.obsolescence_period@,
        }
    }
}

impl View for OutputData {
    type V = OutputDataView;

    open spec fn view(&self) -> OutputDataView {
        OutputDataView {
            message_type: self.message_type@,
            sender_datetime: self.sender_datetime,
            sender_address: self.sender_address@,
            session_number: self.session_number@,
            sequence_number: self.sequence_number@,
            receiver_datetime: self.receiver_datetime,
            message_priority: self.message_priority@,
        }
    }
}

impl View for ApplicationHeader {
    type V = ApplicationHeaderView;

    open spec fn view(&self) -> ApplicationHeaderView {
        match self {
            ApplicationHeader::Input { data } => ApplicationHeaderView::Input(data@),
            ApplicationHeader::Output { data } => ApplicationHeaderView::Output(data@),
            ApplicationHeader::Empty => ApplicationHeaderView::Empty,
        }
    }
}

/// An input header at position `i` (whose character is `I`): one
/// character of direction, then fields of widths 3, 12, 1, and the two
/// optional tails of widths 1 and 3, each empty when the text ends before
/// it.
pub open spec fn input_header_at(s: Seq<char>, i: int) -> Option<InputDataView> {
    if 0 <= i && i + 17 <= s.len() {
        Some(
            InputDataView {
                message_type: s.subrange(i + 1, i + 4),
                destination: s.subrange(i + 4, i + 16),
                priority: s.subrange(i + 16, i + 17),
                delivery_monitoring: if i + 18 <= s.len() {
                    s.subrange(i + 17, i + 18)
                } else {
                    Seq::empty()
                },
                obsolescence_period: if i + 21 <= s.len() {
                    s.subrange(i + 18, i + 21)
                } else {
                    Seq::empty()
                },
            },
        )
    } else {
        None
    }
}

/// An output header at position `i` (whose character is `O`): every width
/// is mandatory and both `YYMMDDHHMM` timestamps must name valid calendar
/// instants; the date field precedes the time field in each timestamp's
/// digits, though time comes first on the wire for the sender.
pub open spec fn output_header_at(s: Seq<char>, i: int) -> Option<OutputDataView> {
    if 0 <= i && i + 47 <= s.len() {
        let sender = datetime_of(s.subrange(i + 8, i + 14) + s.subrange(i + 4, i + 8));
        let receiver = datetime_of(s.subrange(i + 36, i + 42) + s.subrange(i + 42, i + 46));
        if sender is Some && receiver is Some {
            Some(
                OutputDataView {
                    message_type: s.subrange(i + 1, i + 4),
                    sender_datetime: sender->0,
                    sender_address: s.subrange(i + 14, i + 26),
                    session_number: s.subrange(i + 26, i + 30),
                    sequence_number: s.subrange(i + 30, i + 36),
                    receiver_datetime: receiver->0,
                    message_priority: s.subrange(i + 46, i + 47),
                },
            )
        } else {
            None
        }
    } else {
        None
    }
}

/// The application header at position `i`: discriminated by the first
/// character, `I` or `O`; anything else, or an empty remainder, is an
/// error.
pub open spec fn app_header_at(s: Seq<char>, i: int) -> Option<ApplicationHeaderView> {
    if 0 <= i && i < s.len() {
        if s[i] == 'I' {
            match input_header_at(s, i) {
                Some(d) => Some(ApplicationHeaderView::Input(d)),
                None => None,
            }
        } else if s[i] == 'O' {
            match output_header_at(s, i) {
                Some(d) => Some(ApplicationHeaderView::Output(d)),
                None => None,
            }
        } else {
            None
        }
    } else {
        None
    }
}

impl ApplicationHeader {
    /// Decodes an application header from the cursor's position: succeeds
    /// exactly when the text there starts with `I` or `O` and carries the
    /// widths (and, for `O`, the valid timestamps) that the direction
    /// demands.
    pub fn from_raw(parser: &mut StringParser) -> (r: Result<ApplicationHeader, ParsingError>)
        requires
            old(parser).wf(),
        ensures
            final(parser).wf(),
            final(parser).text() == old(parser).text(),
            match app_header_at(old(parser).text(), old(parser).pos()) {
                Some(h) => r matches Ok(a) && a@ == h,
                None => r is Err,
            },
    {
        let direction = match parser.next() {
            Ok(c) => c,
            Err(e) => { return Err(e); },
        };
        let message_type = match parser.n_chars(3) {
            Ok(s) => s,
            Err(e) => { return Err(e); },
        };

        if direction == 'I' {
            let destination = match parser.n_chars(12) {
                Ok(s) => s,
                Err(e) => { return Err(e); },
            };
            let priority = match parser.n_chars(1) {
                Ok(s) => s,
                Err(e) => { return Err(e); },
            };
            let delivery_monitoring = match parser.n_chars(1) {
                Ok(s) => s,
                Err(_) => String::new(),
            };
            let obsolescence_period = match parser.n_chars(3) {
                Ok(s) => s,
                Err(_) => String::new(),
            };
            Ok(
                ApplicationHeader::Input {
                    data: InputData {
                        message_type,
                        destination,
                        priority,
                        delivery_monitoring,
                        obsolescence_period,
                    },
                },
            )
        } else if direction == 'O' {
            let sender_time = match parser.n_chars(4) {
                Ok(s) => s,
                Err(e) => { return Err(e); },
            };
            let sender_date = match parser.n_chars(6) {
                Ok(s) => s,
                Err(e) => { return Err(e); },
            };
            let mut sender_digits = chars_of(sender_date.as_str());
            let mut sender_time_digits = chars_of(sender_time.as_str());
            sender_digits.append(&mut sender_time_digits);
            let sender_datetime = match parse_yymmddhhmm(&sender_digits) {
                Some(d) => d,
                None => {
                    return Err(
                        ParsingError {
                            message: String::from_str("cannot parse the sender date and time"),
                        },
                    );
                },
            };
            let sender_address = match parser.n_chars(12) {
                Ok(s) => s,
                Err(e) => { return Err(e); },
            };
            let session_number = match parser.n_chars(4) {
                Ok(s) => s,
                Err(e) => { return Err(e); },
            };
            let sequence_number = match parser.n_chars(6) {
                Ok(s) => s,
                Err(e) => { return Err(e); },
            };
            let receiver_date = match parser.n_chars(6) {
                Ok(s) => s,
                Err(e) => { return Err(e); },
            };
            let receiver_time = match parser.n_chars(4) {
                Ok(s) => s,
                Err(e) => { return Err(e); },
            };
            let mut receiver_digits = chars_of(receiver_date.as_str());
            let mut receiver_time_digits = chars_of(receiver_time.as_str());
            receiver_digits.append(&mut receiver_time_digits);
            let receiver_datetime = match parse_yymmddhhmm(&receiver_digits) {
                Some(d) => d,
                None => {
                    return Err(
                        ParsingError {
                            message: String::from_str("cannot parse the receiver date and time"),
                        },
                    );
                },
            };
            let message_priority = match parser.n_chars(1) {
                Ok(s) => s,
                Err(e) => { return Err(e); },
            };
            Ok(
                ApplicationHeader::Output {
                    data: OutputData {
                        message_type,
                        sender_datetime,
                        sender_address,
                        session_number,
                        sequence_number,
                        receiver_datetime,
                        message_priority,
                    },
                },
            )
        } else {
            Err(ParsingError { message: String::from_str("invalid direction") })
        }
    }
}

} // verus!
