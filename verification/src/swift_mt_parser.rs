//! Top-level framing of a SWIFT MT message into its labelled blocks, and
//! assembly of the decoded message.
//!
//! A message is a run of blocks `{label:body}` with label in
//! `1 2 3 4 5 S`. Labels 1 and 2 have flat bodies read greedily up to the
//! next `}`; labels 3, 5 and S allow one level of `{...}` sub-blocks;
//! label 4 is line-oriented and ends at a line starting with the sentinel
//! `-}`.

use vstd::prelude::*;
use vstd::string::StringExecFns;

use crate::application_header::app_header_at;
use crate::application_header::ApplicationHeader;
use crate::application_header::ApplicationHeaderView;
use crate::basic_header::basic_header_at;
use crate::basic_header::default_basic_header;
use crate::basic_header::BasicHeader;
use crate::basic_header::BasicHeaderView;
use crate::tag_blocks::empty_trailer;
use crate::tag_blocks::empty_user_header;
use crate::tag_blocks::trailer_of;
use crate::tag_blocks::Trailer;
use crate::tag_blocks::TrailerView;
use crate::tag_blocks::user_header_of;
use crate::tag_blocks::UserHeader;
use crate::tag_blocks::UserHeaderView;

use crate::string_parser::lemma_find_from_spec;
use crate::string_parser::lemma_line_next_bounds;
use crate::string_parser::line_next;
use crate::string_parser::line_text;
use crate::string_parser::until_next;
use crate::string_parser::until_text;
use crate::string_parser::StringParser;
use crate::strutil::push_char;
use crate::strutil::push_chars;

verus! {

/// Error returned when a message or a block does not follow the wire
/// grammar. The message text is diagnostic only; contracts state exactly
/// when an error is returned, not its wording.
#[derive(Debug)]
pub struct ParsingError {
    pub message: String,
}

/// One top-level block: an opaque body whose grammar depends on the label
/// it was framed under.
#[derive(Debug)]
pub struct Block {
    pub content: String,
}

pub open spec fn valid_label(c: char) -> bool {
    c == '1' || c == '2' || c == '3' || c == '4' || c == '5' || c == 'S'
}

/// Index of the `}` that closes a nested-block body started at `i` with
/// the given nesting depth (1 outside any sub-block, 2 inside one).
/// `None` when a sub-block opens at depth 2 (too deep) or the stream ends
/// first.
pub open spec fn nested_end(s: Seq<char>, i: int, depth: int) -> Option<int>
    decreases s.len() - i,
{
    if i < 0 || i >= s.len() {
        None
    } else if s[i] == '{' {
        if depth > 1 {
            None
        } else {
            nested_end(s, i + 1, depth + 1)
        }
    } else if s[i] == '}' {
        if depth == 1 {
            Some(i)
        } else {
            nested_end(s, i + 1, depth - 1)
        }
    } else {
        nested_end(s, i + 1, depth)
    }
}

pub proof fn lemma_nested_end_bounds(s: Seq<char>, i: int, depth: int)
    requires
        0 <= i,
    ensures
        nested_end(s, i, depth) matches Some(e) ==> i <= e < s.len(),
    decreases s.len() - i,
{
    if 0 <= i < s.len() {
        lemma_nested_end_bounds(s, i + 1, depth + 1);
        lemma_nested_end_bounds(s, i + 1, depth - 1);
        lemma_nested_end_bounds(s, i + 1, depth);
    }
}

/// The body of a line block read from `i`: lines accumulate into `acc`,
/// each re-terminated with CRLF, until a line starting with the sentinel
/// `-}` is met; the position lands just past the sentinel, leaving the
/// rest of that line in the stream. `None` when the stream ends without a
/// sentinel line.
pub open spec fn line_block_from(s: Seq<char>, i: int, acc: Seq<char>) -> Option<(Seq<char>, int)>
    decreases s.len() - i,
{
    if i < 0 || i >= s.len() {
        None
    } else {
        let line = line_text(s, i);
        if line.len() >= 2 && line[0] == '-' && line[1] == '}' {
            Some((acc, i + 2))
        } else {
            let j = line_next(s, i);
            if i < j && j <= s.len() {
                line_block_from(s, j, acc + line + seq!['\r', '\n'])
            } else {
                None
            }
        }
    }
}

/// The body of block 4 starting at `i` (just past `{4:`): the mandatory
/// first line is discarded, then lines accumulate until the sentinel.
pub open spec fn message_text_at(s: Seq<char>, i: int) -> Option<(Seq<char>, int)> {
    line_block_from(s, line_next(s, i), Seq::empty())
}

pub proof fn lemma_line_block_bounds(s: Seq<char>, i: int, acc: Seq<char>)
    requires
        0 <= i,
    ensures
        line_block_from(s, i, acc) matches Some(r) ==> i + 2 <= r.1 <= s.len(),
    decreases s.len() - i,
{
    if 0 <= i < s.len() {
        let line = line_text(s, i);
        if line.len() >= 2 && line[0] == '-' && line[1] == '}' {
            assert(i + 2 <= s.len()) by {
                lemma_find_from_spec(s, i, '\n');
            }
        } else {
            let j = line_next(s, i);
            if i < j && j <= s.len() {
                lemma_line_block_bounds(s, j, acc + line + seq!['\r', '\n']);
            }
        }
    }
}

/// One block read at position `i`: `Some((label, body, next))` when the
/// text at `i` is `{label:` with a valid label followed by a well-formed
/// body, where `next` is the position after the block.
pub open spec fn block_at(s: Seq<char>, i: int) -> Option<(char, Seq<char>, int)> {
    if 0 <= i && i + 3 <= s.len() && s[i] == '{' && s[i + 2] == ':' && valid_label(s[i + 1]) {
        let l = s[i + 1];
        if l == '1' || l == '2' {
            Some((l, until_text(s, i + 3, '}'), until_next(s, i + 3, '}')))
        } else if l == '4' {
            match message_text_at(s, i + 3) {
                Some(r) => Some((l, r.0, r.1)),
                None => None,
            }
        } else {
            match nested_end(s, i + 3, 1) {
                Some(e) => Some((l, s.subrange(i + 3, e), e + 1)),
                None => None,
            }
        }
    } else {
        None
    }
}

/// The framer: reads blocks from `i` to the end of the text, later blocks
/// replacing earlier ones under the same label. `None` as soon as one
/// block is malformed.
pub open spec fn frame_from(s: Seq<char>, i: int, acc: Map<char, Seq<char>>) -> Option<
    Map<char, Seq<char>>,
>
    decreases s.len() - i,
{
    if i < 0 {
        None
    } else if i >= s.len() {
        Some(acc)
    } else {
        match block_at(s, i) {
            None => None,
            Some((l, c, j)) => if i < j && j <= s.len() {
                frame_from(s, j, acc.insert(l, c))
            } else {
                None
            },
        }
    }
}

/// The mapping from block label to body for a whole message text.
pub open spec fn frame(s: Seq<char>) -> Option<Map<char, Seq<char>>> {
    frame_from(s, 0, Map::empty())
}

/// The position the framer reaches from `i`, reading block after block,
/// when every block it meets is well-formed.
pub open spec fn frame_end(s: Seq<char>, i: int) -> Option<int>
    decreases s.len() - i,
{
    if i < 0 {
        None
    } else if i >= s.len() {
        Some(i)
    } else {
        match block_at(s, i) {
            None => None,
            Some((l, c, j)) => if i < j && j <= s.len() {
                frame_end(s, j)
            } else {
                None
            },
        }
    }
}

/// Framer totality: the framer accepts a text exactly when scanning it
/// block by block consumes it to the very end, whatever was accumulated so
/// far. An accepted input never leaves trailing bytes behind silently.
pub proof fn lemma_framer_totality(s: Seq<char>, i: int, acc: Map<char, Seq<char>>)
    requires
        0 <= i <= s.len(),
    ensures
        frame_from(s, i, acc) is Some <==> frame_end(s, i) == Some(s.len() as int),
    decreases s.len() - i,
{
    if i < s.len() {
        match block_at(s, i) {
            None => {},
            Some((l, c, j)) => {
                if i < j && j <= s.len() {
                    lemma_framer_totality(s, j, acc.insert(l, c));
                }
            },
        }
    }
}

spec fn opt_content(o: Option<Block>) -> Option<Seq<char>> {
    match o {
        Option::Some(b) => Some(b.content@),
        Option::None => None,
    }
}

/// The blocks of one message, held per label.
#[derive(Debug)]
pub struct Blocks {
    b1: Option<Block>,
    b2: Option<Block>,
    b3: Option<Block>,
    b4: Option<Block>,
    b5: Option<Block>,
    bs: Option<Block>,
}

impl Blocks {
    /// The body held under `l`, if any.
    pub closed spec fn entry(self, l: char) -> Option<Seq<char>> {
        if l == '1' {
            opt_content(self.b1)
        } else if l == '2' {
            opt_content(self.b2)
        } else if l == '3' {
            opt_content(self.b3)
        } else if l == '4' {
            opt_content(self.b4)
        } else if l == '5' {
            opt_content(self.b5)
        } else if l == 'S' {
            opt_content(self.bs)
        } else {
            None
        }
    }

    /// The label-to-body mapping this value represents.
    pub open spec fn contents(self) -> Map<char, Seq<char>> {
        Map::new(|l: char| self.entry(l) is Some, |l: char| self.entry(l)->0)
    }

    pub fn new() -> (r: Blocks)
        ensures
            forall|l: char| r.entry(l) is None,
            r.contents() == Map::<char, Seq<char>>::empty(),
    {
        let r = Blocks {
            b1: None,
            b2: None,
            b3: None,
            b4: None,
            b5: None,
            bs: None,
        };
        proof {
            assert(r.contents() =~= Map::<char, Seq<char>>::empty());
        }
        r
    }

    fn put(&mut self, label: char, b: Block)
        requires
            valid_label(label),
        ensures
            final(self).contents() == old(self).contents().insert(label, b.content@),
            final(self).entry(label) == Some(b.content@),
            forall|l: char| l != label ==> final(self).entry(l) == old(self).entry(l),
    {
        if label == '1' {
            self.b1 = Some(b);
        } else if label == '2' {
            self.b2 = Some(b);
        } else if label == '3' {
            self.b3 = Some(b);
        } else if label == '4' {
            self.b4 = Some(b);
        } else if label == '5' {
            self.b5 = Some(b);
        } else {
            self.bs = Some(b);
        }
        proof {
            assert(self.contents() =~= old(self).contents().insert(label, self.entry(label)->0));
        }
    }

    /// The block under `label`, if one was framed.
    pub fn get(&self, label: char) -> (r: Option<&Block>)
        ensures
            match r {
                Some(b) => self.entry(label) == Some(b.content@),
                None => self.entry(label) is None,
            },
    {
        if label == '1' {
            self.b1.as_ref()
        } else if label == '2' {
            self.b2.as_ref()
        } else if label == '3' {
            self.b3.as_ref()
        } else if label == '4' {
            self.b4.as_ref()
        } else if label == '5' {
            self.b5.as_ref()
        } else if label == 'S' {
            self.bs.as_ref()
        } else {
            None
        }
    }

    /// How many labels hold a block.
    pub open spec fn spec_len(self) -> int {
        (if self.entry('1') is Some { 1int } else { 0int })
        + (if self.entry('2') is Some { 1int } else { 0int })
        + (if self.entry('3') is Some { 1int } else { 0int })
        + (if self.entry('4') is Some { 1int } else { 0int })
        + (if self.entry('5') is Some { 1int } else { 0int })
        + (if self.entry('S') is Some { 1int } else { 0int })
    }

    pub fn len(&self) -> (r: usize)
        ensures
            r == self.spec_len(),
    {
        let mut n: usize = 0;
        if self.b1.is_some() {
            n = n + 1;
        }
        if self.b2.is_some() {
            n = n + 1;
        }
        if self.b3.is_some() {
            n = n + 1;
        }
        if self.b4.is_some() {
            n = n + 1;
        }
        if self.b5.is_some() {
            n = n + 1;
        }
        if self.bs.is_some() {
            n = n + 1;
        }
        n
    }
}

/// Reads every top-level block from the cursor's position to the end of
/// the stream. Succeeds exactly when the whole remainder is a run of
/// well-formed blocks, later blocks replacing earlier ones under the same
/// label.
#[verifier::loop_isolation(false)]
pub fn read_blocks(parser: StringParser) -> (r: Result<Blocks, ParsingError>)
    requires
        parser.wf(),
    ensures
        frame_from(parser.text(), parser.pos(), Map::empty()) matches Some(m) ==> (r matches Ok(bs)
            && bs.contents() == m),
        frame_from(parser.text(), parser.pos(), Map::empty()) is None <==> r is Err,
{
    let ghost s = parser.text();
    let ghost start0 = parser.pos();
    let mut parser = parser;
    let mut blocks = Blocks::new();
    proof {
        assert(blocks.contents() =~= Map::<char, Seq<char>>::empty());
    }
    loop
        invariant
            parser.wf(),
            parser.text() == s,
            frame_from(s, start0, Map::empty()) == frame_from(s, parser.pos(), blocks.contents()),
        decreases s.len() - parser.pos(),
    {
        if !parser.has_more() {
            return Ok(blocks);
        }
        let ghost i = parser.pos();
        let start = match parser.next() {
            Ok(c) => c,
            Err(e) => { return Err(e); },
        };
        if start != '{' {
            return Err(
                ParsingError {
                    message: String::from_str(
                        "invalid message format, expected start of block ({)",
                    ),
                },
            );
        }
        let label = match parser.next() {
            Ok(c) => c,
            Err(_) => {
                return Err(
                    ParsingError {
                        message: String::from_str(
                            "invalid message format, expected block label but got end of stream",
                        ),
                    },
                );
            },
        };
        let separator = match parser.next() {
            Ok(c) => c,
            Err(_) => {
                return Err(
                    ParsingError {
                        message: String::from_str(
                            "invalid message format, expected separator but got end of stream",
                        ),
                    },
                );
            },
        };
        if separator != ':' {
            return Err(
                ParsingError {
                    message: String::from_str("invalid message format, expected separator (:)"),
                },
            );
        }
        if label == '1' || label == '2' {
            let content = match parser.until('}') {
                Ok(c) => c,
                Err(e) => { return Err(e); },
            };
            proof {
                lemma_find_from_spec(s, i + 3, '}');
            }
            blocks.put(label, Block { content });
        } else if label == '3' || label == '5' || label == 'S' {
            let b = match read_system_block(&mut parser) {
                Ok(b) => b,
                Err(e) => { return Err(e); },
            };
            proof {
                lemma_nested_end_bounds(s, i + 3, 1);
            }
            blocks.put(label, b);
        } else if label == '4' {
            let b = match read_message_text(&mut parser) {
                Ok(b) => b,
                Err(e) => { return Err(e); },
            };
            proof {
                lemma_line_next_bounds(s, i + 3);
                lemma_line_block_bounds(s, line_next(s, i + 3), Seq::empty());
            }
            blocks.put(label, b);
        } else {
            return Err(
                ParsingError {
                    message: String::from_str("invalid message format, unknown block label"),
                },
            );
        }
    }
}

/// A decoded message: one block of each kind, absent blocks replaced by
/// their defaults.
pub struct SwiftMtMessage {
    pub application_header: ApplicationHeader,
    pub basic_header: BasicHeader,
    pub user_header: UserHeader,
    pub trailer: Trailer,
}

#[verifier::ext_equal]
pub struct SwiftMtMessageView {
    pub application_header: ApplicationHeaderView,
    pub basic_header: BasicHeaderView,
    pub user_header: UserHeaderView,
    pub trailer: TrailerView,
}

impl View for SwiftMtMessage {
    type V = SwiftMtMessageView;

    open spec fn view(&self) -> SwiftMtMessageView {
        SwiftMtMessageView {
            application_header: self.application_header@,
            basic_header: self.basic_header@,
            user_header: self.user_header@,
            trailer: self.trailer@,
        }
    }
}

/// The message a raw text decodes to: the framed blocks 1, 2, 3 and 5
/// decoded by their own grammars, with a typed default for each absent
/// one. `None` when framing or a header decoder fails.
pub open spec fn message_of(s: Seq<char>) -> Option<SwiftMtMessageView> {
    match frame(s) {
        None => None,
        Some(m) => {
            let bh = if m.contains_key('1') {
                basic_header_at(m['1'], 0)
            } else {
                Some(default_basic_header())
            };
            let ah = if m.contains_key('2') {
                app_header_at(m['2'], 0)
            } else {
                Some(ApplicationHeaderView::Empty)
            };
            if bh is Some && ah is Some {
                Some(
                    SwiftMtMessageView {
                        application_header: ah->0,
                        basic_header: bh->0,
                        user_header: if m.contains_key('3') {
                            user_header_of(m['3'])
                        } else {
                            empty_user_header()
                        },
                        trailer: if m.contains_key('5') {
                            trailer_of(m['5'])
                        } else {
                            empty_trailer()
                        },
                    },
                )
            } else {
                None
            }
        },
    }
}

/// Absence defaults: whenever a message decodes and one of blocks 1, 2, 3
/// or 5 is missing from it, the corresponding part of the decoded message
/// is exactly that block's defined default.
pub proof fn lemma_absent_block_defaults(s: Seq<char>)
    requires
        message_of(s) is Some,
    ensures
        !frame(s)->0.contains_key('1') ==> message_of(s)->0.basic_header
            == default_basic_header(),
        !frame(s)->0.contains_key('2') ==> message_of(s)->0.application_header
            == ApplicationHeaderView::Empty,
        !frame(s)->0.contains_key('3') ==> message_of(s)->0.user_header == empty_user_header(),
        !frame(s)->0.contains_key('5') ==> message_of(s)->0.trailer == empty_trailer(),
{
}

/// Decodes block 2 as an application header.
pub fn read_application_header(block: &Block) -> (r: Result<ApplicationHeader, ParsingError>)
    ensures
        match app_header_at(block.content@, 0) {
            Some(h) => (r matches Ok(a) && a@ == h),
            None => r is Err,
        },
{
    let mut parser = StringParser::new(block.content.clone());
    ApplicationHeader::from_raw(&mut parser)
}

/// Decodes block 1 as a basic header.
pub fn read_basic_header(block: &Block) -> (r: Result<BasicHeader, ParsingError>)
    ensures
        match basic_header_at(block.content@, 0) {
            Some(h) => (r matches Ok(b) && b@ == h),
            None => r is Err,
        },
{
    let mut parser = StringParser::new(block.content.clone());
    BasicHeader::from_raw(&mut parser)
}

/// Decodes block 3 as a user header.
pub fn read_user_header(block: &Block) -> (r: Result<UserHeader, ParsingError>)
    ensures
        r matches Ok(u) && u@ == user_header_of(block.content@),
{
    UserHeader::from_raw(block.content.clone())
}

/// Decodes block 5 as a trailer.
pub fn read_trailer(block: &Block) -> (r: Result<Trailer, ParsingError>)
    ensures
        r matches Ok(t) && t@ == trailer_of(block.content@),
{
    Trailer::from_raw(block.content.clone())
}

/// The entry point for decoding: framing plus per-block decoding.
pub struct SwiftMtParser {}

impl SwiftMtParser {
    pub fn new() -> (r: SwiftMtParser) {
        SwiftMtParser {  }
    }

    /// Decodes a whole message: frames it into blocks, decodes blocks 1,
    /// 2, 3 and 5, and fills defaults for the absent ones. Succeeds
    /// exactly when framing and every present block's decoder succeed.
    pub fn parse(self, msg: String) -> (r: Result<SwiftMtMessage, ParsingError>)
        ensures
            message_of(msg@) matches Some(v) ==> (r matches Ok(m) && m@ == v),
            message_of(msg@) is None <==> r is Err,
    {
        let blocks = match self.parse_blocks(msg) {
            Ok(b) => b,
            Err(e) => { return Err(e); },
        };
        let bh = match blocks.get('1') {
            Some(block) => match read_basic_header(block) {
                Ok(h) => h,
                Err(e) => { return Err(e); },
            },
            None => BasicHeader::new(),
        };
        let ah = match blocks.get('2') {
            Some(block) => match read_application_header(block) {
                Ok(h) => h,
                Err(e) => { return Err(e); },
            },
            None => ApplicationHeader::Empty,
        };
        let uh = match blocks.get('3') {
            Some(block) => match read_user_header(block) {
                Ok(h) => h,
                Err(e) => { return Err(e); },
            },
            None => UserHeader::new(),
        };
        let tr = match blocks.get('5') {
            Some(block) => match read_trailer(block) {
                Ok(h) => h,
                Err(e) => { return Err(e); },
            },
            None => Trailer::new(),
        };
        let ret_msg = SwiftMtMessage {
            application_header: ah,
            basic_header: bh,
            user_header: uh,
            trailer: tr,
        };
        proof {
            assert(ret_msg@ =~= message_of(msg@)->0);
        }
        Ok(ret_msg)
    }

    /// Splits a raw message into its labelled blocks.
    pub fn parse_blocks(self, msg: String) -> (r: Result<Blocks, ParsingError>)
        ensures
            frame(msg@) matches Some(m) ==> (r matches Ok(bs) && bs.contents() == m),
            frame(msg@) is None <==> r is Err,
    {
        let parser = StringParser::new(msg);
        read_blocks(parser)
    }
}

/// Reads the body of block 4 from the current position (just past
/// `{4:`): discards the mandatory first line, then appends each line with
/// a CRLF terminator until a line starting with the sentinel `-}`. The
/// cursor is left just past the sentinel, so the rest of the sentinel
/// line stays in the stream.
#[verifier::loop_isolation(false)]
pub fn read_message_text(parser: &mut StringParser) -> (r: Result<Block, ParsingError>)
    requires
        old(parser).wf(),
    ensures
        final(parser).wf(),
        final(parser).text() == old(parser).text(),
        match message_text_at(old(parser).text(), old(parser).pos()) {
            Some(res) => {
                &&& r matches Ok(b) && b.content@ == res.0
                &&& final(parser).pos() == res.1
            },
            None => r is Err,
        },
{
    let ghost s = parser.text();
    let mut content = String::new();
    let _skipped = parser.next_line_chars();
    loop
        invariant
            parser.wf(),
            parser.text() == s,
            line_block_from(s, parser.pos(), content@) == message_text_at(s, old(parser).pos()),
        decreases s.len() - parser.pos(),
    {
        if !parser.has_more() {
            return Err(
                ParsingError {
                    message: String::from_str(
                        "invalid message format, end of stream while reading block 4",
                    ),
                },
            );
        }

        let pos = parser.position();
        let line = parser.next_line_chars();
        proof {
            lemma_find_from_spec(s, pos as int, '\n');
        }
        if line.len() >= 2 && line[0] == '-' && line[1] == '}' {
            proof {
                parser.lemma_text_len_bound();
                assert(pos + 2 <= s.len());
            }
            parser.set_position(pos + 2);
            return Ok(Block { content });
        }
        let ghost before = content@;
        push_chars(&mut content, &line);
        push_char(&mut content, '\r');
        push_char(&mut content, '\n');
        proof {
            assert(content@ =~= before + line@ + seq!['\r', '\n']);
        }
    }
}

/// Reads the body of a nested block (labels 3, 5 and S) from the current
/// position: at most one level of `{...}` sub-blocks, ending at the `}`
/// that balances the block. The closing `}` is consumed and excluded from
/// the content; inner braces are kept.
#[verifier::loop_isolation(false)]
pub fn read_system_block(parser: &mut StringParser) -> (r: Result<Block, ParsingError>)
    requires
        old(parser).wf(),
    ensures
        final(parser).wf(),
        final(parser).text() == old(parser).text(),
        match nested_end(old(parser).text(), old(parser).pos(), 1) {
            Some(e) => {
                &&& r matches Ok(b) && b.content@ == old(parser).text().subrange(
                    old(parser).pos(),
                    e,
                )
                &&& final(parser).pos() == e + 1
            },
            None => r is Err,
        },
{
    let ghost s = parser.text();
    let ghost start = parser.pos();
    let mut nesting_level: usize = 1;
    let mut cur_content = String::new();

    loop
        invariant
            parser.wf(),
            parser.text() == s,
            start <= parser.pos() <= s.len(),
            1 <= nesting_level <= 2,
            cur_content@ == s.subrange(start, parser.pos()),
            nested_end(s, start, 1) == nested_end(s, parser.pos(), nesting_level as int),
        decreases s.len() - parser.pos(),
    {
        if !parser.has_more() {
            return Err(
                ParsingError {
                    message: String::from_str(
                        "invalid message format, end of stream while reading system block",
                    ),
                },
            );
        }

        let ghost p = parser.pos();
        let c = match parser.next() {
            Ok(c) => c,
            Err(e) => { return Err(e); },
        };
        if c == '{' {
            if nesting_level > 1 {
                return Err(
                    ParsingError {
                        message: String::from_str(
                            "invalid message format, nested blocks are not supported in system blocks",
                        ),
                    },
                );
            }
            nesting_level = nesting_level + 1;
            push_char(&mut cur_content, c);
        } else if c == '}' {
            nesting_level = nesting_level - 1;
            if nesting_level == 0 {
                proof {
                    assert(nested_end(s, p, 1) == Some(p));
                }
                return Ok(Block { content: cur_content });
            }
            push_char(&mut cur_content, c);
        } else {
            push_char(&mut cur_content, c);
        }
        proof {
            assert(cur_content@ =~= s.subrange(start, parser.pos()));
        }
    }
}

} // verus!
