//! Reading of a parenthesised metadata block, such as
//! `(post (title "Hello") (date "2025-01-01"))`, into a flat record of
//! string keys and string values.

use vstd::prelude::*;
use vstd::string::StringExecFns;
use crate::record::MetadataRecord;
use crate::text::{
    char_is_whitespace, chars_of, is_whitespace, skip_whitespace, skip_whitespace_back,
    string_of, trim, trim_start,
};

verus! {

/// Why a metadata block could not be read. Each failure names the document
/// that the block came from and gives a reason in words.
#[derive(Debug, Clone, PartialEq, Eq)]
pub enum ParseError {
    /// The text does not begin, after leading white space, with `(`.
    MissingHeader { document: String, reason: String },
    /// The text ends before the parenthesis that opens the block is closed.
    UnterminatedBlock { document: String, reason: String },
}

impl ParseError {
    /// The name of the document that the block came from.
    pub open spec fn document_text(&self) -> Seq<char> {
        match self {
            ParseError::MissingHeader { document, .. } => document@,
            ParseError::UnterminatedBlock { document, .. } => document@,
        }
    }

    /// The reason of the failure, in words.
    pub open spec fn reason_text(&self) -> Seq<char> {
        match self {
            ParseError::MissingHeader { reason, .. } => reason@,
            ParseError::UnterminatedBlock { reason, .. } => reason@,
        }
    }

    /// The name of the document that the block came from.
    pub fn document(&self) -> (document: &String)
        ensures
            document@ == self.document_text(),
    {
        match self {
            ParseError::MissingHeader { document, .. } => document,
            ParseError::UnterminatedBlock { document, .. } => document,
        }
    }

    /// The reason of the failure, in words.
    pub fn reason(&self) -> (reason: &String)
        ensures
            reason@ == self.reason_text(),
    {
        match self {
            ParseError::MissingHeader { reason, .. } => reason,
            ParseError::UnterminatedBlock { reason, .. } => reason,
        }
    }

    /// The failure in one line: the document, a colon and a space, the reason.
    pub fn message(&self) -> (message: String)
        ensures
            message@ == self.document_text() + ": "@ + self.reason_text(),
    {
        let mut message = String::from_str(self.document().as_str());
        message.append(": ");
        message.append(self.reason().as_str());
        message
    }
}

/// The reason given with `ParseError::MissingHeader`.
pub const MISSING_HEADER_REASON: &'static str = "metadata block must start with '('";

/// The reason given with `ParseError::UnterminatedBlock`.
pub const UNTERMINATED_BLOCK_REASON: &'static str = "metadata block is never closed";

/// What the scanner is doing with the characters it meets.
#[derive(Debug, Clone, Copy, PartialEq, Eq)]
pub enum Mode {
    /// Between pairs, directly inside the outer form: characters are passed over.
    AwaitingPair,
    /// Inside a pair, before its first unquoted white space.
    ReadingKey,
    /// Inside a pair, after its first unquoted white space.
    ReadingValue,
}

/// The state of the scanner.
pub struct Scan {
    /// How many parentheses are open; 0 once the block is closed.
    pub depth: nat,
    /// Whether the scanner is inside a quoted string.
    pub in_string: bool,
    pub mode: Mode,
    /// The key of the current pair, as far as it has been read.
    pub key: Seq<char>,
    /// The untrimmed value of the current pair, as far as it has been read.
    pub value: Seq<char>,
    /// The pairs that have been closed so far.
    pub record: Map<Seq<char>, Seq<char>>,
}

/// The state just after the parenthesis that opens the block.
pub open spec fn started() -> Scan {
    Scan {
        depth: 1,
        in_string: false,
        mode: Mode::AwaitingPair,
        key: Seq::empty(),
        value: Seq::empty(),
        record: Map::empty(),
    }
}

/// `st` after `c` has been taken as text: added to the key or to the value of
/// the current pair, passed over between pairs.
pub open spec fn accumulate(st: Scan, c: char) -> Scan {
    match st.mode {
        Mode::AwaitingPair => st,
        Mode::ReadingKey => Scan { key: st.key.push(c), ..st },
        Mode::ReadingValue => Scan { value: st.value.push(c), ..st },
    }
}

/// `st` after an unquoted `(`: directly inside the outer form it starts a
/// pair; inside a pair it is text.
pub open spec fn open_paren(st: Scan) -> Scan {
    if st.depth == 1 {
        Scan {
            depth: 2,
            mode: Mode::ReadingKey,
            key: Seq::empty(),
            value: Seq::empty(),
            ..st
        }
    } else {
        Scan { depth: st.depth + 1, ..accumulate(st, '(') }
    }
}

/// `st` after an unquoted `)`: it closes the block, or the current pair, whose
/// key and trimmed value enter the record unless the key is empty, or a
/// deeper form, where it is text.
pub open spec fn close_paren(st: Scan) -> Scan {
    if st.depth == 1 {
        Scan { depth: 0, ..st }
    } else if st.depth == 2 {
        Scan {
            depth: 1,
            mode: Mode::AwaitingPair,
            key: Seq::empty(),
            value: Seq::empty(),
            record: if st.key.len() > 0 {
                st.record.insert(st.key, trim(st.value))
            } else {
                st.record
            },
            ..st
        }
    } else {
        Scan { depth: (st.depth - 1) as nat, ..accumulate(st, ')') }
    }
}

/// `st` after unquoted white space: the first in a pair ends the key, later
/// white space belongs to the value.
pub open spec fn white_space(st: Scan, c: char) -> Scan {
    match st.mode {
        Mode::ReadingKey => Scan { mode: Mode::ReadingValue, ..st },
        _ => accumulate(st, c),
    }
}

/// The state that follows `st` on the character `c`. A closed block takes no
/// further character. A quote switches between quoted and unquoted and is
/// itself dropped; quoted characters are text.
pub open spec fn step(st: Scan, c: char) -> Scan {
    if st.depth == 0 {
        st
    } else if c == '"' {
        Scan { in_string: !st.in_string, ..st }
    } else if st.in_string {
        accumulate(st, c)
    } else if c == '(' {
        open_paren(st)
    } else if c == ')' {
        close_paren(st)
    } else if is_whitespace(c) {
        white_space(st, c)
    } else {
        accumulate(st, c)
    }
}

/// The state that the scanner reaches from `st` over `text`.
pub open spec fn run(st: Scan, text: Seq<char>) -> Scan
    decreases text.len(),
{
    if text.len() == 0 {
        st
    } else {
        step(run(st, text.drop_last()), text.last())
    }
}

/// Whether `text` begins, after leading white space, with `(`.
pub open spec fn has_header(text: Seq<char>) -> bool {
    trim_start(text).len() > 0 && trim_start(text).first() == '('
}

/// The state that the scanner ends in on a `text` that has its header.
pub open spec fn scanned(text: Seq<char>) -> Scan {
    run(started(), trim_start(text).drop_first())
}

/// Whether the parenthesis that opens the block in `text` is closed.
pub open spec fn is_terminated(text: Seq<char>) -> bool {
    scanned(text).depth == 0
}

/// Scanning `a + b` is scanning `a`, then `b`.
pub proof fn lemma_run_concat(st: Scan, a: Seq<char>, b: Seq<char>)
    ensures
        run(st, a + b) == run(run(st, a), b),
    decreases b.len(),
{
    if b.len() == 0 {
        assert(a + b =~= a);
    } else {
        lemma_run_concat(st, a, b.drop_last());
        assert((a + b).drop_last() =~= a + b.drop_last());
    }
}

/// A closed block stays as it is, whatever follows.
pub proof fn lemma_run_closed(st: Scan, text: Seq<char>)
    requires
        st.depth == 0,
    ensures
        run(st, text) == st,
    decreases text.len(),
{
    if text.len() > 0 {
        lemma_run_closed(st, text.drop_last());
    }
}

/// Scanning one more character is one more step.
pub proof fn lemma_run_push(st: Scan, text: Seq<char>, c: char)
    ensures
        run(st, text.push(c)) == step(run(st, text), c),
{
    assert(text.push(c).drop_last() =~= text);
}

/// The scanner at work: a state, with the record that it fills.
pub struct Scanner {
    depth: usize,
    in_string: bool,
    mode: Mode,
    key: Vec<char>,
    value: Vec<char>,
    record: MetadataRecord,
}

impl View for Scanner {
    type V = Scan;

    closed spec fn view(&self) -> Scan {
        Scan {
            depth: self.depth as nat,
            in_string: self.in_string,
            mode: self.mode,
            key: self.key@,
            value: self.value@,
            record: self.record@,
        }
    }
}

impl Scanner {
    /// The invariant of a scanner: its record is well formed.
    pub closed spec fn wf(&self) -> bool {
        self.record.wf()
    }

    /// A scanner just after the parenthesis that opens a block.
    pub fn new() -> (scanner: Scanner)
        ensures
            scanner.wf(),
            scanner@ == started(),
    {
        Scanner {
            depth: 1,
            in_string: false,
            mode: Mode::AwaitingPair,
            key: Vec::new(),
            value: Vec::new(),
            record: MetadataRecord::new(),
        }
    }

    /// How many parentheses are open.
    pub fn depth(&self) -> (depth: usize)
        ensures
            depth == self@.depth,
    {
        self.depth
    }

    /// What the scanner is doing with the characters it meets.
    pub fn mode(&self) -> (mode: Mode)
        ensures
            mode == self@.mode,
    {
        self.mode
    }

    /// Whether the scanner is inside a quoted string.
    pub fn in_string(&self) -> (in_string: bool)
        ensures
            in_string == self@.in_string,
    {
        self.in_string
    }

    /// Whether the block has been closed.
    pub fn is_closed(&self) -> (closed: bool)
        ensures
            closed == (self@.depth == 0),
    {
        self.depth == 0
    }

    /// Takes `c` as text.
    fn accumulate(&mut self, c: char)
        requires
            old(self).wf(),
        ensures
            final(self).wf(),
            final(self)@ == accumulate(old(self)@, c),
    {
        match self.mode {
            Mode::AwaitingPair => {},
            Mode::ReadingKey => self.key.push(c),
            Mode::ReadingValue => self.value.push(c),
        }
    }

    /// Takes an unquoted `(`.
    fn open_paren(&mut self)
        requires
            old(self).wf(),
            1 <= old(self)@.depth < usize::MAX,
        ensures
            final(self).wf(),
            final(self)@ == open_paren(old(self)@),
    {
        if self.depth == 1 {
            self.mode = Mode::ReadingKey;
            self.key = Vec::new();
            self.value = Vec::new();
        } else {
            self.accumulate('(');
        }
        self.depth += 1;
    }

    /// Takes an unquoted `)`.
    fn close_paren(&mut self)
        requires
            old(self).wf(),
            1 <= old(self)@.depth,
        ensures
            final(self).wf(),
            final(self)@ == close_paren(old(self)@),
    {
        if self.depth == 2 {
            if self.key.len() > 0 {
                let from = skip_whitespace(&self.value, 0, self.value.len());
                let to = skip_whitespace_back(&self.value, from, self.value.len());
                let key = string_of(&self.key, 0, self.key.len());
                let value = string_of(&self.value, from, to);
                assert(self.key@.subrange(0, self.key.len() as int) =~= self.key@);
                assert(self.value@.subrange(0, self.value.len() as int) =~= self.value@);
                self.record.insert(key, value);
            }
            self.mode = Mode::AwaitingPair;
            self.key = Vec::new();
            self.value = Vec::new();
        } else if self.depth > 2 {
            self.accumulate(')');
        }
        self.depth -= 1;
    }

    /// Takes unquoted white space.
    fn white_space(&mut self, c: char)
        requires
            old(self).wf(),
        ensures
            final(self).wf(),
            final(self)@ == white_space(old(self)@, c),
    {
        match self.mode {
            Mode::ReadingKey => {
                self.mode = Mode::ReadingValue;
            },
            _ => self.accumulate(c),
        }
    }

    /// Takes the next character of the block.
    pub fn step(&mut self, c: char)
        requires
            old(self).wf(),
            old(self)@.depth < usize::MAX,
        ensures
            final(self).wf(),
            final(self)@ == step(old(self)@, c),
    {
        if self.depth == 0 {
        } else if c == '"' {
            self.in_string = !self.in_string;
        } else if self.in_string {
            self.accumulate(c);
        } else if c == '(' {
            self.open_paren();
        } else if c == ')' {
            self.close_paren();
        } else if char_is_whitespace(c) {
            self.white_space(c);
        } else {
            self.accumulate(c);
        }
    }

    /// The record that the scanner has filled, if the block has been closed.
    pub fn finish(self) -> (record: Option<MetadataRecord>)
        requires
            self.wf(),
        ensures
            match record {
                Some(record) => self@.depth == 0 && record.wf() && record@ == self@.record,
                None => self@.depth != 0,
            },
    {
        if self.depth == 0 {
            Some(self.record)
        } else {
            None
        }
    }
}

/// Reads the metadata block `text` of the document named `document`.
///
/// The block is one parenthesised form. Each form directly inside it is a
/// pair: its text up to the first unquoted white space is the key, the rest,
/// trimmed, is the value. Quotes group text and are dropped; forms nested in
/// a pair are kept as text. A pair with an empty key is passed over, and of
/// two pairs with one key the later wins. Text after the closing parenthesis
/// is not read.
pub fn parse(document: &str, text: &str) -> (result: Result<MetadataRecord, ParseError>)
    ensures
        !has_header(text@) ==> (result matches Err(
            ParseError::MissingHeader { document: d, reason: r },
        ) && d@ == document@ && r@ == MISSING_HEADER_REASON@),
        has_header(text@) && !is_terminated(text@) ==> (result matches Err(
            ParseError::UnterminatedBlock { document: d, reason: r },
        ) && d@ == document@ && r@ == UNTERMINATED_BLOCK_REASON@),
        has_header(text@) && is_terminated(text@) ==> (result matches Ok(record) && record.wf()
            && record@ == scanned(text@).record),
{
    let chars = chars_of(text);
    let n = chars.len();
    let begin = skip_whitespace(&chars, 0, n);
    assert(chars@.subrange(0, n as int) =~= chars@);
    if begin == n || chars[begin] != '(' {
        return Err(
            ParseError::MissingHeader {
                document: String::from_str(document),
                reason: String::from_str(MISSING_HEADER_REASON),
            },
        );
    }
    let ghost body = trim_start(text@).drop_first();
    assert(body =~= chars@.subrange(begin + 1, n as int));
    let mut scanner = Scanner::new();
    let mut i: usize = begin + 1;
    while i < n && !scanner.is_closed()
        invariant
            begin < i <= n == chars.len(),
            scanner.wf(),
            scanner@.depth <= i - begin,
            scanner@ == run(started(), chars@.subrange(begin + 1, i as int)),
        decreases n - i,
    {
        proof {
            assert(chars@.subrange(begin + 1, i + 1).drop_last() =~= chars@.subrange(
                begin + 1,
                i as int,
            ));
        }
        scanner.step(chars[i]);
        i += 1;
    }
    proof {
        let seen = chars@.subrange(begin + 1, i as int);
        let rest = chars@.subrange(i as int, n as int);
        assert(body =~= seen + rest);
        lemma_run_concat(started(), seen, rest);
        if scanner@.depth == 0 {
            lemma_run_closed(run(started(), seen), rest);
        } else {
            assert(rest =~= Seq::<char>::empty());
        }
    }
    match scanner.finish() {
        Some(record) => Ok(record),
        None => Err(
            ParseError::UnterminatedBlock {
                document: String::from_str(document),
                reason: String::from_str(UNTERMINATED_BLOCK_REASON),
            },
        ),
    }
}

} // verus!
