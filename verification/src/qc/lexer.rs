//! Tokens of a script: comments, quotes, macros, variables and files taken in by name.
use vstd::prelude::*;

use super::error::{ErrorView, QcError};
use crate::text::{chars_of, lower, same, same_but_case, string_of};

verus! {

/// The most bytes a token may have before the next one is read.
pub const MAX_TOKEN: usize = 1024;

/// The most texts that may be open at once.
pub const MAX_NESTED: usize = 16;

/// A token.
#[derive(Debug, Clone, PartialEq, Eq)]
pub struct Token {
    /// The text, without quotes.
    pub text: String,
    /// Whether the text stood in quotes.
    pub quoted: bool,
    /// The file that the token starts in.
    pub file: String,
    /// The line that the token starts on, counted from 1.
    pub line: usize,
}

/// A token as a mathematical value.
#[verifier::ext_equal]
pub struct TokenView {
    /// The text, without quotes.
    pub text: Seq<char>,
    /// Whether the text stood in quotes.
    pub quoted: bool,
    /// The file that the token starts in.
    pub file: Seq<char>,
    /// The line that the token starts on.
    pub line: nat,
}

impl View for Token {
    type V = TokenView;

    open spec fn view(&self) -> TokenView {
        TokenView {
            text: self.text@,
            quoted: self.quoted,
            file: self.file@,
            line: self.line as nat,
        }
    }
}

impl Token {
    /// The first byte of the text; 0 for an empty text.
    pub fn first(&self) -> (r: u8)
        ensures
            r == (if self.text@.len() == 0 {
                0u8
            } else {
                vstd::utf8::encode_utf8(self.text@)[0]
            }),
    {
        let bytes: &[u8] = self.text.as_str().as_bytes();
        if bytes.len() == 0 {
            proof {
                if self.text@.len() > 0 {
                    vstd::utf8::encode_utf8_first_scalar(self.text@);
                }
            }
            0
        } else {
            bytes[0]
        }
    }
}

/// The text that bytes stand for, with a mark in place of what is no UTF-8.
pub uninterp spec fn lossy_text(bytes: Seq<u8>) -> Seq<char>;

/// `String::from_utf8_lossy` decodes valid UTF-8, and puts the replacement character in place of a
/// single byte that is no character. Of other bytes the result is only named.
#[verifier::external_body]
fn from_utf8_lossy(bytes: &Vec<u8>) -> (r: String)
    ensures
        r@ == lossy_text(bytes@),
        vstd::utf8::valid_utf8(bytes@) ==> r@ == vstd::utf8::decode_utf8(bytes@),
        bytes@.len() == 1 && bytes@[0] >= 0x80 ==> r@ == seq!['\u{fffd}'],
{
    String::from_utf8_lossy(bytes.as_slice()).into_owned()
}

/// The text that bytes stand for: what they decode to, where they are UTF-8. A single byte that is
/// no character becomes the replacement character.
pub open spec fn text_of(bytes: Seq<u8>) -> Seq<char> {
    if vstd::utf8::valid_utf8(bytes) {
        vstd::utf8::decode_utf8(bytes)
    } else if bytes.len() == 1 && bytes[0] >= 0x80 {
        seq!['\u{fffd}']
    } else {
        lossy_text(bytes)
    }
}

/// The text that bytes stand for.
pub(crate) fn text_from(bytes: &Vec<u8>) -> (r: String)
    ensures
        r@ == text_of(bytes@),
{
    from_utf8_lossy(bytes)
}

/// A text that is being read.
pub struct Frame {
    /// The name that errors give.
    pub name: String,
    /// The bytes.
    pub buf: Vec<u8>,
    /// The next byte.
    pub pos: usize,
    /// The line, counted from 1.
    pub line: usize,
    /// Of a macro: the names of its parameters.
    pub params: Vec<String>,
    /// Of a macro: the values of its parameters.
    pub values: Vec<String>,
}

/// A text that is being read, as a mathematical value.
#[verifier::ext_equal]
pub struct FrameView {
    /// The name that errors give.
    pub name: Seq<char>,
    /// The bytes.
    pub buf: Seq<u8>,
    /// The next byte.
    pub pos: int,
    /// The line.
    pub line: nat,
    /// Of a macro: the names of its parameters.
    pub params: Seq<Seq<char>>,
    /// Of a macro: the values of its parameters.
    pub values: Seq<Seq<char>>,
}

/// The characters of strings.
pub open spec fn texts(s: Seq<String>) -> Seq<Seq<char>> {
    Seq::new(s.len(), |i: int| s[i]@)
}

impl View for Frame {
    type V = FrameView;

    open spec fn view(&self) -> FrameView {
        FrameView {
            name: self.name@,
            buf: self.buf@,
            pos: self.pos as int,
            line: self.line as nat,
            params: texts(self.params@),
            values: texts(self.values@),
        }
    }
}

/// A macro.
pub struct Macro {
    /// The name.
    pub name: String,
    /// The text that stands for it.
    pub body: Vec<u8>,
    /// The names of its parameters.
    pub params: Vec<String>,
    /// The line that it was defined on.
    pub line: usize,
}

/// A macro as a mathematical value.
#[verifier::ext_equal]
pub struct MacroView {
    /// The name.
    pub name: Seq<char>,
    /// The text that stands for it.
    pub body: Seq<u8>,
    /// The names of its parameters.
    pub params: Seq<Seq<char>>,
    /// The line that it was defined on.
    pub line: nat,
}

impl View for Macro {
    type V = MacroView;

    open spec fn view(&self) -> MacroView {
        MacroView {
            name: self.name@,
            body: self.body@,
            params: texts(self.params@),
            line: self.line as nat,
        }
    }
}

/// A variable.
pub struct Variable {
    /// The name.
    pub param: String,
    /// The value.
    pub value: String,
}

/// A variable as a mathematical value.
#[verifier::ext_equal]
pub struct VariableView {
    /// The name.
    pub param: Seq<char>,
    /// The value.
    pub value: Seq<char>,
}

impl View for Variable {
    type V = VariableView;

    open spec fn view(&self) -> VariableView {
        VariableView { param: self.param@, value: self.value@ }
    }
}

/// Why a file could not be read.
#[derive(Debug, Clone)]
pub struct ReadFailure {
    /// Whether there is no such file.
    pub missing: bool,
    /// The reason in words.
    pub reason: String,
}

/// Why a file could not be read, as a mathematical value.
#[verifier::ext_equal]
pub struct FailureView {
    /// Whether there is no such file.
    pub missing: bool,
    /// The reason in words.
    pub reason: Seq<char>,
}

impl View for ReadFailure {
    type V = FailureView;

    open spec fn view(&self) -> FailureView {
        FailureView { missing: self.missing, reason: self.reason@ }
    }
}

/// What came of reading a file that a script can take in.
#[derive(Debug, Clone)]
pub struct Source {
    /// The full path.
    pub path: String,
    /// The bytes.
    pub bytes: Vec<u8>,
    /// Why there are no bytes, where the file could not be read.
    pub failure: Option<ReadFailure>,
}

/// A file as a mathematical value.
#[verifier::ext_equal]
pub struct SourceView {
    /// The full path.
    pub path: Seq<char>,
    /// The bytes.
    pub bytes: Seq<u8>,
    /// Why there are no bytes, where the file could not be read.
    pub failure: Option<FailureView>,
}

impl View for Source {
    type V = SourceView;

    open spec fn view(&self) -> SourceView {
        SourceView {
            path: self.path@,
            bytes: self.bytes@,
            failure: match self.failure {
                Some(f) => Some(f@),
                None => None,
            },
        }
    }
}

/// What a lexer holds.
#[verifier::ext_equal]
pub struct LexState {
    /// The texts that are being read, the innermost last.
    pub stack: Seq<FrameView>,
    /// The directory that paths start from.
    pub qdir: Seq<char>,
    /// The macros.
    pub macros: Seq<MacroView>,
    /// The variables.
    pub variables: Seq<VariableView>,
    /// A token that was given back.
    pub pending: Option<TokenView>,
    /// Whether the script is over.
    pub ended: bool,
    /// The files that were taken in.
    pub loaded: Seq<Seq<char>>,
    /// The files that can be taken in.
    pub sources: Seq<SourceView>,
    /// No text is longer.
    pub longest: nat,
    /// A file that was asked for and is not there.
    pub wanted: Option<Seq<char>>,
}

/// Says whether a script is over. Only a lexer sets it.
pub struct EndMark {
    set: bool,
}

impl EndMark {
    /// The script is over.
    pub closed spec fn is_set(&self) -> bool {
        self.set
    }

    /// Tells whether the script is over.
    pub fn get(&self) -> (r: bool)
        ensures
            r == self.is_set(),
    {
        self.set
    }
}

/// Reads tokens.
pub struct Lexer {
    /// The texts that are being read, the innermost last.
    pub stack: Vec<Frame>,
    /// The directory that paths start from.
    pub qdir: String,
    /// The macros.
    pub macros: Vec<Macro>,
    /// The variables.
    pub variables: Vec<Variable>,
    /// A token that was given back.
    pub pending: Option<Token>,
    /// Whether the script is over.
    pub end_of_script: EndMark,
    /// The files that were taken in.
    pub loaded_files: Vec<String>,
    /// The files that can be taken in.
    pub sources: Vec<Source>,
    /// No text is longer.
    pub longest: Ghost<nat>,
    /// A file that was asked for and is not there.
    pub wanted: Option<String>,
}

/// Texts as mathematical values.
pub open spec fn frame_views(s: Seq<Frame>) -> Seq<FrameView> {
    Seq::new(s.len(), |i: int| s[i]@)
}

/// Macros as mathematical values.
pub open spec fn macro_views(s: Seq<Macro>) -> Seq<MacroView> {
    Seq::new(s.len(), |i: int| s[i]@)
}

/// Variables as mathematical values.
pub open spec fn variable_views(s: Seq<Variable>) -> Seq<VariableView> {
    Seq::new(s.len(), |i: int| s[i]@)
}

/// Files as mathematical values.
pub open spec fn source_views(s: Seq<Source>) -> Seq<SourceView> {
    Seq::new(s.len(), |i: int| s[i]@)
}

/// The characters of a string, if there is one.
pub open spec fn text_if(s: Option<String>) -> Option<Seq<char>> {
    match s {
        Some(s) => Some(s@),
        None => None,
    }
}

impl View for Lexer {
    type V = LexState;

    open spec fn view(&self) -> LexState {
        LexState {
            stack: frame_views(self.stack@),
            qdir: self.qdir@,
            macros: macro_views(self.macros@),
            variables: variable_views(self.variables@),
            pending: match self.pending {
                Some(t) => Some(t@),
                None => None,
            },
            ended: self.end_of_script.is_set(),
            loaded: texts(self.loaded_files@),
            sources: source_views(self.sources@),
            longest: self.longest@,
            wanted: text_if(self.wanted),
        }
    }
}

/// The byte at `p`; 0 where the text is over.
pub open spec fn byte_at(buf: Seq<u8>, p: int) -> u8 {
    if 0 <= p < buf.len() {
        buf[p]
    } else {
        0
    }
}

/// The next line number; the count stops at the largest.
pub open spec fn bump(line: nat) -> nat {
    if line < usize::MAX {
        line + 1
    } else {
        line
    }
}

/// The line number after `n` more lines.
pub open spec fn bump_by(line: nat, n: nat) -> nat
    decreases n,
{
    if n == 0 {
        line
    } else {
        bump_by(bump(line), (n - 1) as nat)
    }
}

/// The first place from `p` on where the line ends, or the end of the text.
pub open spec fn line_end(buf: Seq<u8>, p: int) -> int
    decreases buf.len() - p,
{
    if p < 0 || p >= buf.len() || buf[p] == 0x0A {
        p
    } else {
        line_end(buf, p + 1)
    }
}

/// The first place from `p` on behind the end of a block comment, if it ends, and the line there.
pub open spec fn block_end(buf: Seq<u8>, p: int, line: nat) -> (Option<int>, nat)
    decreases buf.len() - p,
{
    if p < 0 || p >= buf.len() {
        (None, line)
    } else if buf[p] == 0x2A && byte_at(buf, p + 1) == 0x2F {
        (Some(p + 2), line)
    } else {
        block_end(
            buf,
            p + 1,
            if buf[p] == 0x0A {
                bump(line)
            } else {
                line
            },
        )
    }
}

/// What stands before the next token.
pub enum Skip {
    /// The token starts here.
    At { pos: int, line: nat },
    /// The text is over.
    End { pos: int, line: nat },
    /// The line is over, and the token was to stand on it.
    LineOver { pos: int, line: nat },
    /// The rest of the line is a comment, and the token was to stand on it.
    Comment { pos: int, line: nat },
}

/// A comment that runs to the end of the line starts at `p`.
pub open spec fn comment_at(buf: Seq<u8>, p: int) -> bool {
    ||| byte_at(buf, p) == 0x3B
    ||| byte_at(buf, p) == 0x23
    ||| byte_at(buf, p) == 0x2F && byte_at(buf, p + 1) == 0x2F
}

/// Where the next token starts: behind white space and comments, and on the same line unless
/// `cross` allows it to be on another.
pub open spec fn skip(buf: Seq<u8>, pos: int, line: nat, cross: bool) -> Skip
    decreases buf.len() - pos,
{
    if pos < 0 || pos >= buf.len() {
        Skip::End { pos, line }
    } else if buf[pos] <= 32 {
        if buf[pos] == 0x0A {
            if !cross {
                Skip::LineOver { pos: pos + 1, line }
            } else {
                skip(buf, pos + 1, bump(line), cross)
            }
        } else {
            skip(buf, pos + 1, line, cross)
        }
    } else if comment_at(buf, pos) {
        if !cross {
            Skip::Comment { pos, line }
        } else {
            let e = line_end(buf, pos);
            if pos <= e < buf.len() {
                skip(buf, e + 1, bump(line), cross)
            } else {
                Skip::End { pos: buf.len() as int, line }
            }
        }
    } else if buf[pos] == 0x2F && byte_at(buf, pos + 1) == 0x2A {
        let e = block_end(buf, pos + 2, line);
        match e.0 {
            Some(p) => if pos < p <= buf.len() {
                skip(buf, p, e.1, cross)
            } else {
                Skip::End { pos, line }
            },
            None => Skip::End { pos: buf.len() as int, line: e.1 },
        }
    } else {
        Skip::At { pos, line }
    }
}

/// The first quote from `p` on, or the end of the text.
pub open spec fn quote_end(buf: Seq<u8>, p: int) -> int
    decreases buf.len() - p,
{
    if p < 0 || p >= buf.len() || buf[p] == 0x22 {
        p
    } else {
        quote_end(buf, p + 1)
    }
}

/// The first place from `p` on that is white space, a dollar sign, or the end of the text.
pub open spec fn name_end(buf: Seq<u8>, p: int) -> int
    decreases buf.len() - p,
{
    if p < 0 || p >= buf.len() || buf[p] <= 32 || buf[p] == 0x24 {
        p
    } else {
        name_end(buf, p + 1)
    }
}

/// The first of `names`, from `i` on, that is `name` but for ASCII case.
pub open spec fn find_name(names: Seq<Seq<char>>, name: Seq<char>, i: int) -> Option<int>
    decreases names.len() - i,
{
    if i < 0 || i >= names.len() {
        None
    } else if lower(names[i]) == lower(name) {
        Some(i)
    } else {
        find_name(names, name, i + 1)
    }
}

/// At most the first `n` characters.
pub open spec fn head(s: Seq<char>, n: int) -> Seq<char> {
    if s.len() <= n {
        s
    } else {
        s.take(n)
    }
}

/// How many characters of a reference count: two less than its bytes.
pub open spec fn compared(name: Seq<char>) -> int {
    let n = vstd::utf8::encode_utf8(name).len() as int;
    if n < 2 {
        0
    } else {
        n - 2
    }
}

/// The first variable, from `i` on, that agrees with `name` as far as its characters count.
pub open spec fn find_variable(vars: Seq<VariableView>, name: Seq<char>, i: int) -> Option<int>
    decreases vars.len() - i,
{
    if i < 0 || i >= vars.len() {
        None
    } else if lower(head(vars[i].param, compared(name))) == lower(head(name, compared(name))) {
        Some(i)
    } else {
        find_variable(vars, name, i + 1)
    }
}

/// What reading the letters of a token gives.
pub enum Letters {
    /// The letters, and the place behind them.
    Done { text: Seq<u8>, pos: int },
    /// What is wrong, and the place where it was met.
    Bad { message: Seq<char>, pos: int },
}

/// The letters of a token in quotes, from behind the quote on.
pub open spec fn quoted_letters(buf: Seq<u8>, pos: int) -> Letters {
    let e = quote_end(buf, pos);
    if e - pos > MAX_TOKEN {
        Letters::Bad { message: "token 太长（>1024）"@, pos: pos + MAX_TOKEN }
    } else {
        Letters::Done {
            text: buf.subrange(pos, e),
            pos: if e < buf.len() {
                e + 1
            } else {
                e
            },
        }
    }
}

/// A reference starts at `pos`: a name between dollar signs.
pub open spec fn reference_at(buf: Seq<u8>, pos: int) -> bool {
    byte_at(buf, pos) == 0x24 && byte_at(buf, name_end(buf, pos + 1)) == 0x24
}

/// What a reference to `name` stands for, or why it stands for nothing.
pub open spec fn expansion(f: FrameView, vars: Seq<VariableView>, name: Seq<char>) -> Result<
    Seq<char>,
    Seq<char>,
> {
    if f.params.len() > 0 {
        match find_name(f.params, name, 0) {
            Some(i) => Ok(f.values[i]),
            None => Err("未知的宏参数 \""@ + name + "\""@),
        }
    } else {
        match find_variable(vars, name, 0) {
            Some(i) => Ok(vars[i].value),
            None => Err("未知的变量 \"$"@ + name + "$\""@),
        }
    }
}

/// The letters of a token without quotes, from `pos` on, behind the letters `out`.
pub open spec fn bare_letters(
    f: FrameView,
    vars: Seq<VariableView>,
    pos: int,
    out: Seq<u8>,
) -> Letters
    decreases f.buf.len() - pos,
{
    let buf = f.buf;
    if pos < 0 || pos >= buf.len() || buf[pos] <= 32 || buf[pos] == 0x3B {
        Letters::Done { text: out, pos }
    } else if reference_at(buf, pos) && name_end(buf, pos + 1) >= pos {
        let e = name_end(buf, pos + 1);
        match expansion(f, vars, text_of(buf.subrange(pos + 1, e))) {
            Ok(v) => bare_letters(f, vars, e + 1, out + vstd::utf8::encode_utf8(v)),
            Err(message) => Letters::Bad { message, pos },
        }
    } else if out.len() >= MAX_TOKEN {
        Letters::Bad { message: "token 太长（>1024）"@, pos }
    } else {
        bare_letters(f, vars, pos + 1, out.push(buf[pos]))
    }
}

/// What a command of the script still waits for.
#[verifier::ext_equal]
pub enum WaitView {
    /// The name of a file to take in.
    FileName,
    /// The name of a macro.
    MacroName,
    /// More parameters of a macro.
    MacroParams { name: Seq<char>, params: Seq<Seq<char>> },
    /// The name of a variable.
    VariableName,
    /// The value of a variable.
    VariableValue { name: Seq<char> },
    /// More values for the parameters of a macro, which was met with `level` texts open.
    Values {
        text: Seq<char>,
        params: Seq<Seq<char>>,
        body: Seq<u8>,
        line: nat,
        values: Seq<Seq<char>>,
        level: nat,
    },
}

/// What one step of reading comes to.
pub enum Step {
    /// The step is the last.
    Done { out: Result<Option<TokenView>, ErrorView>, st: LexState },
    /// Reading goes on.
    Go { st: LexState, waits: Seq<WaitView> },
}

/// `st` with its innermost text at another place.
pub open spec fn moved(st: LexState, pos: int, line: nat) -> LexState {
    let f = st.stack.last();
    LexState {
        stack: st.stack.drop_last().push(FrameView { pos, line, ..f }),
        ..st
    }
}

/// Where the lexer stands.
pub open spec fn location(st: LexState) -> (Seq<char>, nat) {
    if st.stack.len() == 0 {
        (st.qdir, 0)
    } else {
        (st.stack.last().name, st.stack.last().line)
    }
}

/// An error at the place where the lexer stands.
pub open spec fn error_at(st: LexState, message: Seq<char>) -> ErrorView {
    ErrorView { file: location(st).0, line: location(st).1, message }
}

/// The step that ends with an error at the place where the lexer stands.
pub open spec fn fail(st: LexState, message: Seq<char>) -> Step {
    Step::Done { out: Err(error_at(st, message)), st }
}

/// There is a token on the rest of the line.
pub open spec fn available(st: LexState) -> bool {
    if st.pending is Some {
        true
    } else if st.stack.len() == 0 {
        false
    } else {
        more_at(st.stack.last().buf, st.stack.last().pos)
    }
}

/// There is a token from `pos` on, on the same line.
pub open spec fn more_at(buf: Seq<u8>, pos: int) -> bool
    decreases buf.len() - pos,
{
    if pos < 0 || pos >= buf.len() {
        false
    } else if buf[pos] <= 32 {
        buf[pos] != 0x0A && more_at(buf, pos + 1)
    } else {
        !comment_at(buf, pos)
    }
}

/// A path, seen from a directory.
pub open spec fn join(dir: Seq<char>, path: Seq<char>) -> Seq<char> {
    if path.len() > 0 && path[0] == '/' {
        path
    } else if dir.len() == 0 {
        path
    } else if dir.last() == '/' {
        dir + path
    } else {
        dir.push('/') + path
    }
}

/// The first file with the given path, from `i` on.
pub open spec fn find_source(sources: Seq<SourceView>, path: Seq<char>, i: int) -> Option<int>
    decreases sources.len() - i,
{
    if i < 0 || i >= sources.len() {
        None
    } else if sources[i].path == path {
        Some(i)
    } else {
        find_source(sources, path, i + 1)
    }
}

/// The bytes without a byte order mark at their start.
pub open spec fn without_mark(b: Seq<u8>) -> Seq<u8> {
    if b.len() >= 3 && b[0] == 0xEF && b[1] == 0xBB && b[2] == 0xBF {
        b.skip(3)
    } else {
        b
    }
}

/// A text at its start.
pub open spec fn fresh(name: Seq<char>, bytes: Seq<u8>) -> FrameView {
    FrameView {
        name,
        buf: without_mark(bytes),
        pos: 0,
        line: 1,
        params: Seq::empty(),
        values: Seq::empty(),
    }
}

/// The length of the longest of the first `n` files.
pub open spec fn longest_source(sources: Seq<SourceView>, n: int) -> nat
    decreases n,
{
    if n <= 0 {
        0
    } else {
        let before = longest_source(sources, n - 1);
        if sources[n - 1].bytes.len() > before {
            sources[n - 1].bytes.len()
        } else {
            before
        }
    }
}

/// No file is longer than the longest.
proof fn sources_are_no_longer(sources: Seq<SourceView>, n: int)
    requires
        0 <= n <= sources.len(),
    ensures
        forall|j: int|
            0 <= j < n ==> (#[trigger] sources[j]).bytes.len() <= longest_source(sources, n),
    decreases n,
{
    if n > 0 {
        sources_are_no_longer(sources, n - 1);
    }
}

/// A lexer without a text.
pub open spec fn no_text(qdir: Seq<char>, sources: Seq<SourceView>) -> LexState {
    LexState {
        stack: Seq::empty(),
        qdir,
        macros: Seq::empty(),
        variables: Seq::empty(),
        pending: None,
        ended: false,
        loaded: Seq::empty(),
        sources,
        longest: longest_source(sources, sources.len() as int),
        wanted: None,
    }
}

/// A lexer at the start of a text.
pub open spec fn started(st: LexState, name: Seq<char>, bytes: Seq<u8>) -> LexState {
    LexState {
        stack: seq![fresh(name, bytes)],
        ended: false,
        pending: None,
        longest: if without_mark(bytes).len() > st.longest {
            without_mark(bytes).len()
        } else {
            st.longest
        },
        ..st
    }
}

/// Takes in the file that `t` names.
pub open spec fn take_file(st: LexState, waits: Seq<WaitView>, t: TokenView) -> Step {
    if st.stack.len() + 1 >= MAX_NESTED {
        fail(st, "$include 嵌套超过 16 层"@)
    } else {
        let full = join(st.qdir, t.text);
        match find_source(st.sources, full, 0) {
            None => Step::Done {
                out: Err(
                    ErrorView {
                        file: t.file,
                        line: t.line,
                        message: "$include 找不到 "@ + t.text + "（"@ + full + "）"@,
                    },
                ),
                st: LexState { wanted: Some(full), ..st },
            },
            Some(i) => match st.sources[i].failure {
                Some(f) => Step::Done {
                    out: Err(
                        ErrorView {
                            file: t.file,
                            line: t.line,
                            message: "$include 找不到 "@ + t.text + "（"@ + full + "）："@
                                + f.reason,
                        },
                    ),
                    st,
                },
                None => Step::Go {
                    st: LexState {
                        stack: st.stack.push(fresh(full, st.sources[i].bytes)),
                        loaded: st.loaded.push(full),
                        ..st
                    },
                    waits,
                },
            },
        }
    }
}

/// Defines a macro: its text is the rest of the line.
pub open spec fn add_macro(
    st: LexState,
    waits: Seq<WaitView>,
    name: Seq<char>,
    params: Seq<Seq<char>>,
) -> Step {
    let f = st.stack.last();
    let e = line_end(f.buf, f.pos);
    let end = if f.pos <= e <= f.buf.len() {
        e
    } else {
        f.pos
    };
    Step::Go {
        st: LexState {
            macros: st.macros.push(
                MacroView { name, body: f.buf.subrange(f.pos, end), params, line: f.line },
            ),
            ..moved(st, end, f.line)
        },
        waits,
    }
}

/// Goes on with the parameters of a macro, or defines it where none is left.
pub open spec fn more_params(
    st: LexState,
    waits: Seq<WaitView>,
    name: Seq<char>,
    params: Seq<Seq<char>>,
) -> Step {
    if available(st) {
        Step::Go { st, waits: waits.push(WaitView::MacroParams { name, params }) }
    } else {
        add_macro(st, waits, name, params)
    }
}

/// Opens the text of a macro.
pub open spec fn open_macro(
    st: LexState,
    waits: Seq<WaitView>,
    text: Seq<char>,
    params: Seq<Seq<char>>,
    body: Seq<u8>,
    line: nat,
    values: Seq<Seq<char>>,
) -> Step {
    Step::Go {
        st: LexState {
            stack: st.stack.push(FrameView { line, params, values, ..fresh(text, body) }),
            ..st
        },
        waits,
    }
}

/// Hands a token to what waits for one, or to the caller where nothing does.
pub open spec fn feed(st: LexState, waits: Seq<WaitView>, t: TokenView) -> Step {
    if waits.len() == 0 {
        Step::Done { out: Ok(Some(t)), st }
    } else {
        let rest = waits.drop_last();
        match waits.last() {
            WaitView::FileName => take_file(st, rest, t),
            WaitView::MacroName => more_params(st, rest, t.text, Seq::empty()),
            WaitView::MacroParams { name, params } => if t.text == "\\\\"@ {
                add_macro(st, rest, name, params)
            } else {
                more_params(st, rest, name, params.push(t.text))
            },
            WaitView::VariableName => Step::Go {
                st,
                waits: rest.push(WaitView::VariableValue { name: t.text }),
            },
            WaitView::VariableValue { name } => Step::Go {
                st: LexState {
                    variables: st.variables.push(VariableView { param: name, value: t.text }),
                    ..st
                },
                waits: rest,
            },
            WaitView::Values { text, params, body, line, values, level } => {
                let got = values.push(t.text);
                if got.len() >= params.len() {
                    open_macro(st, rest, text, params, body, line, got)
                } else {
                    Step::Go {
                        st,
                        waits: rest.push(
                            WaitView::Values { text, params, body, line, values: got, level },
                        ),
                    }
                }
            },
        }
    }
}

/// The macro that a token calls: a dollar sign and the macro's name.
pub open spec fn called(macros: Seq<MacroView>, text: Seq<char>) -> Option<int> {
    if text.len() > 0 && text[0] == '$' {
        find_macro(macros, text.skip(1), 0)
    } else {
        None
    }
}

/// The first macro with the given name, from `i` on.
pub open spec fn find_macro(macros: Seq<MacroView>, name: Seq<char>, i: int) -> Option<int>
    decreases macros.len() - i,
{
    if i < 0 || i >= macros.len() {
        None
    } else if lower(macros[i].name) == lower(name) {
        Some(i)
    } else {
        find_macro(macros, name, i + 1)
    }
}

/// Calls a macro.
pub open spec fn call_macro(st: LexState, waits: Seq<WaitView>, text: Seq<char>, m: MacroView) -> Step {
    if st.stack.len() + 1 >= MAX_NESTED {
        fail(st, "宏展开嵌套超过 16 层"@)
    } else if m.params.len() == 0 {
        open_macro(st, waits, text, m.params, m.body, m.line, Seq::empty())
    } else {
        Step::Go {
            st,
            waits: waits.push(
                WaitView::Values {
                    text,
                    params: m.params,
                    body: m.body,
                    line: m.line,
                    values: Seq::empty(),
                    level: st.stack.len(),
                },
            ),
        }
    }
}

/// Does what a token says to the lexer itself, or hands it on.
pub open spec fn obey(st: LexState, waits: Seq<WaitView>, t: TokenView) -> Step {
    if lower(t.text) == lower("$include"@) {
        Step::Go { st, waits: waits.push(WaitView::FileName) }
    } else if lower(t.text) == lower("$definemacro"@) {
        Step::Go { st, waits: waits.push(WaitView::MacroName) }
    } else if lower(t.text) == lower("$definevariable"@) {
        Step::Go { st, waits: waits.push(WaitView::VariableName) }
    } else {
        match called(st.macros, t.text) {
            Some(i) => call_macro(st, waits, t.text, st.macros[i]),
            None => feed(st, waits, t),
        }
    }
}

/// The innermost text is over.
pub open spec fn close_text(st: LexState, waits: Seq<WaitView>, cross: bool) -> Step {
    if !cross {
        fail(st, "行不完整（文件意外结束）"@)
    } else if st.stack.len() <= 1 {
        Step::Done {
            out: Ok(None),
            st: LexState { stack: Seq::empty(), ended: true, ..st },
        }
    } else {
        Step::Go { st: LexState { stack: st.stack.drop_last(), ..st }, waits }
    }
}

/// The letters of the token at `pos` of the innermost text.
pub open spec fn letters_at(st: LexState, pos: int) -> Letters {
    let f = st.stack.last();
    if byte_at(f.buf, pos) == 0x22 {
        quoted_letters(f.buf, pos + 1)
    } else {
        bare_letters(f, st.variables, pos, Seq::empty())
    }
}

/// One step of reading: one token of the innermost text, or its end.
pub open spec fn step(st: LexState, waits: Seq<WaitView>, cross: bool) -> Step {
    if st.stack.len() == 0 {
        Step::Done { out: Ok(None), st: LexState { ended: true, ..st } }
    } else {
        let f = st.stack.last();
        let free = cross && waits.len() == 0;
        match skip(f.buf, f.pos, f.line, free) {
            Skip::LineOver { pos, line } => fail(
                moved(st, pos, line),
                "行不完整（行尾缺少参数）"@,
            ),
            Skip::Comment { pos, line } => fail(
                moved(st, pos, line),
                "行不完整（行尾是注释）"@,
            ),
            Skip::End { pos, line } => close_text(moved(st, pos, line), waits, free),
            Skip::At { pos, line } => match letters_at(st, pos) {
                Letters::Bad { message, pos } => fail(moved(st, pos, line), message),
                Letters::Done { text, pos: after } => obey(
                    moved(st, after, line),
                    waits,
                    TokenView {
                        text: text_of(text),
                        quoted: byte_at(f.buf, pos) == 0x22,
                        file: f.name,
                        line,
                    },
                ),
            },
        }
    }
}

/// How many bytes of a text are left.
pub open spec fn rest(f: FrameView) -> nat {
    if 0 <= f.pos < f.buf.len() {
        (f.buf.len() - f.pos) as nat
    } else {
        0
    }
}

/// What a byte counts for at depth `i`: more than all that it can open below.
pub open spec fn weight(longest: nat, i: int) -> nat
    decreases 14 - i,
{
    if i >= 14 {
        1
    } else {
        (longest + 2) * weight(longest, i + 1)
    }
}

/// What the bytes left in the first `n` texts count for.
pub open spec fn left_in_texts(stack: Seq<FrameView>, longest: nat, n: int) -> nat
    decreases n,
{
    if n <= 0 {
        0
    } else {
        left_in_texts(stack, longest, n - 1) + rest(stack[n - 1]) * weight(longest, n - 1)
    }
}

/// What a command that waits counts for: the text that it will open.
pub open spec fn left_in_wait(w: WaitView, longest: nat) -> nat {
    match w {
        WaitView::Values { level, .. } => (longest + 1) * weight(longest, level as int),
        _ => 0,
    }
}

/// What the first `n` commands that wait count for.
pub open spec fn left_in_waits(waits: Seq<WaitView>, longest: nat, n: int) -> nat
    decreases n,
{
    if n <= 0 {
        0
    } else {
        left_in_waits(waits, longest, n - 1) + left_in_wait(waits[n - 1], longest)
    }
}

/// How much reading is left.
pub open spec fn work(st: LexState, waits: Seq<WaitView>) -> nat {
    left_in_texts(st.stack, st.longest, st.stack.len() as int) + left_in_waits(
        waits,
        st.longest,
        waits.len() as int,
    )
}

/// A text is sound: the place is inside it, and each parameter has a value.
pub open spec fn frame_sound(f: FrameView, longest: nat) -> bool {
    &&& 0 <= f.pos <= f.buf.len()
    &&& f.buf.len() <= longest
    &&& f.params.len() == f.values.len()
    &&& 0 <= f.line <= usize::MAX
}

/// A command that waits is sound.
pub open spec fn wait_sound(w: WaitView, longest: nat, depth: nat) -> bool {
    match w {
        WaitView::Values { params, body, values, level, line, .. } => {
            &&& body.len() <= longest
            &&& values.len() < params.len()
            &&& 1 <= level <= 14
            &&& level <= depth
            &&& line <= usize::MAX
        },
        _ => true,
    }
}

/// A lexer is sound.
pub open spec fn sound(st: LexState) -> bool {
    &&& st.ended ==> st.stack.len() == 0
    &&& forall|i: int| 0 <= i < st.stack.len() ==> frame_sound(#[trigger] st.stack[i], st.longest)
    &&& forall|i: int|
        0 <= i < st.macros.len() ==> (#[trigger] st.macros[i]).body.len() <= st.longest
            && st.macros[i].line <= usize::MAX
    &&& forall|i: int|
        0 <= i < st.sources.len() ==> (#[trigger] st.sources[i]).bytes.len() <= st.longest
}

/// Texts, macros, files and the end decide whether a lexer is sound.
pub proof fn sound_by_parts(a: LexState, b: LexState)
    requires
        sound(a),
        a.stack == b.stack,
        a.macros == b.macros,
        a.sources == b.sources,
        a.longest == b.longest,
        b.ended ==> a.ended || b.stack.len() == 0,
    ensures
        sound(b),
{
    assert forall|i: int| 0 <= i < b.stack.len() implies frame_sound(
        #[trigger] b.stack[i],
        b.longest,
    ) by {
        assert(frame_sound(a.stack[i], a.longest));
    }
    assert forall|i: int| 0 <= i < b.macros.len() implies (#[trigger] b.macros[i]).body.len()
        <= b.longest && b.macros[i].line <= usize::MAX by {
        assert(a.macros[i].body.len() <= a.longest);
    }
    assert forall|i: int| 0 <= i < b.sources.len() implies (#[trigger] b.sources[i]).bytes.len()
        <= b.longest by {
        assert(a.sources[i].bytes.len() <= a.longest);
    }
}

/// A lexer that waits is sound.
pub open spec fn sound_with(st: LexState, waits: Seq<WaitView>) -> bool {
    &&& sound(st)
    &&& forall|i: int|
        0 <= i < waits.len() ==> wait_sound(#[trigger] waits[i], st.longest, st.stack.len())
}

proof fn weight_positive(longest: nat, i: int)
    ensures
        weight(longest, i) >= 1,
    decreases 14 - i,
{
    if i < 14 {
        weight_positive(longest, i + 1);
        assert((longest + 2) * weight(longest, i + 1) >= 1) by (nonlinear_arith)
            requires
                weight(longest, i + 1) >= 1,
        ;
    }
}

proof fn weight_falls(longest: nat, i: int, j: int)
    requires
        i <= j,
    ensures
        weight(longest, j) <= weight(longest, i),
    decreases j - i,
{
    if i < j {
        weight_falls(longest, i + 1, j);
        weight_positive(longest, i + 1);
        if i < 14 {
            assert((longest + 2) * weight(longest, i + 1) >= weight(longest, i + 1)) by (nonlinear_arith)
                requires
                    weight(longest, i + 1) >= 1,
            ;
        }
    }
}

/// Texts that are alike below `n` count alike.
proof fn left_in_texts_same(a: Seq<FrameView>, b: Seq<FrameView>, longest: nat, n: int)
    requires
        n <= a.len(),
        n <= b.len(),
        forall|i: int| 0 <= i < n ==> #[trigger] a[i] == b[i],
    ensures
        left_in_texts(a, longest, n) == left_in_texts(b, longest, n),
    decreases n,
{
    if n > 0 {
        left_in_texts_same(a, b, longest, n - 1);
    }
}

/// Waits that are alike below `n` count alike.
proof fn left_in_waits_same(a: Seq<WaitView>, b: Seq<WaitView>, longest: nat, n: int)
    requires
        n <= a.len(),
        n <= b.len(),
        forall|i: int| 0 <= i < n ==> #[trigger] a[i] == b[i],
    ensures
        left_in_waits(a, longest, n) == left_in_waits(b, longest, n),
    decreases n,
{
    if n > 0 {
        left_in_waits_same(a, b, longest, n - 1);
    }
}

/// What waits counts for, with one more command.
proof fn waits_push(waits: Seq<WaitView>, w: WaitView, longest: nat)
    ensures
        left_in_waits(waits.push(w), longest, waits.len() as int + 1) == left_in_waits(
            waits,
            longest,
            waits.len() as int,
        ) + left_in_wait(w, longest),
{
    left_in_waits_same(waits.push(w), waits, longest, waits.len() as int);
}

/// What waits counts for, with one command less.
proof fn waits_pop(waits: Seq<WaitView>, longest: nat)
    requires
        waits.len() > 0,
    ensures
        left_in_waits(waits, longest, waits.len() as int) == left_in_waits(
            waits.drop_last(),
            longest,
            waits.len() - 1,
        ) + left_in_wait(waits.last(), longest),
{
    left_in_waits_same(waits.drop_last(), waits, longest, waits.len() - 1);
}

/// Moving on in the innermost text leaves less to read.
proof fn moved_counts(st: LexState, pos: int, line: nat)
    requires
        st.stack.len() > 0,
        sound(st),
        st.stack.last().pos <= pos <= st.stack.last().buf.len(),
        line <= usize::MAX,
    ensures
        sound(moved(st, pos, line)),
        moved(st, pos, line).stack.len() == st.stack.len(),
        moved(st, pos, line).stack.last() == (FrameView { pos, line, ..st.stack.last() }),
        left_in_texts(moved(st, pos, line).stack, st.longest, st.stack.len() as int)
            == left_in_texts(st.stack, st.longest, st.stack.len() as int) - (pos
            - st.stack.last().pos) * weight(st.longest, st.stack.len() - 1),
        pos > st.stack.last().pos ==> left_in_texts(
            moved(st, pos, line).stack,
            st.longest,
            st.stack.len() as int,
        ) + weight(st.longest, st.stack.len() - 1) <= left_in_texts(
            st.stack,
            st.longest,
            st.stack.len() as int,
        ),
{
    let n = st.stack.len() as int;
    let m = moved(st, pos, line);
    let f = st.stack.last();
    left_in_texts_same(m.stack, st.stack, st.longest, n - 1);
    let w = weight(st.longest, n - 1);
    weight_positive(st.longest, n - 1);
    let a = f.buf.len() - f.pos;
    let b = f.buf.len() - pos;
    let d = pos - f.pos;
    assert(a * w == b * w + d * w) by (nonlinear_arith)
        requires
            a == b + d,
    ;
    assert(rest(f) == a);
    assert(rest(m.stack.last()) == b);
    if d > 0 {
        assert(d * w >= w) by (nonlinear_arith)
            requires
                d >= 1,
                w >= 1,
        ;
    }
    assert forall|i: int| 0 <= i < m.stack.len() implies frame_sound(
        #[trigger] m.stack[i],
        m.longest,
    ) by {
        if i < n - 1 {
            assert(m.stack[i] == st.stack[i]);
        } else {
            assert(frame_sound(st.stack[n - 1], st.longest));
        }
    }
}

/// Opening a text adds less than a byte counts for one level up.
proof fn opened_counts(stack: Seq<FrameView>, f: FrameView, longest: nat)
    requires
        f.buf.len() <= longest,
        f.pos == 0,
    ensures
        left_in_texts(stack.push(f), longest, stack.len() as int + 1) <= left_in_texts(
            stack,
            longest,
            stack.len() as int,
        ) + longest * weight(longest, stack.len() as int),
{
    left_in_texts_same(stack.push(f), stack, longest, stack.len() as int);
    let w = weight(longest, stack.len() as int);
    assert(rest(f) * w <= longest * w) by (nonlinear_arith)
        requires
            rest(f) <= longest,
    ;
}

pub proof fn line_end_bounds(buf: Seq<u8>, p: int)
    requires
        0 <= p <= buf.len(),
    ensures
        p <= line_end(buf, p) <= buf.len(),
    decreases buf.len() - p,
{
    if p < buf.len() && buf[p] != 0x0A {
        line_end_bounds(buf, p + 1);
    }
}

pub proof fn block_end_bounds(buf: Seq<u8>, p: int, line: nat)
    requires
        0 <= p,
        line <= usize::MAX,
    ensures
        match block_end(buf, p, line).0 {
            Some(e) => p + 2 <= e <= buf.len(),
            None => true,
        },
        block_end(buf, p, line).1 <= usize::MAX,
    decreases buf.len() - p,
{
    if p < buf.len() && !(buf[p] == 0x2A && byte_at(buf, p + 1) == 0x2F) {
        block_end_bounds(
            buf,
            p + 1,
            if buf[p] == 0x0A {
                bump(line)
            } else {
                line
            },
        );
    }
}

/// Where the next token starts lies between here and the end of the text.
pub proof fn skip_bounds(buf: Seq<u8>, pos: int, line: nat, cross: bool)
    requires
        0 <= pos <= buf.len(),
        line <= usize::MAX,
    ensures
        match skip(buf, pos, line, cross) {
            Skip::At { pos: p, line: l } => {
                &&& pos <= p < buf.len()
                &&& l <= usize::MAX
                &&& buf[p] > 32
                &&& !comment_at(buf, p)
            },
            Skip::End { pos: p, line: l } => pos <= p <= buf.len() && l <= usize::MAX,
            Skip::LineOver { pos: p, line: l } => pos <= p <= buf.len() && l <= usize::MAX,
            Skip::Comment { pos: p, line: l } => pos <= p <= buf.len() && l <= usize::MAX,
        },
    decreases buf.len() - pos,
{
    if pos < buf.len() {
        if buf[pos] <= 32 {
            if buf[pos] == 0x0A {
                if cross {
                    skip_bounds(buf, pos + 1, bump(line), cross);
                }
            } else {
                skip_bounds(buf, pos + 1, line, cross);
            }
        } else if comment_at(buf, pos) {
            line_end_bounds(buf, pos);
            let e = line_end(buf, pos);
            if cross && e < buf.len() {
                skip_bounds(buf, e + 1, bump(line), cross);
            }
        } else if buf[pos] == 0x2F && byte_at(buf, pos + 1) == 0x2A {
            block_end_bounds(buf, pos + 2, line);
            let e = block_end(buf, pos + 2, line);
            match e.0 {
                Some(p) => {
                    skip_bounds(buf, p, e.1, cross);
                },
                None => {},
            }
        }
    }
}

pub proof fn quote_end_bounds(buf: Seq<u8>, p: int)
    requires
        0 <= p <= buf.len(),
    ensures
        p <= quote_end(buf, p) <= buf.len(),
    decreases buf.len() - p,
{
    if p < buf.len() && buf[p] != 0x22 {
        quote_end_bounds(buf, p + 1);
    }
}

pub proof fn name_end_bounds(buf: Seq<u8>, p: int)
    requires
        0 <= p <= buf.len(),
    ensures
        p <= name_end(buf, p) <= buf.len(),
    decreases buf.len() - p,
{
    if p < buf.len() && buf[p] > 32 && buf[p] != 0x24 {
        name_end_bounds(buf, p + 1);
    }
}

pub proof fn bare_bounds(f: FrameView, vars: Seq<VariableView>, pos: int, out: Seq<u8>)
    requires
        0 <= pos <= f.buf.len(),
    ensures
        match bare_letters(f, vars, pos, out) {
            Letters::Done { pos: p, .. } => pos <= p <= f.buf.len(),
            Letters::Bad { pos: p, .. } => pos <= p <= f.buf.len(),
        },
        pos < f.buf.len() && f.buf[pos] > 32 && f.buf[pos] != 0x3B ==> match bare_letters(
            f,
            vars,
            pos,
            out,
        ) {
            Letters::Done { pos: p, .. } => pos < p,
            Letters::Bad { .. } => true,
        },
    decreases f.buf.len() - pos,
{
    let buf = f.buf;
    if pos < buf.len() && buf[pos] > 32 && buf[pos] != 0x3B {
        name_end_bounds(buf, pos + 1);
        let e = name_end(buf, pos + 1);
        if reference_at(buf, pos) {
            match expansion(f, vars, text_of(buf.subrange(pos + 1, e))) {
                Ok(v) => {
                    bare_bounds(f, vars, e + 1, out + vstd::utf8::encode_utf8(v));
                },
                Err(_) => {},
            }
        } else if out.len() < MAX_TOKEN {
            bare_bounds(f, vars, pos + 1, out.push(buf[pos]));
        }
    }
}

/// Reading a token moves on, and stays in the text.
pub proof fn letters_bounds(st: LexState, pos: int)
    requires
        st.stack.len() > 0,
        0 <= pos < st.stack.last().buf.len(),
        st.stack.last().buf[pos] > 32,
        st.stack.last().buf[pos] != 0x3B,
    ensures
        match letters_at(st, pos) {
            Letters::Done { pos: p, .. } => pos < p <= st.stack.last().buf.len(),
            Letters::Bad { pos: p, .. } => pos <= p <= st.stack.last().buf.len(),
        },
{
    let f = st.stack.last();
    if byte_at(f.buf, pos) == 0x22 {
        quote_end_bounds(f.buf, pos + 1);
    } else {
        bare_bounds(f, st.variables, pos, Seq::empty());
    }
}

/// `b` has less left to read than `a`.
pub open spec fn less_work(
    a: LexState,
    a_waits: Seq<WaitView>,
    b: LexState,
    b_waits: Seq<WaitView>,
) -> bool {
    ||| work(b, b_waits) < work(a, a_waits)
    ||| work(b, b_waits) <= work(a, a_waits) && b.stack.len() < a.stack.len()
}

/// What a step from `a` to `b` keeps and gains, after a token that took at least a byte.
spec fn steps_down(a: LexState, a_waits: Seq<WaitView>, s: Step) -> bool {
    match s {
        Step::Done { st, .. } => {
            &&& sound(st)
            &&& st.longest == a.longest
            &&& work(st, Seq::empty()) < work(a, a_waits)
        },
        Step::Go { st, waits } => {
            &&& sound_with(st, waits)
            &&& st.longest == a.longest
            &&& work(st, waits) < work(a, a_waits)
        },
    }
}

/// No command waits, so nothing counts.
proof fn no_waits(longest: nat)
    ensures
        left_in_waits(Seq::empty(), longest, 0) == 0,
{
}

/// Handing on a token that took at least a byte leaves less to read.
proof fn feed_steps_down(a: LexState, waits: Seq<WaitView>, st: LexState, t: TokenView)
    requires
        sound_with(a, waits),
        sound(st),
        a.stack.len() > 0,
        st.stack.len() == a.stack.len(),
        st.longest == a.longest,
        left_in_texts(st.stack, a.longest, a.stack.len() as int) + weight(
            a.longest,
            a.stack.len() - 1,
        ) <= left_in_texts(a.stack, a.longest, a.stack.len() as int),
    ensures
        steps_down(a, waits, feed(st, waits, t)),
{
    let m = a.longest;
    let n = a.stack.len() as int;
    weight_positive(m, n - 1);
    if waits.len() == 0 {
        return_empty(waits);
    } else {
        let less = waits.drop_last();
        let w = waits.last();
        waits_pop(waits, m);
        assert(wait_sound(waits[waits.len() - 1], m, a.stack.len()));
        assert forall|i: int| 0 <= i < less.len() implies wait_sound(
            #[trigger] less[i],
            m,
            a.stack.len(),
        ) by {
            assert(less[i] == waits[i]);
        }
        match w {
            WaitView::FileName => {
                if st.stack.len() + 1 < MAX_NESTED {
                    let full = join(st.qdir, t.text);
                    match find_source(st.sources, full, 0) {
                        Some(i) => {
                            find_source_bounds(st.sources, full, 0);
                            let f = fresh(full, st.sources[i].bytes);
                            opened_counts(st.stack, f, m);
                            assert(weight(m, n - 1) == (m + 2) * weight(m, n));
                            weight_positive(m, n);
                            assert((m + 2) * weight(m, n) > m * weight(m, n)) by (nonlinear_arith)
                                requires
                                    weight(m, n) >= 1,
                            ;
                            deeper_is_sound(st, less, f);
                        },
                        None => {
                            no_waits(m);
                        },
                    }
                } else {
                    no_waits(m);
                }
            },
            WaitView::MacroName => {
                more_params_steps_down(a, waits, st, less, t.text, Seq::empty());
            },
            WaitView::MacroParams { name, params } => {
                if t.text == "\\\\"@ {
                    add_macro_steps_down(a, waits, st, less, name, params);
                } else {
                    more_params_steps_down(a, waits, st, less, name, params.push(t.text));
                }
            },
            WaitView::VariableName => {
                waits_push(less, WaitView::VariableValue { name: t.text }, m);
            },
            WaitView::VariableValue { name } => {},
            WaitView::Values { text, params, body, line, values, level } => {
                let got = values.push(t.text);
                if got.len() >= params.len() {
                    let f = FrameView { line, params, values: got, ..fresh(text, body) };
                    opened_counts(st.stack, f, m);
                    weight_falls(m, level as int, n);
                    weight_positive(m, n);
                    assert(m * weight(m, n) <= (m + 1) * weight(m, level as int))
                        by (nonlinear_arith)
                        requires
                            weight(m, n) <= weight(m, level as int),
                    ;
                    deeper_is_sound(st, less, f);
                } else {
                    let again = WaitView::Values { text, params, body, line, values: got, level };
                    waits_push(less, again, m);
                    let ws = less.push(again);
                    assert forall|i: int| 0 <= i < ws.len() implies wait_sound(
                        #[trigger] ws[i],
                        m,
                        a.stack.len(),
                    ) by {
                        if i < less.len() {
                            assert(ws[i] == less[i]);
                        }
                    }
                }
            },
        }
    }
}

proof fn return_empty(waits: Seq<WaitView>)
    requires
        waits.len() == 0,
    ensures
        waits == Seq::<WaitView>::empty(),
{
    assert(waits =~= Seq::<WaitView>::empty());
}

/// A state with one more text open is sound.
proof fn deeper_is_sound(st: LexState, waits: Seq<WaitView>, f: FrameView)
    requires
        sound_with(st, waits),
        frame_sound(f, st.longest),
    ensures
        forall|s: LexState|
            s.stack == st.stack.push(f) && s.longest == st.longest && s.macros == st.macros
                && s.sources == st.sources && !s.ended ==> #[trigger] sound_with(s, waits),
{
    assert forall|s: LexState|
        s.stack == st.stack.push(f) && s.longest == st.longest && s.macros == st.macros && s.sources
            == st.sources && !s.ended implies #[trigger] sound_with(s, waits) by {
        assert forall|i: int| 0 <= i < s.stack.len() implies frame_sound(
            #[trigger] s.stack[i],
            s.longest,
        ) by {
            if i < st.stack.len() {
                assert(s.stack[i] == st.stack[i]);
            }
        }
        assert forall|i: int| 0 <= i < waits.len() implies wait_sound(
            #[trigger] waits[i],
            s.longest,
            s.stack.len(),
        ) by {
            assert(wait_sound(waits[i], st.longest, st.stack.len()));
        }
    }
}

proof fn find_source_bounds(sources: Seq<SourceView>, path: Seq<char>, i: int)
    requires
        0 <= i,
    ensures
        match find_source(sources, path, i) {
            Some(j) => i <= j < sources.len(),
            None => true,
        },
    decreases sources.len() - i,
{
    if i < sources.len() && sources[i].path != path {
        find_source_bounds(sources, path, i + 1);
    }
}

proof fn find_macro_bounds(macros: Seq<MacroView>, name: Seq<char>, i: int)
    requires
        0 <= i,
    ensures
        match find_macro(macros, name, i) {
            Some(j) => i <= j < macros.len(),
            None => true,
        },
    decreases macros.len() - i,
{
    if i < macros.len() && lower(macros[i].name) != lower(name) {
        find_macro_bounds(macros, name, i + 1);
    }
}

proof fn add_macro_steps_down(
    a: LexState,
    waits: Seq<WaitView>,
    st: LexState,
    less: Seq<WaitView>,
    name: Seq<char>,
    params: Seq<Seq<char>>,
)
    requires
        sound_with(st, less),
        a.stack.len() > 0,
        st.stack.len() == a.stack.len(),
        st.longest == a.longest,
        left_in_texts(st.stack, a.longest, a.stack.len() as int) + weight(
            a.longest,
            a.stack.len() - 1,
        ) <= left_in_texts(a.stack, a.longest, a.stack.len() as int),
        left_in_waits(less, a.longest, less.len() as int) <= left_in_waits(
            waits,
            a.longest,
            waits.len() as int,
        ),
    ensures
        steps_down(a, waits, add_macro(st, less, name, params)),
{
    let m = a.longest;
    let n = a.stack.len() as int;
    weight_positive(m, n - 1);
    let f = st.stack.last();
    assert(frame_sound(st.stack[n - 1], m));
    line_end_bounds(f.buf, f.pos);
    let e = line_end(f.buf, f.pos);
    moved_counts(st, e, f.line);
    let d = (e - f.pos) * weight(m, n - 1);
    assert(d >= 0) by (nonlinear_arith)
        requires
            d == (e - f.pos) * weight(m, n - 1),
            e >= f.pos,
    ;
    let s = add_macro(st, less, name, params)->Go_st;
    assert forall|i: int| 0 <= i < s.macros.len() implies (#[trigger] s.macros[i]).body.len() <= m
        && s.macros[i].line <= usize::MAX by {
        if i < st.macros.len() {
            assert(s.macros[i] == st.macros[i]);
        }
    }
    let mv = moved(st, e, f.line);
    assert(s.stack == mv.stack);
    assert forall|i: int| 0 <= i < s.stack.len() implies frame_sound(#[trigger] s.stack[i], m) by {
        assert(frame_sound(mv.stack[i], m));
    }
    assert forall|i: int| 0 <= i < less.len() implies wait_sound(
        #[trigger] less[i],
        m,
        s.stack.len(),
    ) by {
        assert(wait_sound(less[i], m, st.stack.len()));
    }
}

proof fn more_params_steps_down(
    a: LexState,
    waits: Seq<WaitView>,
    st: LexState,
    less: Seq<WaitView>,
    name: Seq<char>,
    params: Seq<Seq<char>>,
)
    requires
        sound_with(st, less),
        a.stack.len() > 0,
        st.stack.len() == a.stack.len(),
        st.longest == a.longest,
        left_in_texts(st.stack, a.longest, a.stack.len() as int) + weight(
            a.longest,
            a.stack.len() - 1,
        ) <= left_in_texts(a.stack, a.longest, a.stack.len() as int),
        left_in_waits(less, a.longest, less.len() as int) <= left_in_waits(
            waits,
            a.longest,
            waits.len() as int,
        ),
    ensures
        steps_down(a, waits, more_params(st, less, name, params)),
{
    let m = a.longest;
    weight_positive(m, a.stack.len() - 1);
    if available(st) {
        let w = WaitView::MacroParams { name, params };
        waits_push(less, w, m);
        let ws = less.push(w);
        assert forall|i: int| 0 <= i < ws.len() implies wait_sound(
            #[trigger] ws[i],
            m,
            st.stack.len(),
        ) by {
            if i < less.len() {
                assert(ws[i] == less[i]);
            }
        }
    } else {
        add_macro_steps_down(a, waits, st, less, name, params);
    }
}

/// Obeying a token that took at least a byte leaves less to read.
proof fn obey_steps_down(a: LexState, waits: Seq<WaitView>, st: LexState, t: TokenView)
    requires
        sound_with(a, waits),
        sound(st),
        a.stack.len() > 0,
        st.stack.len() == a.stack.len(),
        st.longest == a.longest,
        left_in_texts(st.stack, a.longest, a.stack.len() as int) + weight(
            a.longest,
            a.stack.len() - 1,
        ) <= left_in_texts(a.stack, a.longest, a.stack.len() as int),
    ensures
        steps_down(a, waits, obey(st, waits, t)),
{
    let m = a.longest;
    let n = a.stack.len() as int;
    weight_positive(m, n - 1);
    no_waits(m);
    waits_push(waits, WaitView::FileName, m);
    waits_push(waits, WaitView::MacroName, m);
    waits_push(waits, WaitView::VariableName, m);
    assert(sound_with(st, waits)) by {
        assert forall|i: int| 0 <= i < waits.len() implies wait_sound(
            #[trigger] waits[i],
            m,
            st.stack.len(),
        ) by {
            assert(wait_sound(waits[i], m, a.stack.len()));
        }
    }
    let command = lower(t.text) == lower("$include"@) || lower(t.text) == lower("$definemacro"@)
        || lower(t.text) == lower("$definevariable"@);
    if command {
        assert forall|w: WaitView| !(w is Values) implies #[trigger] sound_with(
            st,
            waits.push(w),
        ) by {
            let ws = waits.push(w);
            assert forall|i: int| 0 <= i < ws.len() implies wait_sound(
                #[trigger] ws[i],
                m,
                st.stack.len(),
            ) by {
                if i < waits.len() {
                    assert(ws[i] == waits[i]);
                }
            }
        }
    } else {
        match called(st.macros, t.text) {
            None => {
                feed_steps_down(a, waits, st, t);
            },
            Some(i) => {
                find_macro_bounds(st.macros, t.text.skip(1), 0);
                let mac = st.macros[i];
                if st.stack.len() + 1 < MAX_NESTED {
                    assert(weight(m, n - 1) == (m + 2) * weight(m, n));
                    weight_positive(m, n);
                    assert((m + 2) * weight(m, n) > (m + 1) * weight(m, n)) by (nonlinear_arith)
                        requires
                            weight(m, n) >= 1,
                    ;
                    assert((m + 1) * weight(m, n) > m * weight(m, n)) by (nonlinear_arith)
                        requires
                            weight(m, n) >= 1,
                    ;
                    if mac.params.len() == 0 {
                        let f = FrameView {
                            line: mac.line,
                            params: mac.params,
                            values: Seq::empty(),
                            ..fresh(t.text, mac.body)
                        };
                        opened_counts(st.stack, f, m);
                        deeper_is_sound(st, waits, f);
                    } else {
                        let w = WaitView::Values {
                            text: t.text,
                            params: mac.params,
                            body: mac.body,
                            line: mac.line,
                            values: Seq::empty(),
                            level: st.stack.len(),
                        };
                        waits_push(waits, w, m);
                        let ws = waits.push(w);
                        assert forall|i: int| 0 <= i < ws.len() implies wait_sound(
                            #[trigger] ws[i],
                            m,
                            st.stack.len(),
                        ) by {
                            if i < waits.len() {
                                assert(ws[i] == waits[i]);
                            }
                        }
                    }
                }
            },
        }
    }
}

/// Every step leaves less to read, and a sound state.
pub proof fn step_leaves_less(st: LexState, waits: Seq<WaitView>, cross: bool)
    requires
        sound_with(st, waits),
    ensures
        match step(st, waits, cross) {
            Step::Done { out, st: s } => {
                &&& sound(s)
                &&& s.longest == st.longest
                &&& work(s, Seq::empty()) <= work(st, waits)
                &&& out matches Ok(Some(_)) ==> work(s, Seq::empty()) < work(st, waits)
            },
            Step::Go { st: s, waits: w } => {
                &&& sound_with(s, w)
                &&& s.longest == st.longest
                &&& less_work(st, waits, s, w)
            },
        },
{
    let m = st.longest;
    no_waits(m);
    if st.stack.len() > 0 {
        let n = st.stack.len() as int;
        let f = st.stack.last();
        let free = cross && waits.len() == 0;
        assert(frame_sound(st.stack[n - 1], m));
        skip_bounds(f.buf, f.pos, f.line, free);
        weight_positive(m, n - 1);
        match skip(f.buf, f.pos, f.line, free) {
            Skip::LineOver { pos, line } => {
                moved_counts(st, pos, line);
                less_by(pos - f.pos, weight(m, n - 1));
            },
            Skip::Comment { pos, line } => {
                moved_counts(st, pos, line);
                less_by(pos - f.pos, weight(m, n - 1));
            },
            Skip::End { pos, line } => {
                moved_counts(st, pos, line);
                less_by(pos - f.pos, weight(m, n - 1));
                let mv = moved(st, pos, line);
                left_in_texts_same(mv.stack.drop_last(), mv.stack, m, n - 1);
                if free && n > 1 {
                    let s = close_text(mv, waits, free)->Go_st;
                    assert forall|i: int| 0 <= i < s.stack.len() implies frame_sound(
                        #[trigger] s.stack[i],
                        m,
                    ) by {
                        assert(s.stack[i] == mv.stack[i]);
                    }
                }
            },
            Skip::At { pos, line } => {
                letters_bounds(st, pos);
                match letters_at(st, pos) {
                    Letters::Bad { message, pos: p } => {
                        moved_counts(st, p, line);
                        less_by(p - f.pos, weight(m, n - 1));
                    },
                    Letters::Done { text, pos: after } => {
                        moved_counts(st, after, line);
                        let t = TokenView {
                            text: text_of(text),
                            quoted: byte_at(f.buf, pos) == 0x22,
                            file: f.name,
                            line,
                        };
                        obey_steps_down(st, waits, moved(st, after, line), t);
                    },
                }
            },
        }
    }
}

proof fn less_by(d: int, w: nat)
    requires
        d >= 0,
    ensures
        d * w >= 0,
{
    assert(d * w >= 0) by (nonlinear_arith)
        requires
            d >= 0,
    ;
}

/// Reads until a token is there for the caller, the script is over, or something is wrong.
pub open spec fn run(st: LexState, waits: Seq<WaitView>, cross: bool) -> (
    Result<Option<TokenView>, ErrorView>,
    LexState,
)
    decreases work(st, waits), st.stack.len(),
        when sound_with(st, waits)
        via run_ends
{
    match step(st, waits, cross) {
        Step::Done { out, st: s } => (out, s),
        Step::Go { st: s, waits: w } => run(s, w, cross),
    }
}

#[via_fn]
proof fn run_ends(st: LexState, waits: Seq<WaitView>, cross: bool) {
    step_leaves_less(st, waits, cross);
}

/// The next token; `None` where the script is over.
pub open spec fn next(st: LexState, cross: bool) -> (
    Result<Option<TokenView>, ErrorView>,
    LexState,
) {
    match st.pending {
        Some(t) => (Ok(Some(t)), LexState { pending: None, ..st }),
        None => run(st, Seq::empty(), cross),
    }
}

/// How much reading is left, with a token that was given back.
pub open spec fn left(st: LexState) -> nat {
    2 * work(st, Seq::empty()) + if st.pending is Some {
        1nat
    } else {
        0nat
    }
}

/// Reading keeps a lexer sound and never adds to what is left.
proof fn run_leaves_less(st: LexState, waits: Seq<WaitView>, cross: bool)
    requires
        sound_with(st, waits),
    ensures
        sound(run(st, waits, cross).1),
        run(st, waits, cross).1.longest == st.longest,
        work(run(st, waits, cross).1, Seq::empty()) <= work(st, waits),
        run(st, waits, cross).0 matches Ok(Some(_)) ==> work(
            run(st, waits, cross).1,
            Seq::empty(),
        ) < work(st, waits),
        run(st, waits, cross).1.pending == st.pending,
    decreases work(st, waits), st.stack.len(),
{
    step_leaves_less(st, waits, cross);
    match step(st, waits, cross) {
        Step::Done { .. } => {},
        Step::Go { st: s, waits: w } => {
            run_leaves_less(s, w, cross);
        },
    }
}

/// Each token that is read leaves less to read, even if it is then given back.
pub proof fn next_leaves_less(st: LexState, cross: bool)
    requires
        sound(st),
    ensures
        sound(next(st, cross).1),
        next(st, cross).1.pending is None,
        left(next(st, cross).1) <= left(st),
        next(st, cross).0 matches Ok(Some(_)) ==> left(next(st, cross).1) < left(st),
        next(st, cross).0 matches Ok(Some(t)) ==> left(
            LexState { pending: Some(t), ..next(st, cross).1 },
        ) <= left(st),
{
    match st.pending {
        Some(t) => {
            let s = LexState { pending: None, ..st };
            assert(work(s, Seq::empty()) == work(st, Seq::empty()));
        },
        None => {
            run_leaves_less(st, Seq::empty(), cross);
        },
    }
}

/// What a command of the script still waits for.
enum Wait {
    /// The name of a file to take in.
    FileName,
    /// The name of a macro.
    MacroName,
    /// More parameters of a macro.
    MacroParams { name: String, params: Vec<String> },
    /// The name of a variable.
    VariableName,
    /// The value of a variable.
    VariableValue { name: String },
    /// More values for the parameters of a macro.
    Values {
        text: String,
        params: Vec<String>,
        body: Vec<u8>,
        line: usize,
        values: Vec<String>,
        level: Ghost<nat>,
    },
}

impl View for Wait {
    type V = WaitView;

    closed spec fn view(&self) -> WaitView {
        match *self {
            Wait::FileName => WaitView::FileName,
            Wait::MacroName => WaitView::MacroName,
            Wait::MacroParams { name, params } => WaitView::MacroParams {
                name: name@,
                params: texts(params@),
            },
            Wait::VariableName => WaitView::VariableName,
            Wait::VariableValue { name } => WaitView::VariableValue { name: name@ },
            Wait::Values { text, params, body, line, values, level } => WaitView::Values {
                text: text@,
                params: texts(params@),
                body: body@,
                line: line as nat,
                values: texts(values@),
                level: level@,
            },
        }
    }
}

/// Commands that wait, as mathematical values.
spec fn wait_views(s: Seq<Wait>) -> Seq<WaitView> {
    Seq::new(s.len(), |i: int| s[i]@)
}

/// Where the next token starts.
enum Found {
    At(usize, usize),
    End(usize, usize),
    LineOver(usize, usize),
    Comment(usize, usize),
}

impl View for Found {
    type V = Skip;

    closed spec fn view(&self) -> Skip {
        match *self {
            Found::At(p, l) => Skip::At { pos: p as int, line: l as nat },
            Found::End(p, l) => Skip::End { pos: p as int, line: l as nat },
            Found::LineOver(p, l) => Skip::LineOver { pos: p as int, line: l as nat },
            Found::Comment(p, l) => Skip::Comment { pos: p as int, line: l as nat },
        }
    }
}

/// Copies of strings.
fn copy_texts(s: &Vec<String>) -> (r: Vec<String>)
    ensures
        texts(r@) == texts(s@),
        r@.len() == s@.len(),
{
    let mut out: Vec<String> = Vec::new();
    let mut i: usize = 0;
    while i < s.len()
        invariant
            i <= s@.len(),
            out@.len() == i,
            forall|j: int| 0 <= j < i ==> (#[trigger] out@[j])@ == s@[j]@,
        decreases s@.len() - i,
    {
        out.push(s[i].clone());
        i = i + 1;
    }
    assert(texts(out@) =~= texts(s@));
    out
}

/// A copy of bytes.
pub fn copy_bytes(s: &Vec<u8>, from: usize, to: usize) -> (r: Vec<u8>)
    requires
        from <= to <= s@.len(),
    ensures
        r@ == s@.subrange(from as int, to as int),
{
    let mut out: Vec<u8> = Vec::new();
    let mut i: usize = from;
    while i < to
        invariant
            from <= i <= to <= s@.len(),
            out@ == s@.subrange(from as int, i as int),
        decreases to - i,
    {
        out.push(s[i]);
        i = i + 1;
        assert(out@ =~= s@.subrange(from as int, i as int));
    }
    out
}

/// The next line number.
fn next_line(line: usize) -> (r: usize)
    ensures
        r == bump(line as nat),
{
    if line < usize::MAX {
        line + 1
    } else {
        line
    }
}

/// The byte at `p`; 0 where the text is over.
fn get(buf: &Vec<u8>, p: usize) -> (r: u8)
    ensures
        r == byte_at(buf@, p as int),
{
    if p < buf.len() {
        buf[p]
    } else {
        0
    }
}

/// The end of the line.
fn find_line_end(buf: &Vec<u8>, from: usize) -> (r: usize)
    requires
        from <= buf@.len(),
    ensures
        r == line_end(buf@, from as int),
        from <= r <= buf@.len(),
{
    let mut p: usize = from;
    while p < buf.len() && buf[p] != 0x0A
        invariant
            from <= p <= buf@.len(),
            line_end(buf@, p as int) == line_end(buf@, from as int),
        decreases buf@.len() - p,
    {
        p = p + 1;
    }
    p
}

/// The place behind a block comment, and the line there.
fn find_block_end(buf: &Vec<u8>, from: usize, line: usize) -> (r: (Option<usize>, usize))
    requires
        from <= buf@.len(),
    ensures
        block_end(buf@, from as int, line as nat) == (
            match r.0 {
                Some(p) => Some(p as int),
                None => None::<int>,
            },
            r.1 as nat,
        ),
        r.0 matches Some(p) ==> from < p <= buf@.len(),
{
    let mut p: usize = from;
    let mut l: usize = line;
    while p < buf.len()
        invariant
            from <= p <= buf@.len(),
            block_end(buf@, p as int, l as nat) == block_end(buf@, from as int, line as nat),
        decreases buf@.len() - p,
    {
        if buf[p] == 0x2A && get(buf, p + 1) == 0x2F {
            return (Some(p + 2), l);
        }
        if buf[p] == 0x0A {
            l = next_line(l);
        }
        p = p + 1;
    }
    (None, l)
}

/// Tells whether a comment that runs to the end of the line starts at `p`.
fn is_comment(buf: &Vec<u8>, p: usize) -> (r: bool)
    requires
        p < buf@.len(),
    ensures
        r == comment_at(buf@, p as int),
{
    let n: usize = buf.len();
    let c: u8 = buf[p];
    c == 0x3B || c == 0x23 || (c == 0x2F && get(buf, p + 1) == 0x2F)
}

/// Where the next token starts.
fn skip_space(buf: &Vec<u8>, from: usize, line: usize, cross: bool) -> (r: Found)
    requires
        from <= buf@.len(),
    ensures
        r@ == skip(buf@, from as int, line as nat, cross),
{
    let mut p: usize = from;
    let mut l: usize = line;
    while p < buf.len()
        invariant
            p <= buf@.len(),
            skip(buf@, p as int, l as nat, cross) == skip(buf@, from as int, line as nat, cross),
        decreases buf@.len() - p,
    {
        let c: u8 = buf[p];
        if c <= 32 {
            p = p + 1;
            if c == 0x0A {
                if !cross {
                    return Found::LineOver(p, l);
                }
                l = next_line(l);
            }
        } else if is_comment(buf, p) {
            if !cross {
                return Found::Comment(p, l);
            }
            let e: usize = find_line_end(buf, p);
            if e < buf.len() {
                p = e + 1;
                l = next_line(l);
            } else {
                return Found::End(buf.len(), l);
            }
        } else if c == 0x2F && get(buf, p + 1) == 0x2A {
            let (e, l2) = find_block_end(buf, p + 2, l);
            match e {
                Some(q) => {
                    p = q;
                    l = l2;
                },
                None => {
                    return Found::End(buf.len(), l2);
                },
            }
        } else {
            return Found::At(p, l);
        }
    }
    Found::End(p, l)
}

/// Tells whether there is a token from `from` on, on the same line.
fn has_more(buf: &Vec<u8>, from: usize) -> (r: bool)
    requires
        from <= buf@.len(),
    ensures
        r == more_at(buf@, from as int),
{
    let mut p: usize = from;
    while p < buf.len()
        invariant
            p <= buf@.len(),
            more_at(buf@, p as int) == more_at(buf@, from as int),
        decreases buf@.len() - p,
    {
        let c: u8 = buf[p];
        if c <= 32 {
            if c == 0x0A {
                return false;
            }
            p = p + 1;
        } else {
            return !is_comment(buf, p);
        }
    }
    false
}

/// The end of a name between dollar signs.
fn find_name_end(buf: &Vec<u8>, from: usize) -> (r: usize)
    requires
        from <= buf@.len(),
    ensures
        r == name_end(buf@, from as int),
        from <= r <= buf@.len(),
{
    let mut p: usize = from;
    while p < buf.len() && buf[p] > 32 && buf[p] != 0x24
        invariant
            from <= p <= buf@.len(),
            name_end(buf@, p as int) == name_end(buf@, from as int),
        decreases buf@.len() - p,
    {
        p = p + 1;
    }
    p
}

/// The first of `names` that is `name` but for ASCII case.
pub fn name_index(names: &Vec<String>, name: &str) -> (r: Option<usize>)
    ensures
        match r {
            Some(i) => find_name(texts(names@), name@, 0) == Some(i as int) && i < names@.len(),
            None => find_name(texts(names@), name@, 0) is None,
        },
{
    let mut i: usize = 0;
    while i < names.len()
        invariant
            i <= names@.len(),
            find_name(texts(names@), name@, i as int) == find_name(texts(names@), name@, 0),
        decreases names@.len() - i,
    {
        if same_but_case(names[i].as_str(), name) {
            return Some(i);
        }
        i = i + 1;
    }
    None
}

/// At most the first `n` characters.
fn first_chars(s: &str, n: usize) -> (r: String)
    ensures
        r@ == head(s@, n as int),
{
    let chars: Vec<char> = chars_of(s);
    let m: usize = if chars.len() <= n {
        chars.len()
    } else {
        n
    };
    let r: String = string_of(&chars, 0, m);
    assert(r@ =~= head(s@, n as int));
    r
}

/// The letters of a token, or what is wrong with them; and the place behind.
type Read = (Result<Vec<u8>, String>, usize);

/// `r` gives the letters `l`.
spec fn reads(r: Read, l: Letters) -> bool {
    match (r.0, l) {
        (Ok(t), Letters::Done { text, pos }) => t@ == text && r.1 == pos,
        (Err(m), Letters::Bad { message, pos }) => m@ == message && r.1 == pos,
        _ => false,
    }
}

/// The letters of a token in quotes.
fn read_quoted(buf: &Vec<u8>, from: usize) -> (r: Read)
    requires
        from <= buf@.len(),
    ensures
        reads(r, quoted_letters(buf@, from as int)),
        r.1 <= buf@.len(),
{
    let mut p: usize = from;
    while p < buf.len() && buf[p] != 0x22
        invariant
            from <= p <= buf@.len(),
            p - from <= MAX_TOKEN,
            quote_end(buf@, p as int) == quote_end(buf@, from as int),
        decreases buf@.len() - p,
    {
        if p - from >= MAX_TOKEN {
            proof {
                quote_end_bounds(buf@, p + 1);
            }
            return (Err("token 太长（>1024）".to_owned()), p);
        }
        p = p + 1;
    }
    let text: Vec<u8> = copy_bytes(buf, from, p);
    if p < buf.len() {
        (Ok(text), p + 1)
    } else {
        (Ok(text), p)
    }
}

/// Appends the UTF-8 bytes of a string.
pub fn put_utf8(out: &mut Vec<u8>, s: &str)
    ensures
        final(out)@ == old(out)@ + vstd::utf8::encode_utf8(s@),
{
    let b: &[u8] = s.as_bytes();
    let mut i: usize = 0;
    while i < b.len()
        invariant
            i <= b@.len(),
            b@ == vstd::utf8::encode_utf8(s@),
            out@ == old(out)@ + b@.take(i as int),
        decreases b@.len() - i,
    {
        out.push(b[i]);
        i = i + 1;
        assert(out@ =~= old(out)@ + b@.take(i as int));
    }
    assert(b@.take(i as int) =~= b@);
}

impl Frame {
    /// A text at its start, without a byte order mark.
    fn new(name: String, bytes: &Vec<u8>) -> (r: Frame)
        ensures
            r@ == fresh(name@, bytes@),
    {
        let n: usize = bytes.len();
        let from: usize = if n >= 3 && bytes[0] == 0xEF && bytes[1] == 0xBB && bytes[2] == 0xBF {
            3
        } else {
            0
        };
        let buf: Vec<u8> = copy_bytes(bytes, from, n);
        assert(buf@ =~= without_mark(bytes@));
        let r = Frame { name, buf, pos: 0, line: 1, params: Vec::new(), values: Vec::new() };
        assert(r@.params =~= Seq::empty());
        assert(r@.values =~= Seq::empty());
        r
    }
}

impl Lexer {
    /// A lexer is sound.
    pub open spec fn wf(&self) -> bool {
        sound(self@)
    }

    /// A lexer without a text. `qdir` is the directory that paths start from; `sources` are the
    /// files that a script can take in.
    pub fn new(qdir: String, sources: Vec<Source>) -> (r: Self)
        ensures
            r.wf(),
            r@ == no_text(qdir@, source_views(sources@)),
    {
        proof {
            sources_are_no_longer(source_views(sources@), sources@.len() as int);
        }
        let r = Lexer {
            stack: Vec::new(),
            qdir,
            macros: Vec::new(),
            variables: Vec::new(),
            pending: None,
            end_of_script: EndMark { set: false },
            loaded_files: Vec::new(),
            sources,
            longest: Ghost(longest_source(source_views(sources@), sources@.len() as int)),
            wanted: None,
        };
        assert(r@.stack =~= Seq::empty());
        assert(r@.macros =~= Seq::empty());
        assert(r@.variables =~= Seq::empty());
        assert(r@.loaded =~= Seq::empty());
        r
    }

    /// Starts with the file at a path, which counts as taken in. Where the file was not read, or
    /// could not be, the lexer stays as it is.
    pub fn load(&mut self, path: &str) -> (r: Result<(), QcError>)
        requires
            old(self).wf(),
        ensures
            final(self).wf(),
            match (r, find_source(old(self)@.sources, path@, 0)) {
                (Ok(_), Some(i)) => old(self)@.sources[i].failure is None && final(self)@
                    == LexState {
                    loaded: old(self)@.loaded.push(path@),
                    ..started(old(self)@, path@, old(self)@.sources[i].bytes)
                },
                (Err(e), Some(i)) => final(self)@ == old(self)@ && match old(
                    self,
                )@.sources[i].failure {
                    Some(f) => e@ == (ErrorView {
                        file: path@,
                        line: 0,
                        message: "读不到 QC 文件："@ + f.reason,
                    }),
                    None => false,
                },
                (Err(e), None) => final(self)@ == old(self)@ && e@ == (ErrorView {
                    file: path@,
                    line: 0,
                    message: "读不到 QC 文件"@,
                }),
                _ => false,
            },
    {
        let mut i: usize = 0;
        while i < self.sources.len()
            invariant
                i <= self.sources@.len(),
                self.wf(),
                *self == *old(self),
                find_source(self@.sources, path@, i as int) == find_source(
                    self@.sources,
                    path@,
                    0,
                ),
            decreases self.sources@.len() - i,
        {
            assert(self@.sources[i as int] == self.sources@[i as int]@);
            if same(self.sources[i].path.as_str(), path) {
                if let Some(failure) = &self.sources[i].failure {
                    let mut m: String = "读不到 QC 文件：".to_owned();
                    m.push_str(failure.reason.as_str());
                    return Err(QcError::new(path.to_owned(), 0, m));
                }
                let total: usize = self.sources[i].bytes.len();
                let bytes: Vec<u8> = copy_bytes(&self.sources[i].bytes, 0, total);
                assert(bytes@ =~= self.sources@[i as int].bytes@);
                self.load_bytes(&bytes, path);
                return Ok(());
            }
            i = i + 1;
        }
        Err(QcError::new(path.to_owned(), 0, "读不到 QC 文件".to_owned()))
    }

    /// Starts with the bytes of a file, which counts as taken in.
    pub fn load_bytes(&mut self, bytes: &Vec<u8>, name: &str)
        requires
            old(self).wf(),
        ensures
            final(self).wf(),
            final(self)@ == (LexState {
                loaded: old(self)@.loaded.push(name@),
                ..started(old(self)@, name@, bytes@)
            }),
    {
        self.start(bytes, name);
        let ghost started = self@;
        self.loaded_files.push(name.to_owned());
        proof {
            sound_by_parts(started, self@);
        }
        assert(self@.loaded =~= old(self)@.loaded.push(name@));
    }

    /// Starts with a text in memory.
    pub fn load_from_memory(&mut self, text: &str, name: &str)
        requires
            old(self).wf(),
        ensures
            final(self).wf(),
            final(self)@ == started(old(self)@, name@, vstd::utf8::encode_utf8(text@)),
    {
        let mut bytes: Vec<u8> = Vec::new();
        put_utf8(&mut bytes, text);
        assert(bytes@ =~= vstd::utf8::encode_utf8(text@));
        self.start(&bytes, name);
    }

    /// Starts with a text.
    fn start(&mut self, bytes: &Vec<u8>, name: &str)
        requires
            old(self).wf(),
        ensures
            final(self).wf(),
            final(self)@ == started(old(self)@, name@, bytes@),
    {
        let f: Frame = Frame::new(name.to_owned(), bytes);
        let mut stack: Vec<Frame> = Vec::new();
        stack.push(f);
        self.stack = stack;
        self.end_of_script = EndMark { set: false };
        self.pending = None;
        self.longest = Ghost(started(old(self)@, name@, bytes@).longest);
        assert(self@.stack =~= seq![fresh(name@, bytes@)]);
        assert(self@.macros =~= old(self)@.macros);
    }

    /// The file and the line where the lexer stands.
    pub fn location(&self) -> (r: (String, usize))
        ensures
            (r.0@, r.1 as nat) == location(self@),
    {
        let n: usize = self.stack.len();
        if n == 0 {
            (self.qdir.clone(), 0)
        } else {
            assert(self@.stack.last() == self.stack@[n - 1]@);
            (self.stack[n - 1].name.clone(), self.stack[n - 1].line)
        }
    }

    /// An error at the place where the lexer stands.
    pub fn error(&self, message: String) -> (r: QcError)
        ensures
            r@ == error_at(self@, message@),
    {
        let (file, line) = self.location();
        QcError::new(file, line, message)
    }

    /// Gives a token back, so that it is the next one.
    pub fn unget(&mut self, tok: Token)
        ensures
            final(self)@ == (LexState { pending: Some(tok@), ..old(self)@ }),
            old(self).wf() ==> final(self).wf(),
    {
        let ghost before = self@;
        self.pending = Some(tok);
        proof {
            if sound(before) {
                sound_by_parts(before, self@);
            }
        }
    }

    /// Tells whether there is a token on the rest of the line.
    pub fn token_available(&self) -> (r: bool)
        requires
            self.wf(),
        ensures
            r == available(self@),
    {
        if self.pending.is_some() {
            return true;
        }
        let n: usize = self.stack.len();
        if n == 0 {
            return false;
        }
        assert(self@.stack.last() == self.stack@[n - 1]@);
        assert(frame_sound(self@.stack[n - 1], self@.longest));
        has_more(&self.stack[n - 1].buf, self.stack[n - 1].pos)
    }

    /// Moves on in the innermost text.
    fn move_to(&mut self, pos: usize, line: usize)
        requires
            old(self).stack@.len() > 0,
        ensures
            final(self)@ == moved(old(self)@, pos as int, line as nat),
            final(self).stack@.len() == old(self).stack@.len(),
            final(self).macros == old(self).macros,
            final(self).sources == old(self).sources,
            final(self).variables == old(self).variables,
    {
        let ghost before = self@;
        match self.stack.pop() {
            Some(f) => {
                let mut f: Frame = f;
                f.pos = pos;
                f.line = line;
                self.stack.push(f);
            },
            None => {},
        }
        assert(self@.stack =~= moved(before, pos as int, line as nat).stack);
    }

    /// What a reference stands for.
    fn expand(&self, f: &Frame, name: &str) -> (r: Result<String, String>)
        requires
            f.params@.len() == f.values@.len(),
        ensures
            match (r, expansion(f@, self@.variables, name@)) {
                (Ok(v), Ok(w)) => v@ == w,
                (Err(m), Err(n)) => m@ == n,
                _ => false,
            },
    {
        if f.params.len() > 0 {
            self.try_expand_macro(f, name)
        } else {
            self.try_expand_variable(name)
        }
    }

    /// The value of a parameter of the macro that is being read.
    fn try_expand_macro(&self, f: &Frame, name: &str) -> (r: Result<String, String>)
        requires
            f.params@.len() == f.values@.len(),
        ensures
            match r {
                Ok(v) => find_name(f@.params, name@, 0) matches Some(i) && v@ == f@.values[i],
                Err(m) => find_name(f@.params, name@, 0) is None && m@ == "未知的宏参数 \""@
                    + name@ + "\""@,
            },
    {
        match name_index(&f.params, name) {
            Some(i) => Ok(f.values[i].clone()),
            None => {
                let mut m: String = "未知的宏参数 \"".to_owned();
                m.push_str(name);
                m.push_str("\"");
                Err(m)
            },
        }
    }

    /// The value of a variable.
    fn try_expand_variable(&self, name: &str) -> (r: Result<String, String>)
        ensures
            match r {
                Ok(v) => find_variable(self@.variables, name@, 0) matches Some(i) && v@
                    == self@.variables[i].value,
                Err(m) => find_variable(self@.variables, name@, 0) is None && m@
                    == "未知的变量 \"$"@ + name@ + "$\""@,
            },
    {
        let len: usize = name.as_bytes().len();
        let n: usize = if len < 2 {
            0
        } else {
            len - 2
        };
        let prefix: String = first_chars(name, n);
        let mut i: usize = 0;
        while i < self.variables.len()
            invariant
                i <= self.variables@.len(),
                n == compared(name@),
                prefix@ == head(name@, n as int),
                find_variable(self@.variables, name@, i as int) == find_variable(
                    self@.variables,
                    name@,
                    0,
                ),
            decreases self.variables@.len() - i,
        {
            assert(self@.variables[i as int] == self.variables@[i as int]@);
            let start: String = first_chars(self.variables[i].param.as_str(), n);
            if same_but_case(start.as_str(), prefix.as_str()) {
                return Ok(self.variables[i].value.clone());
            }
            i = i + 1;
        }
        let mut m: String = "未知的变量 \"$".to_owned();
        m.push_str(name);
        m.push_str("$\"");
        Err(m)
    }

    /// The letters of a token without quotes.
    fn read_bare(&self, f: &Frame, from: usize) -> (r: Read)
        requires
            from <= f.buf@.len(),
            f.params@.len() == f.values@.len(),
        ensures
            reads(r, bare_letters(f@, self@.variables, from as int, Seq::empty())),
            r.1 <= f.buf@.len(),
    {
        let mut out: Vec<u8> = Vec::new();
        let mut p: usize = from;
        while p < f.buf.len() && f.buf[p] > 32 && f.buf[p] != 0x3B
            invariant
                p <= f.buf@.len(),
                f.params@.len() == f.values@.len(),
                bare_letters(f@, self@.variables, p as int, out@) == bare_letters(
                    f@,
                    self@.variables,
                    from as int,
                    Seq::empty(),
                ),
            decreases f.buf@.len() - p,
        {
            let c: u8 = f.buf[p];
            if c == 0x24 {
                let e: usize = find_name_end(&f.buf, p + 1);
                if get(&f.buf, e) == 0x24 {
                    let bytes: Vec<u8> = copy_bytes(&f.buf, p + 1, e);
                    let name: String = text_from(&bytes);
                    match self.expand(f, name.as_str()) {
                        Ok(v) => {
                            put_utf8(&mut out, v.as_str());
                            p = e + 1;
                            continue;
                        },
                        Err(m) => {
                            return (Err(m), p);
                        },
                    }
                }
            }
            if out.len() >= MAX_TOKEN {
                return (Err("token 太长（>1024）".to_owned()), p);
            }
            out.push(c);
            p = p + 1;
        }
        (Ok(out), p)
    }

    /// Takes in the file that `t` names.
    fn push_file(&mut self, t: &Token) -> (r: Option<QcError>)
        requires
            old(self).wf(),
        ensures
            match take_file(old(self)@, Seq::empty(), t@) {
                Step::Go { st, .. } => r is None && final(self)@ == st,
                Step::Done { out, st } => r is Some && final(self)@ == st && out == Err::<
                    Option<TokenView>,
                    ErrorView,
                >(r->0@),
            },
    {
        if self.stack.len() >= MAX_NESTED - 1 {
            return Some(self.error("$include 嵌套超过 16 层".to_owned()));
        }
        let full: String = join_path(self.qdir.as_str(), t.text.as_str());
        let mut i: usize = 0;
        while i < self.sources.len()
            invariant
                i <= self.sources@.len(),
                self@ == old(self)@,
                self.stack == old(self).stack,
                self.sources == old(self).sources,
                self.stack@.len() + 1 < MAX_NESTED,
                full@ == join(self@.qdir, t.text@),
                find_source(self@.sources, full@, i as int) == find_source(
                    self@.sources,
                    full@,
                    0,
                ),
            decreases self.sources@.len() - i,
        {
            assert(self@.sources[i as int] == self.sources@[i as int]@);
            if same(self.sources[i].path.as_str(), full.as_str()) {
                if let Some(failure) = &self.sources[i].failure {
                    let mut m: String = "$include 找不到 ".to_owned();
                    m.push_str(t.text.as_str());
                    m.push_str("（");
                    m.push_str(full.as_str());
                    m.push_str("）：");
                    m.push_str(failure.reason.as_str());
                    return Some(QcError::new(t.file.clone(), t.line, m));
                }
                let f: Frame = Frame::new(full.clone(), &self.sources[i].bytes);
                self.stack.push(f);
                assert(self@.stack =~= old(self)@.stack.push(f@));
                self.loaded_files.push(full);
                assert(self@.loaded =~= old(self)@.loaded.push(full@));
                return None;
            }
            i = i + 1;
        }
        let mut m: String = "$include 找不到 ".to_owned();
        m.push_str(t.text.as_str());
        m.push_str("（");
        m.push_str(full.as_str());
        m.push_str("）");
        self.wanted = Some(full);
        Some(QcError::new(t.file.clone(), t.line, m))
    }

    /// Defines a macro: its text is the rest of the line.
    fn define_macro(&mut self, name: String, params: Vec<String>)
        requires
            old(self).wf(),
            old(self).stack@.len() > 0,
        ensures
            (Step::Go { st: final(self)@, waits: Seq::empty() }) == add_macro(
                old(self)@,
                Seq::empty(),
                name@,
                texts(params@),
            ),
    {
        let n: usize = self.stack.len();
        assert(self@.stack.last() == self.stack@[n - 1]@);
        assert(frame_sound(self@.stack[n - 1], self@.longest));
        let from: usize = self.stack[n - 1].pos;
        let line: usize = self.stack[n - 1].line;
        let end: usize = find_line_end(&self.stack[n - 1].buf, from);
        let body: Vec<u8> = copy_bytes(&self.stack[n - 1].buf, from, end);
        self.move_to(end, line);
        let ghost before = self@;
        self.macros.push(Macro { name, body, params, line });
        assert(self@.macros =~= before.macros.push(
            MacroView { name: name@, body: body@, params: texts(params@), line: line as nat },
        ));
    }

    /// Defines a variable. An earlier one of the same name stays in front.
    fn define_variable(&mut self, name: String, value: String)
        ensures
            final(self)@ == (LexState {
                variables: old(self)@.variables.push(
                    VariableView { param: name@, value: value@ },
                ),
                ..old(self)@
            }),
    {
        self.variables.push(Variable { param: name, value });
        assert(self@.variables =~= old(self)@.variables.push(
            VariableView { param: name@, value: value@ },
        ));
    }

    /// Opens the text of a macro.
    fn push_macro(
        &mut self,
        text: String,
        params: Vec<String>,
        body: Vec<u8>,
        line: usize,
        values: Vec<String>,
    )
        ensures
            (Step::Go { st: final(self)@, waits: Seq::empty() }) == open_macro(
                old(self)@,
                Seq::empty(),
                text@,
                texts(params@),
                body@,
                line as nat,
                texts(values@),
            ),
    {
        let mut f: Frame = Frame::new(text, &body);
        f.params = params;
        f.values = values;
        f.line = line;
        self.stack.push(f);
        assert(self@.stack =~= old(self)@.stack.push(f@));
    }

    /// The innermost text is over: the script is over with it, or the text around it goes on.
    fn end_of_script_inner(&mut self)
        requires
            old(self).stack@.len() > 0,
        ensures
            old(self).stack@.len() <= 1 ==> final(self)@ == (LexState {
                stack: Seq::empty(),
                ended: true,
                ..old(self)@
            }),
            old(self).stack@.len() > 1 ==> final(self)@ == (LexState {
                stack: old(self)@.stack.drop_last(),
                ..old(self)@
            }),
    {
        if self.stack.len() <= 1 {
            self.end_of_script = EndMark { set: true };
            self.stack = Vec::new();
            assert(self@.stack =~= Seq::empty());
        } else {
            let _ = self.stack.pop();
            assert(self@.stack =~= old(self)@.stack.drop_last());
        }
    }

    /// The macro that a token calls.
    fn find_call(&self, text: &str) -> (r: Option<usize>)
        ensures
            match r {
                Some(i) => called(self@.macros, text@) == Some(i as int) && i < self.macros@.len(),
                None => called(self@.macros, text@) is None,
            },
    {
        let chars: Vec<char> = chars_of(text);
        if chars.len() == 0 || chars[0] != '$' {
            return None;
        }
        let bare: String = string_of(&chars, 1, chars.len());
        assert(bare@ =~= text@.skip(1));
        let mut i: usize = 0;
        while i < self.macros.len()
            invariant
                i <= self.macros@.len(),
                text@.len() > 0 && text@[0] == '$',
                bare@ == text@.skip(1),
                find_macro(self@.macros, bare@, i as int) == find_macro(self@.macros, bare@, 0),
            decreases self.macros@.len() - i,
        {
            assert(self@.macros[i as int] == self.macros@[i as int]@);
            if same_but_case(self.macros[i].name.as_str(), bare.as_str()) {
                return Some(i);
            }
            i = i + 1;
        }
        None
    }

    /// Goes on with the parameters of a macro, or defines it where none is left.
    fn take_params(&mut self, waits: &mut Vec<Wait>, name: String, params: Vec<String>)
        requires
            old(self).wf(),
            old(self).stack@.len() > 0,
        ensures
            (Step::Go { st: final(self)@, waits: wait_views(final(waits)@) }) == more_params(
                old(self)@,
                wait_views(old(waits)@),
                name@,
                texts(params@),
            ),
    {
        if self.token_available() {
            waits.push(Wait::MacroParams { name, params });
            assert(wait_views(waits@) =~= wait_views(old(waits)@).push(
                WaitView::MacroParams { name: name@, params: texts(params@) },
            ));
        } else {
            self.define_macro(name, params);
        }
    }

    /// Hands a token to what waits for one, or to the caller where nothing does.
    fn hand_on(&mut self, waits: &mut Vec<Wait>, t: Token) -> (r: Option<
        Result<Option<Token>, QcError>,
    >)
        requires
            sound_with(old(self)@, wait_views(old(waits)@)),
            old(self).stack@.len() > 0,
        ensures
            came_to(r, final(self)@, final(waits)@, feed(old(self)@, wait_views(old(waits)@), t@)),
    {
        let ghost before = wait_views(waits@);
        let ghost all = waits@;
        match waits.pop() {
            None => {
                assert(before =~= Seq::empty());
                Some(Ok(Some(t)))
            },
            Some(w) => {
                let ghost less = wait_views(waits@);
                assert(less =~= before.drop_last());
                assert(before.last() == w@);
                assert(wait_sound(before[before.len() - 1], self@.longest, self@.stack.len()));
                match w {
                    Wait::FileName => {
                        match self.push_file(&t) {
                            Some(e) => Some(Err(e)),
                            None => None,
                        }
                    },
                    Wait::MacroName => {
                        let params: Vec<String> = Vec::new();
                        assert(texts(params@) =~= Seq::empty());
                        self.take_params(waits, t.text, params);
                        None
                    },
                    Wait::MacroParams { name, params } => {
                        if same(t.text.as_str(), "\\\\") {
                            self.define_macro(name, params);
                        } else {
                            let ghost had = texts(params@);
                            let mut params: Vec<String> = params;
                            params.push(t.text);
                            assert(texts(params@) =~= had.push(t.text@));
                            self.take_params(waits, name, params);
                        }
                        None
                    },
                    Wait::VariableName => {
                        waits.push(Wait::VariableValue { name: t.text });
                        assert(wait_views(waits@) =~= less.push(
                            WaitView::VariableValue { name: t.text@ },
                        ));
                        None
                    },
                    Wait::VariableValue { name } => {
                        self.define_variable(name, t.text);
                        None
                    },
                    Wait::Values { text, params, body, line, values, level } => {
                        let ghost had = texts(values@);
                        let mut values: Vec<String> = values;
                        values.push(t.text);
                        assert(texts(values@) =~= had.push(t.text@));
                        if values.len() >= params.len() {
                            self.push_macro(text, params, body, line, values);
                        } else {
                            let again = Wait::Values { text, params, body, line, values, level };
                            waits.push(again);
                            assert(wait_views(waits@) =~= less.push(again@));
                        }
                        None
                    },
                }
            },
        }
    }

    /// Does what a token says to the lexer itself, or hands it on.
    fn obey_token(&mut self, waits: &mut Vec<Wait>, t: Token) -> (r: Option<
        Result<Option<Token>, QcError>,
    >)
        requires
            sound_with(old(self)@, wait_views(old(waits)@)),
            old(self).stack@.len() > 0,
        ensures
            came_to(r, final(self)@, final(waits)@, obey(old(self)@, wait_views(old(waits)@), t@)),
    {
        let ghost before = wait_views(waits@);
        if same_but_case(t.text.as_str(), "$include") {
            waits.push(Wait::FileName);
            assert(wait_views(waits@) =~= before.push(WaitView::FileName));
            return None;
        }
        if same_but_case(t.text.as_str(), "$definemacro") {
            waits.push(Wait::MacroName);
            assert(wait_views(waits@) =~= before.push(WaitView::MacroName));
            return None;
        }
        if same_but_case(t.text.as_str(), "$definevariable") {
            waits.push(Wait::VariableName);
            assert(wait_views(waits@) =~= before.push(WaitView::VariableName));
            return None;
        }
        match self.find_call(t.text.as_str()) {
            None => self.hand_on(waits, t),
            Some(i) => {
                assert(self@.macros[i as int] == self.macros@[i as int]@);
                if self.stack.len() >= MAX_NESTED - 1 {
                    return Some(Err(self.error("宏展开嵌套超过 16 层".to_owned())));
                }
                let params: Vec<String> = copy_texts(&self.macros[i].params);
                let n: usize = self.macros[i].body.len();
                let body: Vec<u8> = copy_bytes(&self.macros[i].body, 0, n);
                assert(body@ =~= self@.macros[i as int].body);
                let line: usize = self.macros[i].line;
                let values: Vec<String> = Vec::new();
                assert(texts(values@) =~= Seq::empty());
                if params.len() == 0 {
                    self.push_macro(t.text, params, body, line, values);
                } else {
                    let level: Ghost<nat> = Ghost(self@.stack.len());
                    let w = Wait::Values { text: t.text, params, body, line, values, level };
                    waits.push(w);
                    assert(wait_views(waits@) =~= before.push(w@));
                }
                None
            },
        }
    }

    /// One step of reading: one token of the innermost text, or its end.
    fn scan_token(&mut self, waits: &mut Vec<Wait>, crossline: bool) -> (r: Option<
        Result<Option<Token>, QcError>,
    >)
        requires
            sound_with(old(self)@, wait_views(old(waits)@)),
        ensures
            came_to(
                r,
                final(self)@,
                final(waits)@,
                step(old(self)@, wait_views(old(waits)@), crossline),
            ),
    {
        let n: usize = self.stack.len();
        if n == 0 {
            self.end_of_script = EndMark { set: true };
            return Some(Ok(None));
        }
        let ghost st = self@;
        let ghost ws = wait_views(waits@);
        assert(st.stack.last() == self.stack@[n - 1]@);
        assert(frame_sound(st.stack[n - 1], st.longest));
        let free: bool = crossline && waits.len() == 0;
        let f: &Frame = &self.stack[n - 1];
        proof {
            skip_bounds(f.buf@, f.pos as int, f.line as nat, free);
        }
        match skip_space(&f.buf, f.pos, f.line, free) {
            Found::LineOver(pos, line) => {
                self.move_to(pos, line);
                Some(Err(self.error("行不完整（行尾缺少参数）".to_owned())))
            },
            Found::Comment(pos, line) => {
                self.move_to(pos, line);
                Some(Err(self.error("行不完整（行尾是注释）".to_owned())))
            },
            Found::End(pos, line) => {
                self.move_to(pos, line);
                if !free {
                    return Some(Err(self.error("行不完整（文件意外结束）".to_owned())));
                }
                self.end_of_script_inner();
                if n <= 1 {
                    Some(Ok(None))
                } else {
                    None
                }
            },
            Found::At(pos, line) => {
                let quoted: bool = f.buf[pos] == 0x22;
                assert(pos < f.buf.len());
                let file: String = f.name.clone();
                proof {
                    letters_bounds(st, pos as int);
                }
                let (text, after) = if quoted {
                    read_quoted(&f.buf, pos + 1)
                } else {
                    self.read_bare(f, pos)
                };
                match text {
                    Err(m) => {
                        self.move_to(after, line);
                        Some(Err(self.error(m)))
                    },
                    Ok(bytes) => {
                        let text: String = text_from(&bytes);
                        let t = Token { text, quoted, file, line };
                        proof {
                            moved_counts(st, after as int, line as nat);
                        }
                        self.move_to(after, line);
                        self.obey_token(waits, t)
                    },
                }
            },
        }
    }

    /// The next token; `None` where the script is over. With `crossline`, the token may stand on
    /// a later line; without, it is an error if it does.
    pub fn next_token(&mut self, crossline: bool) -> (r: Result<Option<Token>, QcError>)
        requires
            old(self).wf(),
        ensures
            final(self).wf(),
            outcome(r) == next(old(self)@, crossline).0,
            final(self)@ == next(old(self)@, crossline).1,
            left(final(self)@) <= left(old(self)@),
            r matches Ok(Some(_)) ==> left(final(self)@) < left(old(self)@),
    {
        proof {
            next_leaves_less(self@, crossline);
        }
        let ghost start = self@;
        if let Some(t) = self.pending.take() {
            return Ok(Some(t));
        }
        let mut waits: Vec<Wait> = Vec::new();
        assert(wait_views(waits@) =~= Seq::empty());
        loop
            invariant
                sound_with(self@, wait_views(waits@)),
                start == old(self)@,
                start.pending is None,
                sound(start),
                run(self@, wait_views(waits@), crossline) == next(start, crossline),
                self@.pending is None,
            decreases work(self@, wait_views(waits@)), self@.stack.len(),
        {
            proof {
                step_leaves_less(self@, wait_views(waits@), crossline);
                run_leaves_less(self@, wait_views(waits@), crossline);
            }
            match self.scan_token(&mut waits, crossline) {
                Some(out) => {
                    proof {
                        next_leaves_less(start, crossline);
                    }
                    return out;
                },
                None => {},
            }
        }
    }

    /// The next token, of which there must be one.
    pub fn expect_token(&mut self, crossline: bool) -> (r: Result<Token, QcError>)
        requires
            old(self).wf(),
        ensures
            final(self).wf(),
            left(final(self)@) <= left(old(self)@),
            r is Ok ==> left(final(self)@) < left(old(self)@),
            final(self)@ == expect(old(self)@, crossline).1,
            match (r, expect(old(self)@, crossline).0) {
                (Ok(t), Ok(u)) => t@ == u,
                (Err(e), Err(f)) => e@ == f,
                _ => false,
            },
    {
        match self.next_token(crossline) {
            Ok(Some(t)) => Ok(t),
            Ok(None) => Err(self.error("脚本意外结束（缺少参数）".to_owned())),
            Err(e) => Err(e),
        }
    }
}

/// A path, seen from a directory.
pub fn join_path(dir: &str, path: &str) -> (r: String)
    ensures
        r@ == join(dir@, path@),
{
    let p: Vec<char> = chars_of(path);
    let d: Vec<char> = chars_of(dir);
    let mut out: String = String::new();
    if (p.len() > 0 && p[0] == '/') || d.len() == 0 {
        out.push_str(path);
        assert(out@ =~= path@);
        return out;
    }
    out.push_str(dir);
    assert(out@ =~= dir@);
    if d[d.len() - 1] != '/' {
        out.push('/');
    }
    out.push_str(path);
    out
}

/// What a call returned, as a mathematical value.
pub open spec fn outcome(r: Result<Option<Token>, QcError>) -> Result<
    Option<TokenView>,
    ErrorView,
> {
    match r {
        Ok(Some(t)) => Ok(Some(t@)),
        Ok(None) => Ok(None),
        Err(e) => Err(e@),
    }
}

/// The next token, of which there must be one.
pub open spec fn expect(st: LexState, cross: bool) -> (Result<TokenView, ErrorView>, LexState) {
    let n = next(st, cross);
    match n.0 {
        Ok(Some(t)) => (Ok(t), n.1),
        Ok(None) => (Err(error_at(n.1, "脚本意外结束（缺少参数）"@)), n.1),
        Err(e) => (Err(e), n.1),
    }
}

/// A step came to `s`: it returned `r` and left the lexer and what waits as they now are.
spec fn came_to(
    r: Option<Result<Option<Token>, QcError>>,
    st: LexState,
    waits: Seq<Wait>,
    s: Step,
) -> bool {
    match (r, s) {
        (Some(out), Step::Done { out: o, st: t }) => outcome(out) == o && st == t,
        (None, Step::Go { st: t, waits: w }) => st == t && wait_views(waits) == w,
        _ => false,
    }
}

} // verus!
