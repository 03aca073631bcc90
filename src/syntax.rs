//! The grammar of the interface language: a lexer and a recursive-descent
//! parser from source text to a concrete syntax tree.
//!
//! A file holds an optional `syntax = "...";` statement, at most one
//! `package` statement, `import` and `option` statements, and message and
//! enum declarations. A message holds fields, nested messages and enums,
//! `oneof` groups of fields, and `option` or `reserved` statements. Line
//! and block comments and whitespace may stand between any two tokens.

use crate::text::{substring, to_chars};
use vstd::string::StringExecFns;
use vstd::prelude::*;

verus! {

broadcast use vstd::string::group_string_axioms;

/// Why a source could not be turned into a model.
#[derive(Debug, Clone, PartialEq)]
pub enum ParseError {
    /// The source could not be read.
    Io(String),
    /// The source does not follow the grammar; the position is where the
    /// offending token starts (1-based line and column).
    Grammar { line: usize, column: usize, message: String },
    /// The grammar matched but yielded no usable root.
    Message(String),
}

impl ParseError {
    /// The text that `describe` returns.
    pub open spec fn describe_view(&self) -> Seq<char> {
        match self {
            ParseError::Io(e) => "IO error: "@ + e@,
            ParseError::Grammar { message, .. } => "Parse error: "@ + message@,
            ParseError::Message(m) => m@,
        }
    }

    /// A readable description of the error.
    pub fn describe(&self) -> (r: String)
        ensures
            r@ == self.describe_view(),
    {
        match self {
            ParseError::Io(e) => crate::text::concat("IO error: ", e.as_str()),
            ParseError::Grammar { message, .. } => crate::text::concat("Parse error: ", message.as_str()),
            ParseError::Message(m) => m.clone(),
        }
    }
}

/// A type as written in a field: `text` is the dotted name without the
/// leading `.` of an absolute reference, which `absolute` records.
#[derive(Debug, Clone, PartialEq)]
pub struct TypeNode {
    pub text: String,
    pub absolute: bool,
}

/// A field statement: its modifier (`repeated`, `optional`, `required`),
/// type, name and tag literal as written. The model does not keep the
/// modifier.
#[derive(Debug, Clone, PartialEq)]
pub struct FieldNode {
    pub modifier: Option<String>,
    pub ty: TypeNode,
    pub name: String,
    pub tag: String,
}

/// An enum member: its name and number literal as written.
#[derive(Debug, Clone, PartialEq)]
pub struct EnumValueNode {
    pub name: String,
    pub value: String,
}

/// An enum declaration with its simple name.
#[derive(Debug, Clone, PartialEq)]
pub struct EnumNode {
    pub name: String,
    pub values: Vec<EnumValueNode>,
}

/// One element of a message body.
#[derive(Debug)]
pub enum MessageItem {
    Field(FieldNode),
    Oneof(Vec<FieldNode>),
    Message(MessageNode),
    Enum(EnumNode),
}

/// A message declaration with its simple name and its body in source order.
#[derive(Debug)]
pub struct MessageNode {
    pub name: String,
    pub items: Vec<MessageItem>,
}

/// A top-level declaration.
#[derive(Debug)]
pub enum Definition {
    Message(MessageNode),
    Enum(EnumNode),
}

/// The syntax tree of a whole file.
#[derive(Debug)]
pub struct ProtoFile {
    pub package: Option<String>,
    pub definitions: Vec<Definition>,
}

/// The mathematical form of a field statement.
pub struct FieldNodeV {
    pub modifier: Option<Seq<char>>,
    pub text: Seq<char>,
    pub absolute: bool,
    pub name: Seq<char>,
    pub tag: Seq<char>,
}

/// The mathematical form of an enum declaration: its name, and each
/// member's name and number literal.
pub struct EnumNodeV {
    pub name: Seq<char>,
    pub values: Seq<(Seq<char>, Seq<char>)>,
}

/// The mathematical form of a message body element.
pub enum ItemV {
    Field(FieldNodeV),
    Oneof(Seq<FieldNodeV>),
    Message(MessageNodeV),
    Enum(EnumNodeV),
}

/// The mathematical form of a message declaration.
pub struct MessageNodeV {
    pub name: Seq<char>,
    pub items: Seq<ItemV>,
}

/// The mathematical form of a top-level declaration.
pub enum DefinitionV {
    Message(MessageNodeV),
    Enum(EnumNodeV),
}

/// The mathematical form of a whole syntax tree.
pub struct ProtoFileV {
    pub package: Option<Seq<char>>,
    pub definitions: Seq<DefinitionV>,
}

pub open spec fn opt_string_view(o: Option<String>) -> Option<Seq<char>> {
    match o {
        Some(s) => Some(s@),
        None => None,
    }
}

pub open spec fn field_node_view(f: FieldNode) -> FieldNodeV {
    FieldNodeV {
        modifier: opt_string_view(f.modifier),
        text: f.ty.text@,
        absolute: f.ty.absolute,
        name: f.name@,
        tag: f.tag@,
    }
}

pub open spec fn enum_values_view(vs: Seq<EnumValueNode>) -> Seq<(Seq<char>, Seq<char>)> {
    vs.map_values(|v: EnumValueNode| (v.name@, v.value@))
}

pub open spec fn enum_node_view(e: EnumNode) -> EnumNodeV {
    EnumNodeV { name: e.name@, values: enum_values_view(e.values@) }
}

pub open spec fn fields_view(fs: Seq<FieldNode>) -> Seq<FieldNodeV> {
    fs.map_values(|f: FieldNode| field_node_view(f))
}

/// The forms of the first `k` items of a message body.
pub open spec fn items_view(items: Seq<MessageItem>, k: nat) -> Seq<ItemV>
    decreases items, k,
{
    if k == 0 || k > items.len() {
        Seq::empty()
    } else {
        items_view(items, (k - 1) as nat).push(
            match items[k - 1] {
                MessageItem::Field(f) => ItemV::Field(field_node_view(f)),
                MessageItem::Oneof(fs) => ItemV::Oneof(fields_view(fs@)),
                MessageItem::Message(sub) => ItemV::Message(message_node_view(sub)),
                MessageItem::Enum(e) => ItemV::Enum(enum_node_view(e)),
            },
        )
    }
}

pub open spec fn message_node_view(m: MessageNode) -> MessageNodeV
    decreases m, 0nat,
{
    MessageNodeV { name: m.name@, items: items_view(m.items@, m.items@.len()) }
}

pub open spec fn definition_view(d: Definition) -> DefinitionV {
    match d {
        Definition::Message(m) => DefinitionV::Message(message_node_view(m)),
        Definition::Enum(e) => DefinitionV::Enum(enum_node_view(e)),
    }
}

pub open spec fn definitions_view(ds: Seq<Definition>) -> Seq<DefinitionV> {
    ds.map_values(|d: Definition| definition_view(d))
}

pub open spec fn file_view(f: ProtoFile) -> ProtoFileV {
    ProtoFileV { package: opt_string_view(f.package), definitions: definitions_view(f.definitions@) }
}

/// The form of item `j` among the first `k` items of a message body.
pub proof fn lemma_items_view_index(items: Seq<MessageItem>, k: nat, j: int)
    requires
        0 <= j < k <= items.len(),
    ensures
        items_view(items, k).len() == k,
        items_view(items, k)[j] == match items[j] {
            MessageItem::Field(f) => ItemV::Field(field_node_view(f)),
            MessageItem::Oneof(fs) => ItemV::Oneof(fields_view(fs@)),
            MessageItem::Message(sub) => ItemV::Message(message_node_view(sub)),
            MessageItem::Enum(e) => ItemV::Enum(enum_node_view(e)),
        },
    decreases k,
{
    lemma_items_view_len(items, k);
    if j < k - 1 {
        lemma_items_view_index(items, (k - 1) as nat, j);
    }
}

pub proof fn lemma_items_view_len(items: Seq<MessageItem>, k: nat)
    requires
        k <= items.len(),
    ensures
        items_view(items, k).len() == k,
    decreases k,
{
    if k > 0 {
        lemma_items_view_len(items, (k - 1) as nat);
    }
}

proof fn lemma_items_view_push(items: Seq<MessageItem>, x: MessageItem, k: nat)
    requires
        k <= items.len(),
    ensures
        items_view(items.push(x), k) == items_view(items, k),
    decreases k,
{
    if k > 0 {
        lemma_items_view_push(items, x, (k - 1) as nat);
        assert(items.push(x)[k - 1] == items[k - 1]);
    }
}

/// A field statement as the grammar admits it.
pub open spec fn field_wf(f: FieldNode) -> bool {
    &&& is_ident(f.name@)
    &&& is_dotted(f.ty.text@)
    &&& is_int_literal(f.tag@)
    &&& (f.modifier matches Some(m) ==> m@ == "repeated"@ || m@ == "optional"@ || m@
        == "required"@)
}

/// An enum declaration as the grammar admits it.
pub open spec fn enum_wf(e: EnumNode) -> bool {
    &&& is_ident(e.name@)
    &&& forall|j: int|
        0 <= j < e.values@.len() ==> is_ident((#[trigger] e.values@[j]).name@) && is_int_literal(
            e.values@[j].value@,
        )
}

/// The first `k` items of a message body are as the grammar admits them.
pub open spec fn items_wf(items: Seq<MessageItem>, k: nat) -> bool
    decreases items, k,
{
    if k == 0 || k > items.len() {
        true
    } else {
        items_wf(items, (k - 1) as nat) && match items[k - 1] {
            MessageItem::Field(f) => field_wf(f),
            MessageItem::Oneof(fs) => forall|j: int| 0 <= j < fs@.len() ==> field_wf(#[trigger] fs@[j]),
            MessageItem::Message(sub) => message_wf(sub),
            MessageItem::Enum(e) => enum_wf(e),
        }
    }
}

/// A message declaration, and all it nests, as the grammar admits it.
pub open spec fn message_wf(m: MessageNode) -> bool
    decreases m, 0nat,
{
    is_ident(m.name@) && items_wf(m.items@, m.items@.len())
}

pub open spec fn definition_wf(d: Definition) -> bool {
    match d {
        Definition::Message(m) => message_wf(m),
        Definition::Enum(e) => enum_wf(e),
    }
}

/// A whole file as the grammar admits it: a dotted package name, and
/// declarations whose names are identifiers, whose field types are dotted
/// names and whose tags and numbers are integer literal tokens.
pub open spec fn file_wf(f: ProtoFile) -> bool {
    &&& (f.package matches Some(p) ==> is_dotted(p@))
    &&& forall|i: int| 0 <= i < f.definitions@.len() ==> definition_wf(#[trigger] f.definitions@[i])
}

proof fn lemma_items_wf_push(items: Seq<MessageItem>, x: MessageItem, k: nat)
    requires
        k <= items.len(),
    ensures
        items_wf(items.push(x), k) == items_wf(items, k),
    decreases k,
{
    if k > 0 {
        lemma_items_wf_push(items, x, (k - 1) as nat);
        assert(items.push(x)[k - 1] == items[k - 1]);
    }
}

#[derive(Debug, Clone, Copy, PartialEq, Eq)]
pub enum TokenKind {
    /// An identifier, possibly dotted (`a.b.C`).
    Name,
    /// An integer literal, possibly negative.
    Int,
    /// A quoted string.
    Str,
    /// A single punctuation character.
    Punct,
}

#[derive(Debug, Clone, Copy, PartialEq, Eq)]
pub struct Token {
    pub kind: TokenKind,
    pub start: usize,
    pub end: usize,
}

pub open spec fn is_ident_start(c: char) -> bool {
    ('a' <= c <= 'z') || ('A' <= c <= 'Z') || c == '_'
}

pub open spec fn is_ident_char(c: char) -> bool {
    is_ident_start(c) || ('0' <= c <= '9')
}

pub open spec fn is_punct_char(c: char) -> bool {
    c == '=' || c == ';' || c == '{' || c == '}' || c == '[' || c == ']' || c == '<' || c == '>'
        || c == '(' || c == ')' || c == ',' || c == '.' || c == '-' || c == '+' || c == ':'
}

/// An identifier: a letter or `_`, then letters, digits and `_`.
pub open spec fn is_ident(s: Seq<char>) -> bool {
    &&& s.len() > 0
    &&& is_ident_start(s[0])
    &&& forall|k: int| 0 <= k < s.len() ==> is_ident_char(#[trigger] s[k])
}

/// Identifiers joined by single dots: `a`, `a.b.C`.
pub open spec fn is_dotted(s: Seq<char>) -> bool {
    &&& s.len() > 0
    &&& is_ident_start(s[0])
    &&& forall|k: int|
        0 <= k < s.len() ==> is_ident_char(#[trigger] s[k]) || (s[k] == '.' && k + 1 < s.len()
            && is_ident_start(s[k + 1]))
}

/// An integer literal token: an optional `-`, a digit, then letters, digits
/// and `_` (which the literal decoder reads, or decodes to zero).
pub open spec fn is_int_literal(s: Seq<char>) -> bool {
    &&& s.len() > 0
    &&& if s[0] == '-' {
        s.len() > 1 && '0' <= s[1] <= '9'
    } else {
        '0' <= s[0] <= '9'
    }
    &&& forall|k: int| 1 <= k < s.len() ==> is_ident_char(#[trigger] s[k])
}

pub open spec fn token_text(cs: Seq<char>, t: Token) -> Seq<char> {
    cs.subrange(t.start as int, t.end as int)
}

/// A token lies within the source, is not empty, and its text has the
/// shape of its kind.
pub open spec fn token_shaped(cs: Seq<char>, t: Token) -> bool {
    &&& t.start < t.end <= cs.len()
    &&& match t.kind {
        TokenKind::Name => is_dotted(token_text(cs, t)),
        TokenKind::Int => is_int_literal(token_text(cs, t)),
        TokenKind::Punct => t.end == t.start + 1,
        TokenKind::Str => true,
    }
}

pub open spec fn tokens_shaped(cs: Seq<char>, toks: Seq<Token>) -> bool {
    forall|i: int| 0 <= i < toks.len() ==> token_shaped(cs, #[trigger] toks[i])
}

/// Where a line comment that runs from `j` ends: at the next newline, or at
/// the end of the source.
pub open spec fn line_end(cs: Seq<char>, j: int) -> int
    decreases cs.len() - j,
{
    if j < 0 || j >= cs.len() || cs[j] == '\n' {
        j
    } else {
        line_end(cs, j + 1)
    }
}

/// Just past the `*/` that closes a block comment whose body starts at `j`.
pub open spec fn block_end(cs: Seq<char>, j: int) -> Option<int>
    decreases cs.len() - j,
{
    if j < 0 || j >= cs.len() {
        None
    } else if cs[j] == '*' && j + 1 < cs.len() && cs[j + 1] == '/' {
        Some(j + 2)
    } else {
        block_end(cs, j + 1)
    }
}

/// The end of a (possibly dotted) name whose rest starts at `j`.
pub open spec fn name_end(cs: Seq<char>, j: int) -> int
    decreases cs.len() - j,
{
    if 0 <= j < cs.len() && (is_ident_char(cs[j]) || (cs[j] == '.' && j + 1 < cs.len()
        && is_ident_start(cs[j + 1]))) {
        name_end(cs, if cs[j] == '.' { j + 2 } else { j + 1 })
    } else {
        j
    }
}

/// The end of the letters, digits and `_` that start at `j`.
pub open spec fn word_end(cs: Seq<char>, j: int) -> int
    decreases cs.len() - j,
{
    if 0 <= j < cs.len() && is_ident_char(cs[j]) {
        word_end(cs, j + 1)
    } else {
        j
    }
}

/// Just past the quote `q` that closes a string whose body starts at `j`;
/// a backslash escapes the next character, and a newline ends the string
/// unclosed.
pub open spec fn quote_end(cs: Seq<char>, j: int, q: char) -> Option<int>
    decreases cs.len() - j,
{
    if j < 0 || j >= cs.len() {
        None
    } else if cs[j] == '\\' && j + 1 < cs.len() {
        quote_end(cs, j + 2, q)
    } else if cs[j] == '\n' {
        None
    } else if cs[j] == q {
        Some(j + 1)
    } else {
        quote_end(cs, j + 1, q)
    }
}

pub open spec fn is_space(c: char) -> bool {
    c == ' ' || c == '\t' || c == '\n' || c == '\r'
}

/// The tokens of `cs` from position `i` on, after those in `acc`; or the
/// position of a character that starts no token, or that opens a comment or
/// string left unclosed.
pub open spec fn lex_from(cs: Seq<char>, i: int, acc: Seq<Token>) -> Result<Seq<Token>, int>
    decreases cs.len() - i,
{
    if i < 0 || i >= cs.len() {
        Ok(acc)
    } else {
        let c = cs[i];
        if is_space(c) {
            lex_from(cs, i + 1, acc)
        } else if c == '/' && i + 1 < cs.len() && cs[i + 1] == '/' {
            let j = line_end(cs, i + 2);
            if i < j <= cs.len() { lex_from(cs, j, acc) } else { Ok(acc) }
        } else if c == '/' && i + 1 < cs.len() && cs[i + 1] == '*' {
            match block_end(cs, i + 2) {
                Some(j) => if i < j <= cs.len() { lex_from(cs, j, acc) } else { Ok(acc) },
                None => Err(i),
            }
        } else if is_ident_start(c) {
            let j = name_end(cs, i + 1);
            if i < j <= cs.len() {
                lex_from(cs, j, acc.push(Token { kind: TokenKind::Name, start: i as usize, end: j as usize }))
            } else {
                Ok(acc)
            }
        } else if ('0' <= c <= '9') || (c == '-' && i + 1 < cs.len() && '0' <= cs[i + 1] <= '9') {
            let j = word_end(cs, if c == '-' { i + 2 } else { i + 1 });
            if i < j <= cs.len() {
                lex_from(cs, j, acc.push(Token { kind: TokenKind::Int, start: i as usize, end: j as usize }))
            } else {
                Ok(acc)
            }
        } else if c == '"' || c == '\'' {
            match quote_end(cs, i + 1, c) {
                Some(j) => if i < j <= cs.len() {
                    lex_from(cs, j, acc.push(Token { kind: TokenKind::Str, start: i as usize, end: j as usize }))
                } else {
                    Ok(acc)
                },
                None => Err(i),
            }
        } else if is_punct_char(c) {
            lex_from(cs, i + 1, acc.push(Token { kind: TokenKind::Punct, start: i as usize, end: (i + 1) as usize }))
        } else {
            Err(i)
        }
    }
}

/// The tokens of a whole source, or the position where lexing fails.
pub open spec fn lex_spec(cs: Seq<char>) -> Result<Seq<Token>, int> {
    lex_from(cs, 0, Seq::empty())
}

fn ident_start(c: char) -> (r: bool)
    ensures
        r == is_ident_start(c),
{
    ('a' <= c && c <= 'z') || ('A' <= c && c <= 'Z') || c == '_'
}

fn ident_char(c: char) -> (r: bool)
    ensures
        r == is_ident_char(c),
{
    ident_start(c) || ('0' <= c && c <= '9')
}

fn punct_char(c: char) -> (r: bool)
    ensures
        r == is_punct_char(c),
{
    c == '=' || c == ';' || c == '{' || c == '}' || c == '[' || c == ']' || c == '<' || c == '>'
        || c == '(' || c == ')' || c == ',' || c == '.' || c == '-' || c == '+' || c == ':'
}

/// Splits the characters of a source into tokens, skipping whitespace and
/// comments. An error gives the position of the character that no token
/// can start with, or of an unterminated comment or string.
pub fn lex(cs: &Vec<char>) -> (r: Result<Vec<Token>, usize>)
    ensures
        r matches Ok(toks) ==> tokens_shaped(cs@, toks@) && toks@.len() <= cs@.len(),
        r matches Err(p) ==> p < cs@.len(),
        match r {
            Ok(toks) => lex_spec(cs@) == Ok::<Seq<Token>, int>(toks@),
            Err(p) => lex_spec(cs@) == Err::<Seq<Token>, int>(p as int),
        },
{
    let n = cs.len();
    let mut toks: Vec<Token> = Vec::new();
    let mut i: usize = 0;
    while i < n
        invariant
            n == cs@.len(),
            i <= n,
            tokens_shaped(cs@, toks@),
            toks@.len() <= i,
            lex_spec(cs@) == lex_from(cs@, i as int, toks@),
        decreases n - i,
    {
        let c = cs[i];
        let ghost i0 = i as int;
        let ghost t0 = toks@;
        if c == ' ' || c == '\t' || c == '\n' || c == '\r' {
            i = i + 1;
        } else if c == '/' && i + 1 < n && cs[i + 1] == '/' {
            let mut j: usize = i + 2;
            while j < n && cs[j] != '\n'
                invariant
                    i + 2 <= j <= n,
                    n == cs@.len(),
                    i < n,
                    tokens_shaped(cs@, toks@),
                    toks@.len() <= i,
                    line_end(cs@, i + 2) == line_end(cs@, j as int),
                decreases n - j,
            {
                j = j + 1;
            }
            assert(lex_from(cs@, i0, t0) == lex_from(cs@, j as int, t0));
            i = j;
        } else if c == '/' && i + 1 < n && cs[i + 1] == '*' {
            let mut j: usize = i + 2;
            let mut closed = false;
            while j < n && !closed
                invariant
                    i + 2 <= j <= n,
                    n == cs@.len(),
                    i < n,
                    tokens_shaped(cs@, toks@),
                    toks@.len() <= i,
                    !closed ==> block_end(cs@, i + 2) == block_end(cs@, j as int),
                    closed ==> block_end(cs@, i + 2) == Some(j as int),
                decreases n - j, if closed { 0int } else { 1int },
            {
                if cs[j] == '*' && j + 1 < n && cs[j + 1] == '/' {
                    closed = true;
                    j = j + 2;
                } else {
                    j = j + 1;
                }
            }
            if !closed {
                return Err(i);
            }
            assert(lex_from(cs@, i0, t0) == lex_from(cs@, j as int, t0));
            i = j;
        } else if ident_start(c) {
            let mut j: usize = i + 1;
            assert(cs@.subrange(i as int, j as int) =~= seq![c]);
            while j < n && (ident_char(cs[j]) || (cs[j] == '.' && j + 1 < n && ident_start(cs[j + 1])))
                invariant
                    i + 1 <= j <= n,
                    is_dotted(cs@.subrange(i as int, j as int)),
                    name_end(cs@, i + 1) == name_end(cs@, j as int),
                    n == cs@.len(),
                    i < n,
                    tokens_shaped(cs@, toks@),
                    toks@.len() <= i,
                decreases n - j,
            {
                let ghost prev = cs@.subrange(i as int, j as int);
                if cs[j] == '.' {
                    j = j + 2;
                } else {
                    j = j + 1;
                }
                let ghost next = cs@.subrange(i as int, j as int);
                assert forall|k: int| 0 <= k < next.len() implies is_ident_char(#[trigger] next[k]) || (
                next[k] == '.' && k + 1 < next.len() && is_ident_start(next[k + 1])) by {
                    if k < prev.len() {
                        assert(next[k] == prev[k]);
                        if k + 1 < prev.len() {
                            assert(next[k + 1] == prev[k + 1]);
                        }
                    }
                }
            }
            let t = Token { kind: TokenKind::Name, start: i, end: j };
            toks.push(t);
            assert(lex_from(cs@, i0, t0) == lex_from(cs@, j as int, toks@));
            i = j;
        } else if ('0' <= c && c <= '9') || (c == '-' && i + 1 < n && '0' <= cs[i + 1] && cs[i + 1] <= '9') {
            let mut j: usize = if c == '-' { i + 2 } else { i + 1 };
            assert(c != '-' || is_ident_char(cs@[i + 1]));
            while j < n && ident_char(cs[j])
                invariant
                    i + 1 <= j <= n,
                    c == cs@[i as int],
                    c == '-' ==> j >= i + 2 && '0' <= cs@[i + 1] <= '9',
                    c != '-' ==> '0' <= c <= '9',
                    forall|k: int| i + 1 <= k < j ==> is_ident_char(#[trigger] cs@[k]),
                    word_end(cs@, if c == '-' { i + 2 } else { i + 1 }) == word_end(cs@, j as int),
                    n == cs@.len(),
                    i < n,
                    tokens_shaped(cs@, toks@),
                    toks@.len() <= i,
                decreases n - j,
            {
                j = j + 1;
            }
            let t = Token { kind: TokenKind::Int, start: i, end: j };
            assert(is_int_literal(token_text(cs@, t))) by {
                let tt = token_text(cs@, t);
                assert forall|k: int| 1 <= k < tt.len() implies is_ident_char(#[trigger] tt[k]) by {
                    assert(tt[k] == cs@[i + k]);
                }
            }
            toks.push(t);
            assert(lex_from(cs@, i0, t0) == lex_from(cs@, j as int, toks@));
            i = j;
        } else if c == '"' || c == '\'' {
            let mut j: usize = i + 1;
            let mut closed = false;
            while j < n && !closed
                invariant
                    i + 1 <= j <= n,
                    n == cs@.len(),
                    i < n,
                    tokens_shaped(cs@, toks@),
                    toks@.len() <= i,
                    c == cs@[i as int],
                    c == '"' || c == '\'',
                    i0 == i,
                    t0 == toks@,
                    lex_spec(cs@) == lex_from(cs@, i0, t0),
                    !closed ==> quote_end(cs@, i + 1, c) == quote_end(cs@, j as int, c),
                    closed ==> quote_end(cs@, i + 1, c) == Some(j as int),
                decreases n - j, if closed { 0int } else { 1int },
            {
                if cs[j] == '\\' && j + 1 < n {
                    j = j + 2;
                } else if cs[j] == '\n' {
                    assert(quote_end(cs@, j as int, c) is None);
                    assert(quote_end(cs@, i0 + 1, c) is None);
                    assert(cs@[i0] == c && (c == '"' || c == '\''));
                    assert(!is_ident_start(c) && !is_space(c) && !is_punct_char(c) && c != '/');
                    assert(lex_from(cs@, i0, t0) == Err::<Seq<Token>, int>(i as int));
                    return Err(i);
                } else if cs[j] == c {
                    closed = true;
                    j = j + 1;
                } else {
                    j = j + 1;
                }
            }
            if !closed {
                return Err(i);
            }
            let t = Token { kind: TokenKind::Str, start: i, end: j };
            toks.push(t);
            assert(lex_from(cs@, i0, t0) == lex_from(cs@, j as int, toks@));
            i = j;
        } else if punct_char(c) {
            let t = Token { kind: TokenKind::Punct, start: i, end: i + 1 };
            toks.push(t);
            i = i + 1;
        } else {
            return Err(i);
        }
    }
    Ok(toks)
}

/// What every parsing step assumes: `cs` holds the characters of `src`, and
/// the tokens lie within them.
pub open spec fn ready(src: &str, cs: &Vec<char>, toks: &Vec<Token>) -> bool {
    &&& cs@ == src@
    &&& tokens_shaped(cs@, toks@)
    &&& toks@.len() <= cs@.len()
    &&& cs@.len() + 3 <= usize::MAX
}

/// A parsing step that succeeds consumes at least one token; one that
/// fails reports a grammar error.
pub open spec fn step_ok<T>(r: Result<(T, usize), ParseError>, pos: usize, n: nat) -> bool {
    &&& r matches Ok(v) ==> pos < v.1 <= n
    &&& r matches Err(e) ==> e is Grammar
}

/// Whether token `p` is the punctuation `c`.
pub open spec fn punct_at(cs: Seq<char>, toks: Seq<Token>, p: int, c: char) -> bool {
    0 <= p < toks.len() && toks[p].kind == TokenKind::Punct && cs[toks[p].start as int] == c
}

/// Whether token `p` is of kind `k`.
pub open spec fn kind_at(toks: Seq<Token>, p: int, k: TokenKind) -> bool {
    0 <= p < toks.len() && toks[p].kind == k
}

/// Whether token `p` is a name without any `.`.
pub open spec fn simple_name_at(cs: Seq<char>, toks: Seq<Token>, p: int) -> bool {
    kind_at(toks, p, TokenKind::Name) && !token_text(cs, toks[p]).contains('.')
}

/// Whether token `p` is the word `w`.
pub open spec fn word_at(cs: Seq<char>, toks: Seq<Token>, p: int, w: Seq<char>) -> bool {
    kind_at(toks, p, TokenKind::Name) && token_text(cs, toks[p]) == w
}

/// The end of a statement whose content is skipped, from token `p` on:
/// just past its `;`, or the position of a brace or of the end of input.
pub open spec fn statement_end(cs: Seq<char>, toks: Seq<Token>, p: int) -> Result<int, int>
    decreases toks.len() - p,
{
    if p < 0 || p >= toks.len() {
        Err(p)
    } else if punct_at(cs, toks, p, ';') {
        Ok(p + 1)
    } else if punct_at(cs, toks, p, '{') || punct_at(cs, toks, p, '}') {
        Err(p)
    } else {
        statement_end(cs, toks, p + 1)
    }
}

/// The end of a bracketed option list, from token `p` on: just past its
/// `]`, or the position of a bracket, brace, `;` or of the end of input.
pub open spec fn options_end(cs: Seq<char>, toks: Seq<Token>, p: int) -> Result<int, int>
    decreases toks.len() - p,
{
    if p < 0 || p >= toks.len() {
        Err(p)
    } else if punct_at(cs, toks, p, ']') {
        Ok(p + 1)
    } else if punct_at(cs, toks, p, '[') || punct_at(cs, toks, p, '{') || punct_at(cs, toks, p, '}')
        || punct_at(cs, toks, p, ';') {
        Err(p)
    } else {
        options_end(cs, toks, p + 1)
    }
}

pub open spec fn text_of(cs: Seq<char>, toks: Seq<Token>, p: int) -> Seq<char> {
    token_text(cs, toks[p])
}

/// Whether a field statement at `p` starts with a modifier: one of the
/// modifier words followed by a type.
pub open spec fn has_modifier(cs: Seq<char>, toks: Seq<Token>, p: int) -> bool {
    &&& (word_at(cs, toks, p, "repeated"@) || word_at(cs, toks, p, "optional"@) || word_at(
        cs,
        toks,
        p,
        "required"@,
    ))
    &&& (punct_at(cs, toks, p + 1, '.') || (kind_at(toks, p + 1, TokenKind::Name) && !punct_at(
        cs,
        toks,
        p + 2,
        '=',
    )))
}

/// `[modifier] ['.'] type name '=' tag ['[' options ']'] ';'` from token
/// `pos`: the field and the position after it, or where it goes wrong.
pub open spec fn field_spec(cs: Seq<char>, toks: Seq<Token>, pos: int) -> Result<(FieldNodeV, int), int> {
    let m = has_modifier(cs, toks, pos);
    let p1 = if m { pos + 1 } else { pos };
    let abs = punct_at(cs, toks, p1, '.');
    let p2 = if abs { p1 + 1 } else { p1 };
    if !kind_at(toks, p2, TokenKind::Name) {
        Err(p2)
    } else if !simple_name_at(cs, toks, p2 + 1) {
        Err(p2 + 1)
    } else if !punct_at(cs, toks, p2 + 2, '=') {
        Err(p2 + 2)
    } else if !kind_at(toks, p2 + 3, TokenKind::Int) {
        Err(p2 + 3)
    } else {
        let after = if punct_at(cs, toks, p2 + 4, '[') {
            options_end(cs, toks, p2 + 5)
        } else {
            Ok(p2 + 4)
        };
        match after {
            Err(e) => Err(e),
            Ok(p5) => if !punct_at(cs, toks, p5, ';') {
                Err(p5)
            } else {
                Ok(
                    (
                        FieldNodeV {
                            modifier: if m { Some(text_of(cs, toks, pos)) } else { None },
                            text: text_of(cs, toks, p2),
                            absolute: abs,
                            name: text_of(cs, toks, p2 + 1),
                            tag: text_of(cs, toks, p2 + 3),
                        },
                        p5 + 1,
                    ),
                )
            },
        }
    }
}

/// The members of an enum body from token `p` on, after those in `acc`, up
/// to and past its `}`.
pub open spec fn enum_body(cs: Seq<char>, toks: Seq<Token>, p: int, acc: Seq<(Seq<char>, Seq<char>)>) -> Result<(Seq<(Seq<char>, Seq<char>)>, int), int>
    decreases toks.len() - p,
{
    if punct_at(cs, toks, p, '}') {
        Ok((acc, p + 1))
    } else if p < 0 || p >= toks.len() {
        Err(p)
    } else if punct_at(cs, toks, p, ';') {
        enum_body(cs, toks, p + 1, acc)
    } else if word_at(cs, toks, p, "option"@) || word_at(cs, toks, p, "reserved"@) {
        match statement_end(cs, toks, p + 1) {
            Ok(q) => if p < q <= toks.len() { enum_body(cs, toks, q, acc) } else { Err(q) },
            Err(e) => Err(e),
        }
    } else if !simple_name_at(cs, toks, p) {
        Err(p)
    } else if !punct_at(cs, toks, p + 1, '=') {
        Err(p + 1)
    } else if !kind_at(toks, p + 2, TokenKind::Int) {
        Err(p + 2)
    } else {
        let after = if punct_at(cs, toks, p + 3, '[') {
            options_end(cs, toks, p + 4)
        } else {
            Ok(p + 3)
        };
        match after {
            Err(e) => Err(e),
            Ok(p5) => if !punct_at(cs, toks, p5, ';') {
                Err(p5)
            } else if p5 <= p {
                Err(p5)
            } else {
                enum_body(cs, toks, p5 + 1, acc.push((text_of(cs, toks, p), text_of(cs, toks, p + 2))))
            },
        }
    }
}

/// `enum Name { ... }` from token `pos`.
pub open spec fn enum_spec(cs: Seq<char>, toks: Seq<Token>, pos: int) -> Result<(EnumNodeV, int), int> {
    if !simple_name_at(cs, toks, pos + 1) {
        Err(pos + 1)
    } else if !punct_at(cs, toks, pos + 2, '{') {
        Err(pos + 2)
    } else {
        match enum_body(cs, toks, pos + 3, Seq::empty()) {
            Ok((vals, q)) => Ok((EnumNodeV { name: text_of(cs, toks, pos + 1), values: vals }, q)),
            Err(e) => Err(e),
        }
    }
}

/// The fields of a `oneof` body from token `p` on, after those in `acc`,
/// up to and past its `}`.
pub open spec fn oneof_body(cs: Seq<char>, toks: Seq<Token>, p: int, acc: Seq<FieldNodeV>) -> Result<(Seq<FieldNodeV>, int), int>
    decreases toks.len() - p,
{
    if punct_at(cs, toks, p, '}') {
        Ok((acc, p + 1))
    } else if p < 0 || p >= toks.len() {
        Err(p)
    } else if punct_at(cs, toks, p, ';') {
        oneof_body(cs, toks, p + 1, acc)
    } else if word_at(cs, toks, p, "option"@) {
        match statement_end(cs, toks, p + 1) {
            Ok(q) => if p < q <= toks.len() { oneof_body(cs, toks, q, acc) } else { Err(q) },
            Err(e) => Err(e),
        }
    } else {
        match field_spec(cs, toks, p) {
            Ok((f, q)) => if p < q <= toks.len() { oneof_body(cs, toks, q, acc.push(f)) } else { Err(q) },
            Err(e) => Err(e),
        }
    }
}

/// `oneof name { ... }` from token `pos`: the fields of the group.
pub open spec fn oneof_spec(cs: Seq<char>, toks: Seq<Token>, pos: int) -> Result<(Seq<FieldNodeV>, int), int> {
    if !simple_name_at(cs, toks, pos + 1) {
        Err(pos + 1)
    } else if !punct_at(cs, toks, pos + 2, '{') {
        Err(pos + 2)
    } else {
        oneof_body(cs, toks, pos + 3, Seq::empty())
    }
}

/// Whether the tokens from `p` open a block `keyword name {`.
pub open spec fn opens_block_at(cs: Seq<char>, toks: Seq<Token>, p: int, keyword: Seq<char>) -> bool {
    word_at(cs, toks, p, keyword) && simple_name_at(cs, toks, p + 1) && punct_at(cs, toks, p + 2, '{')
}

/// The items of a message body from token `p` on, after those in `acc`, up
/// to and past its `}`.
pub open spec fn message_body(cs: Seq<char>, toks: Seq<Token>, p: int, acc: Seq<ItemV>) -> Result<(Seq<ItemV>, int), int>
    decreases toks.len() - p, 1nat,
{
    if punct_at(cs, toks, p, '}') {
        Ok((acc, p + 1))
    } else if p < 0 || p >= toks.len() {
        Err(p)
    } else if punct_at(cs, toks, p, ';') {
        message_body(cs, toks, p + 1, acc)
    } else if opens_block_at(cs, toks, p, "message"@) {
        match message_spec(cs, toks, p) {
            Ok((m, q)) => if p < q <= toks.len() {
                message_body(cs, toks, q, acc.push(ItemV::Message(m)))
            } else {
                Err(q)
            },
            Err(e) => Err(e),
        }
    } else if opens_block_at(cs, toks, p, "enum"@) {
        match enum_spec(cs, toks, p) {
            Ok((e, q)) => if p < q <= toks.len() {
                message_body(cs, toks, q, acc.push(ItemV::Enum(e)))
            } else {
                Err(q)
            },
            Err(e) => Err(e),
        }
    } else if opens_block_at(cs, toks, p, "oneof"@) {
        match oneof_spec(cs, toks, p) {
            Ok((fs, q)) => if p < q <= toks.len() {
                message_body(cs, toks, q, acc.push(ItemV::Oneof(fs)))
            } else {
                Err(q)
            },
            Err(e) => Err(e),
        }
    } else if word_at(cs, toks, p, "option"@) || word_at(cs, toks, p, "reserved"@) || word_at(
        cs,
        toks,
        p,
        "extensions"@,
    ) {
        match statement_end(cs, toks, p + 1) {
            Ok(q) => if p < q <= toks.len() { message_body(cs, toks, q, acc) } else { Err(q) },
            Err(e) => Err(e),
        }
    } else {
        match field_spec(cs, toks, p) {
            Ok((f, q)) => if p < q <= toks.len() {
                message_body(cs, toks, q, acc.push(ItemV::Field(f)))
            } else {
                Err(q)
            },
            Err(e) => Err(e),
        }
    }
}

/// `message Name { ... }` from token `pos`.
pub open spec fn message_spec(cs: Seq<char>, toks: Seq<Token>, pos: int) -> Result<(MessageNodeV, int), int>
    decreases toks.len() - pos, 0nat,
{
    if !simple_name_at(cs, toks, pos + 1) {
        Err(pos + 1)
    } else if !punct_at(cs, toks, pos + 2, '{') {
        Err(pos + 2)
    } else {
        match message_body(cs, toks, pos + 3, Seq::empty()) {
            Ok((items, q)) => Ok((MessageNodeV { name: text_of(cs, toks, pos + 1), items }, q)),
            Err(e) => Err(e),
        }
    }
}

/// The top level of a file from token `p` on, with the package and
/// declarations met so far.
pub open spec fn file_body(cs: Seq<char>, toks: Seq<Token>, p: int, package: Option<Seq<char>>, acc: Seq<DefinitionV>) -> Result<ProtoFileV, int>
    decreases toks.len() - p,
{
    if p < 0 || p >= toks.len() {
        Ok(ProtoFileV { package, definitions: acc })
    } else if punct_at(cs, toks, p, ';') {
        file_body(cs, toks, p + 1, package, acc)
    } else if word_at(cs, toks, p, "package"@) {
        if package is Some {
            Err(p)
        } else if !kind_at(toks, p + 1, TokenKind::Name) {
            Err(p + 1)
        } else if !punct_at(cs, toks, p + 2, ';') {
            Err(p + 2)
        } else {
            file_body(cs, toks, p + 3, Some(text_of(cs, toks, p + 1)), acc)
        }
    } else if word_at(cs, toks, p, "syntax"@) || word_at(cs, toks, p, "edition"@) || word_at(
        cs,
        toks,
        p,
        "import"@,
    ) || word_at(cs, toks, p, "option"@) {
        match statement_end(cs, toks, p + 1) {
            Ok(q) => if p < q <= toks.len() { file_body(cs, toks, q, package, acc) } else { Err(q) },
            Err(e) => Err(e),
        }
    } else if word_at(cs, toks, p, "message"@) {
        match message_spec(cs, toks, p) {
            Ok((m, q)) => if p < q <= toks.len() {
                file_body(cs, toks, q, package, acc.push(DefinitionV::Message(m)))
            } else {
                Err(q)
            },
            Err(e) => Err(e),
        }
    } else if word_at(cs, toks, p, "enum"@) {
        match enum_spec(cs, toks, p) {
            Ok((e, q)) => if p < q <= toks.len() {
                file_body(cs, toks, q, package, acc.push(DefinitionV::Enum(e)))
            } else {
                Err(q)
            },
            Err(e) => Err(e),
        }
    } else {
        Err(p)
    }
}

/// The syntax tree of a source, or the position (a character for a lexing
/// failure, a token otherwise) where it does not follow the grammar.
pub open spec fn parse_spec(cs: Seq<char>) -> Result<ProtoFileV, int> {
    match lex_spec(cs) {
        Ok(toks) => file_body(cs, toks, 0, None, Seq::empty()),
        Err(p) => Err(p),
    }
}

/// The 1-based line and column of position `p`.
fn line_column(cs: &Vec<char>, p: usize) -> (r: (usize, usize))
    requires
        p <= cs@.len(),
        cs@.len() + 3 <= usize::MAX,
    ensures
        r.0 >= 1 && r.1 >= 1,
{
    let mut line: usize = 1;
    let mut col: usize = 1;
    let mut k: usize = 0;
    while k < p
        invariant
            k <= p <= cs@.len(),
            cs@.len() + 3 <= usize::MAX,
            line >= 1 && col >= 1,
            line + col <= k + 2,
        decreases p - k,
    {
        if cs[k] == '\n' {
            line = line + 1;
            col = 1;
        } else {
            col = col + 1;
        }
        k = k + 1;
    }
    (line, col)
}

/// A grammar error at the token `pos`, or at the end of the source.
fn error_at(cs: &Vec<char>, toks: &Vec<Token>, pos: usize, what: &str) -> (r: ParseError)
    requires
        tokens_shaped(cs@, toks@),
        cs@.len() + 3 <= usize::MAX,
    ensures
        r is Grammar,
{
    let p = if pos < toks.len() { toks[pos].start } else { cs.len() };
    let (line, column) = line_column(cs, p);
    ParseError::Grammar { line, column, message: String::from_str(what) }
}

fn is_punct_at(cs: &Vec<char>, toks: &Vec<Token>, pos: usize, c: char) -> (r: bool)
    requires
        tokens_shaped(cs@, toks@),
    ensures
        r ==> pos < toks@.len(),
        r == punct_at(cs@, toks@, pos as int, c),
{
    pos < toks.len() && matches!(toks[pos].kind, TokenKind::Punct) && cs[toks[pos].start] == c
}

fn is_kind_at(toks: &Vec<Token>, pos: usize, k: TokenKind) -> (r: bool)
    ensures
        r ==> pos < toks@.len() && toks@[pos as int].kind == k,
        r == kind_at(toks@, pos as int, k),
{
    if pos < toks.len() {
        match (toks[pos].kind, k) {
            (TokenKind::Name, TokenKind::Name) => true,
            (TokenKind::Int, TokenKind::Int) => true,
            (TokenKind::Str, TokenKind::Str) => true,
            (TokenKind::Punct, TokenKind::Punct) => true,
            _ => false,
        }
    } else {
        false
    }
}

/// Whether the token `pos` is a name without any `.`.
fn is_simple_name_at(cs: &Vec<char>, toks: &Vec<Token>, pos: usize) -> (r: bool)
    requires
        tokens_shaped(cs@, toks@),
    ensures
        r ==> pos < toks@.len() && toks@[pos as int].kind == TokenKind::Name && is_ident(
            token_text(cs@, toks@[pos as int]),
        ),
        r == simple_name_at(cs@, toks@, pos as int),
{
    if !is_kind_at(toks, pos, TokenKind::Name) {
        return false;
    }
    let t = toks[pos];
    assert(token_shaped(cs@, toks@[pos as int]));
    let mut k: usize = t.start;
    while k < t.end
        invariant
            t.start <= k <= t.end <= cs@.len(),
            pos < toks@.len(),
            t == toks@[pos as int],
            forall|m: int| t.start <= m < k ==> cs@[m] != '.',
        decreases t.end - k,
    {
        if cs[k] == '.' {
            assert(token_text(cs@, t)[k - t.start] == '.');
            return false;
        }
        k = k + 1;
    }
    proof {
        let tt = token_text(cs@, t);
        assert forall|m: int| 0 <= m < tt.len() implies is_ident_char(#[trigger] tt[m]) by {
            assert(tt[m] == cs@[t.start + m]);
        }
    }
    true
}

/// Whether the token `pos` is the word `w`.
fn is_word_at(cs: &Vec<char>, toks: &Vec<Token>, pos: usize, w: &str) -> (r: bool)
    requires
        tokens_shaped(cs@, toks@),
    ensures
        r ==> pos < toks@.len() && token_text(cs@, toks@[pos as int]) == w@,
        r == word_at(cs@, toks@, pos as int, w@),
{
    if !is_kind_at(toks, pos, TokenKind::Name) {
        return false;
    }
    let t = toks[pos];
    let wc = to_chars(w);
    if t.end - t.start != wc.len() {
        return false;
    }
    let mut k: usize = 0;
    while k < wc.len()
        invariant
            t.start < t.end <= cs@.len(),
            pos < toks@.len(),
            t == toks@[pos as int],
            t.end - t.start == wc@.len(),
            k <= wc@.len(),
            wc@ == w@,
            forall|m: int| 0 <= m < k ==> cs@[t.start + m] == wc@[m],
        decreases wc@.len() - k,
    {
        if cs[t.start + k] != wc[k] {
            assert(token_text(cs@, t)[k as int] != w@[k as int]);
            return false;
        }
        k = k + 1;
    }
    assert(token_text(cs@, t) =~= w@);
    true
}

/// The text of the token `pos`.
fn text_at(src: &str, cs: &Vec<char>, toks: &Vec<Token>, pos: usize) -> (r: String)
    requires
        ready(src, cs, toks),
        pos < toks@.len(),
    ensures
        r@ == token_text(cs@, toks@[pos as int]),
{
    substring(src, toks[pos].start, toks[pos].end)
}

/// Skips a statement whose content is not kept, up to and including its `;`.
fn skip_statement(cs: &Vec<char>, toks: &Vec<Token>, pos: usize) -> (r: Result<usize, ParseError>)
    requires
        tokens_shaped(cs@, toks@),
        pos < toks@.len(),
        toks@.len() <= cs@.len(),
        cs@.len() + 3 <= usize::MAX,
    ensures
        r matches Ok(next) ==> pos < next <= toks@.len(),
        r matches Err(e) ==> e is Grammar,
        match r {
            Ok(q) => statement_end(cs@, toks@, pos + 1) == Ok::<int, int>(q as int),
            Err(_) => statement_end(cs@, toks@, pos + 1) is Err,
        },
{
    let mut p: usize = pos + 1;
    while p < toks.len() && !is_punct_at(cs, toks, p, ';')
        invariant
            pos < p <= toks@.len(),
            tokens_shaped(cs@, toks@),
            cs@.len() + 3 <= usize::MAX,
            statement_end(cs@, toks@, pos + 1) == statement_end(cs@, toks@, p as int),
        decreases toks@.len() - p,
    {
        if is_punct_at(cs, toks, p, '{') || is_punct_at(cs, toks, p, '}') {
            return Err(error_at(cs, toks, p, "unexpected brace in statement"));
        }
        p = p + 1;
    }
    if p >= toks.len() {
        return Err(error_at(cs, toks, p, "expected ';'"));
    }
    Ok(p + 1)
}

/// Skips a bracketed option list starting at the `[` at `pos`.
fn skip_options(cs: &Vec<char>, toks: &Vec<Token>, pos: usize) -> (r: Result<usize, ParseError>)
    requires
        tokens_shaped(cs@, toks@),
        pos < toks@.len(),
        toks@.len() <= cs@.len(),
        cs@.len() + 3 <= usize::MAX,
    ensures
        r matches Ok(next) ==> pos < next <= toks@.len(),
        r matches Err(e) ==> e is Grammar,
        match r {
            Ok(q) => options_end(cs@, toks@, pos + 1) == Ok::<int, int>(q as int),
            Err(_) => options_end(cs@, toks@, pos + 1) is Err,
        },
{
    let mut p: usize = pos + 1;
    while p < toks.len() && !is_punct_at(cs, toks, p, ']')
        invariant
            pos < p <= toks@.len(),
            tokens_shaped(cs@, toks@),
            cs@.len() + 3 <= usize::MAX,
            options_end(cs@, toks@, pos + 1) == options_end(cs@, toks@, p as int),
        decreases toks@.len() - p,
    {
        if is_punct_at(cs, toks, p, '[') || is_punct_at(cs, toks, p, '{') || is_punct_at(cs, toks, p, '}')
            || is_punct_at(cs, toks, p, ';') {
            return Err(error_at(cs, toks, p, "unexpected token in field options"));
        }
        p = p + 1;
    }
    if p >= toks.len() {
        return Err(error_at(cs, toks, p, "expected ']'"));
    }
    Ok(p + 1)
}

/// `[modifier] type name = tag [options] ;`
fn parse_field(src: &str, cs: &Vec<char>, toks: &Vec<Token>, pos: usize) -> (r: Result<(FieldNode, usize), ParseError>)
    requires
        ready(src, cs, toks),
        pos < toks@.len(),
    ensures
        step_ok(r, pos, toks@.len()),
        match r {
            Ok(v) => field_spec(cs@, toks@, pos as int) == Ok::<(FieldNodeV, int), int>(
                (field_node_view(v.0), v.1 as int),
            ),
            Err(_) => field_spec(cs@, toks@, pos as int) is Err,
        },
        r matches Ok(v) ==> field_wf(v.0),
{
    let mut p = pos;
    let mut modifier: Option<String> = None;
    if (is_word_at(cs, toks, p, "repeated") || is_word_at(cs, toks, p, "optional") || is_word_at(cs, toks, p, "required"))
        && (is_punct_at(cs, toks, p + 1, '.') || (is_kind_at(toks, p + 1, TokenKind::Name) && !is_punct_at(cs, toks, p + 2, '='))) {
        modifier = Some(text_at(src, cs, toks, p));
        p = p + 1;
    }
    let absolute = is_punct_at(cs, toks, p, '.');
    if absolute {
        p = p + 1;
    }
    if !is_kind_at(toks, p, TokenKind::Name) {
        return Err(error_at(cs, toks, p, "expected a field type"));
    }
    assert(token_shaped(cs@, toks@[p as int]));
    let text = text_at(src, cs, toks, p);
    p = p + 1;
    if !is_simple_name_at(cs, toks, p) {
        return Err(error_at(cs, toks, p, "expected a field name"));
    }
    let name = text_at(src, cs, toks, p);
    p = p + 1;
    if !is_punct_at(cs, toks, p, '=') {
        return Err(error_at(cs, toks, p, "expected '='"));
    }
    p = p + 1;
    if !is_kind_at(toks, p, TokenKind::Int) {
        return Err(error_at(cs, toks, p, "expected a tag number"));
    }
    assert(token_shaped(cs@, toks@[p as int]));
    let tag = text_at(src, cs, toks, p);
    p = p + 1;
    if is_punct_at(cs, toks, p, '[') {
        match skip_options(cs, toks, p) {
            Ok(q) => { p = q; },
            Err(e) => { return Err(e); },
        }
    }
    if !is_punct_at(cs, toks, p, ';') {
        return Err(error_at(cs, toks, p, "expected ';'"));
    }
    Ok((FieldNode { modifier, ty: TypeNode { text, absolute }, name, tag }, p + 1))
}

/// `enum Name { (NAME = number [options] ; | option ... ; | ;)* }`
fn parse_enum(src: &str, cs: &Vec<char>, toks: &Vec<Token>, pos: usize) -> (r: Result<(EnumNode, usize), ParseError>)
    requires
        ready(src, cs, toks),
        pos < toks@.len(),
    ensures
        step_ok(r, pos, toks@.len()),
        match r {
            Ok(v) => enum_spec(cs@, toks@, pos as int) == Ok::<(EnumNodeV, int), int>(
                (enum_node_view(v.0), v.1 as int),
            ),
            Err(_) => enum_spec(cs@, toks@, pos as int) is Err,
        },
        r matches Ok(v) ==> enum_wf(v.0),
{
    let mut p = pos + 1;
    if !is_simple_name_at(cs, toks, p) {
        return Err(error_at(cs, toks, p, "expected an enum name"));
    }
    let name = text_at(src, cs, toks, p);
    p = p + 1;
    if !is_punct_at(cs, toks, p, '{') {
        return Err(error_at(cs, toks, p, "expected '{'"));
    }
    p = p + 1;
    let mut values: Vec<EnumValueNode> = Vec::new();
    assert(enum_values_view(values@) =~= Seq::empty());
    while !is_punct_at(cs, toks, p, '}')
        invariant
            ready(src, cs, toks),
            pos < p <= toks@.len(),
            is_ident(name@),
            forall|j: int|
                0 <= j < values@.len() ==> is_ident((#[trigger] values@[j]).name@) && is_int_literal(
                    values@[j].value@,
                ),
            name@ == text_of(cs@, toks@, pos + 1),
            simple_name_at(cs@, toks@, pos + 1),
            punct_at(cs@, toks@, pos + 2, '{'),
            enum_body(cs@, toks@, pos + 3, Seq::empty()) == enum_body(cs@, toks@, p as int, enum_values_view(values@)),
        decreases toks@.len() - p,
    {
        if p >= toks.len() {
            return Err(error_at(cs, toks, p, "expected '}'"));
        }
        if is_punct_at(cs, toks, p, ';') {
            p = p + 1;
        } else if is_word_at(cs, toks, p, "option") || is_word_at(cs, toks, p, "reserved") {
            match skip_statement(cs, toks, p) {
                Ok(q) => { p = q; },
                Err(e) => { return Err(e); },
            }
        } else {
            if !is_simple_name_at(cs, toks, p) {
                return Err(error_at(cs, toks, p, "expected an enum value name"));
            }
            let vname = text_at(src, cs, toks, p);
            p = p + 1;
            if !is_punct_at(cs, toks, p, '=') {
                return Err(error_at(cs, toks, p, "expected '='"));
            }
            p = p + 1;
            if !is_kind_at(toks, p, TokenKind::Int) {
                return Err(error_at(cs, toks, p, "expected an enum number"));
            }
            assert(token_shaped(cs@, toks@[p as int]));
            let value = text_at(src, cs, toks, p);
            p = p + 1;
            if is_punct_at(cs, toks, p, '[') {
                match skip_options(cs, toks, p) {
                    Ok(q) => { p = q; },
                    Err(e) => { return Err(e); },
                }
            }
            if !is_punct_at(cs, toks, p, ';') {
                return Err(error_at(cs, toks, p, "expected ';'"));
            }
            p = p + 1;
            let ghost before = values@;
            let ev = EnumValueNode { name: vname, value };
            values.push(ev);
            assert(enum_values_view(values@) =~= enum_values_view(before).push((ev.name@, ev.value@)));
        }
    }
    Ok((EnumNode { name, values }, p + 1))
}

/// `oneof name { (field | option ... ; | ;)* }`: the fields of the group.
fn parse_oneof(src: &str, cs: &Vec<char>, toks: &Vec<Token>, pos: usize) -> (r: Result<(Vec<FieldNode>, usize), ParseError>)
    requires
        ready(src, cs, toks),
        pos < toks@.len(),
    ensures
        step_ok(r, pos, toks@.len()),
        match r {
            Ok(v) => oneof_spec(cs@, toks@, pos as int) == Ok::<(Seq<FieldNodeV>, int), int>(
                (fields_view(v.0@), v.1 as int),
            ),
            Err(_) => oneof_spec(cs@, toks@, pos as int) is Err,
        },
        r matches Ok(v) ==> forall|j: int| 0 <= j < v.0@.len() ==> field_wf(#[trigger] v.0@[j]),
{
    let mut p = pos + 1;
    if !is_simple_name_at(cs, toks, p) {
        return Err(error_at(cs, toks, p, "expected a oneof name"));
    }
    p = p + 1;
    if !is_punct_at(cs, toks, p, '{') {
        return Err(error_at(cs, toks, p, "expected '{'"));
    }
    p = p + 1;
    let mut fields: Vec<FieldNode> = Vec::new();
    assert(fields_view(fields@) =~= Seq::empty());
    while !is_punct_at(cs, toks, p, '}')
        invariant
            ready(src, cs, toks),
            pos < p <= toks@.len(),
            forall|j: int| 0 <= j < fields@.len() ==> field_wf(#[trigger] fields@[j]),
            simple_name_at(cs@, toks@, pos + 1),
            punct_at(cs@, toks@, pos + 2, '{'),
            oneof_body(cs@, toks@, pos + 3, Seq::empty()) == oneof_body(cs@, toks@, p as int, fields_view(fields@)),
        decreases toks@.len() - p,
    {
        if p >= toks.len() {
            return Err(error_at(cs, toks, p, "expected '}'"));
        }
        if is_punct_at(cs, toks, p, ';') {
            p = p + 1;
        } else if is_word_at(cs, toks, p, "option") {
            match skip_statement(cs, toks, p) {
                Ok(q) => { p = q; },
                Err(e) => { return Err(e); },
            }
        } else {
            match parse_field(src, cs, toks, p) {
                Ok((f, q)) => {
                    let ghost before = fields@;
                    fields.push(f);
                    assert(fields_view(fields@) =~= fields_view(before).push(field_node_view(f)));
                    p = q;
                },
                Err(e) => { return Err(e); },
            }
        }
    }
    Ok((fields, p + 1))
}

/// Whether the tokens from `pos` open a block `keyword name {`.
fn opens_block(cs: &Vec<char>, toks: &Vec<Token>, pos: usize, keyword: &str) -> (r: bool)
    requires
        tokens_shaped(cs@, toks@),
        pos + 2 <= usize::MAX,
    ensures
        r ==> pos < toks@.len(),
        r == opens_block_at(cs@, toks@, pos as int, keyword@),
{
    is_word_at(cs, toks, pos, keyword) && is_simple_name_at(cs, toks, pos + 1) && is_punct_at(cs, toks, pos + 2, '{')
}

/// `message Name { items }`, with nested declarations parsed in place.
fn parse_message(src: &str, cs: &Vec<char>, toks: &Vec<Token>, pos: usize) -> (r: Result<(MessageNode, usize), ParseError>)
    requires
        ready(src, cs, toks),
        pos < toks@.len(),
    ensures
        step_ok(r, pos, toks@.len()),
        match r {
            Ok(v) => message_spec(cs@, toks@, pos as int) == Ok::<(MessageNodeV, int), int>(
                (message_node_view(v.0), v.1 as int),
            ),
            Err(_) => message_spec(cs@, toks@, pos as int) is Err,
        },
        r matches Ok(v) ==> message_wf(v.0),
    decreases toks@.len() - pos,
{
    let mut p = pos + 1;
    if !is_simple_name_at(cs, toks, p) {
        return Err(error_at(cs, toks, p, "expected a message name"));
    }
    let name = text_at(src, cs, toks, p);
    p = p + 1;
    if !is_punct_at(cs, toks, p, '{') {
        return Err(error_at(cs, toks, p, "expected '{'"));
    }
    p = p + 1;
    let mut items: Vec<MessageItem> = Vec::new();
    while !is_punct_at(cs, toks, p, '}')
        invariant
            ready(src, cs, toks),
            pos < p <= toks@.len(),
            is_ident(name@),
            items_wf(items@, items@.len()),
            name@ == text_of(cs@, toks@, pos + 1),
            simple_name_at(cs@, toks@, pos + 1),
            punct_at(cs@, toks@, pos + 2, '{'),
            message_body(cs@, toks@, pos + 3, Seq::empty()) == message_body(cs@, toks@, p as int, items_view(items@, items@.len())),
        decreases toks@.len() - p,
    {
        if p >= toks.len() {
            return Err(error_at(cs, toks, p, "expected '}'"));
        }
        if is_punct_at(cs, toks, p, ';') {
            p = p + 1;
        } else if opens_block(cs, toks, p, "message") {
            match parse_message(src, cs, toks, p) {
                Ok((m, q)) => {
                    proof {
                        lemma_items_wf_push(items@, MessageItem::Message(m), items@.len());
                        lemma_items_view_push(items@, MessageItem::Message(m), items@.len());
                    }
                    items.push(MessageItem::Message(m));
                    p = q;
                },
                Err(e) => { return Err(e); },
            }
        } else if opens_block(cs, toks, p, "enum") {
            match parse_enum(src, cs, toks, p) {
                Ok((en, q)) => {
                    proof {
                        lemma_items_wf_push(items@, MessageItem::Enum(en), items@.len());
                        lemma_items_view_push(items@, MessageItem::Enum(en), items@.len());
                    }
                    items.push(MessageItem::Enum(en));
                    p = q;
                },
                Err(e) => { return Err(e); },
            }
        } else if opens_block(cs, toks, p, "oneof") {
            match parse_oneof(src, cs, toks, p) {
                Ok((fs, q)) => {
                    proof {
                        lemma_items_wf_push(items@, MessageItem::Oneof(fs), items@.len());
                        lemma_items_view_push(items@, MessageItem::Oneof(fs), items@.len());
                    }
                    items.push(MessageItem::Oneof(fs));
                    p = q;
                },
                Err(e) => { return Err(e); },
            }
        } else if is_word_at(cs, toks, p, "option") || is_word_at(cs, toks, p, "reserved")
            || is_word_at(cs, toks, p, "extensions") {
            match skip_statement(cs, toks, p) {
                Ok(q) => { p = q; },
                Err(e) => { return Err(e); },
            }
        } else {
            match parse_field(src, cs, toks, p) {
                Ok((f, q)) => {
                    proof {
                        lemma_items_wf_push(items@, MessageItem::Field(f), items@.len());
                        lemma_items_view_push(items@, MessageItem::Field(f), items@.len());
                    }
                    items.push(MessageItem::Field(f));
                    p = q;
                },
                Err(e) => { return Err(e); },
            }
        }
    }
    Ok((MessageNode { name, items }, p + 1))
}

/// The top level of a file.
fn parse_file(src: &str, cs: &Vec<char>, toks: &Vec<Token>) -> (r: Result<ProtoFile, ParseError>)
    requires
        ready(src, cs, toks),
    ensures
        r matches Err(e) ==> e is Grammar,
        r matches Ok(f) ==> file_wf(f),
        match r {
            Ok(f) => file_body(cs@, toks@, 0, None, Seq::empty()) == Ok::<ProtoFileV, int>(file_view(f)),
            Err(_) => file_body(cs@, toks@, 0, None, Seq::empty()) is Err,
        },
{
    let mut package: Option<String> = None;
    let mut definitions: Vec<Definition> = Vec::new();
    assert(definitions_view(definitions@) =~= Seq::empty());
    let mut p: usize = 0;
    while p < toks.len()
        invariant
            ready(src, cs, toks),
            p <= toks@.len(),
            package matches Some(pk) ==> is_dotted(pk@),
            forall|i: int| 0 <= i < definitions@.len() ==> definition_wf(#[trigger] definitions@[i]),
            file_body(cs@, toks@, 0, None, Seq::empty()) == file_body(
                cs@,
                toks@,
                p as int,
                opt_string_view(package),
                definitions_view(definitions@),
            ),
        decreases toks@.len() - p,
    {
        if is_punct_at(cs, toks, p, ';') {
            p = p + 1;
        } else if is_word_at(cs, toks, p, "package") {
            if package.is_some() {
                return Err(error_at(cs, toks, p, "a second package statement"));
            }
            if !is_kind_at(toks, p + 1, TokenKind::Name) {
                return Err(error_at(cs, toks, p + 1, "expected a package name"));
            }
            assert(token_shaped(cs@, toks@[p + 1]));
            package = Some(text_at(src, cs, toks, p + 1));
            if !is_punct_at(cs, toks, p + 2, ';') {
                return Err(error_at(cs, toks, p + 2, "expected ';'"));
            }
            p = p + 3;
        } else if is_word_at(cs, toks, p, "syntax") || is_word_at(cs, toks, p, "edition")
            || is_word_at(cs, toks, p, "import") || is_word_at(cs, toks, p, "option") {
            match skip_statement(cs, toks, p) {
                Ok(q) => { p = q; },
                Err(e) => { return Err(e); },
            }
        } else if is_word_at(cs, toks, p, "message") {
            match parse_message(src, cs, toks, p) {
                Ok((m, q)) => {
                    let ghost before = definitions@;
                    definitions.push(Definition::Message(m));
                    assert(definitions_view(definitions@) =~= definitions_view(before).push(definition_view(Definition::Message(m))));
                    p = q;
                },
                Err(e) => { return Err(e); },
            }
        } else if is_word_at(cs, toks, p, "enum") {
            match parse_enum(src, cs, toks, p) {
                Ok((en, q)) => {
                    let ghost before = definitions@;
                    definitions.push(Definition::Enum(en));
                    assert(definitions_view(definitions@) =~= definitions_view(before).push(definition_view(Definition::Enum(en))));
                    p = q;
                },
                Err(e) => { return Err(e); },
            }
        } else {
            return Err(error_at(cs, toks, p, "expected a package, import, option, message or enum"));
        }
    }
    Ok(ProtoFile { package, definitions })
}

/// The parser of the interface language.
pub struct ProtoParser;

impl ProtoParser {
    /// Parses a whole source into its syntax tree. Input that does not follow
    /// the grammar gives a `Grammar` error at the offending position.
    pub fn parse(src: &str) -> (r: Result<ProtoFile, ParseError>)
        ensures
            r matches Err(e) ==> e is Grammar,
            r matches Ok(f) ==> file_wf(f),
            r matches Ok(f) ==> parse_spec(src@) == Ok::<ProtoFileV, int>(file_view(f)),
            src@.len() + 3 <= usize::MAX ==> (r is Ok <==> parse_spec(src@) is Ok),
    {
        let cs = to_chars(src);
        if cs.len() > usize::MAX - 3 {
            return Err(ParseError::Grammar { line: 1, column: 1, message: String::from_str("source too long") });
        }
        match lex(&cs) {
            Ok(toks) => parse_file(src, &cs, &toks),
            Err(p) => {
                let (line, column) = line_column(&cs, p);
                Err(ParseError::Grammar { line, column, message: String::from_str("unexpected character") })
            },
        }
    }
}

} // verus!
