//! XML tokens: reading a document into tokens and writing tokens back as bytes.
//!
//! Reading is done by `quick_xml`. Its reader and its start tags are opaque to
//! the verifier; what they yield is named by [`xml_document`], [`pending`] and
//! [`tag_attributes`], and the functions that call them are trusted.

use crate::bytes::{append, ascii, copy, literal};
use quick_xml::events::BytesStart;
use quick_xml::events::Event;
use quick_xml::Reader;
use vstd::prelude::*;

verus! {

/// The kinds of token in an XML document.
#[derive(Clone, Copy, Debug, PartialEq, Eq, Structural)]
pub enum TokenKind {
    /// `<name attributes>`
    Start,
    /// `</name>`
    End,
    /// `<name attributes/>`
    Empty,
    /// Character data between tags, as written in the document.
    Text,
    /// `<![CDATA[...]]>`
    CData,
    /// `<!--...-->`
    Comment,
    /// `<?xml ...?>`
    Decl,
    /// `<?target ...?>`
    PI,
    /// `<!DOCTYPE ...>`
    DocType,
}

/// An attribute of a start tag: key and value as written, the value without its quotes.
#[derive(Clone, Debug, PartialEq, Eq)]
pub struct Attribute {
    pub key: Vec<u8>,
    pub value: Vec<u8>,
}

/// The mathematical value of an [`Attribute`].
pub struct AttributeView {
    pub key: Seq<u8>,
    pub value: Seq<u8>,
}

impl View for Attribute {
    type V = AttributeView;

    open spec fn view(&self) -> AttributeView {
        AttributeView { key: self.key@, value: self.value@ }
    }
}

/// A token of a document.
///
/// `content` holds the bytes between the token's delimiters. `attributes` is
/// read for start tags only: one entry for each attribute in the order
/// written, `None` where an attribute is malformed.
#[derive(Clone, Debug, PartialEq, Eq)]
pub struct Token {
    pub kind: TokenKind,
    pub content: Vec<u8>,
    pub attributes: Vec<Option<Attribute>>,
}

/// The mathematical value of a [`Token`].
pub struct TokenView {
    pub kind: TokenKind,
    pub content: Seq<u8>,
    pub attributes: Seq<Option<AttributeView>>,
}

/// The values of a list of attributes, entry by entry.
pub open spec fn attributes_view(attributes: Seq<Option<Attribute>>) -> Seq<Option<AttributeView>> {
    Seq::new(
        attributes.len(),
        |i: int|
            match attributes[i] {
                Some(attribute) => Some(attribute@),
                None => None,
            },
    )
}

impl View for Token {
    type V = TokenView;

    open spec fn view(&self) -> TokenView {
        TokenView {
            kind: self.kind,
            content: self.content@,
            attributes: attributes_view(self.attributes@),
        }
    }
}

/// The values of a list of tokens, entry by entry.
pub open spec fn tokens_view(tokens: Seq<Token>) -> Seq<TokenView> {
    Seq::new(tokens.len(), |i: int| tokens[i]@)
}

/// The tokens of a document and whether it was read to its end.
///
/// `complete` is false where reading stopped at malformed input; `tokens`
/// then holds what was read before.
#[derive(Clone, Debug, PartialEq, Eq)]
pub struct TokenStream {
    pub tokens: Vec<Token>,
    pub complete: bool,
}

/// The mathematical value of a [`TokenStream`].
pub struct TokenStreamView {
    pub tokens: Seq<TokenView>,
    pub complete: bool,
}

impl View for TokenStream {
    type V = TokenStreamView;

    open spec fn view(&self) -> TokenStreamView {
        TokenStreamView { tokens: tokens_view(self.tokens@), complete: self.complete }
    }
}

impl Attribute {
    /// A copy of this attribute.
    pub fn duplicate(&self) -> (other: Attribute)
        ensures
            other@ == self@,
    {
        Attribute { key: copy(self.key.as_slice()), value: copy(self.value.as_slice()) }
    }
}

/// The values of a list of well-formed attributes, entry by entry.
pub open spec fn attribute_list_view(attributes: Seq<Attribute>) -> Seq<AttributeView> {
    Seq::new(attributes.len(), |i: int| attributes[i]@)
}

/// Each attribute of a list as a well-formed entry of a token.
pub open spec fn well_formed(attributes: Seq<AttributeView>) -> Seq<Option<AttributeView>> {
    Seq::new(attributes.len(), |i: int| Some(attributes[i]))
}

/// A copy of a token's list of attributes.
pub fn duplicate_attributes(attributes: &Vec<Option<Attribute>>) -> (other: Vec<Option<Attribute>>)
    ensures
        attributes_view(other@) == attributes_view(attributes@),
{
    let mut other: Vec<Option<Attribute>> = Vec::new();
    let mut i: usize = 0;
    while i < attributes.len()
        invariant
            i <= attributes@.len(),
            other@.len() == i,
            forall|j: int| 0 <= j < i ==> attributes_view(other@)[j] == attributes_view(attributes@)[j],
        decreases attributes@.len() - i,
    {
        let entry = match &attributes[i] {
            Some(attribute) => Some(attribute.duplicate()),
            None => None,
        };
        other.push(entry);
        i += 1;
    }
    assert(attributes_view(other@) =~= attributes_view(attributes@));
    other
}

impl Token {
    /// A copy of this token.
    pub fn duplicate(&self) -> (other: Token)
        ensures
            other@ == self@,
    {
        Token {
            kind: self.kind,
            content: copy(self.content.as_slice()),
            attributes: duplicate_attributes(&self.attributes),
        }
    }
}

/// Whether `byte` is white space in XML: a space, a tab, a line feed or a carriage return.
pub open spec fn is_space(byte: u8) -> bool {
    byte == 0x20 || byte == 0x09 || byte == 0x0a || byte == 0x0d
}

/// The length of the name that a tag's content starts with: the number of
/// bytes before its first white space. This is where `quick_xml` ends the
/// name of a tag that it read.
pub open spec fn name_len(content: Seq<u8>) -> nat
    decreases content.len(),
{
    if content.len() == 0 || is_space(content[0]) {
        0
    } else {
        1 + name_len(content.drop_first())
    }
}

/// The name of a tag: its content up to the first white space.
pub open spec fn tag_name(content: Seq<u8>) -> Seq<u8> {
    content.take(name_len(content) as int)
}

/// The name of a tag lies within its content, holds no white space, and ends
/// at white space or at the end of the content.
pub proof fn name_len_bounds(content: Seq<u8>)
    ensures
        name_len(content) <= content.len(),
        forall|i: int| 0 <= i < name_len(content) ==> !is_space(#[trigger] content[i]),
        name_len(content) < content.len() ==> is_space(content[name_len(content) as int]),
    decreases content.len(),
{
    if content.len() == 0 || is_space(content[0]) {
    } else {
        let rest = content.drop_first();
        name_len_bounds(rest);
        assert forall|i: int| 0 <= i < name_len(content) implies !is_space(
            #[trigger] content[i],
        ) by {
            if i > 0 {
                assert(content[i] == rest[i - 1]);
            }
        }
        if name_len(content) < content.len() {
            assert(content[name_len(content) as int] == rest[name_len(rest) as int]);
        }
    }
}

/// The first position at or after which white space stands decides the name:
/// where `n` bytes without white space are followed by white space or by the
/// end of the content, the name has `n` bytes.
pub proof fn name_len_is(content: Seq<u8>, n: nat)
    requires
        n <= content.len(),
        forall|i: int| 0 <= i < n ==> !is_space(#[trigger] content[i]),
        n < content.len() ==> is_space(content[n as int]),
    ensures
        name_len(content) == n,
    decreases content.len(),
{
    if n == 0 {
    } else {
        assert(!is_space(content[0]));
        let rest = content.drop_first();
        assert forall|i: int| 0 <= i < n - 1 implies !is_space(#[trigger] rest[i]) by {
            assert(rest[i] == content[i + 1]);
        }
        name_len_is(rest, (n - 1) as nat);
    }
}

impl Token {
    /// The name of this tag.
    pub fn name(&self) -> (name: &[u8])
        ensures
            name@ == tag_name(self.content@),
    {
        let content = self.content.as_slice();
        let mut n: usize = 0;
        while n < content.len() && !(content[n] == 0x20 || content[n] == 0x09 || content[n] == 0x0a
            || content[n] == 0x0d)
            invariant
                n <= content@.len(),
                forall|i: int| 0 <= i < n ==> !is_space(#[trigger] content@[i]),
            decreases content@.len() - n,
        {
            n += 1;
        }
        proof {
            name_len_is(content@, n as nat);
        }
        let name = vstd::slice::slice_subrange(content, 0, n);
        assert(name@ =~= tag_name(self.content@));
        name
    }
}

/// The bytes that open a token of this kind.
pub open spec fn opening(kind: TokenKind) -> Seq<u8> {
    match kind {
        TokenKind::Start => ascii("<"@),
        TokenKind::End => ascii("</"@),
        TokenKind::Empty => ascii("<"@),
        TokenKind::Text => ascii(""@),
        TokenKind::CData => ascii("<![CDATA["@),
        TokenKind::Comment => ascii("<!--"@),
        TokenKind::Decl => ascii("<?"@),
        TokenKind::PI => ascii("<?"@),
        TokenKind::DocType => ascii("<!DOCTYPE "@),
    }
}

/// The bytes that close a token of this kind.
pub open spec fn closing(kind: TokenKind) -> Seq<u8> {
    match kind {
        TokenKind::Start => ascii(">"@),
        TokenKind::End => ascii(">"@),
        TokenKind::Empty => ascii("/>"@),
        TokenKind::Text => ascii(""@),
        TokenKind::CData => ascii("]]>"@),
        TokenKind::Comment => ascii("-->"@),
        TokenKind::Decl => ascii("?>"@),
        TokenKind::PI => ascii("?>"@),
        TokenKind::DocType => ascii(">"@),
    }
}

/// A token as it is written in a document: its content between the
/// delimiters of its kind. These are the bytes that
/// `quick_xml::Writer::write_event` writes for the event, when it does not
/// indent.
pub open spec fn token_text(token: TokenView) -> Seq<u8> {
    opening(token.kind) + token.content + closing(token.kind)
}

/// A list of tokens as it is written in a document: one token after the
/// other, with nothing between them.
pub open spec fn document_text(tokens: Seq<TokenView>) -> Seq<u8>
    decreases tokens.len(),
{
    if tokens.len() == 0 {
        Seq::empty()
    } else {
        document_text(tokens.drop_last()) + token_text(tokens.last())
    }
}

fn opening_of(kind: TokenKind) -> (bytes: &'static [u8])
    ensures
        bytes@ == opening(kind),
{
    proof {
        reveal_strlit("<");
        reveal_strlit("</");
        reveal_strlit("");
        reveal_strlit("<![CDATA[");
        reveal_strlit("<!--");
        reveal_strlit("<?");
        reveal_strlit("<!DOCTYPE ");
    }
    match kind {
        TokenKind::Start => literal("<"),
        TokenKind::End => literal("</"),
        TokenKind::Empty => literal("<"),
        TokenKind::Text => literal(""),
        TokenKind::CData => literal("<![CDATA["),
        TokenKind::Comment => literal("<!--"),
        TokenKind::Decl => literal("<?"),
        TokenKind::PI => literal("<?"),
        TokenKind::DocType => literal("<!DOCTYPE "),
    }
}

fn closing_of(kind: TokenKind) -> (bytes: &'static [u8])
    ensures
        bytes@ == closing(kind),
{
    proof {
        reveal_strlit(">");
        reveal_strlit("/>");
        reveal_strlit("");
        reveal_strlit("]]>");
        reveal_strlit("-->");
        reveal_strlit("?>");
    }
    match kind {
        TokenKind::Start => literal(">"),
        TokenKind::End => literal(">"),
        TokenKind::Empty => literal("/>"),
        TokenKind::Text => literal(""),
        TokenKind::CData => literal("]]>"),
        TokenKind::Comment => literal("-->"),
        TokenKind::Decl => literal("?>"),
        TokenKind::PI => literal("?>"),
        TokenKind::DocType => literal(">"),
    }
}

/// Writes `token` at the end of `out`.
pub fn write_token(out: &mut Vec<u8>, token: &Token)
    ensures
        final(out)@ == old(out)@ + token_text(token@),
{
    append(out, opening_of(token.kind));
    append(out, token.content.as_slice());
    append(out, closing_of(token.kind));
    assert(out@ =~= old(out)@ + token_text(token@));
}

/// The document that `tokens` make up.
pub fn render(tokens: &Vec<Token>) -> (out: Vec<u8>)
    ensures
        out@ == document_text(tokens_view(tokens@)),
{
    let mut out: Vec<u8> = Vec::new();
    let mut i: usize = 0;
    let ghost all = tokens_view(tokens@);
    while i < tokens.len()
        invariant
            i <= tokens@.len(),
            all == tokens_view(tokens@),
            out@ == document_text(all.take(i as int)),
        decreases tokens@.len() - i,
    {
        write_token(&mut out, &tokens[i]);
        proof {
            assert(all.take(i + 1).drop_last() =~= all.take(i as int));
            assert(all.take(i + 1).last() == tokens@[i as int]@);
        }
        i += 1;
    }
    assert(all.take(tokens@.len() as int) =~= all);
    out
}

/// `quick_xml::Reader`, the reader of events. Nothing is known of what is
/// inside it; what it has yet to read is named by [`pending`].
#[verifier::external_type_specification]
#[verifier::external_body]
#[verifier::reject_recursive_types(R)]
pub struct ExReader<R>(Reader<R>);

/// `quick_xml::events::BytesStart`, a start tag as the reader yields it.
/// Nothing is known of what is inside it; what its attribute iterator
/// yields is named by [`tag_attributes`].
#[verifier::external_type_specification]
#[verifier::external_body]
pub struct ExBytesStart<'a>(BytesStart<'a>);

/// What `quick_xml`'s reader, set to trim text, reads from `input`: the tokens
/// up to the end of input or to the first error, each start tag with its
/// attributes, and whether the end of input was reached.
pub uninterp spec fn xml_document(input: Seq<u8>) -> TokenStreamView;

/// What `reader` has yet to read: the tokens up to the end of its input or to
/// the first error, and whether the end of input will be reached.
pub uninterp spec fn pending(reader: Reader<&[u8]>) -> TokenStreamView;

/// What the attribute iterator of `tag` yields, `None` for each error.
pub uninterp spec fn tag_attributes(tag: BytesStart<'static>) -> Seq<Option<AttributeView>>;

/// What one call of the reader gave.
enum ReadKind {
    Start,
    End,
    Empty,
    Text,
    CData,
    Comment,
    Decl,
    PI,
    DocType,
    Eof,
    Failed,
}

/// One event of the reader: its content, and the tag itself where it is a start tag.
struct Reading {
    kind: ReadKind,
    content: Vec<u8>,
    tag: Option<BytesStart<'static>>,
}

impl ReadKind {
    spec fn token_kind(self) -> Option<TokenKind> {
        match self {
            ReadKind::Start => Some(TokenKind::Start),
            ReadKind::End => Some(TokenKind::End),
            ReadKind::Empty => Some(TokenKind::Empty),
            ReadKind::Text => Some(TokenKind::Text),
            ReadKind::CData => Some(TokenKind::CData),
            ReadKind::Comment => Some(TokenKind::Comment),
            ReadKind::Decl => Some(TokenKind::Decl),
            ReadKind::PI => Some(TokenKind::PI),
            ReadKind::DocType => Some(TokenKind::DocType),
            ReadKind::Eof => None,
            ReadKind::Failed => None,
        }
    }

    fn as_token_kind(&self) -> (kind: Option<TokenKind>)
        ensures
            kind == self.token_kind(),
    {
        match self {
            ReadKind::Start => Some(TokenKind::Start),
            ReadKind::End => Some(TokenKind::End),
            ReadKind::Empty => Some(TokenKind::Empty),
            ReadKind::Text => Some(TokenKind::Text),
            ReadKind::CData => Some(TokenKind::CData),
            ReadKind::Comment => Some(TokenKind::Comment),
            ReadKind::Decl => Some(TokenKind::Decl),
            ReadKind::PI => Some(TokenKind::PI),
            ReadKind::DocType => Some(TokenKind::DocType),
            ReadKind::Eof => None,
            ReadKind::Failed => None,
        }
    }
}

impl Reading {
    /// The token that this event stands for, if it is one.
    spec fn token(self) -> Option<TokenView> {
        match self.kind.token_kind() {
            Some(kind) => Some(
                TokenView {
                    kind,
                    content: self.content@,
                    attributes: match self.tag {
                        Some(tag) => tag_attributes(tag),
                        None => Seq::empty(),
                    },
                },
            ),
            None => None,
        }
    }
}

/// `quick_xml::Reader::from_reader` on a byte slice, with
/// `Config::trim_text(true)`: the new reader has the whole document to read.
#[verifier::external_body]
fn open_reader<'a>(input: &'a [u8]) -> (reader: Reader<&'a [u8]>)
    ensures
        pending(reader) == xml_document(input@),
{
    let mut reader = Reader::from_reader(input);
    reader.config_mut().trim_text(true);
    reader
}

/// `quick_xml::Reader::read_event`: the result is the next token that the
/// reader had to read, and the reader is left with the rest. Where no token
/// is left, the result says how the input ended: `Eof` at its end, `Failed`
/// at an error. Only a start tag comes with its tag.
#[verifier::external_body]
fn read_next<'a>(reader: &mut Reader<&'a [u8]>) -> (reading: Reading)
    ensures
        reading.tag is Some <==> reading.kind is Start,
        pending(*old(reader)).tokens.len() > 0 ==> {
            &&& reading.token() == Some(pending(*old(reader)).tokens[0])
            &&& pending(*final(reader)).tokens == pending(*old(reader)).tokens.skip(1)
            &&& pending(*final(reader)).complete == pending(*old(reader)).complete
        },
        pending(*old(reader)).tokens.len() == 0 ==> {
            &&& pending(*old(reader)).complete ==> reading.kind is Eof
            &&& !pending(*old(reader)).complete ==> reading.kind is Failed
        },
{
    let Ok(event) = reader.read_event() else { return Reading { kind: ReadKind::Failed, content: Vec::new(), tag: None } };
    let kind = match &event {
        Event::Start(_) => ReadKind::Start,
        Event::End(_) => ReadKind::End,
        Event::Empty(_) => ReadKind::Empty,
        Event::Text(_) => ReadKind::Text,
        Event::CData(_) => ReadKind::CData,
        Event::Comment(_) => ReadKind::Comment,
        Event::Decl(_) => ReadKind::Decl,
        Event::PI(_) => ReadKind::PI,
        Event::DocType(_) => ReadKind::DocType,
        Event::Eof => ReadKind::Eof,
    };
    let tag = if let Event::Start(tag) = &event { Some(tag.to_owned()) } else { None };
    Reading { kind, content: event.to_vec(), tag }
}

/// `quick_xml::events::BytesStart::attributes`: every item that the iterator
/// yields, in order; an attribute as its key and its value, an error as `None`.
#[verifier::external_body]
fn read_attributes(tag: &BytesStart<'static>) -> (attributes: Vec<Option<Attribute>>)
    ensures
        attributes_view(attributes@) == tag_attributes(*tag),
{
    tag.attributes().map(|item| item.ok().map(|a| Attribute { key: a.key.as_ref().to_vec(), value: a.value.to_vec() })).collect()
}

/// Reads `input` into tokens.
///
/// Reading stops at the end of the input or at the first malformed piece of
/// it; `complete` tells which.
pub fn read_tokens(input: &[u8]) -> (stream: TokenStream)
    ensures
        stream@ == xml_document(input@),
{
    let mut reader = open_reader(input);
    let mut tokens: Vec<Token> = Vec::new();
    let mut complete = false;
    let mut done = false;
    let ghost mut rest = pending(reader);
    while !done
        invariant
            !done ==> pending(reader) == rest,
            tokens_view(tokens@) + rest.tokens == xml_document(input@).tokens,
            rest.complete == xml_document(input@).complete,
            done ==> rest.tokens.len() == 0 && complete == rest.complete,
        decreases rest.tokens.len() + if done { 0int } else { 1int },
    {
        let ghost read = tokens_view(tokens@);
        let reading = read_next(&mut reader);
        match reading.kind.as_token_kind() {
            Some(kind) => {
                let attributes = match &reading.tag {
                    Some(tag) => read_attributes(tag),
                    None => Vec::new(),
                };
                let token = Token { kind, content: reading.content, attributes };
                proof {
                    assert(rest.tokens.len() > 0);
                    assert(attributes_view(Seq::<Option<Attribute>>::empty()) =~= Seq::empty());
                    assert(token@ == rest.tokens[0]);
                }
                tokens.push(token);
                proof {
                    assert(tokens_view(tokens@) =~= read.push(rest.tokens[0]));
                    assert(read.push(rest.tokens[0]) + rest.tokens.skip(1) =~= read + rest.tokens);
                    rest = pending(reader);
                }
            },
            None => {
                complete = match reading.kind {
                    ReadKind::Eof => true,
                    _ => false,
                };
                done = true;
            },
        }
    }
    proof {
        assert(tokens_view(tokens@) + rest.tokens =~= tokens_view(tokens@));
    }
    TokenStream { tokens, complete }
}

} // verus!
