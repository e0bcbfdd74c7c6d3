//! The tokens that the tokenizer emits. Each one owns the bytes that it
//! carries; the contracts speak of them through the views below.
use vstd::prelude::*;

verus! {

/// A run of input bytes carried by a token.
pub type Bytes = Vec<u8>;

/// One attribute of a start tag: a name and a value, as they stood in the
/// input.
#[derive(Debug)]
pub struct Attribute {
    name: Bytes,
    value: Bytes,
}

impl View for Attribute {
    type V = (Seq<u8>, Seq<u8>);

    closed spec fn view(&self) -> (Seq<u8>, Seq<u8>) {
        (self.name@, self.value@)
    }
}

impl Attribute {
    pub fn new(name: Bytes, value: Bytes) -> (r: Attribute)
        ensures
            r@ == (name@, value@),
    {
        Attribute { name, value }
    }

    pub fn name(&self) -> (r: &Bytes)
        ensures
            r@ == self@.0,
    {
        &self.name
    }

    pub fn value(&self) -> (r: &Bytes)
        ensures
            r@ == self@.1,
    {
        &self.value
    }
}

/// The attributes of a start tag in input order; equal names are kept.
pub type ParsedAttributeList = Vec<Attribute>;

/// The attribute list as a sequence of (name, value) pairs.
pub open spec fn attributes_view(attributes: Seq<Attribute>) -> Seq<(Seq<u8>, Seq<u8>)> {
    attributes.map_values(|a: Attribute| a@)
}

#[derive(Debug)]
pub struct CharacterToken {
    text: Bytes,
}

impl View for CharacterToken {
    type V = Seq<u8>;

    closed spec fn view(&self) -> Seq<u8> {
        self.text@
    }
}

impl CharacterToken {
    pub fn text(&self) -> (r: &Bytes)
        ensures
            r@ == self@,
    {
        &self.text
    }
}

#[derive(Debug)]
pub struct CommentToken {
    text: Bytes,
}

impl View for CommentToken {
    type V = Seq<u8>;

    closed spec fn view(&self) -> Seq<u8> {
        self.text@
    }
}

impl CommentToken {
    pub fn text(&self) -> (r: &Bytes)
        ensures
            r@ == self@,
    {
        &self.text
    }
}

/// What a start tag holds: its name, its attributes and whether it closed
/// itself with `/>`.
pub struct StartTagModel {
    pub name: Seq<u8>,
    pub attributes: Seq<(Seq<u8>, Seq<u8>)>,
    pub self_closing: bool,
}

#[derive(Debug)]
pub struct StartTagToken {
    name: Bytes,
    attributes: ParsedAttributeList,
    self_closing: bool,
}

impl View for StartTagToken {
    type V = StartTagModel;

    closed spec fn view(&self) -> StartTagModel {
        StartTagModel {
            name: self.name@,
            attributes: attributes_view(self.attributes@),
            self_closing: self.self_closing,
        }
    }
}

impl StartTagToken {
    pub fn name(&self) -> (r: &Bytes)
        ensures
            r@ == self@.name,
    {
        &self.name
    }

    pub fn attributes(&self) -> (r: &ParsedAttributeList)
        ensures
            attributes_view(r@) == self@.attributes,
    {
        &self.attributes
    }

    pub fn self_closing(&self) -> (r: bool)
        ensures
            r == self@.self_closing,
    {
        self.self_closing
    }
}

#[derive(Debug)]
pub struct EndTagToken {
    name: Bytes,
}

impl View for EndTagToken {
    type V = Seq<u8>;

    closed spec fn view(&self) -> Seq<u8> {
        self.name@
    }
}

impl EndTagToken {
    pub fn name(&self) -> (r: &Bytes)
        ensures
            r@ == self@,
    {
        &self.name
    }
}

/// The view of an optional run of bytes.
pub open spec fn opt_view(b: Option<Bytes>) -> Option<Seq<u8>> {
    match b {
        Some(v) => Some(v@),
        None => None,
    }
}

/// What a doctype holds. A missing field is not the same as an empty one.
pub struct DoctypeModel {
    pub name: Option<Seq<u8>>,
    pub public_id: Option<Seq<u8>>,
    pub system_id: Option<Seq<u8>>,
    pub force_quirks: bool,
}

#[derive(Debug)]
pub struct DoctypeToken {
    name: Option<Bytes>,
    public_id: Option<Bytes>,
    system_id: Option<Bytes>,
    force_quirks: bool,
}

impl View for DoctypeToken {
    type V = DoctypeModel;

    closed spec fn view(&self) -> DoctypeModel {
        DoctypeModel {
            name: opt_view(self.name),
            public_id: opt_view(self.public_id),
            system_id: opt_view(self.system_id),
            force_quirks: self.force_quirks,
        }
    }
}

fn opt_ref(b: &Option<Bytes>) -> (r: Option<&Bytes>)
    ensures
        r is Some <==> b is Some,
        b is Some ==> r->0@ == b->0@,
{
    match b {
        Some(v) => Some(v),
        None => None,
    }
}

impl DoctypeToken {
    pub fn name(&self) -> (r: Option<&Bytes>)
        ensures
            r is Some <==> self@.name is Some,
            r is Some ==> r->0@ == self@.name->0,
    {
        opt_ref(&self.name)
    }

    pub fn public_id(&self) -> (r: Option<&Bytes>)
        ensures
            r is Some <==> self@.public_id is Some,
            r is Some ==> r->0@ == self@.public_id->0,
    {
        opt_ref(&self.public_id)
    }

    pub fn system_id(&self) -> (r: Option<&Bytes>)
        ensures
            r is Some <==> self@.system_id is Some,
            r is Some ==> r->0@ == self@.system_id->0,
    {
        opt_ref(&self.system_id)
    }

    pub fn force_quirks(&self) -> (r: bool)
        ensures
            r == self@.force_quirks,
    {
        self.force_quirks
    }
}

/// What a token holds, as mathematical values.
pub enum TokenModel {
    Character(Seq<u8>),
    Comment(Seq<u8>),
    StartTag(StartTagModel),
    EndTag(Seq<u8>),
    Doctype(DoctypeModel),
    Eof,
}

#[derive(Debug)]
pub enum Token {
    Character(CharacterToken),
    Comment(CommentToken),
    StartTag(StartTagToken),
    EndTag(EndTagToken),
    Doctype(DoctypeToken),
    Eof,
}

impl View for Token {
    type V = TokenModel;

    open spec fn view(&self) -> TokenModel {
        match self {
            Token::Character(t) => TokenModel::Character(t@),
            Token::Comment(t) => TokenModel::Comment(t@),
            Token::StartTag(t) => TokenModel::StartTag(t@),
            Token::EndTag(t) => TokenModel::EndTag(t@),
            Token::Doctype(t) => TokenModel::Doctype(t@),
            Token::Eof => TokenModel::Eof,
        }
    }
}

impl Token {
    pub fn new_character(text: Bytes) -> (r: Token)
        ensures
            r@ == TokenModel::Character(text@),
    {
        Token::Character(CharacterToken { text })
    }

    pub fn new_comment(text: Bytes) -> (r: Token)
        ensures
            r@ == TokenModel::Comment(text@),
    {
        Token::Comment(CommentToken { text })
    }

    pub fn new_start_tag(name: Bytes, attributes: ParsedAttributeList, self_closing: bool) -> (r:
        Token)
        ensures
            r@ == TokenModel::StartTag(
                StartTagModel {
                    name: name@,
                    attributes: attributes_view(attributes@),
                    self_closing,
                },
            ),
    {
        Token::StartTag(StartTagToken { name, attributes, self_closing })
    }

    pub fn new_end_tag(name: Bytes) -> (r: Token)
        ensures
            r@ == TokenModel::EndTag(name@),
    {
        Token::EndTag(EndTagToken { name })
    }

    pub fn new_doctype(
        name: Option<Bytes>,
        public_id: Option<Bytes>,
        system_id: Option<Bytes>,
        force_quirks: bool,
    ) -> (r: Token)
        ensures
            r@ == TokenModel::Doctype(
                DoctypeModel {
                    name: opt_view(name),
                    public_id: opt_view(public_id),
                    system_id: opt_view(system_id),
                    force_quirks,
                },
            ),
    {
        Token::Doctype(DoctypeToken { name, public_id, system_id, force_quirks })
    }
}

/// Which byte sequences count as markup while text is read.
#[derive(Debug, Clone, Copy, PartialEq, Eq, Structural)]
pub enum TextParsingMode {
    Data,
    RcData,
    RawText,
    ScriptData,
    PlainText,
    CDataSection,
}

/// One unit of output: the exact input bytes it covers, the token read from
/// them if any, and the text mode in force while they were read.
#[derive(Debug)]
pub struct LexUnit {
    raw: Bytes,
    token: Option<Token>,
    parsing_mode: TextParsingMode,
}

/// What a unit holds, as mathematical values.
pub struct LexUnitModel {
    pub raw: Seq<u8>,
    pub token: Option<TokenModel>,
    pub parsing_mode: TextParsingMode,
}

pub open spec fn opt_token_view(t: Option<Token>) -> Option<TokenModel> {
    match t {
        Some(t) => Some(t@),
        None => None,
    }
}

impl View for LexUnit {
    type V = LexUnitModel;

    closed spec fn view(&self) -> LexUnitModel {
        LexUnitModel {
            raw: self.raw@,
            token: opt_token_view(self.token),
            parsing_mode: self.parsing_mode,
        }
    }
}

impl LexUnit {
    pub fn new(raw: Bytes, token: Option<Token>, parsing_mode: TextParsingMode) -> (r: LexUnit)
        ensures
            r@ == (LexUnitModel { raw: raw@, token: opt_token_view(token), parsing_mode }),
    {
        LexUnit { raw, token, parsing_mode }
    }

    pub fn raw(&self) -> (r: &Bytes)
        ensures
            r@ == self@.raw,
    {
        &self.raw
    }

    pub fn token(&self) -> (r: Option<&Token>)
        ensures
            r is Some <==> self@.token is Some,
            r is Some ==> r->0@ == self@.token->0,
    {
        match &self.token {
            Some(t) => Some(t),
            None => None,
        }
    }

    pub fn parsing_mode(&self) -> (r: TextParsingMode)
        ensures
            r == self@.parsing_mode,
    {
        self.parsing_mode
    }
}

} // verus!
