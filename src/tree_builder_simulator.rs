//! A minimal shadow of tree construction: a stack of the open elements that
//! matter for namespaces, enough to tell the tokenizer whether it stands in
//! foreign (SVG or MathML) content and which text mode a start tag opens.
//! Implied end tags and the insertion modes of a full tree builder are left
//! out on purpose.
use vstd::prelude::*;
use crate::tag_name_hash::{
    spec_hash, tag_name_hash_of_bytes, IFRAME_TAG_HASH, MATH_TAG_HASH, NOEMBED_TAG_HASH,
    NOFRAMES_TAG_HASH, PLAINTEXT_TAG_HASH, SCRIPT_TAG_HASH, STYLE_TAG_HASH, SVG_TAG_HASH,
    TEXTAREA_TAG_HASH, TITLE_TAG_HASH, XMP_TAG_HASH,
};
use crate::token::{LexUnit, LexUnitModel, TextParsingMode, Token, TokenModel};

verus! {

#[derive(Debug, Clone, Copy, PartialEq, Eq, Structural)]
pub enum Namespace {
    Html,
    Svg,
    MathMl,
}

/// An open element: the code of its name and the namespace it opened.
#[derive(Debug, Clone, Copy, PartialEq, Eq)]
pub struct OpenElement {
    pub code: Option<u64>,
    pub namespace: Namespace,
}

/// The namespace at the top of a stack of open elements; HTML when empty.
pub open spec fn namespace_of(stack: Seq<OpenElement>) -> Namespace {
    if stack.len() == 0 {
        Namespace::Html
    } else {
        stack.last().namespace
    }
}

/// The stack after a start tag with name code `code`: `svg` and `math` open
/// a foreign subtree; inside foreign content every element is tracked so
/// that end tags nest, except one whose name has no code (its end tag could
/// not be matched); a self-closing tag opens nothing; HTML elements in HTML
/// content are not tracked.
pub open spec fn stack_after_start_tag(stack: Seq<OpenElement>, code: Option<u64>, self_closing: bool)
    -> Seq<OpenElement> {
    if self_closing {
        stack
    } else if code == Some(SVG_TAG_HASH) {
        stack.push(OpenElement { code, namespace: Namespace::Svg })
    } else if code == Some(MATH_TAG_HASH) {
        stack.push(OpenElement { code, namespace: Namespace::MathMl })
    } else if namespace_of(stack) != Namespace::Html && code is Some {
        stack.push(OpenElement { code, namespace: namespace_of(stack) })
    } else {
        stack
    }
}

/// The stack after an end tag with name code `code`: the top is popped when
/// its code matches; any other end tag is ignored.
pub open spec fn stack_after_end_tag(stack: Seq<OpenElement>, code: Option<u64>) -> Seq<
    OpenElement,
> {
    if stack.len() > 0 && code is Some && stack.last().code == code {
        stack.drop_last()
    } else {
        stack
    }
}

/// The stack after a unit: start and end tags move it, by the codes of
/// their names; any other unit leaves it as it is.
pub open spec fn stack_after_unit(stack: Seq<OpenElement>, u: LexUnitModel) -> Seq<OpenElement> {
    match u.token {
        Some(TokenModel::StartTag(t)) => stack_after_start_tag(stack, spec_hash(t.name), t.self_closing),
        Some(TokenModel::EndTag(name)) => stack_after_end_tag(stack, spec_hash(name)),
        _ => stack,
    }
}

/// The text mode that a start tag opens. In HTML content the raw-text
/// elements switch it; in foreign content it stays `Data`.
pub open spec fn spec_text_mode_after_start_tag(code: Option<u64>, namespace: Namespace)
    -> TextParsingMode {
    if namespace != Namespace::Html || code is None {
        TextParsingMode::Data
    } else {
        let c = code->0;
        if c == SCRIPT_TAG_HASH {
            TextParsingMode::ScriptData
        } else if c == STYLE_TAG_HASH || c == XMP_TAG_HASH || c == IFRAME_TAG_HASH || c
            == NOEMBED_TAG_HASH || c == NOFRAMES_TAG_HASH {
            TextParsingMode::RawText
        } else if c == TEXTAREA_TAG_HASH || c == TITLE_TAG_HASH {
            TextParsingMode::RcData
        } else if c == PLAINTEXT_TAG_HASH {
            TextParsingMode::PlainText
        } else {
            TextParsingMode::Data
        }
    }
}

/// Chooses the text mode that follows a start tag, by code comparison.
pub fn text_mode_after_start_tag(code: Option<u64>, namespace: Namespace) -> (r: TextParsingMode)
    ensures
        r == spec_text_mode_after_start_tag(code, namespace),
{
    match namespace {
        Namespace::Html => {},
        _ => {
            return TextParsingMode::Data;
        },
    }
    match code {
        None => TextParsingMode::Data,
        Some(c) => {
            if c == SCRIPT_TAG_HASH {
                TextParsingMode::ScriptData
            } else if c == STYLE_TAG_HASH || c == XMP_TAG_HASH || c == IFRAME_TAG_HASH || c
                == NOEMBED_TAG_HASH || c == NOFRAMES_TAG_HASH {
                TextParsingMode::RawText
            } else if c == TEXTAREA_TAG_HASH || c == TITLE_TAG_HASH {
                TextParsingMode::RcData
            } else if c == PLAINTEXT_TAG_HASH {
                TextParsingMode::PlainText
            } else {
                TextParsingMode::Data
            }
        },
    }
}

#[derive(Debug)]
pub struct TreeBuilderSimulator {
    stack: Vec<OpenElement>,
}

impl View for TreeBuilderSimulator {
    type V = Seq<OpenElement>;

    closed spec fn view(&self) -> Seq<OpenElement> {
        self.stack@
    }
}

impl TreeBuilderSimulator {
    pub fn new() -> (r: TreeBuilderSimulator)
        ensures
            r@ == Seq::<OpenElement>::empty(),
    {
        TreeBuilderSimulator { stack: Vec::new() }
    }

    pub fn current_namespace(&self) -> (r: Namespace)
        ensures
            r == namespace_of(self@),
    {
        let n = self.stack.len();
        if n == 0 {
            Namespace::Html
        } else {
            self.stack[n - 1].namespace
        }
    }

    pub fn is_in_foreign_content(&self) -> (r: bool)
        ensures
            r == (namespace_of(self@) != Namespace::Html),
    {
        let ns = self.current_namespace();
        match ns {
            Namespace::Html => false,
            _ => true,
        }
    }

    pub fn observe_start_tag(&mut self, code: Option<u64>, self_closing: bool)
        ensures
            final(self)@ == stack_after_start_tag(old(self)@, code, self_closing),
    {
        if self_closing {
            return ;
        }
        let ns = self.current_namespace();
        let is_svg = match code {
            Some(c) => c == SVG_TAG_HASH,
            None => false,
        };
        let is_math = match code {
            Some(c) => c == MATH_TAG_HASH,
            None => false,
        };
        if is_svg {
            self.stack.push(OpenElement { code, namespace: Namespace::Svg });
        } else if is_math {
            self.stack.push(OpenElement { code, namespace: Namespace::MathMl });
        } else if ns != Namespace::Html && code.is_some() {
            self.stack.push(OpenElement { code, namespace: ns });
        }
    }

    pub fn observe_end_tag(&mut self, code: Option<u64>)
        ensures
            final(self)@ == stack_after_end_tag(old(self)@, code),
    {
        let n = self.stack.len();
        if n > 0 {
            let matches_top = match (code, self.stack[n - 1].code) {
                (Some(c), Some(t)) => c == t,
                _ => false,
            };
            if matches_top {
                self.stack.pop();
            }
        }
    }

    /// Updates the shadow state from one emitted unit: start and end tags
    /// move the stack, every other unit leaves it as it is.
    pub fn observe(&mut self, unit: &LexUnit)
        ensures
            final(self)@ == stack_after_unit(old(self)@, unit@),
    {
        match unit.token() {
            Some(Token::StartTag(t)) => {
                let code = tag_name_hash_of_bytes(t.name().as_slice());
                self.observe_start_tag(code, t.self_closing());
            },
            Some(Token::EndTag(t)) => {
                let code = tag_name_hash_of_bytes(t.name().as_slice());
                self.observe_end_tag(code);
            },
            _ => {},
        }
    }
}

} // verus!
