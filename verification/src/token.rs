use vstd::prelude::*;

verus! {

/// What the decode and feature-extraction steps read of a token: its
/// surface value, its normalized value, where it stands in the source
/// text as a byte range and as a character range, and an optional
/// preset entity label. Tokens are produced by an external tokenizer
/// and are read-only here.
#[derive(Debug, PartialEq)]
pub struct Token {
    pub value: String,
    pub normalized_value: String,
    pub range: core::ops::Range<usize>,
    pub char_range: core::ops::Range<usize>,
    pub entity: Option<String>,
}

/// The mathematical model of a `Token`: sequences of characters for the
/// two text forms and plain integers for the offsets.
pub ghost struct TokenView {
    pub value: Seq<char>,
    pub normalized_value: Seq<char>,
    pub byte_start: int,
    pub byte_end: int,
    pub char_start: int,
    pub char_end: int,
    pub entity: Option<Seq<char>>,
}

impl View for Token {
    type V = TokenView;

    open spec fn view(&self) -> TokenView {
        TokenView {
            value: self.value@,
            normalized_value: self.normalized_value@,
            byte_start: self.range.start as int,
            byte_end: self.range.end as int,
            char_start: self.char_range.start as int,
            char_end: self.char_range.end as int,
            entity: match self.entity {
                Some(e) => Some(e@),
                None => None,
            },
        }
    }
}

impl DeepView for Token {
    type V = TokenView;

    open spec fn deep_view(&self) -> TokenView {
        self.view()
    }
}

} // verus!
