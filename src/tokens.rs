use vstd::prelude::*;

verus! {

/// One unit of the HTML token stream.
///
/// `Text` content is plain text that the serializer escapes; `RawText` is
/// passed through verbatim.
#[derive(Clone, Debug, PartialEq, Eq)]
pub enum Token {
    /// An opening tag; its attributes keep their insertion order and have
    /// distinct names.
    StartTag { name: String, attrs: Vec<(String, String)>, self_closing: bool },
    EndTag { name: String },
    Text(String),
    RawText(String),
}

/// Mathematical model of a [`Token`].
pub enum TokenV {
    StartTag { name: Seq<char>, attrs: Seq<(Seq<char>, Seq<char>)>, self_closing: bool },
    EndTag { name: Seq<char> },
    Text(Seq<char>),
    RawText(Seq<char>),
}

/// The model of an attribute list.
pub open spec fn attrs_view(attrs: Seq<(String, String)>) -> Seq<(Seq<char>, Seq<char>)> {
    attrs.map_values(|p: (String, String)| (p.0@, p.1@))
}

impl View for Token {
    type V = TokenV;

    open spec fn view(&self) -> TokenV {
        match self {
            Token::StartTag { name, attrs, self_closing } => TokenV::StartTag {
                name: name@,
                attrs: attrs_view(attrs@),
                self_closing: *self_closing,
            },
            Token::EndTag { name } => TokenV::EndTag { name: name@ },
            Token::Text(s) => TokenV::Text(s@),
            Token::RawText(s) => TokenV::RawText(s@),
        }
    }
}

} // verus!
