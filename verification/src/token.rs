use vstd::prelude::*;

verus! {

/// Mathematical model of a token: its normalized text, the span of the
/// original input it was produced from (counted in characters), and its
/// position in the emitted stream.
pub struct TokenModel {
    pub text: Seq<char>,
    pub offset_from: nat,
    pub offset_to: nat,
    pub position: nat,
}

/// One unit emitted by a tokenization run: a piece of normalized text, the
/// character span of the input it came from, and its sequence position.
#[derive(Debug, PartialEq, Eq)]
pub struct Token {
    pub text: String,
    pub offset_from: usize,
    pub offset_to: usize,
    pub position: usize,
}

impl View for Token {
    type V = TokenModel;

    open spec fn view(&self) -> TokenModel {
        TokenModel {
            text: self.text@,
            offset_from: self.offset_from as nat,
            offset_to: self.offset_to as nat,
            position: self.position as nat,
        }
    }
}

impl Token {
    /// An independent copy of the token.
    pub fn duplicate(&self) -> (t: Token)
        ensures
            t@ == self@,
    {
        Token {
            text: self.text.clone(),
            offset_from: self.offset_from,
            offset_to: self.offset_to,
            position: self.position,
        }
    }
}

/// The models of a sequence of tokens, element by element.
pub open spec fn views_of(toks: Seq<Token>) -> Seq<TokenModel> {
    toks.map_values(|t: Token| t@)
}

/// Positions never decrease along the stream a single run emits.
pub open spec fn positions_nondecreasing(toks: Seq<TokenModel>) -> bool {
    forall|i: int, j: int| 0 <= i <= j < toks.len() ==> toks[i].position <= toks[j].position
}

/// Positions strictly increase along the stream: no position is duplicated
/// and none comes out of order.
pub open spec fn positions_increasing(toks: Seq<TokenModel>) -> bool {
    forall|i: int, j: int| 0 <= i < j < toks.len() ==> toks[i].position < toks[j].position
}

} // verus!
