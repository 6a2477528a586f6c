//! Structural events of an XML document and their nesting-depth arithmetic.

use vstd::prelude::*;

verus! {

/// One attribute of an element: its local name and its entity-decoded value.
pub struct Attr {
    pub key: String,
    pub value: String,
}

/// The mathematical image of an [`Attr`].
pub struct AttrV {
    pub key: Seq<char>,
    pub value: Seq<char>,
}

impl View for Attr {
    type V = AttrV;

    open spec fn view(&self) -> AttrV {
        AttrV { key: self.key@, value: self.value@ }
    }
}

/// One structural event of an XML document: an element open carrying the
/// element's attributes in document order, an element close, or any other
/// event (text, comments, processing instructions, document delimiters),
/// which the conversion ignores.
pub enum XmlToken {
    Open { attrs: Vec<Attr> },
    Close,
    Other,
}

/// The mathematical image of an [`XmlToken`].
pub enum TokenV {
    Open { attrs: Seq<AttrV> },
    Close,
    Other,
}

impl View for XmlToken {
    type V = TokenV;

    open spec fn view(&self) -> TokenV {
        match self {
            XmlToken::Open { attrs } => TokenV::Open { attrs: attrs@.map_values(|a: Attr| a@) },
            XmlToken::Close => TokenV::Close,
            XmlToken::Other => TokenV::Other,
        }
    }
}

/// The images of a sequence of tokens.
pub open spec fn token_views(ts: Seq<XmlToken>) -> Seq<TokenV> {
    ts.map_values(|t: XmlToken| t@)
}

/// How one token changes the nesting depth: +1 on open, -1 on close.
pub open spec fn token_delta(t: TokenV) -> int {
    match t {
        TokenV::Open { attrs: _ } => 1,
        TokenV::Close => -1,
        TokenV::Other => 0,
    }
}

/// The nesting depth reached after consuming the whole token sequence,
/// starting from depth 0.
pub open spec fn depth_delta(ts: Seq<TokenV>) -> int
    decreases ts.len(),
{
    if ts.len() == 0 {
        0
    } else {
        token_delta(ts.first()) + depth_delta(ts.drop_first())
    }
}

/// A well-nested event stream: no prefix closes more elements than it has
/// opened, so the running depth never goes below 0.
pub open spec fn wf_tokens(ts: Seq<TokenV>) -> bool {
    forall|i: int| 0 <= i <= ts.len() ==> #[trigger] depth_delta(ts.take(i)) >= 0
}

/// An element open that carries at least one attribute: the tokens that
/// contribute a record to the output.
pub open spec fn is_attr_open(t: TokenV) -> bool {
    t matches TokenV::Open { attrs } && attrs.len() > 0
}

/// The attributes of an element open, or the empty sequence for any other
/// token.
pub open spec fn open_attrs(t: TokenV) -> Seq<AttrV> {
    match t {
        TokenV::Open { attrs } => attrs,
        TokenV::Close => Seq::empty(),
        TokenV::Other => Seq::empty(),
    }
}

/// How many elements of the stream carry a non-empty attribute set.
pub open spec fn attr_open_count(ts: Seq<TokenV>) -> int
    decreases ts.len(),
{
    if ts.len() == 0 {
        0
    } else {
        (if is_attr_open(ts.first()) {
            1int
        } else {
            0int
        }) + attr_open_count(ts.drop_first())
    }
}

/// The position of the `n`-th attribute-carrying element open in the stream
/// (counting from 0), for `n` below `attr_open_count(ts)`.
pub open spec fn nth_attr_open_index(ts: Seq<TokenV>, n: int) -> int
    decreases ts.len(),
{
    if ts.len() == 0 {
        0
    } else if is_attr_open(ts.first()) {
        if n == 0 {
            0
        } else {
            1 + nth_attr_open_index(ts.drop_first(), n - 1)
        }
    } else {
        1 + nth_attr_open_index(ts.drop_first(), n)
    }
}

pub proof fn lemma_depth_delta_push(ts: Seq<TokenV>, t: TokenV)
    ensures
        depth_delta(ts.push(t)) == depth_delta(ts) + token_delta(t),
    decreases ts.len(),
{
    if ts.len() == 0 {
        assert(ts.push(t).first() == t);
        assert(ts.push(t).drop_first() =~= Seq::<TokenV>::empty());
        assert(depth_delta(Seq::<TokenV>::empty()) == 0);
        assert(depth_delta(ts.push(t)) == token_delta(t));
    } else {
        assert(ts.push(t).first() == ts.first());
        assert(ts.push(t).drop_first() =~= ts.drop_first().push(t));
        lemma_depth_delta_push(ts.drop_first(), t);
    }
}

pub proof fn lemma_depth_delta_le_len(ts: Seq<TokenV>)
    ensures
        depth_delta(ts) <= ts.len(),
    decreases ts.len(),
{
    if ts.len() > 0 {
        lemma_depth_delta_le_len(ts.drop_first());
    }
}

} // verus!
