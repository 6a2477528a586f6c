//! The output text format: what the emitted Lua module looks like, as
//! functions from token sequences to character sequences, with the laws the
//! format obeys.

use vstd::prelude::*;
use crate::token::{
    AttrV, TokenV, token_delta, depth_delta, wf_tokens, is_attr_open, open_attrs,
    attr_open_count, nth_attr_open_index,
};

verus! {

/// The opening line of every emitted module.
pub open spec fn lua_header() -> Seq<char> {
    "local M = {\n"@
}

/// The closing brace and the registry assignment that end every module.
pub open spec fn lua_footer(module: Seq<char>) -> Seq<char> {
    "}\n"@ + "_G.ConfigTable."@ + module + " = M"@
}

/// `depth` repetitions of the four-space indentation unit.
pub open spec fn indent_text(depth: int) -> Seq<char>
    decreases depth,
{
    if depth <= 0 {
        Seq::empty()
    } else {
        "    "@ + indent_text(depth - 1)
    }
}

/// One `key="value",` pair.
pub open spec fn attr_text(a: AttrV) -> Seq<char> {
    a.key + "=\""@ + a.value + "\","@
}

/// All pairs of one element, in document order.
pub open spec fn attrs_text(attrs: Seq<AttrV>) -> Seq<char>
    decreases attrs.len(),
{
    if attrs.len() == 0 {
        Seq::empty()
    } else {
        attr_text(attrs.first()) + attrs_text(attrs.drop_first())
    }
}

/// One attribute record: indentation, an inline sub-table holding the pairs,
/// a trailing comma and newline.
pub open spec fn record_text(depth: int, attrs: Seq<AttrV>) -> Seq<char> {
    indent_text(depth) + "{"@ + attrs_text(attrs) + "},\n"@
}

/// What one token contributes at a given depth: a record for an open that
/// carries attributes, nothing otherwise.
pub open spec fn token_text(t: TokenV, depth: int) -> Seq<char> {
    match t {
        TokenV::Open { attrs } => {
            if attrs.len() > 0 {
                record_text(depth, attrs)
            } else {
                Seq::empty()
            }
        },
        TokenV::Close => Seq::empty(),
        TokenV::Other => Seq::empty(),
    }
}

/// The body of the module: each token's contribution, with the depth counter
/// threaded through the stream.
pub open spec fn body_text(ts: Seq<TokenV>, depth: int) -> Seq<char>
    decreases ts.len(),
{
    if ts.len() == 0 {
        Seq::empty()
    } else {
        token_text(ts.first(), depth) + body_text(ts.drop_first(), depth + token_delta(ts.first()))
    }
}

/// The whole output document for one token stream and one module name.
pub open spec fn lua_text(ts: Seq<TokenV>, module: Seq<char>) -> Seq<char> {
    lua_header() + body_text(ts, 0) + lua_footer(module)
}

pub proof fn lemma_body_text_push(ts: Seq<TokenV>, t: TokenV, depth: int)
    ensures
        body_text(ts.push(t), depth) == body_text(ts, depth) + token_text(
            t,
            depth + depth_delta(ts),
        ),
    decreases ts.len(),
{
    if ts.len() == 0 {
        assert(ts.push(t).first() == t);
        assert(ts.push(t).drop_first() =~= Seq::<TokenV>::empty());
        assert(body_text(Seq::<TokenV>::empty(), depth + token_delta(t)) == Seq::<char>::empty());
        assert(body_text(ts, depth) + token_text(t, depth + depth_delta(ts)) =~= token_text(
            t,
            depth,
        ));
        assert(body_text(ts.push(t), depth) =~= token_text(t, depth));
    } else {
        assert(ts.push(t).first() == ts.first());
        assert(ts.push(t).drop_first() =~= ts.drop_first().push(t));
        lemma_body_text_push(ts.drop_first(), t, depth + token_delta(ts.first()));
        assert(body_text(ts.push(t), depth) =~= body_text(ts, depth) + token_text(
            t,
            depth + depth_delta(ts),
        ));
    }
}

pub proof fn lemma_indent_text_snoc(depth: int)
    requires
        depth >= 0,
    ensures
        indent_text(depth) + "    "@ == indent_text(depth + 1),
    decreases depth,
{
    if depth == 0 {
        assert(indent_text(0) + "    "@ =~= "    "@ + indent_text(0));
    } else {
        lemma_indent_text_snoc(depth - 1);
        assert(("    "@ + indent_text(depth - 1)) + "    "@ =~= "    "@ + (indent_text(depth - 1)
            + "    "@));
    }
}

/// The indentation of a record is exactly four spaces per depth unit.
pub proof fn lemma_indent_text_len(depth: int)
    requires
        depth >= 0,
    ensures
        indent_text(depth).len() == 4 * depth,
        forall|k: int| 0 <= k < 4 * depth ==> indent_text(depth)[k] == ' ',
    decreases depth,
{
    reveal_strlit("    ");
    if depth > 0 {
        lemma_indent_text_len(depth - 1);
    }
}

/// Builds the indentation prefix for one nesting depth: `size` repetitions
/// of the four-space unit.
pub fn indent(size: usize) -> (r: String)
    ensures
        r@ == indent_text(size as int),
{
    let mut r = String::new();
    let mut i: usize = 0;
    while i < size
        invariant
            i <= size,
            r@ == indent_text(i as int),
        decreases size - i,
    {
        r.append("    ");
        proof {
            lemma_indent_text_snoc(i as int);
        }
        i += 1;
    }
    r
}

/// One attribute record of the output: the nesting depth its element was
/// opened at, and its attribute set.
pub struct RecordV {
    pub depth: int,
    pub attrs: Seq<AttrV>,
}

/// The records the stream produces, in document order: one per
/// attribute-carrying element open, at the depth reached when that open
/// fires.
pub open spec fn records_of(ts: Seq<TokenV>, depth: int) -> Seq<RecordV>
    decreases ts.len(),
{
    if ts.len() == 0 {
        Seq::empty()
    } else {
        let rest = records_of(ts.drop_first(), depth + token_delta(ts.first()));
        if is_attr_open(ts.first()) {
            seq![RecordV { depth, attrs: open_attrs(ts.first()) }] + rest
        } else {
            rest
        }
    }
}

/// The text of a sequence of records, concatenated in order.
pub open spec fn records_text(rs: Seq<RecordV>) -> Seq<char>
    decreases rs.len(),
{
    if rs.len() == 0 {
        Seq::empty()
    } else {
        record_text(rs.first().depth, rs.first().attrs) + records_text(rs.drop_first())
    }
}

/// A stream with no attribute-carrying element contributes an empty body:
/// the output is exactly the opener, the closer and the registry assignment.
pub proof fn lemma_no_attributes_empty_body(ts: Seq<TokenV>, module: Seq<char>)
    requires
        forall|i: int| 0 <= i < ts.len() ==> !is_attr_open(#[trigger] ts[i]),
    ensures
        lua_text(ts, module) == lua_header() + lua_footer(module),
{
    lemma_no_attr_opens_body_empty(ts, 0);
    assert(lua_header() + Seq::<char>::empty() + lua_footer(module) =~= lua_header() + lua_footer(
        module,
    ));
}

proof fn lemma_no_attr_opens_body_empty(ts: Seq<TokenV>, depth: int)
    requires
        forall|i: int| 0 <= i < ts.len() ==> !is_attr_open(#[trigger] ts[i]),
    ensures
        body_text(ts, depth) == Seq::<char>::empty(),
    decreases ts.len(),
{
    if ts.len() > 0 {
        assert(forall|i: int|
            0 <= i < ts.drop_first().len() ==> ts.drop_first()[i] == #[trigger] ts[i + 1]);
        lemma_no_attr_opens_body_empty(ts.drop_first(), depth + token_delta(ts.first()));
        assert(token_text(ts.first(), depth) == Seq::<char>::empty());
        assert(body_text(ts, depth) =~= Seq::<char>::empty());
    }
}

/// The stream produces exactly one record per attribute-carrying element
/// open.
pub proof fn lemma_record_count(ts: Seq<TokenV>, depth: int)
    ensures
        records_of(ts, depth).len() == attr_open_count(ts),
        attr_open_count(ts) >= 0,
    decreases ts.len(),
{
    if ts.len() > 0 {
        lemma_record_count(ts.drop_first(), depth + token_delta(ts.first()));
    }
}

/// The body of the output is nothing but the records' text, concatenated in
/// document order.
pub proof fn lemma_body_text_is_records(ts: Seq<TokenV>, depth: int)
    ensures
        body_text(ts, depth) == records_text(records_of(ts, depth)),
    decreases ts.len(),
{
    if ts.len() > 0 {
        let rest = records_of(ts.drop_first(), depth + token_delta(ts.first()));
        lemma_body_text_is_records(ts.drop_first(), depth + token_delta(ts.first()));
        if is_attr_open(ts.first()) {
            let r = RecordV { depth, attrs: open_attrs(ts.first()) };
            assert((seq![r] + rest).first() == r);
            assert((seq![r] + rest).drop_first() =~= rest);
            assert(token_text(ts.first(), depth) == record_text(depth, open_attrs(ts.first())));
            assert(body_text(ts, depth) =~= records_text(records_of(ts, depth)));
        } else {
            assert(token_text(ts.first(), depth) == Seq::<char>::empty());
            assert(body_text(ts, depth) =~= records_text(records_of(ts, depth)));
        }
    }
}

/// The `n`-th record comes from the `n`-th attribute-carrying element open,
/// carries that element's attribute set, and stands at the nesting depth
/// reached at the moment that open fires.
pub proof fn lemma_nth_record(ts: Seq<TokenV>, depth: int, n: int)
    requires
        0 <= n < attr_open_count(ts),
    ensures
        records_of(ts, depth).len() == attr_open_count(ts),
        ({
            let j = nth_attr_open_index(ts, n);
            &&& 0 <= j < ts.len()
            &&& is_attr_open(ts[j])
            &&& records_of(ts, depth)[n] == (RecordV {
                depth: depth + depth_delta(ts.take(j)),
                attrs: open_attrs(ts[j]),
            })
        }),
    decreases ts.len(),
{
    lemma_record_count(ts, depth);
    let rest = ts.drop_first();
    let d1 = depth + token_delta(ts.first());
    lemma_record_count(rest, d1);
    if is_attr_open(ts.first()) && n == 0 {
        assert(ts.take(0) =~= Seq::<TokenV>::empty());
        assert(records_of(ts, depth)[0] == (RecordV { depth, attrs: open_attrs(ts.first()) }));
    } else {
        let m = if is_attr_open(ts.first()) {
            n - 1
        } else {
            n
        };
        lemma_nth_record(rest, d1, m);
        let j1 = nth_attr_open_index(rest, m);
        let j = nth_attr_open_index(ts, n);
        assert(j == 1 + j1);
        assert(ts[j] == rest[j1]);
        assert(ts.take(j).first() == ts.first());
        assert(ts.take(j).drop_first() =~= rest.take(j1));
        assert(depth_delta(ts.take(j)) == token_delta(ts.first()) + depth_delta(rest.take(j1)));
        if is_attr_open(ts.first()) {
            let r = RecordV { depth, attrs: open_attrs(ts.first()) };
            assert(records_of(ts, depth) == seq![r] + records_of(rest, d1));
            assert(records_of(ts, depth)[n] == records_of(rest, d1)[m]);
        }
    }
}

/// Every output document begins with the module-table opener and ends with
/// the closing table marker followed by the registry assignment.
pub proof fn lemma_output_delimited(ts: Seq<TokenV>, module: Seq<char>)
    ensures
        lua_text(ts, module).len() >= lua_header().len() + lua_footer(module).len(),
        lua_text(ts, module).take(lua_header().len() as int) == lua_header(),
        lua_text(ts, module).skip(
            lua_text(ts, module).len() - lua_footer(module).len(),
        ) == lua_footer(module),
{
    assert(lua_text(ts, module).take(lua_header().len() as int) =~= lua_header());
    assert(lua_text(ts, module).skip(
        lua_text(ts, module).len() - lua_footer(module).len(),
    ) =~= lua_footer(module));
}

/// A record's text begins with its indentation: exactly four spaces per
/// depth unit.
pub proof fn lemma_record_indent_width(depth: int, attrs: Seq<AttrV>)
    requires
        depth >= 0,
    ensures
        record_text(depth, attrs).len() >= 4 * depth,
        record_text(depth, attrs).take(4 * depth) == indent_text(depth),
        forall|k: int| 0 <= k < 4 * depth ==> record_text(depth, attrs)[k] == ' ',
{
    lemma_indent_text_len(depth);
    assert(record_text(depth, attrs).take(4 * depth) =~= indent_text(depth));
}

/// For a well-nested stream, the `n`-th emitted record is indented by
/// exactly four spaces per nesting level of the `n`-th attribute-carrying
/// element at the moment its open event fires, the root standing at level 0.
pub proof fn lemma_nth_record_indent(ts: Seq<TokenV>, n: int)
    requires
        wf_tokens(ts),
        0 <= n < attr_open_count(ts),
    ensures
        0 <= n < records_of(ts, 0).len(),
        ({
            let j = nth_attr_open_index(ts, n);
            let d = depth_delta(ts.take(j));
            let r = records_of(ts, 0)[n];
            &&& 0 <= j < ts.len()
            &&& is_attr_open(ts[j])
            &&& r.depth == d
            &&& r.attrs == open_attrs(ts[j])
            &&& d >= 0
            &&& record_text(r.depth, r.attrs).take(4 * d) == indent_text(d)
            &&& indent_text(d).len() == 4 * d
        }),
{
    lemma_nth_record(ts, 0, n);
    let j = nth_attr_open_index(ts, n);
    assert(depth_delta(ts.take(j)) >= 0);
    lemma_record_indent_width(depth_delta(ts.take(j)), open_attrs(ts[j]));
}

/// Within a record, each attribute's value stands byte for byte between the
/// double quotes of its own `key="value",` pair, the pairs in document
/// order.
pub proof fn lemma_attrs_text_decompose(attrs: Seq<AttrV>, n: int)
    requires
        0 <= n < attrs.len(),
    ensures
        attrs_text(attrs) == attrs_text(attrs.take(n)) + (attrs[n].key + "=\""@ + attrs[n].value
            + "\","@) + attrs_text(attrs.skip(n + 1)),
    decreases n,
{
    if n == 0 {
        assert(attrs.take(0) =~= Seq::<AttrV>::empty());
        assert(attrs.skip(1) =~= attrs.drop_first());
        assert(attrs_text(attrs.take(0)) + attr_text(attrs[0]) + attrs_text(attrs.skip(1)) =~= attr_text(
            attrs.first(),
        ) + attrs_text(attrs.drop_first()));
    } else {
        let rest = attrs.drop_first();
        lemma_attrs_text_decompose(rest, n - 1);
        assert(rest.take(n - 1) =~= attrs.take(n).drop_first());
        assert(attrs.take(n).first() == attrs.first());
        assert(rest.skip(n) =~= attrs.skip(n + 1));
        assert(rest[n - 1] == attrs[n]);
        assert(attrs_text(attrs.take(n)) == attr_text(attrs.first()) + attrs_text(
            attrs.take(n).drop_first(),
        ));
        assert(attrs_text(attrs) =~= attrs_text(attrs.take(n)) + attr_text(attrs[n])
            + attrs_text(attrs.skip(n + 1)));
    }
}

pub proof fn lemma_attrs_text_push(attrs: Seq<AttrV>, a: AttrV)
    ensures
        attrs_text(attrs.push(a)) == attrs_text(attrs) + attr_text(a),
    decreases attrs.len(),
{
    if attrs.len() == 0 {
        assert(attrs.push(a).first() == a);
        assert(attrs.push(a).drop_first() =~= Seq::<AttrV>::empty());
        assert(attrs_text(Seq::<AttrV>::empty()) == Seq::<char>::empty());
        assert(attrs_text(attrs.push(a)) =~= attr_text(a));
        assert(attrs_text(attrs) + attr_text(a) =~= attr_text(a));
    } else {
        assert(attrs.push(a).first() == attrs.first());
        assert(attrs.push(a).drop_first() =~= attrs.drop_first().push(a));
        lemma_attrs_text_push(attrs.drop_first(), a);
        assert(attrs_text(attrs.push(a)) =~= attrs_text(attrs) + attr_text(a));
    }
}

} // verus!
