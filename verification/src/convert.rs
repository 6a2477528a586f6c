//! The conversion itself: module-name derivation, the extension filter, and
//! the pass from a token stream to the output text.

use vstd::prelude::*;
use crate::token::{
    Attr, AttrV, XmlToken, TokenV, token_views, depth_delta, wf_tokens, lemma_depth_delta_push,
    lemma_depth_delta_le_len,
};
use crate::text::{
    lua_header, lua_text, body_text, token_text, record_text, attrs_text, indent,
    lemma_body_text_push, lemma_attrs_text_push,
};
use crate::parse::{ParseError, xml_parse_of, parse_xml_tokens};

verus! {

/// Index of the first `'.'` in `s`, or `s.len()` if there is none.
pub open spec fn first_dot(s: Seq<char>) -> int
    decreases s.len(),
{
    if s.len() == 0 {
        0
    } else if s.first() == '.' {
        0
    } else {
        1 + first_dot(s.drop_first())
    }
}

/// The module name derived from a file name: everything before the first
/// `'.'`, or the whole name if it has none.
pub open spec fn module_name_of(s: Seq<char>) -> Seq<char> {
    s.take(first_dot(s))
}

proof fn lemma_first_dot_at(s: Seq<char>, j: int)
    requires
        0 <= j <= s.len(),
        forall|k: int| 0 <= k < j ==> s[k] != '.',
        j == s.len() || s[j] == '.',
    ensures
        first_dot(s) == j,
    decreases j,
{
    if j > 0 {
        lemma_first_dot_at(s.drop_first(), j - 1);
    }
}

/// Derives the module name from a file name by keeping what stands before
/// the first period.
pub fn module_name(file_name: &str) -> (r: String)
    ensures
        r@ == module_name_of(file_name@),
{
    let n = file_name.unicode_len();
    let mut i: usize = 0;
    let mut dot: usize = n;
    while i < n
        invariant
            i <= n,
            n == file_name@.len(),
            dot == n || (dot < i && file_name@[dot as int] == '.'),
            dot == n ==> forall|k: int| 0 <= k < i ==> file_name@[k] != '.',
            dot < n ==> forall|k: int| 0 <= k < dot ==> file_name@[k] != '.',
        decreases n - i,
    {
        if dot == n && file_name.get_char(i) == '.' {
            dot = i;
        }
        i += 1;
    }
    proof {
        lemma_first_dot_at(file_name@, dot as int);
    }
    let prefix = file_name.substring_char(0, dot);
    prefix.to_owned()
}

/// A file name whose extension is exactly `xml`: it ends in `.xml`, and that
/// period is not the name's first character (a leading period alone marks a
/// hidden file, not an extension).
pub open spec fn is_xml_name(s: Seq<char>) -> bool {
    &&& s.len() >= 5
    &&& s[s.len() - 4] == '.'
    &&& s[s.len() - 3] == 'x'
    &&& s[s.len() - 2] == 'm'
    &&& s[s.len() - 1] == 'l'
}

/// Decides whether a file name carries the `xml` extension; names without
/// any extension are simply no match.
pub fn is_xml_file(file_name: &str) -> (r: bool)
    ensures
        r == is_xml_name(file_name@),
{
    let n = file_name.unicode_len();
    if n < 5 {
        return false;
    }
    file_name.get_char(n - 4) == '.' && file_name.get_char(n - 3) == 'x' && file_name.get_char(
        n - 2,
    ) == 'm' && file_name.get_char(n - 1) == 'l'
}

/// The single forward pass over the structural events: every element open
/// that carries attributes emits one record, indented four spaces per depth
/// unit reached at that open; the depth counter rises on opens and falls on
/// closes; everything else emits nothing.
pub fn tokens_to_lua(tokens: &Vec<XmlToken>, module: &str) -> (r: String)
    requires
        wf_tokens(token_views(tokens@)),
    ensures
        r@ == lua_text(token_views(tokens@), module@),
{
    let ghost tv = token_views(tokens@);
    let mut buf = String::from_str("local M = {\n");
    let mut depth: usize = 0;
    let mut i: usize = 0;
    while i < tokens.len()
        invariant
            i <= tokens.len(),
            tokens@.len() == tv.len(),
            tv == token_views(tokens@),
            wf_tokens(tv),
            depth as int == depth_delta(tv.take(i as int)),
            buf@ == lua_header() + body_text(tv.take(i as int), 0),
        decreases tokens.len() - i,
    {
        let ghost prev = tv.take(i as int);
        let ghost d0 = depth as int;
        proof {
            assert(tv[i as int] == tokens@[i as int]@);
            assert(tv.take(i as int + 1) =~= prev.push(tv[i as int]));
            lemma_depth_delta_push(prev, tv[i as int]);
            lemma_body_text_push(prev, tv[i as int], 0);
            lemma_depth_delta_le_len(prev);
        }
        let t = &tokens[i];
        match t {
            XmlToken::Open { attrs } => {
                let ghost av = attrs@.map_values(|a: Attr| a@);
                proof {
                    assert(tv[i as int] == (TokenV::Open { attrs: av }));
                }
                if attrs.len() > 0 {
                    let ind = indent(depth);
                    buf.append(ind.as_str());
                    buf.append("{");
                    let ghost base = buf@;
                    let mut j: usize = 0;
                    while j < attrs.len()
                        invariant
                            j <= attrs.len(),
                            av == attrs@.map_values(|a: Attr| a@),
                            av.len() == attrs@.len(),
                            buf@ == base + attrs_text(av.take(j as int)),
                        decreases attrs.len() - j,
                    {
                        let a = &attrs[j];
                        buf.append(a.key.as_str());
                        buf.append("=\"");
                        buf.append(a.value.as_str());
                        buf.append("\",");
                        proof {
                            assert(av[j as int] == attrs@[j as int]@);
                            assert(av.take(j as int + 1) =~= av.take(j as int).push(
                                av[j as int],
                            ));
                            lemma_attrs_text_push(av.take(j as int), av[j as int]);
                            assert(buf@ =~= base + attrs_text(av.take(j as int + 1)));
                        }
                        j += 1;
                    }
                    buf.append("},\n");
                    proof {
                        assert(av.take(av.len() as int) =~= av);
                        assert(token_text(tv[i as int], d0) == record_text(d0, av));
                        assert(buf@ =~= lua_header() + body_text(tv.take(i as int + 1), 0));
                    }
                } else {
                    proof {
                        assert(token_text(tv[i as int], d0) == Seq::<char>::empty());
                        assert(buf@ =~= lua_header() + body_text(tv.take(i as int + 1), 0));
                    }
                }
                depth += 1;
            },
            XmlToken::Close => {
                proof {
                    assert(depth_delta(tv.take(i as int + 1)) == d0 - 1);
                    assert(depth_delta(tv.take(i as int + 1)) >= 0);
                    assert(buf@ =~= lua_header() + body_text(tv.take(i as int + 1), 0));
                }
                depth -= 1;
            },
            XmlToken::Other => {
                proof {
                    assert(buf@ =~= lua_header() + body_text(tv.take(i as int + 1), 0));
                }
            },
        }
        i += 1;
    }
    proof {
        assert(tv.take(tv.len() as int) =~= tv);
    }
    buf.append("}\n");
    buf.append("_G.ConfigTable.");
    buf.append(module);
    buf.append(" = M");
    proof {
        assert(buf@ =~= lua_text(tv, module@));
    }
    buf
}

/// What one conversion produces for a file's bytes and its name: the output
/// text, or nothing when the document is malformed.
pub open spec fn convert_spec(content: Seq<u8>, file_name: Seq<char>) -> Option<Seq<char>> {
    match xml_parse_of(content) {
        Some(tv) => Some(lua_text(tv, module_name_of(file_name))),
        None => None,
    }
}

/// Converts one XML file's bytes into the text of its Lua module, named
/// after the part of `file_name` before the first period. Returns the
/// parser's diagnostic instead exactly when the document is malformed.
pub fn convert_xml_to_lua(content: &[u8], file_name: &str) -> (r: Result<String, ParseError>)
    ensures
        r is Ok <==> convert_spec(content@, file_name@) is Some,
        r matches Ok(text) ==> convert_spec(content@, file_name@) == Some(text@),
{
    let module = module_name(file_name);
    match parse_xml_tokens(content) {
        Ok(tokens) => Ok(tokens_to_lua(&tokens, module.as_str())),
        Err(e) => Err(e),
    }
}

/// Re-running the conversion on unchanged input is idempotent: the output is
/// a function of the file's bytes and name alone, so two runs that each meet
/// the conversion's contract return byte-identical text.
pub proof fn lemma_conversion_deterministic(
    content: Seq<u8>,
    file_name: Seq<char>,
    r1: Option<Seq<char>>,
    r2: Option<Seq<char>>,
)
    requires
        r1 == convert_spec(content, file_name),
        r2 == convert_spec(content, file_name),
    ensures
        r1 == r2,
{
}

} // verus!
