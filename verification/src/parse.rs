//! The XML event stream, obtained from the `xml` crate's pull parser.

use vstd::prelude::*;
use xml::reader::{EventReader, XmlEvent};
use crate::token::{Attr, XmlToken, TokenV, token_views, wf_tokens};

verus! {

/// A malformed input document; `message` carries the parser's diagnostic.
#[derive(Debug)]
pub struct ParseError {
    pub message: String,
}

/// The structural events that the XML parser yields for a byte content, in
/// document order, or `None` when it reports the document malformed. The
/// event stream is a function of the bytes alone.
pub uninterp spec fn xml_parse_of(content: Seq<u8>) -> Option<Seq<TokenV>>;

/// Relies on `xml::reader::EventReader`: driven over a byte slice it yields
/// each event exactly once in document order, with attribute names and
/// entity-decoded values as parsed; its event stream depends on the bytes
/// alone; an `EndElement` is only emitted for an element whose matching
/// `StartElement` was emitted before it and is still open, so the stream is
/// well nested; on malformed input it yields an error instead.
#[verifier::external_body]
pub(crate) fn parse_xml_tokens(content: &[u8]) -> (r: Result<Vec<XmlToken>, ParseError>)
    ensures
        r is Ok <==> xml_parse_of(content@) is Some,
        r matches Ok(v) ==> xml_parse_of(content@) == Some(token_views(v@)) && wf_tokens(
            token_views(v@),
        ),
{
    let mut out = Vec::new();
    for ev in EventReader::new(content) {
        match ev {
            Ok(XmlEvent::StartElement { attributes, .. }) => {
                let attrs = attributes.into_iter().map(
                    |a| Attr { key: a.name.local_name, value: a.value }).collect();
                out.push(XmlToken::Open { attrs })
            },
            Ok(XmlEvent::EndElement { .. }) => out.push(XmlToken::Close),
            Ok(_) => out.push(XmlToken::Other),
            Err(e) => return Err(ParseError { message: e.to_string() }),
        }
    }
    Ok(out)
}

} // verus!
