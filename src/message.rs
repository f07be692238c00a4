//! Whole messages: binary to markup text and back.
use vstd::prelude::*;
use crate::binary::{bytes_to_nodes, decode_spec};
use crate::markup::{bbcode_to_nodes, tokenize_spec};
use crate::model::{encode_nodes, nodes_bytes, nodes_text, render_nodes, Error, NodeV};
use crate::schema::TagSchema;
use crate::text::{le16, push_le16};

verus! {

/// The markup text of a binary message.
pub fn to_string(schema: &TagSchema, b: &[u8]) -> (r: Result<String, Error>)
    ensures
        r matches Ok(s) ==> decode_spec(schema@, b@) matches Ok(ns) && s@ == nodes_text(ns),
        r matches Err(e) ==> decode_spec(schema@, b@) == Err::<Seq<NodeV>, Error>(e),
{
    match bytes_to_nodes(schema, b) {
        Ok(ns) => Ok(render_nodes(&ns)),
        Err(e) => Err(e),
    }
}

/// The binary message of a markup text, ended by a zero unit.
pub fn to_bytes(schema: &TagSchema, text: &str) -> (r: Result<Vec<u8>, Error>)
    ensures
        r matches Ok(b) ==> tokenize_spec(schema@, text@) matches Ok(ns) && nodes_bytes(ns) matches Ok(
            e,
        ) && b@ == e + le16(0),
        r matches Err(x) ==> match tokenize_spec(schema@, text@) {
            Err(y) => x == y,
            Ok(ns) => nodes_bytes(ns) == Err::<Seq<u8>, Error>(x),
        },
{
    let ns = match bbcode_to_nodes(schema, text) {
        Ok(ns) => ns,
        Err(e) => {
            return Err(e);
        },
    };
    match encode_nodes(&ns) {
        Ok(mut b) => {
            push_le16(&mut b, 0);
            Ok(b)
        },
        Err(e) => Err(e),
    }
}

} // verus!
