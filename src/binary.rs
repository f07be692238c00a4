//! The binary side: a stream of 16-bit little-endian units holding text
//! and tag records, decoded into nodes against a schema.
use vstd::prelude::*;
use crate::model::{
    lemma_nodes_view, node_view, nodes_view, params_view, read_params, Error, Node, NodeV, Param,
    ParamV, Tag, TagV, Value, ValueV, MARKER_END, MARKER_START,
};
use crate::schema::{layout_of, name_of_code, EntryV, TagSchema};
use crate::text::{decode_chars, decode_utf16_lossy, extend_bytes, unit_at};

verus! {

broadcast use vstd::std_specs::vec::group_vec_axioms, vstd::seq::group_seq_axioms;

/// Where the decoder stands between two units: the finished top-level
/// nodes, the stack of open tag records, each holding the nodes decoded
/// since it opened, and the text units since the last marker.
pub struct DecodeState {
    pub nodes: Seq<NodeV>,
    pub stack: Seq<TagV>,
    pub text: Seq<u16>,
}

/// The hidden blob that keeps the bytes of a record its layout does not
/// account for.
pub open spec fn surplus_param(b: Seq<u8>) -> ParamV {
    ParamV { name: seq!['s', 't', 'u', 'b', 'b', 'e', 'd'], value: ValueV::Bytes(b.len() as u16, b), stubbed: true, map: seq![] }
}

/// The tag record that starts at `pos`, and where it ends.
pub open spec fn read_record(es: Seq<EntryV>, b: Seq<u8>, pos: int) -> Result<(TagV, int), Error> {
    if pos + 8 > b.len() {
        Err(Error::Truncated)
    } else {
        let group = unit_at(b, pos + 2);
        let tag = unit_at(b, pos + 4);
        let end = pos + 8 + unit_at(b, pos + 6);
        if end > b.len() {
            Err(Error::Truncated)
        } else {
            match read_params(layout_of(es, group, tag), b, pos + 8, end) {
                None => Err(Error::ParamsExceedRecord),
                Some((ps, q)) => {
                    let params = if q < end {
                        ps.push(surplus_param(b.subrange(q, end)))
                    } else {
                        ps
                    };
                    Ok((
                        TagV {
                            name: name_of_code(es, group, tag),
                            code: b.subrange(pos + 2, pos + 6),
                            params,
                            contents: seq![],
                        },
                        end,
                    ))
                },
            }
        }
    }
}

/// The state with nodes added where they belong: inside the innermost
/// open record, or at the top level.
pub open spec fn add_nodes(st: DecodeState, ns: Seq<NodeV>) -> DecodeState {
    if st.stack.len() == 0 {
        DecodeState { nodes: st.nodes + ns, ..st }
    } else {
        let k = st.stack.len() - 1;
        let top = st.stack[k];
        DecodeState { stack: st.stack.update(k, TagV { contents: top.contents + ns, ..top }), ..st }
    }
}

/// The state with the pending text made a node.
pub open spec fn flush_text(st: DecodeState) -> DecodeState {
    DecodeState { text: seq![], ..add_nodes(st, seq![NodeV::Text(decode_chars(st.text))]) }
}

/// The nodes once every record still open is taken as self-closing: it
/// keeps no contents, and what was decoded after it follows it.
pub open spec fn unwind(st: DecodeState) -> Seq<NodeV>
    decreases st.stack.len(),
{
    if st.stack.len() == 0 {
        st.nodes
    } else {
        let top = st.stack.last();
        let rest = DecodeState { stack: st.stack.drop_last(), ..st };
        unwind(add_nodes(rest, seq![NodeV::Tag(TagV { contents: seq![], ..top })] + top.contents))
    }
}

/// The nodes decoded from `b` from `pos` on, in state `st`. A start marker
/// ends the pending text and opens a record; an end marker closes the
/// innermost open record with the pending text as its last content; a zero
/// unit ends the stream.
pub open spec fn decode_from(es: Seq<EntryV>, b: Seq<u8>, pos: int, st: DecodeState) -> Result<Seq<NodeV>, Error>
    decreases b.len() - pos,
{
    if pos < 0 || pos + 2 > b.len() || unit_at(b, pos) == 0 {
        Ok(unwind(flush_text(st)))
    } else if unit_at(b, pos) == MARKER_START {
        match read_record(es, b, pos) {
            Err(e) => Err(e),
            Ok((t, next)) => if next <= pos {
                Err(Error::Truncated)
            } else {
                let f = flush_text(st);
                decode_from(es, b, next, DecodeState { stack: f.stack.push(t), ..f })
            },
        }
    } else if unit_at(b, pos) == MARKER_END {
        if st.stack.len() == 0 {
            decode_from(es, b, pos + 2, st)
        } else {
            let top = st.stack.last();
            let closed = TagV { contents: top.contents.push(NodeV::Text(decode_chars(st.text))), ..top };
            let popped = DecodeState { stack: st.stack.drop_last(), text: seq![], ..st };
            decode_from(es, b, pos + 2, add_nodes(popped, seq![NodeV::Tag(closed)]))
        }
    } else {
        decode_from(es, b, pos + 2, DecodeState { text: st.text.push(unit_at(b, pos)), ..st })
    }
}

/// The nodes that a binary message decodes to.
pub open spec fn decode_spec(es: Seq<EntryV>, b: Seq<u8>) -> Result<Seq<NodeV>, Error> {
    decode_from(es, b, 0, DecodeState { nodes: seq![], stack: seq![], text: seq![] })
}

pub open spec fn tags_view(ts: Seq<Tag>) -> Seq<TagV> {
    ts.map_values(|t: Tag| t@)
}

proof fn lemma_push_view(ns: Seq<Node>, n: Node)
    ensures
        nodes_view(ns.push(n)) == nodes_view(ns).push(node_view(n)),
{
    assert(ns.push(n).drop_last() == ns);
}

/// Reads the tag record at `pos`.
fn read_tag(schema: &TagSchema, b: &[u8], pos: usize) -> (r: Result<(Tag, usize), Error>)
    requires
        pos + 2 <= b@.len(),
    ensures
        r matches Ok((t, q)) ==> read_record(schema@, b@, pos as int) == Ok::<(TagV, int), Error>((t@, q as int)),
        r matches Err(e) ==> read_record(schema@, b@, pos as int) == Err::<(TagV, int), Error>(e),
{
    if b.len() - pos < 8 {
        return Err(Error::Truncated);
    }
    let group: u16 = (b[pos + 2] as u16) + 256 * (b[pos + 3] as u16);
    let tag: u16 = (b[pos + 4] as u16) + 256 * (b[pos + 5] as u16);
    let n: usize = (b[pos + 6] as usize) + 256 * (b[pos + 7] as usize);
    if b.len() - pos - 8 < n {
        return Err(Error::Truncated);
    }
    let end: usize = pos + 8 + n;
    let (name, params) = schema.resolve_by_code(group, tag);
    let mut code: Vec<u8> = Vec::new();
    extend_bytes(&mut code, &b[pos + 2..pos + 6]);
    let mut t = Tag { name, bytes: code, params, contents: Vec::new() };
    proof {
        lemma_nodes_view(t.contents@);
    }
    match t.apply_bytes(b, pos + 8, end) {
        None => Err(Error::ParamsExceedRecord),
        Some(q) => {
            proof {
                crate::model::lemma_read_params_bounds(
                    layout_of(schema@, group, tag), b@, pos as int + 8, end as int);
            }
            if q < end {
                let mut rest: Vec<u8> = Vec::new();
                extend_bytes(&mut rest, &b[q..end]);
                let p = Param::new_stubbed(Value::Bytes((end - q) as u16, rest));
                let ghost before = t.params@;
                t.params.push(p);
                proof {
                    assert(params_view(t.params@) =~= params_view(before).push(p@));
                    assert(p@.name =~= surplus_param(b@.subrange(q as int, end as int)).name);
                    assert(p@ == surplus_param(b@.subrange(q as int, end as int)));
                }
            }
            Ok((t, end))
        },
    }
}

proof fn lemma_view_concat(a: Seq<Node>, c: Seq<Node>)
    ensures
        nodes_view(a + c) == nodes_view(a) + nodes_view(c),
    decreases c.len(),
{
    if c.len() > 0 {
        assert((a + c).drop_last() =~= a + c.drop_last());
        lemma_view_concat(a, c.drop_last());
    } else {
        assert(a + c =~= a);
    }
}

/// Turns the pending text into a node where it belongs.
fn flush_pending(nodes: &mut Vec<Node>, frames: &mut Vec<Tag>, text: &mut Vec<u16>)
    ensures
        ({
            let st = flush_text(
                DecodeState { nodes: nodes_view(old(nodes)@), stack: tags_view(old(frames)@), text: old(text)@ },
            );
            nodes_view(final(nodes)@) == st.nodes && tags_view(final(frames)@) == st.stack && final(text)@ == st.text
        }),
{
    let s = decode_utf16_lossy(text.as_slice());
    let mut one: Vec<Node> = Vec::new();
    let ghost node = Node::Text(s);
    one.push(Node::Text(s));
    proof {
        lemma_push_view(Seq::<Node>::empty(), node);
        lemma_nodes_view(Seq::<Node>::empty());
        assert(Seq::<Node>::empty().push(node) =~= one@);
        assert(nodes_view(one@) =~= seq![node_view(node)]);
    }
    add_nodes_to(nodes, frames, one);
    *text = Vec::new();
    assert(text@ =~= Seq::<u16>::empty());
}

/// Adds nodes where they belong: inside the innermost open record, or at
/// the top level.
fn add_nodes_to(nodes: &mut Vec<Node>, frames: &mut Vec<Tag>, ns: Vec<Node>)
    ensures
        ({
            let st = add_nodes(
                DecodeState { nodes: nodes_view(old(nodes)@), stack: tags_view(old(frames)@), text: seq![] },
                nodes_view(ns@),
            );
            nodes_view(final(nodes)@) == st.nodes && tags_view(final(frames)@) == st.stack
        }),
        final(frames)@.len() == old(frames)@.len(),
{
    let mut ns = ns;
    match frames.pop() {
        None => {
            proof {
                lemma_view_concat(nodes@, ns@);
            }
            nodes.append(&mut ns);
        },
        Some(mut top) => {
            let ghost before = frames@;
            proof {
                lemma_view_concat(top.contents@, ns@);
            }
            top.contents.append(&mut ns);
            frames.push(top);
            proof {
                let k = before.len() as int;
                assert(tags_view(frames@) =~= tags_view(old(frames)@).update(k, top@));
            }
        },
    }
}

/// Decodes a binary message into nodes: text runs, and tag records
/// resolved against the schema and nested last-in-first-out by their end
/// markers. Decoding stops at a zero unit; a record whose parameters need
/// more bytes than it declares, or that the stream cuts short, fails the
/// message.
pub fn bytes_to_nodes(schema: &TagSchema, b: &[u8]) -> (r: Result<Vec<Node>, Error>)
    ensures
        r matches Ok(ns) ==> decode_spec(schema@, b@) == Ok::<Seq<NodeV>, Error>(nodes_view(ns@)),
        r matches Err(e) ==> decode_spec(schema@, b@) == Err::<Seq<NodeV>, Error>(e),
{
    let mut nodes: Vec<Node> = Vec::new();
    let mut frames: Vec<Tag> = Vec::new();
    let mut text: Vec<u16> = Vec::new();
    let mut pos: usize = 0;
    proof {
        lemma_nodes_view(nodes@);
        assert(nodes_view(nodes@) =~= seq![]);
        assert(tags_view(frames@) =~= seq![]);
    }
    while b.len() - pos >= 2
        invariant
            pos <= b@.len(),
            decode_spec(schema@, b@) == decode_from(
                schema@,
                b@,
                pos as int,
                DecodeState { nodes: nodes_view(nodes@), stack: tags_view(frames@), text: text@ },
            ),
        ensures
            pos <= b@.len(),
            pos + 2 > b@.len() || unit_at(b@, pos as int) == 0,
            decode_spec(schema@, b@) == decode_from(
                schema@,
                b@,
                pos as int,
                DecodeState { nodes: nodes_view(nodes@), stack: tags_view(frames@), text: text@ },
            ),
        decreases b@.len() - pos,
    {
        let u: u16 = (b[pos] as u16) + 256 * (b[pos + 1] as u16);
        if u == 0 {
            break;
        } else if u == MARKER_START {
            let (t, next) = match read_tag(schema, b, pos) {
                Ok(x) => x,
                Err(e) => {
                    return Err(e);
                },
            };
            flush_pending(&mut nodes, &mut frames, &mut text);
            let ghost before = frames@;
            frames.push(t);
            proof {
                assert(tags_view(frames@) =~= tags_view(before).push(t@));
            }
            pos = next;
        } else if u == MARKER_END {
            let ghost fb = frames@;
            match frames.pop() {
                Some(mut top) => {
                    let s = decode_utf16_lossy(text.as_slice());
                    proof {
                        lemma_push_view(top.contents@, Node::Text(s));
                        assert(tags_view(frames@) =~= tags_view(fb).drop_last());
                        assert(tags_view(fb).last() == top@);
                    }
                    top.contents.push(Node::Text(s));
                    text = Vec::new();
                    let mut one: Vec<Node> = Vec::new();
                    let ghost node = Node::Tag(top);
                    one.push(Node::Tag(top));
                    proof {
                        lemma_push_view(Seq::<Node>::empty(), node);
                        lemma_nodes_view(Seq::<Node>::empty());
                        assert(Seq::<Node>::empty().push(node) =~= one@);
                        assert(nodes_view(one@) =~= seq![node_view(node)]);
                        assert(text@ =~= Seq::<u16>::empty());
                    }
                    add_nodes_to(&mut nodes, &mut frames, one);
                },
                None => {
                    assert(tags_view(fb) =~= Seq::<TagV>::empty());
                },
            }
            pos = pos + 2;
        } else {
            text.push(u);
            pos = pos + 2;
        }
    }
    flush_pending(&mut nodes, &mut frames, &mut text);
    while frames.len() > 0
        invariant
            decode_spec(schema@, b@) == Ok::<Seq<NodeV>, Error>(
                unwind(DecodeState { nodes: nodes_view(nodes@), stack: tags_view(frames@), text: seq![] }),
            ),
        decreases frames@.len(),
    {
        let ghost before = frames@;
        let top = match frames.pop() {
            Some(t) => t,
            None => {
                return Ok(nodes);
            },
        };
        let ghost tv = top@;
        let ghost tc = top.contents@;
        proof {
            assert(tags_view(frames@) =~= tags_view(before).drop_last());
            assert(tags_view(before).last() == tv);
        }
        let Tag { name, bytes, params, contents } = top;
        let bare = Tag { name, bytes, params, contents: Vec::new() };
        proof {
            lemma_nodes_view(bare.contents@);
            assert(nodes_view(bare.contents@) =~= seq![]);
            assert(bare@ == TagV { contents: seq![], ..tv });
        }
        let mut spill: Vec<Node> = Vec::new();
        let ghost first = Node::Tag(bare);
        spill.push(Node::Tag(bare));
        let mut rest = contents;
        let ghost s0 = spill@;
        proof {
            lemma_nodes_view(Seq::<Node>::empty());
            lemma_push_view(Seq::<Node>::empty(), first);
            assert(Seq::<Node>::empty().push(first) =~= s0);
            assert(nodes_view(s0) =~= seq![NodeV::Tag(TagV { contents: seq![], ..tv })]);
            lemma_view_concat(s0, tc);
        }
        spill.append(&mut rest);
        add_nodes_to(&mut nodes, &mut frames, spill);
    }
    proof {
        assert(tags_view(frames@) =~= seq![]);
    }
    Ok(nodes)
}

} // verus!
