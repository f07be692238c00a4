//! Laws that relate the library's functions to each other.
use vstd::prelude::*;
use crate::binary::{add_nodes, flush_text, unwind, decode_from, decode_spec, read_record, surplus_param, DecodeState};
use crate::markup::{
    find_open, flush, replace_pair, unescape, value_stop, apply_attrs, attr_text, bracket_result, code_bytes, find_from, head_name, open_result, param_named, scan_attrs,
    text_value, tokenize_from, tokenize_spec, TokState,
};
use crate::model::{
    enumeration_wf, escape, escape_char, lookup_raw, lookup_symbolic, node_bytes, node_text, nodes_bytes, nodes_text, param_bytes,
    param_text, params_bytes, params_text, read_params, read_value, shown_text, tag_bytes, tag_text, with_value,
    Error, NodeV, ParamV, TagV, ValueV, MARKER_END, MARKER_START,
};
use crate::schema::{
    code_text, lemma_code_text, code_of_name, entry_by_code, entry_by_name, fallback_name, layout_of,
    name_of_code, parse_fallback, schema_wf, EntryV,
};
use crate::text::{
    decimal, decode_chars, is_hex_char, le_units, text_units, decode_points, hex_upper, is_high_surrogate, is_low_surrogate, is_numeral,
    is_scalar_value, le16, le_to_units, lemma_decimal_value, lemma_decode_points_scalar, parse_decimal_spec,
    lemma_le_round_trip, lemma_parse_decimal, lemma_utf16_round_trip, pair_point,
    unit_at, valid_utf16,
};

verus! {

proof fn lemma_lookup_symbolic_entry(m: Seq<(Seq<char>, Seq<char>)>, raw: Seq<char>)
    ensures
        lookup_symbolic(m, raw) matches Some(s) ==> exists|i: int| 0 <= i < m.len() && #[trigger] m[i] == (raw, s),
    decreases m.len(),
{
    if m.len() > 0 && m[0].0 != raw {
        lemma_lookup_symbolic_entry(m.drop_first(), raw);
        if let Some(s) = lookup_symbolic(m, raw) {
            let i = choose|i: int| 0 <= i < m.drop_first().len() && #[trigger] m.drop_first()[i] == (raw, s);
            assert(m[i + 1] == (raw, s));
        }
    }
}

proof fn lemma_lookup_raw_entry(m: Seq<(Seq<char>, Seq<char>)>, sym: Seq<char>)
    ensures
        lookup_raw(m, sym) matches Some(r) ==> exists|i: int| 0 <= i < m.len() && #[trigger] m[i] == (r, sym),
    decreases m.len(),
{
    if m.len() > 0 && m[0].1 != sym {
        lemma_lookup_raw_entry(m.drop_first(), sym);
        if let Some(r) = lookup_raw(m, sym) {
            let i = choose|i: int| 0 <= i < m.drop_first().len() && #[trigger] m.drop_first()[i] == (r, sym);
            assert(m[i + 1] == (r, sym));
        }
    }
}

proof fn lemma_lookup_raw_unique(m: Seq<(Seq<char>, Seq<char>)>, i: int)
    requires
        enumeration_wf(m),
        0 <= i < m.len(),
    ensures
        lookup_raw(m, m[i].1) == Some(m[i].0),
    decreases m.len(),
{
    if i > 0 {
        assert(m[0].1 != m[i].1);
        let t = m.drop_first();
        assert(t[i - 1] == m[i]);
        assert forall|a: int, b: int| 0 <= a < b < t.len() implies (#[trigger] t[a]).1 != (#[trigger] t[b]).1 by {
            assert(t[a] == m[a + 1] && t[b] == m[b + 1]);
        }
        assert forall|a: int| 0 <= a < t.len() implies !is_numeral((#[trigger] t[a]).1) by {
            assert(t[a] == m[a + 1]);
        }
        lemma_lookup_raw_unique(t, i - 1);
    }
}

/// A 16-bit parameter renders as the symbolic name of its value where the
/// enumeration has one, else as its decimal numeral; reading that text back
/// gives the value again, and the parameter encodes as the value.
pub proof fn law_enumeration_symmetry(p: ParamV, n: u16)
    requires
        p.value == ValueV::U16(n),
        enumeration_wf(p.map),
    ensures
        lookup_symbolic(p.map, decimal(n as nat)) is None ==> shown_text(p) == decimal(n as nat),
        text_value(p, shown_text(p)) == Ok::<ValueV, Error>(ValueV::U16(n)),
        param_bytes(p) == Ok::<Seq<u8>, Error>(le16(n)),
{
    let d = decimal(n as nat);
    lemma_decimal_value(n as nat);
    lemma_parse_decimal(n as nat, 0xFFFF);
    lemma_lookup_raw_entry(p.map, d);
    if let Some(r) = lookup_raw(p.map, d) {
        let i = choose|i: int| 0 <= i < p.map.len() && #[trigger] p.map[i] == (r, d);
        assert(!is_numeral(p.map[i].1));
    }
    lemma_lookup_symbolic_entry(p.map, d);
    match lookup_symbolic(p.map, d) {
        Some(s) => {
            let i = choose|i: int| 0 <= i < p.map.len() && #[trigger] p.map[i] == (d, s);
            lemma_lookup_raw_unique(p.map, i);
        },
        None => {},
    }
}

/// A stubbed parameter never shows in markup, encodes exactly as its value,
/// and no attribute list changes it.
pub proof fn law_stubbed_hidden_and_kept(ps: Seq<ParamV>, attrs: Seq<(Seq<char>, Seq<char>)>, i: int)
    requires
        0 <= i < ps.len(),
        ps[i].stubbed,
    ensures
        param_text(ps[i]) == Seq::<char>::empty(),
        param_bytes(ps[i]) == param_bytes(ParamV { stubbed: false, ..ps[i] }),
        apply_attrs(ps, attrs) matches Ok(qs) ==> qs.len() == ps.len() && qs[i] == ps[i],
    decreases attrs.len(),
{
    if attrs.len() > 0 {
        law_stubbed_hidden_and_kept(ps, attrs.drop_last(), i);
        if let Ok(qs) = apply_attrs(ps, attrs.drop_last()) {
            lemma_param_named_visible(qs, attrs.last().0, 0);
        }
    }
}

proof fn lemma_param_named_visible(ps: Seq<ParamV>, name: Seq<char>, k: int)
    ensures
        param_named(ps, name, k) matches Some(j) ==> 0 <= j < ps.len() && !ps[j].stubbed,
    decreases ps.len() - k,
{
    if 0 <= k < ps.len() && !(!ps[k].stubbed && ps[k].name == name) {
        lemma_param_named_visible(ps, name, k + 1);
    }
}

/// A fallback name spells the code it was made from.
pub proof fn law_fallback_name_round_trip(group: u16, tag: u16)
    ensures
        parse_fallback(fallback_name(group, tag)) == Some((group, tag)),
{
    let g = code_text(group);
    let t = code_text(tag);
    lemma_code_text(group);
    lemma_code_text(tag);
    let name = fallback_name(group, tag);
    assert(name[g.len() as int] == ':');
    let i = choose|i: int| 0 <= i < name.len() && name[i] == ':' && forall|j: int| 0 <= j < i ==> name[j] != ':';
    assert(i == g.len()) by {
        if i < g.len() {
            assert(name[i] == g[i]);
            assert(is_hex_char(g[i]));
        } else if i > g.len() {
            assert(name[g.len() as int] == ':');
        }
    }
    assert(name.subrange(0, i) =~= g);
    assert(name.subrange(i + 1, name.len() as int) =~= t);
}

proof fn lemma_entry_by_code(es: Seq<EntryV>, group: u16, tag: u16)
    ensures
        entry_by_code(es, group, tag) matches Some(e) ==> e.group == group && e.tag == tag && exists|i: int|
            0 <= i < es.len() && #[trigger] es[i] == e,
    decreases es.len(),
{
    if es.len() > 0 && !(es[0].group == group && es[0].tag == tag) {
        lemma_entry_by_code(es.drop_first(), group, tag);
        if let Some(e) = entry_by_code(es, group, tag) {
            let i = choose|i: int| 0 <= i < es.drop_first().len() && #[trigger] es.drop_first()[i] == e;
            assert(es[i + 1] == e);
        }
    }
}

proof fn lemma_entry_by_name(es: Seq<EntryV>, name: Seq<char>)
    ensures
        entry_by_name(es, name) matches Some(e) ==> e.name == Some(name) && exists|i: int|
            0 <= i < es.len() && #[trigger] es[i] == e,
    decreases es.len(),
{
    if es.len() > 0 && es[0].name != Some(name) {
        lemma_entry_by_name(es.drop_first(), name);
        if let Some(e) = entry_by_name(es, name) {
            let i = choose|i: int| 0 <= i < es.drop_first().len() && #[trigger] es.drop_first()[i] == e;
            assert(es[i + 1] == e);
        }
    }
}

proof fn lemma_entry_by_name_unique(es: Seq<EntryV>, i: int)
    requires
        schema_wf(es),
        0 <= i < es.len(),
        es[i].name is Some,
    ensures
        entry_by_name(es, es[i].name->Some_0) == Some(es[i]),
    decreases es.len(),
{
    if i > 0 {
        assert(es[0].name != es[i].name);
        let t = es.drop_first();
        assert(t[i - 1] == es[i]);
        assert forall|a: int, b: int| 0 <= a < b < t.len() implies !(#[trigger] t[a].group == #[trigger] t[b].group
            && t[a].tag == t[b].tag) by {
            assert(t[a] == es[a + 1] && t[b] == es[b + 1]);
        }
        assert forall|a: int, b: int| 0 <= a < b < t.len() && (#[trigger] t[a]).name is Some implies (
        #[trigger] t[b]).name != t[a].name by {
            assert(t[a] == es[a + 1] && t[b] == es[b + 1]);
        }
        assert forall|a: int| 0 <= a < t.len() && (#[trigger] t[a]).name is Some implies parse_fallback(
            t[a].name->Some_0,
        ) is None by {
            assert(t[a] == es[a + 1]);
        }
        lemma_entry_by_name_unique(t, i - 1);
    }
}

/// In a well-formed schema, the name that a code resolves to resolves back
/// to that code, whether the schema names it or not.
pub proof fn law_code_name_round_trip(es: Seq<EntryV>, group: u16, tag: u16)
    requires
        schema_wf(es),
    ensures
        code_of_name(es, name_of_code(es, group, tag)) == Some((group, tag)),
{
    lemma_entry_by_code(es, group, tag);
    law_fallback_name_round_trip(group, tag);
    let n = name_of_code(es, group, tag);
    lemma_entry_by_name(es, n);
    match entry_by_code(es, group, tag) {
        Some(e) if e.name is Some => {
            let i = choose|i: int| 0 <= i < es.len() && #[trigger] es[i] == e;
            lemma_entry_by_name_unique(es, i);
        },
        _ => {
            if let Some(e) = entry_by_name(es, n) {
                let i = choose|i: int| 0 <= i < es.len() && #[trigger] es[i] == e;
                assert(parse_fallback(es[i].name->Some_0) is None);
            }
        },
    }
}

/// A record that declares more parameter bytes than its layout reads keeps
/// the rest in one trailing hidden blob, as long as the rest, that encodes
/// back to exactly those bytes.
pub proof fn law_surplus_blob(es: Seq<EntryV>, b: Seq<u8>, pos: int)
    requires
        0 <= pos,
        read_record(es, b, pos) is Ok,
    ensures
        ({
            let group = unit_at(b, pos + 2);
            let tag = unit_at(b, pos + 4);
            let end = pos + 8 + unit_at(b, pos + 6);
            let t = read_record(es, b, pos)->Ok_0.0;
            match read_params(layout_of(es, group, tag), b, pos + 8, end) {
                Some((ps, q)) => q < end ==> t.params.len() == ps.len() + 1 && t.params.last() == surplus_param(
                    b.subrange(q, end),
                ) && param_bytes(t.params.last()) == Ok::<Seq<u8>, Error>(b.subrange(q, end)),
                None => false,
            }
        }),
{
    let group = unit_at(b, pos + 2);
    let tag = unit_at(b, pos + 4);
    let end = pos + 8 + unit_at(b, pos + 6);
    crate::model::lemma_read_params_bounds(layout_of(es, group, tag), b, pos + 8, end);
}

/// A message of text alone: whole units of well-formed UTF-16, none of
/// them zero, a marker, or `[`.
pub open spec fn plain_text_message(b: Seq<u8>) -> bool {
    &&& b.len() % 2 == 0
    &&& valid_utf16(le_to_units(b))
    &&& forall|k: int|
        0 <= k < le_to_units(b).len() ==> {
            let x = #[trigger] le_to_units(b)[k];
            x != 0 && x != MARKER_START && x != MARKER_END && x != 0x5B
        }
}

proof fn lemma_decode_plain(es: Seq<EntryV>, b: Seq<u8>, pos: int, t: Seq<u16>)
    requires
        plain_text_message(b),
        0 <= pos <= b.len(),
        pos % 2 == 0,
    ensures
        decode_from(es, b, pos, DecodeState { nodes: seq![], stack: seq![], text: t }) == Ok::<Seq<NodeV>, Error>(
            seq![NodeV::Text(decode_chars(t + le_to_units(b.subrange(pos, b.len() as int))))],
        ),
    decreases b.len() - pos,
{
    let rest = le_to_units(b.subrange(pos, b.len() as int));
    if pos + 2 > b.len() {
        assert(rest =~= Seq::<u16>::empty());
        assert(t + rest =~= t);
        assert(Seq::<NodeV>::empty().push(NodeV::Text(decode_chars(t))) =~= seq![NodeV::Text(decode_chars(t))]);
    } else {
        let x = unit_at(b, pos);
        assert(le_to_units(b)[pos / 2] == x);
        let next = le_to_units(b.subrange(pos + 2, b.len() as int));
        assert(rest =~= seq![x] + next) by {
            assert forall|k: int| 0 <= k < rest.len() implies #[trigger] rest[k] == (seq![x] + next)[k] by {
                if k > 0 {
                    assert(rest[k] == unit_at(b, pos + 2 * k));
                    assert(next[k - 1] == unit_at(b, pos + 2 + 2 * (k - 1)));
                }
            }
        }
        lemma_decode_plain(es, b, pos + 2, t.push(x));
        assert(t.push(x) + next =~= t + rest);
    }
}

proof fn lemma_tokenize_plain(es: Seq<EntryV>, cs: Seq<char>, i: int, p: Seq<char>)
    requires
        0 <= i <= cs.len(),
        forall|k: int| 0 <= k < cs.len() ==> #[trigger] cs[k] != '[',
    ensures
        tokenize_from(es, cs, i, TokState { nodes: seq![], closed: seq![], pending: p }) == Ok::<Seq<NodeV>, Error>(
            seq![NodeV::Text(p + cs.subrange(i, cs.len() as int))],
        ),
    decreases cs.len() - i,
{
    if i == cs.len() {
        assert(p + cs.subrange(i, cs.len() as int) =~= p);
        assert(Seq::<NodeV>::empty().push(NodeV::Text(p)) =~= seq![NodeV::Text(p)]);
    } else {
        lemma_tokenize_plain(es, cs, i + 1, p.push(cs[i]));
        assert(p.push(cs[i]) + cs.subrange(i + 1, cs.len() as int) =~= p + cs.subrange(i, cs.len() as int));
    }
}

proof fn lemma_points_avoid(u: Seq<u16>, x: u16)
    requires
        x < 0xD800,
        x != 0xFFFD,
        forall|k: int| 0 <= k < u.len() ==> #[trigger] u[k] != x,
    ensures
        forall|i: int| 0 <= i < decode_points(u).len() ==> #[trigger] decode_points(u)[i] != x as u32,
    decreases u.len(),
{
    if u.len() > 0 {
        let d = decode_points(u);
        if u.len() >= 2 && is_high_surrogate(u[0]) && is_low_surrogate(u[1]) {
            let rest = u.subrange(2, u.len() as int);
            assert forall|k: int| 0 <= k < rest.len() implies #[trigger] rest[k] != x by {
                assert(rest[k] == u[k + 2]);
            }
            lemma_points_avoid(rest, x);
            assert(pair_point(u[0], u[1]) >= 0x10000);
            assert forall|i: int| 0 <= i < d.len() implies #[trigger] d[i] != x as u32 by {
                if i > 0 {
                    assert(d[i] == decode_points(rest)[i - 1]);
                }
            }
        } else {
            let rest = u.subrange(1, u.len() as int);
            assert forall|k: int| 0 <= k < rest.len() implies #[trigger] rest[k] != x by {
                assert(rest[k] == u[k + 1]);
            }
            lemma_points_avoid(rest, x);
            assert forall|i: int| 0 <= i < d.len() implies #[trigger] d[i] != x as u32 by {
                if i > 0 {
                    assert(d[i] == decode_points(rest)[i - 1]);
                } else {
                    assert(u[0] != x);
                }
            }
        }
    }
}

/// A message of text alone comes back byte for byte through markup: it
/// decodes to one text node, whose markup tokenizes to the same text, which
/// encodes to the bytes it came from.
pub proof fn law_plain_text_round_trip(es: Seq<EntryV>, b: Seq<u8>)
    requires
        plain_text_message(b),
    ensures
        decode_spec(es, b) matches Ok(ns) && tokenize_spec(es, nodes_text(ns)) matches Ok(ms) && nodes_bytes(ms)
            == Ok::<Seq<u8>, Error>(b),
{
    let u = le_to_units(b);
    lemma_decode_plain(es, b, 0, seq![]);
    assert(b.subrange(0, b.len() as int) == b);
    assert(Seq::<u16>::empty() + u =~= u);
    let s = decode_chars(u);
    let ns = seq![NodeV::Text(s)];
    assert(ns.drop_last() =~= Seq::<NodeV>::empty());
    assert(ns.last() == NodeV::Text(s));
    assert(nodes_text(Seq::<NodeV>::empty()) == Seq::<char>::empty());
    assert(node_text(NodeV::Text(s)) == s);
    assert(nodes_text(ns) =~= s);
    assert forall|k: int| 0 <= k < u.len() implies #[trigger] u[k] != 0x5Bu16 by {
        assert(u[k] != 0x5B);
    }
    lemma_points_avoid(u, 0x5B);
    lemma_decode_points_scalar(u);
    assert forall|k: int| 0 <= k < s.len() implies #[trigger] s[k] != '[' by {
        let v = decode_points(u)[k];
        assert(is_scalar_value(v));
        assert((v as char) as u32 == v);
    }
    lemma_tokenize_plain(es, s, 0, seq![]);
    assert(Seq::<char>::empty() + s.subrange(0, s.len() as int) =~= s);
    lemma_utf16_round_trip(u);
    lemma_le_round_trip(b);
    assert(node_bytes(NodeV::Text(s)) == Ok::<Seq<u8>, Error>(b));
    assert(nodes_bytes(Seq::<NodeV>::empty()) == Ok::<Seq<u8>, Error>(Seq::<u8>::empty()));
    assert(Seq::<u8>::empty() + b =~= b);
    assert(nodes_bytes(ns) == Ok::<Seq<u8>, Error>(b));
}

proof fn lemma_find_from_first(cs: Seq<char>, k: int, j: int, c: char)
    requires
        0 <= k <= j < cs.len(),
        cs[j] == c,
        forall|m: int| k <= m < j ==> #[trigger] cs[m] != c,
    ensures
        find_from(cs, k, c) == Some(j),
    decreases j - k,
{
    if k < j {
        lemma_find_from_first(cs, k + 1, j, c);
    }
}

/// The characters of a fallback name: hexadecimal digits and one `:`.
proof fn lemma_fallback_chars(group: u16, tag: u16)
    ensures
        forall|i: int|
            0 <= i < fallback_name(group, tag).len() ==> is_hex_char(#[trigger] fallback_name(group, tag)[i])
                || fallback_name(group, tag)[i] == ':',
        fallback_name(group, tag).len() > 0,
{
    let g = code_text(group);
    let t = code_text(tag);
    lemma_code_text(group);
    lemma_code_text(tag);
    let f = fallback_name(group, tag);
    assert forall|i: int| 0 <= i < f.len() implies is_hex_char(#[trigger] f[i]) || f[i] == ':' by {
        if i < g.len() {
            assert(f[i] == g[i]);
        } else if i > g.len() {
            assert(f[i] == t[i - g.len() - 1]);
        }
    }
}

proof fn lemma_le16_unit(x: u16)
    ensures
        unit_at(le16(x), 0) == x,
{
}

/// The record of a code with no parameter bytes.
pub open spec fn bare_record(group: u16, tag: u16) -> Seq<u8> {
    le16(MARKER_START) + le16(group) + le16(tag) + le16(0)
}

proof fn lemma_bare_decode(es: Seq<EntryV>, group: u16, tag: u16)
    requires
        entry_by_code(es, group, tag) is None,
    ensures
        decode_spec(es, bare_record(group, tag)) == Ok::<Seq<NodeV>, Error>(
            seq![
                NodeV::Text(Seq::<char>::empty()),
                NodeV::Tag(TagV { name: fallback_name(group, tag), code: code_bytes(group, tag), params: seq![], contents: seq![] }),
                NodeV::Text(Seq::<char>::empty()),
            ],
        ),
{
    let b = bare_record(group, tag);
    let f = fallback_name(group, tag);
    assert(b.len() == 8);
    assert(unit_at(b, 0) == MARKER_START);
    assert(unit_at(b, 2) == group);
    assert(unit_at(b, 4) == tag);
    assert(unit_at(b, 6) == 0);
    assert(name_of_code(es, group, tag) == f);
    assert(layout_of(es, group, tag) == Seq::<ParamV>::empty());
    assert(b.subrange(2, 6) =~= code_bytes(group, tag));
    let t = TagV { name: f, code: code_bytes(group, tag), params: seq![], contents: seq![] };
    assert(read_params(Seq::<ParamV>::empty(), b, 8, 8) == Some((Seq::<ParamV>::empty(), 8int)));
    assert(read_record(es, b, 0) == Ok::<(TagV, int), Error>((t, 8)));
    let e = decode_chars(Seq::<u16>::empty());
    assert(e =~= Seq::<char>::empty());
    let ns = seq![NodeV::Text(e), NodeV::Tag(t), NodeV::Text(e)];
    assert(Seq::<NodeV>::empty().push(NodeV::Text(e)) =~= seq![NodeV::Text(e)]);
    assert(seq![NodeV::Text(e)].push(NodeV::Tag(t)).push(NodeV::Text(e)) =~= ns);
    let init = DecodeState { nodes: seq![], stack: seq![], text: seq![] };
    let st1 = DecodeState { nodes: seq![NodeV::Text(e)], stack: seq![t], text: seq![] };
    let tf = TagV { contents: seq![NodeV::Text(e)], ..t };
    let f1 = DecodeState { nodes: seq![NodeV::Text(e)], stack: seq![tf], text: seq![] };
    assert(Seq::<NodeV>::empty() + seq![NodeV::Text(e)] =~= seq![NodeV::Text(e)]);
    assert(seq![t].update(0, tf) =~= seq![tf]);
    assert(flush_text(st1) == f1);
    let f2 = DecodeState { nodes: seq![NodeV::Text(e)], stack: seq![], text: seq![] };
    assert(seq![tf].drop_last() =~= Seq::<TagV>::empty());
    assert(TagV { contents: seq![], ..tf } == t);
    assert(seq![NodeV::Text(e)] + (seq![NodeV::Tag(t)] + seq![NodeV::Text(e)]) =~= ns);
    let f3 = add_nodes(f2, seq![NodeV::Tag(TagV { contents: seq![], ..tf })] + tf.contents);
    assert(f3.nodes == ns);
    assert(f3.stack.len() == 0);
    assert(unwind(f3) == ns);
    assert(DecodeState { stack: f1.stack.drop_last(), ..f1 } == f2);
    assert(unwind(f1) == unwind(f3));
    assert(decode_from(es, b, 8, st1) == Ok::<Seq<NodeV>, Error>(ns));
    assert(decode_from(es, b, 0, init) == decode_from(es, b, 8, st1));
}

proof fn lemma_bare_render(t: TagV)
    requires
        t.params == Seq::<ParamV>::empty(),
        t.contents == Seq::<NodeV>::empty(),
    ensures
        nodes_text(seq![NodeV::Text(Seq::<char>::empty()), NodeV::Tag(t), NodeV::Text(Seq::<char>::empty())])
            == seq!['['] + t.name + seq![' ', ']'],
{
    let e = Seq::<char>::empty();
    let ns = seq![NodeV::Text(e), NodeV::Tag(t), NodeV::Text(e)];
    assert(params_text(Seq::<ParamV>::empty()) == Seq::<char>::empty());
    assert(tag_text(t) =~= seq!['['] + t.name + seq![' ', ']']);
    assert(ns.drop_last() =~= seq![NodeV::Text(e), NodeV::Tag(t)]);
    assert(ns.drop_last().drop_last() =~= seq![NodeV::Text(e)]);
    assert(ns.drop_last().drop_last().drop_last() =~= Seq::<NodeV>::empty());
    assert(nodes_text(Seq::<NodeV>::empty()) == e);
    assert(node_text(NodeV::Text(e)) == e);
    assert(node_text(NodeV::Tag(t)) == tag_text(t));
    assert(nodes_text(seq![NodeV::Text(e)]) =~= e);
    assert(nodes_text(seq![NodeV::Text(e), NodeV::Tag(t)]) =~= seq!['['] + t.name + seq![' ', ']']);
    assert(nodes_text(ns) =~= seq!['['] + t.name + seq![' ', ']']);
}

/// A name with none of the characters that end a name in markup.
pub open spec fn plain_name(f: Seq<char>) -> bool {
    f.len() > 0 && forall|m: int| 0 <= m < f.len() ==> #[trigger] f[m] != ']' && f[m] != ' ' && f[m] != '/' && f[m]
        != '['
}

proof fn lemma_fallback_plain(group: u16, tag: u16)
    ensures
        plain_name(fallback_name(group, tag)),
{
    lemma_fallback_chars(group, tag);
}

proof fn lemma_bare_scan(f: Seq<char>)
    requires
        plain_name(f),
    ensures
        ({
            let text = seq!['['] + f + seq![' ', ']'];
            let content = text.subrange(1, text.len() - 1);
            &&& text[0] == '['
            &&& text[1] != '/'
            &&& find_from(text, 1, ']') == Some(text.len() - 1)
            &&& head_name(content) == f
            &&& attr_text(content) == Seq::<char>::empty()
        }),
{
    let text = seq!['['] + f + seq![' ', ']'];
    let n = text.len() as int;
    assert(text[1] == f[0]);
    assert forall|m: int| 1 <= m < n - 1 implies #[trigger] text[m] != ']' by {
        if m < n - 2 {
            assert(text[m] == f[m - 1]);
        }
    }
    lemma_find_from_first(text, 1, n - 1, ']');
    let content = text.subrange(1, n - 1);
    assert(content =~= f + seq![' ']);
    assert forall|m: int| 0 <= m < f.len() implies #[trigger] content[m] != ' ' by {
        assert(content[m] == f[m]);
    }
    lemma_find_from_first(content, 0, f.len() as int, ' ');
    assert(head_name(content) =~= f);
    assert(attr_text(content) =~= Seq::<char>::empty());
}

#[verifier::spinoff_prover]
#[verifier::rlimit(40)]
proof fn lemma_bare_bracket(es: Seq<EntryV>, f: Seq<char>, group: u16, tag: u16)
    requires
        plain_name(f),
        code_of_name(es, f) == Some((group, tag)),
        layout_of(es, group, tag) == Seq::<ParamV>::empty(),
    ensures
        bracket_result(es, seq!['['] + f + seq![' ', ']'], 0, TokState { nodes: seq![], closed: seq![], pending: seq![] })
            == Ok::<(int, TokState), Error>(
            (
                f.len() + 3int,
                TokState {
                    nodes: seq![NodeV::Tag(TagV { name: f, code: code_bytes(group, tag), params: seq![], contents: seq![] })],
                    closed: seq![false],
                    pending: seq![],
                },
            ),
        ),
{
    let text = seq!['['] + f + seq![' ', ']'];
    let content = text.subrange(1, text.len() - 1);
    lemma_bare_scan(f);
    assert(scan_attrs(Seq::<char>::empty(), 0) == Seq::<(Seq<char>, Seq<char>)>::empty());
    assert(apply_attrs(Seq::<ParamV>::empty(), Seq::<(Seq<char>, Seq<char>)>::empty()) == Ok::<Seq<ParamV>, Error>(
        Seq::<ParamV>::empty(),
    ));
    let t2 = TagV { name: f, code: code_bytes(group, tag), params: seq![], contents: seq![] };
    let st0 = TokState { nodes: seq![], closed: seq![], pending: seq![] };
    let st2 = TokState { nodes: seq![NodeV::Tag(t2)], closed: seq![false], pending: seq![] };
    assert(Seq::<NodeV>::empty().push(NodeV::Tag(t2)) =~= seq![NodeV::Tag(t2)]);
    assert(Seq::<bool>::empty().push(false) =~= seq![false]);
    assert(open_result(es, f, content, group, tag, st0) == Ok::<TokState, Error>(st2));
}

#[verifier::spinoff_prover]
#[verifier::rlimit(40)]
proof fn lemma_bare_tokenize(es: Seq<EntryV>, f: Seq<char>, group: u16, tag: u16)
    requires
        plain_name(f),
        code_of_name(es, f) == Some((group, tag)),
        layout_of(es, group, tag) == Seq::<ParamV>::empty(),
    ensures
        tokenize_spec(es, seq!['['] + f + seq![' ', ']']) == Ok::<Seq<NodeV>, Error>(
            seq![
                NodeV::Tag(TagV { name: f, code: code_bytes(group, tag), params: seq![], contents: seq![] }),
                NodeV::Text(Seq::<char>::empty()),
            ],
        ),
{
    let text = seq!['['] + f + seq![' ', ']'];
    lemma_bare_bracket(es, f, group, tag);
    lemma_bare_scan(f);
    let t2 = TagV { name: f, code: code_bytes(group, tag), params: seq![], contents: seq![] };
    let st2 = TokState { nodes: seq![NodeV::Tag(t2)], closed: seq![false], pending: seq![] };
    let ms = seq![NodeV::Tag(t2), NodeV::Text(Seq::<char>::empty())];
    let st0 = TokState { nodes: seq![], closed: seq![], pending: seq![] };
    let n = text.len() as int;
    assert(n == f.len() + 3);
    assert(bracket_result(es, text, 0, st0) == Ok::<(int, TokState), Error>((n, st2)));
    assert(seq![NodeV::Tag(t2)].push(NodeV::Text(Seq::<char>::empty())) =~= ms);
    assert(tokenize_from(es, text, n, st2) == Ok::<Seq<NodeV>, Error>(ms));
    assert(tokenize_from(es, text, 0, st0) == tokenize_from(es, text, n, st2));
}

proof fn lemma_bare_encode(group: u16, tag: u16, name: Seq<char>)
    ensures
        nodes_bytes(
            seq![
                NodeV::Tag(TagV { name, code: code_bytes(group, tag), params: seq![], contents: seq![] }),
                NodeV::Text(Seq::<char>::empty()),
            ],
        ) == Ok::<Seq<u8>, Error>(bare_record(group, tag)),
{
    let t2 = TagV { name, code: code_bytes(group, tag), params: seq![], contents: seq![] };
    let ms = seq![NodeV::Tag(t2), NodeV::Text(Seq::<char>::empty())];
    let rec = le16(MARKER_START) + code_bytes(group, tag) + le16(0) + Seq::<u8>::empty();
    assert(params_bytes(Seq::<ParamV>::empty()) == Ok::<Seq<u8>, Error>(Seq::<u8>::empty()));
    assert(tag_bytes(t2) == Ok::<Seq<u8>, Error>(rec));
    assert(node_bytes(NodeV::Tag(t2)) == Ok::<Seq<u8>, Error>(rec));
    assert(text_units(Seq::<char>::empty()) =~= Seq::<u16>::empty());
    assert(le_units(Seq::<u16>::empty()) == Seq::<u8>::empty());
    assert(node_bytes(NodeV::Text(Seq::<char>::empty())) == Ok::<Seq<u8>, Error>(Seq::<u8>::empty()));
    assert(ms.drop_last() =~= seq![NodeV::Tag(t2)]);
    assert(seq![NodeV::Tag(t2)].drop_last() =~= Seq::<NodeV>::empty());
    assert(nodes_bytes(Seq::<NodeV>::empty()) == Ok::<Seq<u8>, Error>(Seq::<u8>::empty()));
    assert(nodes_bytes(seq![NodeV::Tag(t2)]) == Ok::<Seq<u8>, Error>(Seq::<u8>::empty() + rec));
    assert(Seq::<u8>::empty() + rec + Seq::<u8>::empty() =~= bare_record(group, tag));
}

/// A record of a code the schema lacks, with no parameter bytes, comes
/// back byte for byte through markup.
pub proof fn law_unknown_code_round_trip(es: Seq<EntryV>, group: u16, tag: u16)
    requires
        schema_wf(es),
        entry_by_code(es, group, tag) is None,
    ensures
        decode_spec(es, bare_record(group, tag)) matches Ok(ns) && tokenize_spec(es, nodes_text(ns)) matches Ok(ms)
            && nodes_bytes(ms) == Ok::<Seq<u8>, Error>(bare_record(group, tag)),
{
    let f = fallback_name(group, tag);
    lemma_bare_decode(es, group, tag);
    lemma_bare_render(TagV { name: f, code: code_bytes(group, tag), params: seq![], contents: seq![] });
    lemma_fallback_plain(group, tag);
    law_code_name_round_trip(es, group, tag);
    assert(name_of_code(es, group, tag) == f);
    assert(layout_of(es, group, tag) == Seq::<ParamV>::empty());
    lemma_bare_tokenize(es, f, group, tag);
    lemma_bare_encode(group, tag, f);
}

/// A layout whose values encode back to the bytes they were read from:
/// numbers with consistent enumerations, and blobs without enumeration.
pub open spec fn exact_layout(ps: Seq<ParamV>) -> bool {
    forall|i: int|
        0 <= i < ps.len() ==> match (#[trigger] ps[i]).value {
            ValueV::U8(_) => enumeration_wf(ps[i].map),
            ValueV::U16(_) => enumeration_wf(ps[i].map),
            ValueV::Bytes(_, _) => ps[i].map.len() == 0,
            ValueV::Str(_) => false,
        }
}

proof fn lemma_params_bytes_concat(a: Seq<ParamV>, c: Seq<ParamV>, x: Seq<u8>, y: Seq<u8>)
    requires
        params_bytes(a) == Ok::<Seq<u8>, Error>(x),
        params_bytes(c) == Ok::<Seq<u8>, Error>(y),
    ensures
        params_bytes(a + c) == Ok::<Seq<u8>, Error>(x + y),
    decreases c.len(),
{
    if c.len() == 0 {
        assert(a + c =~= a);
        assert(y == Seq::<u8>::empty());
        assert(x + y =~= x);
    } else {
        let c0 = c.drop_last();
        assert((a + c).drop_last() =~= a + c0);
        assert((a + c).last() == c.last());
        match params_bytes(c0) {
            Ok(y0) => {
                lemma_params_bytes_concat(a, c0, x, y0);
                match param_bytes(c.last()) {
                    Ok(z) => {
                        assert(y == y0 + z);
                        assert(x + y0 + z =~= x + y);
                    },
                    Err(_) => {},
                }
            },
            Err(_) => {},
        }
    }
}

proof fn lemma_param_exact(p: ParamV, b: Seq<u8>, pos: int, end: int)
    requires
        0 <= pos <= end <= b.len(),
        match p.value {
            ValueV::U8(_) => enumeration_wf(p.map),
            ValueV::U16(_) => enumeration_wf(p.map),
            ValueV::Bytes(_, _) => p.map.len() == 0,
            ValueV::Str(_) => false,
        },
        read_value(p.value, b, pos, end) is Some,
    ensures
        ({
            let (v, q) = read_value(p.value, b, pos, end)->Some_0;
            param_bytes(with_value(p, v)) == Ok::<Seq<u8>, Error>(b.subrange(pos, q))
        }),
{
    let (v, q) = read_value(p.value, b, pos, end)->Some_0;
    let p2 = with_value(p, v);
    match p.value {
        ValueV::U8(_) => {
            let x = b[pos];
            lemma_enumeration_numeral(p.map, x as nat);
            lemma_parse_decimal(x as nat, 255);
            assert(seq![x] =~= b.subrange(pos, q));
        },
        ValueV::U16(_) => {
            let x = unit_at(b, pos);
            lemma_enumeration_numeral(p.map, x as nat);
            lemma_parse_decimal(x as nat, 0xFFFF);
            assert(le16(x) =~= b.subrange(pos, q));
        },
        ValueV::Bytes(len, _) => {
            assert(lookup_raw(p.map, hex_upper(b.subrange(pos, q))) is None);
        },
        ValueV::Str(_) => {},
    }
}

/// With a consistent enumeration, a decimal numeral is never a symbolic
/// name.
proof fn lemma_enumeration_numeral(m: Seq<(Seq<char>, Seq<char>)>, n: nat)
    requires
        enumeration_wf(m),
    ensures
        lookup_raw(m, decimal(n)) is None,
{
    lemma_decimal_value(n);
    lemma_lookup_raw_entry(m, decimal(n));
    if let Some(r) = lookup_raw(m, decimal(n)) {
        let i = choose|i: int| 0 <= i < m.len() && #[trigger] m[i] == (r, decimal(n));
        assert(!is_numeral(m[i].1));
    }
}

proof fn lemma_read_params_exact(ps: Seq<ParamV>, b: Seq<u8>, pos: int, end: int)
    requires
        0 <= pos <= end <= b.len(),
        exact_layout(ps),
        read_params(ps, b, pos, end) is Some,
    ensures
        ({
            let (qs, q) = read_params(ps, b, pos, end)->Some_0;
            params_bytes(qs) == Ok::<Seq<u8>, Error>(b.subrange(pos, q))
        }),
    decreases ps.len(),
{
    let (qs, q) = read_params(ps, b, pos, end)->Some_0;
    if ps.len() == 0 {
        assert(qs == Seq::<ParamV>::empty());
        assert(b.subrange(pos, q) =~= Seq::<u8>::empty());
    } else {
        let p0 = ps[0];
        assert(exact_layout(ps) ==> match p0.value {
            ValueV::U8(_) => enumeration_wf(p0.map),
            ValueV::U16(_) => enumeration_wf(p0.map),
            ValueV::Bytes(_, _) => p0.map.len() == 0,
            ValueV::Str(_) => false,
        });
        let (v, p1) = read_value(p0.value, b, pos, end)->Some_0;
        lemma_param_exact(p0, b, pos, end);
        let rest = ps.drop_first();
        assert forall|i: int| 0 <= i < rest.len() implies match (#[trigger] rest[i]).value {
            ValueV::U8(_) => enumeration_wf(rest[i].map),
            ValueV::U16(_) => enumeration_wf(rest[i].map),
            ValueV::Bytes(_, _) => rest[i].map.len() == 0,
            ValueV::Str(_) => false,
        } by {
            assert(rest[i] == ps[i + 1]);
        }
        crate::model::lemma_read_params_bounds(ps, b, pos, end);
        assert(pos <= p1 <= end) by {
            assert(read_value(p0.value, b, pos, end) is Some);
        }
        lemma_read_params_exact(rest, b, p1, end);
        crate::model::lemma_read_params_bounds(rest, b, p1, end);
        let (rs, _) = read_params(rest, b, p1, end)->Some_0;
        let head = seq![with_value(p0, v)];
        assert(qs == head + rs);
        assert(head.drop_last() =~= Seq::<ParamV>::empty());
        assert(params_bytes(Seq::<ParamV>::empty()) == Ok::<Seq<u8>, Error>(Seq::<u8>::empty()));
        assert(params_bytes(head) == Ok::<Seq<u8>, Error>(Seq::<u8>::empty() + b.subrange(pos, p1)));
        assert(Seq::<u8>::empty() + b.subrange(pos, p1) =~= b.subrange(pos, p1));
        lemma_params_bytes_concat(head, rs, b.subrange(pos, p1), b.subrange(p1, q));
        assert(b.subrange(pos, p1) + b.subrange(p1, q) =~= b.subrange(pos, q));
    }
}

/// A decoded record whose layout has only numbers and blobs encodes back
/// to exactly the bytes it was decoded from, so its declared parameter
/// length is unchanged, surplus bytes included.
pub proof fn law_record_reencodes(es: Seq<EntryV>, b: Seq<u8>, pos: int)
    requires
        0 <= pos,
        unit_at(b, pos) == MARKER_START,
        read_record(es, b, pos) is Ok,
        exact_layout(layout_of(es, unit_at(b, pos + 2), unit_at(b, pos + 4))),
    ensures
        ({
            let (t, end) = read_record(es, b, pos)->Ok_0;
            tag_bytes(t) == Ok::<Seq<u8>, Error>(b.subrange(pos, end))
        }),
{
    let group = unit_at(b, pos + 2);
    let tag = unit_at(b, pos + 4);
    let end = pos + 8 + unit_at(b, pos + 6);
    let layout = layout_of(es, group, tag);
    let (t, e) = read_record(es, b, pos)->Ok_0;
    crate::model::lemma_read_params_bounds(layout, b, pos + 8, end);
    let (ps, q) = read_params(layout, b, pos + 8, end)->Some_0;
    lemma_read_params_exact(layout, b, pos + 8, end);
    if q < end {
        let blob = surplus_param(b.subrange(q, end));
        assert(blob.map == Seq::<(Seq<char>, Seq<char>)>::empty());
        assert(lookup_raw(blob.map, hex_upper(b.subrange(q, end))) is None);
        assert(param_bytes(blob) == Ok::<Seq<u8>, Error>(b.subrange(q, end)));
        assert(t.params == ps.push(blob));
        assert(t.params.drop_last() == ps);
        assert(params_bytes(t.params) == Ok::<Seq<u8>, Error>(b.subrange(pos + 8, q) + b.subrange(q, end)));
        assert(b.subrange(pos + 8, q) + b.subrange(q, end) =~= b.subrange(pos + 8, end));
    }
    assert(params_bytes(t.params) == Ok::<Seq<u8>, Error>(b.subrange(pos + 8, end)));
    assert(le16(MARKER_START) =~= b.subrange(pos, pos + 2));
    assert(le16(unit_at(b, pos + 6)) =~= b.subrange(pos + 6, pos + 8));
    assert(le16(MARKER_START) + b.subrange(pos + 2, pos + 6) + le16((end - pos - 8) as u16) + b.subrange(pos + 8, end)
        =~= b.subrange(pos, end));
}

proof fn lemma_replace_pair_hit(x: char, y: char, z: char, r: Seq<char>)
    ensures
        replace_pair(seq![x, y] + r, x, y, z) == seq![z] + replace_pair(r, x, y, z),
{
    assert((seq![x, y] + r).subrange(2, r.len() + 2int) =~= r);
}

proof fn lemma_replace_pair_miss(c: char, r: Seq<char>, x: char, y: char, z: char)
    requires
        c != x,
    ensures
        replace_pair(seq![c] + r, x, y, z) == seq![c] + replace_pair(r, x, y, z),
{
    assert((seq![c] + r).subrange(1, r.len() + 1int) =~= r);
}

proof fn lemma_replace_pair_near(d: char, r: Seq<char>, x: char, y: char, z: char)
    requires
        d != y,
        d != x,
    ensures
        replace_pair(seq![x, d] + r, x, y, z) == seq![x, d] + replace_pair(r, x, y, z),
{
    assert((seq![x, d] + r).subrange(1, r.len() + 2int) =~= seq![d] + r);
    lemma_replace_pair_miss(d, r, x, y, z);
    assert(seq![x] + (seq![d] + replace_pair(r, x, y, z)) =~= seq![x, d] + replace_pair(r, x, y, z));
}

/// Text with no backslash.
pub open spec fn no_backslash(s: Seq<char>) -> bool {
    forall|i: int| 0 <= i < s.len() ==> #[trigger] s[i] != '\\'
}

/// An escaped value after its quotes are undone.
spec fn after_quotes(s: Seq<char>) -> Seq<char>
    decreases s.len(),
{
    if s.len() == 0 {
        seq![]
    } else {
        (if s[0] == '"' { seq!['"'] } else { escape_char(s[0]) }) + after_quotes(s.subrange(1, s.len() as int))
    }
}

/// An escaped value after its quotes and carriage returns are undone.
spec fn after_returns(s: Seq<char>) -> Seq<char>
    decreases s.len(),
{
    if s.len() == 0 {
        seq![]
    } else {
        (if s[0] == '\t' { seq!['\\', 't'] } else { seq![s[0]] }) + after_returns(s.subrange(1, s.len() as int))
    }
}

proof fn lemma_unescape_passes(s: Seq<char>)
    requires
        no_backslash(s),
    ensures
        replace_pair(escape(s), '\\', '"', '"') == after_quotes(s),
        replace_pair(after_quotes(s), '\\', 'r', '\r') == after_returns(s),
        replace_pair(after_returns(s), '\\', 't', '\t') == s,
    decreases s.len(),
{
    if s.len() > 0 {
        let c = s[0];
        let t = s.subrange(1, s.len() as int);
        assert forall|i: int| 0 <= i < t.len() implies #[trigger] t[i] != '\\' by {
            assert(t[i] == s[i + 1]);
        }
        lemma_unescape_passes(t);
        assert(c != '\\');
        if c == '"' {
            lemma_replace_pair_hit('\\', '"', '"', escape(t));
            lemma_replace_pair_miss('"', after_quotes(t), '\\', 'r', '\r');
            lemma_replace_pair_miss('"', after_returns(t), '\\', 't', '\t');
        } else if c == '\r' {
            lemma_replace_pair_near('r', escape(t), '\\', '"', '"');
            lemma_replace_pair_hit('\\', 'r', '\r', after_quotes(t));
            lemma_replace_pair_miss('\r', after_returns(t), '\\', 't', '\t');
        } else if c == '\t' {
            lemma_replace_pair_near('t', escape(t), '\\', '"', '"');
            lemma_replace_pair_near('t', after_quotes(t), '\\', 'r', '\r');
            lemma_replace_pair_hit('\\', 't', '\t', after_returns(t));
        } else {
            lemma_replace_pair_miss(c, escape(t), '\\', '"', '"');
            lemma_replace_pair_miss(c, after_quotes(t), '\\', 'r', '\r');
            lemma_replace_pair_miss(c, after_returns(t), '\\', 't', '\t');
        }
        assert(seq![c] + t =~= s);
    }
}

proof fn lemma_value_stop_escaped(p: Seq<char>, s: Seq<char>, q: Seq<char>)
    requires
        no_backslash(s),
    ensures
        value_stop(p + escape(s) + q, p.len() as int) == value_stop(p + escape(s) + q, (p + escape(s)).len() as int),
    decreases s.len(),
{
    if s.len() > 0 {
        let c = s[0];
        let t = s.subrange(1, s.len() as int);
        assert forall|i: int| 0 <= i < t.len() implies #[trigger] t[i] != '\\' by {
            assert(t[i] == s[i + 1]);
        }
        let p2 = p + escape_char(c);
        lemma_value_stop_escaped(p2, t, q);
        assert(p + escape(s) + q =~= p2 + escape(t) + q);
        assert(c != '\\');
        let a = p + escape(s) + q;
        assert(a[p.len() as int] == escape_char(c)[0]);
        if c == '"' || c == '\r' || c == '\t' {
            assert(a[p.len() + 1int] == escape_char(c)[1]);
        }
    }
}

/// Escaping an attribute value without a backslash is undone by the
/// tokenizer: the value's scan ends at the closing quote after it, and
/// unescaping gives the value back.
pub proof fn law_escape_round_trip(s: Seq<char>, q: Seq<char>)
    requires
        no_backslash(s),
    ensures
        unescape(escape(s)) == s,
        value_stop(escape(s) + seq!['"'] + q, 0) == Some(escape(s).len() as int),
{
    lemma_unescape_passes(s);
    lemma_value_stop_escaped(Seq::<char>::empty(), s, seq!['"'] + q);
    assert(Seq::<char>::empty() + escape(s) + (seq!['"'] + q) =~= escape(s) + seq!['"'] + q);
    assert(Seq::<char>::empty() + escape(s) =~= escape(s));
}

/// The parameters that are not stubbed, in order.
pub open spec fn visible_params(ps: Seq<ParamV>) -> Seq<ParamV>
    decreases ps.len(),
{
    if ps.len() == 0 {
        seq![]
    } else if ps.last().stubbed {
        visible_params(ps.drop_last())
    } else {
        visible_params(ps.drop_last()).push(ps.last())
    }
}

proof fn lemma_visible_params_text(ps: Seq<ParamV>)
    ensures
        params_text(visible_params(ps)) == params_text(ps),
    decreases ps.len(),
{
    if ps.len() > 0 {
        lemma_visible_params_text(ps.drop_last());
        if !ps.last().stubbed {
            let v = visible_params(ps.drop_last()).push(ps.last());
            assert(v.drop_last() == visible_params(ps.drop_last()));
        } else {
            assert(params_text(ps) =~= params_text(ps.drop_last()));
        }
    }
}

/// A tag's markup is the same with its stubbed parameters removed: no
/// stubbed parameter shows in markup.
pub proof fn law_stubbed_not_rendered(t: TagV)
    ensures
        tag_text(t) == tag_text(TagV { params: visible_params(t.params), ..t }),
{
    lemma_visible_params_text(t.params);
}

/// A closing tag that matches no open tag of its name is dropped: scanning
/// goes on after its `]`, and its only effect is to end the pending text.
pub proof fn law_unmatched_close_dropped(es: Seq<EntryV>, cs: Seq<char>, i: int, j: int, st: TokState)
    requires
        0 <= i,
        i + 1 < cs.len(),
        cs[i] == '[',
        cs[i + 1] == '/',
        find_from(cs, i + 2, ']') == Some(j),
        find_open(flush(st).nodes, flush(st).closed, head_name(cs.subrange(i + 2, j)), flush(st).nodes.len() as int)
            is None,
    ensures
        bracket_result(es, cs, i, st) == Ok::<(int, TokState), Error>((j + 1, flush(st))),
{
}

/// A 16-bit value whose decimal form is a symbolic name of the
/// enumeration encodes as that name's raw value, or fails with a type
/// mismatch where the raw value is not a 16-bit decimal numeral.
pub proof fn law_enumeration_override(p: ParamV, n: u16, raw: Seq<char>)
    requires
        p.value == ValueV::U16(n),
        lookup_raw(p.map, decimal(n as nat)) == Some(raw),
    ensures
        param_bytes(p) == match parse_decimal_spec(raw, 0xFFFF) {
            Some(v) => Ok::<Seq<u8>, Error>(le16(v as u16)),
            None => Err::<Seq<u8>, Error>(Error::TypeMismatch),
        },
{
}

} // verus!
