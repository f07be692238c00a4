//! The markup side: bracketed text such as `[Name attr="value" ]…[/Name ]`
//! tokenized into nodes against a schema.
use vstd::prelude::*;
use crate::model::{
    lemma_nodes_view, node_view, nodes_view, params_view, resolve, resolve_text, with_value, Error,
    Node, NodeV, Param, ParamV, Tag, TagV, Value, ValueV,
};
use crate::schema::{code_of_name, layout_of, EntryV, TagSchema};
use crate::text::{
    chars_of, decode_hex, hex_bytes, is_hex_text, le16, parse_decimal, parse_decimal_spec, push_le16,
    string_of,
};

verus! {



/// Unicode white space.
pub open spec fn is_space(c: char) -> bool {
    let v = c as u32;
    (0x09 <= v && v <= 0x0D) || v == 0x20 || v == 0x85 || v == 0xA0 || v == 0x1680 || (0x2000 <= v && v
        <= 0x200A) || v == 0x2028 || v == 0x2029 || v == 0x202F || v == 0x205F || v == 0x3000
}

fn space(c: char) -> (r: bool)
    ensures
        r == is_space(c),
{
    let v = c as u32;
    (0x09 <= v && v <= 0x0D) || v == 0x20 || v == 0x85 || v == 0xA0 || v == 0x1680 || (0x2000 <= v && v
        <= 0x200A) || v == 0x2028 || v == 0x2029 || v == 0x202F || v == 0x205F || v == 0x3000
}

/// The first index from `k` on that holds `c`.
pub open spec fn find_from(cs: Seq<char>, k: int, c: char) -> Option<int>
    decreases cs.len() - k,
{
    if k < 0 || k >= cs.len() {
        None
    } else if cs[k] == c {
        Some(k)
    } else {
        find_from(cs, k + 1, c)
    }
}

fn find_char(cs: &[char], k: usize, c: char) -> (r: Option<usize>)
    ensures
        r matches Some(j) ==> find_from(cs@, k as int, c) == Some(j as int),
        r is None ==> find_from(cs@, k as int, c) is None,
{
    let mut j: usize = k;
    while j < cs.len()
        invariant
            k <= j,
            find_from(cs@, k as int, c) == find_from(cs@, j as int, c),
        decreases cs@.len() - j,
    {
        if cs[j] == c {
            return Some(j);
        }
        j = j + 1;
    }
    None
}

/// The end of the run of key characters from `k`: the first `=` or white
/// space, or the end.
pub open spec fn key_stop(a: Seq<char>, k: int) -> int
    decreases a.len() - k,
{
    if k < 0 || k >= a.len() || a[k] == '=' || is_space(a[k]) {
        k
    } else {
        key_stop(a, k + 1)
    }
}

/// The closing quote of a quoted value whose text starts at `m`; a
/// backslash escapes the character after it, except a line feed.
pub open spec fn value_stop(a: Seq<char>, m: int) -> Option<int>
    decreases a.len() - m,
{
    if m < 0 || m >= a.len() {
        None
    } else if a[m] == '"' {
        Some(m)
    } else if a[m] == '\\' {
        if m + 1 < a.len() && a[m + 1] != '\n' {
            value_stop(a, m + 2)
        } else {
            None
        }
    } else {
        value_stop(a, m + 1)
    }
}

/// Every non-overlapping pair `x y`, left to right, replaced by `z`.
pub open spec fn replace_pair(cs: Seq<char>, x: char, y: char, z: char) -> Seq<char>
    decreases cs.len(),
{
    if cs.len() == 0 {
        seq![]
    } else if cs.len() >= 2 && cs[0] == x && cs[1] == y {
        seq![z] + replace_pair(cs.subrange(2, cs.len() as int), x, y, z)
    } else {
        seq![cs[0]] + replace_pair(cs.subrange(1, cs.len() as int), x, y, z)
    }
}

/// An attribute value with its escapes `\"`, `\r` and `\t` undone, in that
/// order.
pub open spec fn unescape(cs: Seq<char>) -> Seq<char> {
    replace_pair(replace_pair(replace_pair(cs, '\\', '"', '"'), '\\', 'r', '\r'), '\\', 't', '\t')
}

/// The attribute `key="value"` that starts at `k`, as its key, its raw
/// value and the index after it.
pub open spec fn match_attr(a: Seq<char>, k: int) -> Option<(Seq<char>, Seq<char>, int)> {
    let e = key_stop(a, k);
    if e == k || e + 1 >= a.len() || a[e] != '=' || a[e + 1] != '"' {
        None
    } else {
        match value_stop(a, e + 2) {
            None => None,
            Some(q) => Some((a.subrange(k, e), a.subrange(e + 2, q), q + 1)),
        }
    }
}

/// The attributes found scanning from `k`: where none starts at an index,
/// the scan moves one character on.
pub open spec fn scan_attrs(a: Seq<char>, k: int) -> Seq<(Seq<char>, Seq<char>)>
    decreases a.len() - k,
{
    if k < 0 || k >= a.len() {
        seq![]
    } else {
        match match_attr(a, k) {
            Some((key, raw, next)) => if k < next <= a.len() {
                seq![(key, unescape(raw))] + scan_attrs(a, next)
            } else {
                seq![]
            },
            None => scan_attrs(a, k + 1),
        }
    }
}

/// The value that attribute text `t` gives a parameter: a number through
/// the enumeration and decimal, text as it is, a blob through the
/// enumeration and hexadecimal.
pub open spec fn text_value(p: ParamV, t: Seq<char>) -> Result<ValueV, Error> {
    match p.value {
        ValueV::U8(_) => match parse_decimal_spec(resolve_text(p.map, t), 255) {
            Some(v) => Ok(ValueV::U8(v as u8)),
            None => Err(Error::TypeMismatch),
        },
        ValueV::U16(_) => match parse_decimal_spec(resolve_text(p.map, t), 0xFFFF) {
            Some(v) => Ok(ValueV::U16(v as u16)),
            None => Err(Error::TypeMismatch),
        },
        ValueV::Str(_) => Ok(ValueV::Str(t)),
        ValueV::Bytes(len, _) => {
            let r = resolve_text(p.map, t);
            if !is_hex_text(r) {
                Err(Error::TypeMismatch)
            } else if hex_bytes(r).len() != len {
                Err(Error::LengthMismatch)
            } else {
                Ok(ValueV::Bytes(len, hex_bytes(r)))
            }
        },
    }
}

/// The first visible parameter with this name.
pub open spec fn param_named(ps: Seq<ParamV>, name: Seq<char>, k: int) -> Option<int>
    decreases ps.len() - k,
{
    if k < 0 || k >= ps.len() {
        None
    } else if !ps[k].stubbed && ps[k].name == name {
        Some(k)
    } else {
        param_named(ps, name, k + 1)
    }
}

/// Parameters after one attribute is applied; an attribute that names no
/// visible parameter changes nothing.
pub open spec fn apply_attr(ps: Seq<ParamV>, attr: (Seq<char>, Seq<char>)) -> Result<Seq<ParamV>, Error> {
    match param_named(ps, attr.0, 0) {
        None => Ok(ps),
        Some(i) => match text_value(ps[i], attr.1) {
            Err(e) => Err(e),
            Ok(v) => Ok(ps.update(i, with_value(ps[i], v))),
        },
    }
}

/// Parameters after the attributes are applied in order.
pub open spec fn apply_attrs(ps: Seq<ParamV>, attrs: Seq<(Seq<char>, Seq<char>)>) -> Result<Seq<ParamV>, Error>
    decreases attrs.len(),
{
    if attrs.len() == 0 {
        Ok(ps)
    } else {
        match apply_attrs(ps, attrs.drop_last()) {
            Err(e) => Err(e),
            Ok(qs) => apply_attr(qs, attrs.last()),
        }
    }
}

fn find_key_stop(a: &[char], k: usize) -> (r: usize)
    requires
        k <= a@.len(),
    ensures
        r as int == key_stop(a@, k as int),
        k <= r <= a@.len(),
{
    let mut j: usize = k;
    while j < a.len()
        invariant
            k <= j <= a@.len(),
            key_stop(a@, k as int) == key_stop(a@, j as int),
        decreases a@.len() - j,
    {
        if a[j] == '=' || space(a[j]) {
            return j;
        }
        j = j + 1;
    }
    j
}

fn find_value_stop(a: &[char], m: usize) -> (r: Option<usize>)
    ensures
        r matches Some(q) ==> value_stop(a@, m as int) == Some(q as int) && m <= q < a@.len(),
        r is None ==> value_stop(a@, m as int) is None,
{
    let mut j: usize = m;
    while j < a.len()
        invariant
            m <= j,
            value_stop(a@, m as int) == value_stop(a@, j as int),
        decreases a@.len() - j,
    {
        if a[j] == '"' {
            return Some(j);
        }
        if a[j] == '\\' {
            if j + 1 < a.len() && a[j + 1] != '\n' {
                j = j + 2;
            } else {
                return None;
            }
        } else {
            j = j + 1;
        }
    }
    None
}

fn replace_pairs(cs: &[char], x: char, y: char, z: char) -> (r: Vec<char>)
    ensures
        r@ == replace_pair(cs@, x, y, z),
{
    let mut out: Vec<char> = Vec::new();
    let mut i: usize = 0;
    assert(cs@.subrange(0, cs@.len() as int) == cs@);
    while i < cs.len()
        invariant
            i <= cs@.len(),
            out@ + replace_pair(cs@.subrange(i as int, cs@.len() as int), x, y, z) == replace_pair(cs@, x, y, z),
        decreases cs@.len() - i,
    {
        let ghost rest = cs@.subrange(i as int, cs@.len() as int);
        let ghost before = out@;
        if i + 1 < cs.len() && cs[i] == x && cs[i + 1] == y {
            out.push(z);
            assert(rest.subrange(2, rest.len() as int) == cs@.subrange(i + 2, cs@.len() as int));
            assert(out@ + replace_pair(cs@.subrange(i + 2, cs@.len() as int), x, y, z) =~= before + replace_pair(rest, x, y, z));
            i = i + 2;
        } else {
            out.push(cs[i]);
            assert(rest.subrange(1, rest.len() as int) == cs@.subrange(i + 1, cs@.len() as int));
            assert(out@ + replace_pair(cs@.subrange(i + 1, cs@.len() as int), x, y, z) =~= before + replace_pair(rest, x, y, z));
            i = i + 1;
        }
    }
    assert(out@ + replace_pair(seq![], x, y, z) =~= out@);
    out
}

fn unescape_value(cs: &[char]) -> (r: Vec<char>)
    ensures
        r@ == unescape(cs@),
{
    let a = replace_pairs(cs, '\\', '"', '"');
    let b = replace_pairs(a.as_slice(), '\\', 'r', '\r');
    replace_pairs(b.as_slice(), '\\', 't', '\t')
}

/// The attributes of a tag's attribute text, as keys and unescaped values.
pub fn parse_attrs(a: &[char]) -> (r: Vec<(Vec<char>, Vec<char>)>)
    ensures
        r@.map_values(|e: (Vec<char>, Vec<char>)| (e.0@, e.1@)) == scan_attrs(a@, 0),
{
    let mut out: Vec<(Vec<char>, Vec<char>)> = Vec::new();
    let mut k: usize = 0;
    while k < a.len()
        invariant
            k <= a@.len(),
            out@.map_values(|e: (Vec<char>, Vec<char>)| (e.0@, e.1@)) + scan_attrs(a@, k as int) == scan_attrs(a@, 0),
        decreases a@.len() - k,
    {
        let ghost before = out@.map_values(|e: (Vec<char>, Vec<char>)| (e.0@, e.1@));
        let e = find_key_stop(a, k);
        let mut hit: Option<(usize, usize)> = None;
        if e != k && e < a.len() - 1 && a[e] == '=' && a[e + 1] == '"' {
            match find_value_stop(a, e + 2) {
                Some(q) => {
                    hit = Some((e, q));
                },
                None => {},
            }
        }
        match hit {
            Some((e, q)) => {
                let key = vstd::slice::slice_to_vec(&a[k..e]);
                let raw = &a[e + 2..q];
                let val = unescape_value(raw);
                out.push((key, val));
                proof {
                    let now = out@.map_values(|e: (Vec<char>, Vec<char>)| (e.0@, e.1@));
                    assert(now =~= before.push((a@.subrange(k as int, e as int), unescape(a@.subrange(e + 2, q as int)))));
                    assert(now + scan_attrs(a@, q + 1) =~= before + scan_attrs(a@, k as int));
                }
                k = q + 1;
            },
            None => {
                k = k + 1;
            },
        }
    }
    assert(out@.map_values(|e: (Vec<char>, Vec<char>)| (e.0@, e.1@)) + scan_attrs(a@, k as int)
        =~= out@.map_values(|e: (Vec<char>, Vec<char>)| (e.0@, e.1@)));
    out
}

impl Param {
    /// Sets the value from attribute text: a number through the
    /// enumeration and decimal, text as it is, a blob through the
    /// enumeration and hexadecimal. On failure nothing changes.
    pub fn set_text(&mut self, t: &[char]) -> (r: Result<(), Error>)
        ensures
            r is Ok ==> text_value(old(self)@, t@) == Ok::<ValueV, Error>(final(self)@.value),
            r matches Err(e) ==> text_value(old(self)@, t@) == Err::<ValueV, Error>(e),
            r is Err ==> *final(self) == *old(self),
            final(self).name == old(self).name,
            final(self).stubbed == old(self).stubbed,
            final(self).map == old(self).map,
    {
        let ts = string_of(t);
        match self.value {
            Value::U8(_) => {
                let cs = chars_of(resolve(&self.map, &ts).as_str());
                match parse_decimal(cs.as_slice(), 255) {
                    Some(v) => {
                        self.value = Value::U8(v as u8);
                        Ok(())
                    },
                    None => Err(Error::TypeMismatch),
                }
            },
            Value::U16(_) => {
                let cs = chars_of(resolve(&self.map, &ts).as_str());
                match parse_decimal(cs.as_slice(), 0xFFFF) {
                    Some(v) => {
                        self.value = Value::U16(v as u16);
                        Ok(())
                    },
                    None => Err(Error::TypeMismatch),
                }
            },
            Value::String(_) => {
                self.value = Value::String(ts);
                Ok(())
            },
            Value::Bytes(len, _) => {
                let r = resolve(&self.map, &ts);
                match decode_hex(r.as_str()) {
                    None => Err(Error::TypeMismatch),
                    Some(q) => {
                        if q.len() != len as usize {
                            Err(Error::LengthMismatch)
                        } else {
                            self.value = Value::Bytes(len, q);
                            Ok(())
                        }
                    },
                }
            },
        }
    }
}

/// Applies attributes in order to the first visible parameter of each
/// name; stops at the first failure.
pub fn apply_attributes(params: &mut Vec<Param>, attrs: &Vec<(Vec<char>, Vec<char>)>) -> (r: Result<(), Error>)
    ensures
        r is Ok ==> apply_attrs(params_view(old(params)@), attrs@.map_values(|e: (Vec<char>, Vec<char>)| (e.0@, e.1@)))
            == Ok::<Seq<ParamV>, Error>(params_view(final(params)@)),
        r matches Err(e) ==> apply_attrs(params_view(old(params)@), attrs@.map_values(
            |e: (Vec<char>, Vec<char>)| (e.0@, e.1@),
        )) == Err::<Seq<ParamV>, Error>(e),
{
    let ghost av = attrs@.map_values(|e: (Vec<char>, Vec<char>)| (e.0@, e.1@));
    let ghost ps0 = params_view(params@);
    let mut i: usize = 0;
    while i < attrs.len()
        invariant
            i <= attrs@.len(),
            av == attrs@.map_values(|e: (Vec<char>, Vec<char>)| (e.0@, e.1@)),
            ps0 == params_view(old(params)@),
            apply_attrs(ps0, av.subrange(0, i as int)) == Ok::<Seq<ParamV>, Error>(params_view(params@)),
        decreases attrs@.len() - i,
    {
        assert(av.subrange(0, i as int + 1).drop_last() == av.subrange(0, i as int));
        let key = string_of(attrs[i].0.as_slice());
        let ghost cur = params_view(params@);
        let mut k: usize = 0;
        let mut found: Option<usize> = None;
        while k < params.len()
            invariant_except_break
                found is None,
            invariant
                k <= params@.len(),
                cur == params_view(params@),
                param_named(cur, key@, 0) == param_named(cur, key@, k as int),
            ensures
                found matches Some(j) ==> param_named(cur, key@, 0) == Some(j as int) && j < params@.len(),
                found is None ==> param_named(cur, key@, 0) is None,
            decreases params@.len() - k,
        {
            if !params[k].stubbed && params[k].name == key {
                found = Some(k);
                break;
            }
            k = k + 1;
        }
        match found {
            None => {},
            Some(j) => {
                let ghost pj = params@[j as int];
                match params[j].set_text(attrs[i].1.as_slice()) {
                    Err(e) => {
                        proof {
                            lemma_apply_attrs_err(ps0, av, i as int + 1, e);
                        }
                        return Err(e);
                    },
                    Ok(()) => {},
                }
                proof {
                    assert(params_view(params@) =~= cur.update(j as int, with_value(cur[j as int], params@[j as int]@.value)));
                }
            },
        }
        i = i + 1;
    }
    assert(av.subrange(0, av.len() as int) == av);
    Ok(())
}

/// A failing attribute fails every longer attribute list the same way.
proof fn lemma_apply_attrs_err(ps: Seq<ParamV>, av: Seq<(Seq<char>, Seq<char>)>, n: int, e: Error)
    requires
        0 < n <= av.len(),
        apply_attrs(ps, av.subrange(0, n)) == Err::<Seq<ParamV>, Error>(e),
    ensures
        apply_attrs(ps, av) == Err::<Seq<ParamV>, Error>(e),
    decreases av.len() - n,
{
    if n == av.len() {
        assert(av.subrange(0, n) == av);
    } else {
        assert(av.subrange(0, n + 1).drop_last() == av.subrange(0, n));
        lemma_apply_attrs_err(ps, av, n + 1, e);
    }
}

/// Where the tokenizer stands: the top-level nodes so far, which of them
/// a closing tag can no longer match, and the pending text.
pub struct TokState {
    pub nodes: Seq<NodeV>,
    pub closed: Seq<bool>,
    pub pending: Seq<char>,
}

/// The state with its pending text, if any, turned into a text node.
pub open spec fn flush(st: TokState) -> TokState {
    if st.pending.len() > 0 {
        TokState { nodes: st.nodes.push(NodeV::Text(st.pending)), closed: st.closed.push(true), pending: seq![] }
    } else {
        st
    }
}

/// The nearest tag before index `k` with this name that no closing tag has
/// matched yet.
pub open spec fn find_open(nodes: Seq<NodeV>, closed: Seq<bool>, name: Seq<char>, k: int) -> Option<int>
    decreases k,
{
    if k <= 0 || k > nodes.len() || k > closed.len() {
        None
    } else if nodes[k - 1] is Tag && nodes[k - 1]->Tag_0.name == name && !closed[k - 1] {
        Some(k - 1)
    } else {
        find_open(nodes, closed, name, k - 1)
    }
}

/// A closing tag: the nearest open tag of that name takes every node after
/// it as its contents, or one empty text where nothing follows it, so that
/// a closed tag keeps its end marker; with none, nothing happens.
pub open spec fn close_tag(st: TokState, name: Seq<char>) -> TokState {
    match find_open(st.nodes, st.closed, name, st.nodes.len() as int) {
        None => st,
        Some(k) => {
            let t = st.nodes[k]->Tag_0;
            let moved = t.contents + st.nodes.subrange(k + 1, st.nodes.len() as int);
            let contents = if moved.len() == 0 {
                seq![NodeV::Text(Seq::<char>::empty())]
            } else {
                moved
            };
            TokState {
                nodes: st.nodes.subrange(0, k).push(NodeV::Tag(TagV { contents, ..t })),
                closed: st.closed.subrange(0, k).push(true),
                pending: st.pending,
            }
        },
    }
}

/// The name part of a bracket's content: up to the first space.
pub open spec fn head_name(c: Seq<char>) -> Seq<char> {
    match find_from(c, 0, ' ') {
        Some(j) => c.subrange(0, j),
        None => c,
    }
}

/// The attribute part of a bracket's content: after the first space.
pub open spec fn attr_text(c: Seq<char>) -> Seq<char> {
    match find_from(c, 0, ' ') {
        Some(j) => c.subrange(j + 1, c.len() as int),
        None => seq![],
    }
}

/// The code bytes of a tag: group then tag, each little-endian.
pub open spec fn code_bytes(group: u16, tag: u16) -> Seq<u8> {
    le16(group) + le16(tag)
}

/// The state after an opening tag whose name resolves to `(g, t)`: a
/// tag with the layout's parameters and the attributes applied.
pub open spec fn open_result(es: Seq<EntryV>, name: Seq<char>, content: Seq<char>, g: u16, t: u16, f: TokState) -> Result<TokState, Error> {
    match apply_attrs(layout_of(es, g, t), scan_attrs(attr_text(content), 0)) {
        Err(e) => Err(e),
        Ok(ps) => Ok(TokState {
            nodes: f.nodes.push(NodeV::Tag(TagV { name, code: code_bytes(g, t), params: ps, contents: seq![] })),
            closed: f.closed.push(false),
            pending: seq![],
        }),
    }
}

/// The bracket at `i`: where scanning goes on and the state there. At `[`
/// the pending text becomes a node; a bracket whose name the schema does
/// not resolve, or that no `]` ends, is text.
pub open spec fn bracket_result(es: Seq<EntryV>, cs: Seq<char>, i: int, st: TokState) -> Result<(int, TokState), Error> {
    let f = flush(st);
    let literal = TokState { pending: seq!['['], ..f };
    let closing = i + 1 < cs.len() && cs[i + 1] == '/';
    let start = if closing { i + 2 } else { i + 1 };
    match find_from(cs, start, ']') {
        None => Ok((i + 1, literal)),
        Some(j) => {
            let content = cs.subrange(start, j);
            let name = head_name(content);
            if closing {
                Ok((j + 1, close_tag(f, name)))
            } else {
                match code_of_name(es, name) {
                    None => Ok((i + 1, literal)),
                    Some((g, t)) => match open_result(es, name, content, g, t, f) {
                        Err(e) => Err(e),
                        Ok(st2) => Ok((j + 1, st2)),
                    },
                }
            }
        },
    }
}

/// The nodes tokenized from `cs` from `i` on, in state `st`.
pub open spec fn tokenize_from(es: Seq<EntryV>, cs: Seq<char>, i: int, st: TokState) -> Result<Seq<NodeV>, Error>
    decreases cs.len() - i,
    via tokenize_from_decreases
{
    if i < 0 || i >= cs.len() {
        Ok(st.nodes.push(NodeV::Text(st.pending)))
    } else if cs[i] != '[' {
        tokenize_from(es, cs, i + 1, TokState { pending: st.pending.push(cs[i]), ..st })
    } else {
        match bracket_result(es, cs, i, st) {
            Err(e) => Err(e),
            Ok((n, st2)) => tokenize_from(es, cs, n, st2),
        }
    }
}

#[via_fn]
proof fn tokenize_from_decreases(es: Seq<EntryV>, cs: Seq<char>, i: int, st: TokState) {
    if 0 <= i < cs.len() && cs[i] == '[' {
        let closing = i + 1 < cs.len() && cs[i + 1] == '/';
        let start = if closing { i + 2 } else { i + 1 };
        lemma_find_from_bounds(cs, start, ']');
    }
}

/// The nodes that a markup text tokenizes to.
pub open spec fn tokenize_spec(es: Seq<EntryV>, cs: Seq<char>) -> Result<Seq<NodeV>, Error> {
    tokenize_from(es, cs, 0, TokState { nodes: seq![], closed: seq![], pending: seq![] })
}

/// The view of nodes, index by index.
proof fn lemma_nodes_view_new(ns: Seq<Node>)
    ensures
        nodes_view(ns) == Seq::new(ns.len(), |i: int| node_view(ns[i])),
{
    lemma_nodes_view(ns);
    assert(nodes_view(ns) =~= Seq::new(ns.len(), |i: int| node_view(ns[i])));
}

proof fn lemma_view_push(ns: Seq<Node>, n: Node)
    ensures
        nodes_view(ns.push(n)) == nodes_view(ns).push(node_view(n)),
{
    assert(ns.push(n).drop_last() == ns);
}

proof fn lemma_view_concat(a: Seq<Node>, b: Seq<Node>)
    ensures
        nodes_view(a + b) == nodes_view(a) + nodes_view(b),
{
    lemma_nodes_view_new(a);
    lemma_nodes_view_new(b);
    lemma_nodes_view_new(a + b);
    assert(nodes_view(a + b) =~= nodes_view(a) + nodes_view(b));
}

proof fn lemma_view_subrange(a: Seq<Node>, i: int, j: int)
    requires
        0 <= i <= j <= a.len(),
    ensures
        nodes_view(a.subrange(i, j)) == nodes_view(a).subrange(i, j),
{
    lemma_nodes_view_new(a);
    lemma_nodes_view_new(a.subrange(i, j));
    assert(nodes_view(a.subrange(i, j)) =~= nodes_view(a).subrange(i, j));
}

/// Turns the pending text, if any, into a text node.
fn flush_pending(nodes: &mut Vec<Node>, closed: &mut Vec<bool>, pending: &mut Vec<char>)
    ensures
        ({
            let st = flush(TokState { nodes: nodes_view(old(nodes)@), closed: old(closed)@, pending: old(pending)@ });
            &&& nodes_view(final(nodes)@) == st.nodes
            &&& final(closed)@ == st.closed
            &&& final(pending)@ == st.pending
        }),
        old(nodes)@.len() == old(closed)@.len() ==> final(nodes)@.len() == final(closed)@.len(),
{
    if pending.len() > 0 {
        let s = string_of(pending.as_slice());
        proof {
            lemma_view_push(nodes@, Node::Text(s));
        }
        nodes.push(Node::Text(s));
        closed.push(true);
        *pending = Vec::new();
    }
}

/// Applies a closing tag of this name.
fn close_nodes(nodes: &mut Vec<Node>, closed: &mut Vec<bool>, name: &String)
    requires
        old(nodes)@.len() == old(closed)@.len(),
    ensures
        ({
            let st = close_tag(
                TokState { nodes: nodes_view(old(nodes)@), closed: old(closed)@, pending: seq![] },
                name@,
            );
            &&& nodes_view(final(nodes)@) == st.nodes
            &&& final(closed)@ == st.closed
        }),
        final(nodes)@.len() == final(closed)@.len(),
{
    let ghost nv = nodes_view(nodes@);
    proof {
        lemma_nodes_view(nodes@);
    }
    let mut k: usize = nodes.len();
    let mut found: Option<usize> = None;
    while k > 0
        invariant_except_break
            found is None,
        invariant
            k <= nodes@.len(),
            nodes@.len() == closed@.len(),
            nv == nodes_view(nodes@),
            nv.len() == nodes@.len(),
            forall|x: int| 0 <= x < nodes@.len() ==> #[trigger] nv[x] == node_view(nodes@[x]),
            find_open(nv, closed@, name@, nv.len() as int) == find_open(nv, closed@, name@, k as int),
        ensures
            found matches Some(j) ==> find_open(nv, closed@, name@, nv.len() as int) == Some(j as int) && j
                < nodes@.len(),
            found is None ==> find_open(nv, closed@, name@, nv.len() as int) is None,
        decreases k,
    {
        let hit = match &nodes[k - 1] {
            Node::Tag(t) => t.name == *name && !closed[k - 1],
            Node::Text(_) => false,
        };
        if hit {
            found = Some(k - 1);
            break;
        }
        k = k - 1;
    }
    match found {
        None => {},
        Some(j) => {
            let ghost before = nodes@;
            proof {
                lemma_find_open(nv, closed@, name@, nv.len() as int);
                assert(node_view(before[j as int]) is Tag);
            }
            let mut moved = nodes.split_off(j + 1);
            closed.truncate(j);
            closed.push(true);
            let last = nodes.pop();
            assert(last == Some(before[j as int]));
            match last {
                Some(Node::Tag(mut t)) => {
                    let ghost tc = t.contents@;
                    t.contents.append(&mut moved);
                    proof {
                        lemma_view_concat(tc, before.subrange(j + 1, before.len() as int));
                        lemma_view_subrange(before, j + 1, before.len() as int);
                        lemma_view_subrange(before, 0, j as int);
                        lemma_nodes_view(t.contents@);
                    }
                    if t.contents.len() == 0 {
                        let e = Node::Text(String::new());
                        proof {
                            lemma_view_push(t.contents@, e);
                            assert(nodes_view(t.contents@) =~= Seq::<NodeV>::empty());
                        }
                        t.contents.push(e);
                    }
                    proof {
                        lemma_view_push(nodes@, Node::Tag(t));
                        assert(nodes@ == before.subrange(0, j as int));
                    }
                    nodes.push(Node::Tag(t));
                },
                _ => {
                    assert(false);
                },
            }
        },
    }
}

/// The bracket at `i`: whether it closes, the index of its `]`, and the
/// name and attribute text of its content.
fn scan_bracket(cs: &[char], i: usize) -> (r: Option<(bool, usize, Vec<char>, Vec<char>)>)
    requires
        i < cs@.len(),
    ensures
        ({
            let closing = i + 1 < cs@.len() && cs@[i + 1] == '/';
            let start = if closing { i + 2 } else { i + 1 };
            match r {
                None => find_from(cs@, start, ']') is None,
                Some((c, j, name, attrs)) => c == closing && find_from(cs@, start, ']') == Some(j as int) && i < j
                    < cs@.len() && name@ == head_name(cs@.subrange(start, j as int)) && attrs@ == attr_text(
                    cs@.subrange(start, j as int),
                ),
            }
        }),
{
    let closing = i < cs.len() - 1 && cs[i + 1] == '/';
    let start = if closing { i + 2 } else { i + 1 };
    let j = match find_char(cs, start, ']') {
        Some(j) => j,
        None => {
            return None;
        },
    };
    proof {
        lemma_find_from_bounds(cs@, start as int, ']');
    }
    let content = &cs[start..j];
    let sp = find_char(content, 0, ' ');
    proof {
        lemma_find_from_bounds(content@, 0, ' ');
    }
    let (name_chars, attrs_chars) = match sp {
        Some(p) => (&content[0..p], &content[p + 1..content.len()]),
        None => (content, &content[0..0]),
    };
    assert(attrs_chars@ == attr_text(content@));
    assert(name_chars@ == head_name(content@));
    Some((closing, j, vstd::slice::slice_to_vec(name_chars), vstd::slice::slice_to_vec(attrs_chars)))
}

/// Handles the `[` at `i`: returns where scanning goes on.
#[verifier::rlimit(100)]
#[verifier::spinoff_prover]
fn bracket_step(
    schema: &TagSchema,
    cs: &[char],
    i: usize,
    nodes: &mut Vec<Node>,
    closed: &mut Vec<bool>,
    pending: &mut Vec<char>,
) -> (r: Result<usize, Error>)
    requires
        i < cs@.len(),
        cs@[i as int] == '[',
        old(nodes)@.len() == old(closed)@.len(),
    ensures
        r matches Ok(n) ==> i < n <= cs@.len() && final(nodes)@.len() == final(closed)@.len() && bracket_result(
            schema@,
            cs@,
            i as int,
            TokState { nodes: nodes_view(old(nodes)@), closed: old(closed)@, pending: old(pending)@ },
        ) == Ok::<(int, TokState), Error>(
            (n as int, TokState { nodes: nodes_view(final(nodes)@), closed: final(closed)@, pending: final(pending)@ }),
        ),
        r matches Err(e) ==> bracket_result(
            schema@,
            cs@,
            i as int,
            TokState { nodes: nodes_view(old(nodes)@), closed: old(closed)@, pending: old(pending)@ },
        ) == Err::<(int, TokState), Error>(e),
{
    let ghost st0 = TokState { nodes: nodes_view(nodes@), closed: closed@, pending: pending@ };
    flush_pending(nodes, closed, pending);
    let ghost f = flush(st0);
    assert(f == TokState { nodes: nodes_view(nodes@), closed: closed@, pending: pending@ });
    assert(pending@ =~= Seq::<char>::empty());
    let len = cs.len();
    let (closing, j, name_chars, attrs_chars) = match scan_bracket(cs, i) {
        Some(x) => x,
        None => {
            pending.push('[');
            assert(pending@ =~= seq!['[']);
            return Ok(i + 1);
        },
    };
    let name = string_of(name_chars.as_slice());
    assert(pending@ =~= Seq::<char>::empty());
    if closing {
        close_nodes(nodes, closed, &name);
        assert(pending@ =~= Seq::<char>::empty());
        return Ok(j + 1);
    }
    match schema.resolve_by_name(&name) {
        None => {
            pending.push('[');
            assert(pending@ =~= seq!['[']);
            Ok(i + 1)
        },
        Some((g, t, params)) => {
            match open_step(schema, name, attrs_chars.as_slice(), g, t, params, nodes, closed) {
                Ok(()) => Ok(j + 1),
                Err(e) => Err(e),
            }
        },
    }
}

/// Pushes an opening tag with the attributes applied to its layout.
fn open_step(
    schema: &TagSchema,
    name: String,
    attrs_chars: &[char],
    g: u16,
    t: u16,
    params: Vec<Param>,
    nodes: &mut Vec<Node>,
    closed: &mut Vec<bool>,
) -> (r: Result<(), Error>)
    requires
        params_view(params@) == layout_of(schema@, g, t),
        old(nodes)@.len() == old(closed)@.len(),
    ensures
        ({
            let res = apply_attrs(layout_of(schema@, g, t), scan_attrs(attrs_chars@, 0));
            match r {
                Ok(()) => res matches Ok(ps) && nodes_view(final(nodes)@) == nodes_view(old(nodes)@).push(
                    NodeV::Tag(TagV { name: name@, code: code_bytes(g, t), params: ps, contents: seq![] }),
                ) && final(closed)@ == old(closed)@.push(false),
                Err(e) => res == Err::<Seq<ParamV>, Error>(e),
            }
        }),
        r is Ok ==> final(nodes)@.len() == final(closed)@.len(),
{
    let mut params = params;
    let attrs = parse_attrs(attrs_chars);
    match apply_attributes(&mut params, &attrs) {
        Err(e) => {
            return Err(e);
        },
        Ok(()) => {},
    }
    let mut code: Vec<u8> = Vec::new();
    push_le16(&mut code, g);
    push_le16(&mut code, t);
    assert(code@ =~= code_bytes(g, t));
    let tag = Tag { name, bytes: code, params, contents: Vec::new() };
    proof {
        lemma_nodes_view(tag.contents@);
        assert(nodes_view(tag.contents@) =~= seq![]);
        lemma_view_push(nodes@, Node::Tag(tag));
    }
    nodes.push(Node::Tag(tag));
    closed.push(false);
    Ok(())
}

/// Tokenizes markup text into nodes: text runs, and tags whose names the
/// schema resolves, with their attributes applied to fresh parameter
/// layouts. A closing tag moves everything after the nearest open tag of
/// its name into that tag; an unmatched one is dropped.
pub fn bbcode_to_nodes(schema: &TagSchema, text: &str) -> (r: Result<Vec<Node>, Error>)
    ensures
        r matches Ok(ns) ==> tokenize_spec(schema@, text@) == Ok::<Seq<NodeV>, Error>(nodes_view(ns@)),
        r matches Err(e) ==> tokenize_spec(schema@, text@) == Err::<Seq<NodeV>, Error>(e),
{
    let cs = chars_of(text);
    let mut nodes: Vec<Node> = Vec::new();
    let mut closed: Vec<bool> = Vec::new();
    let mut pending: Vec<char> = Vec::new();
    let mut i: usize = 0;
    proof {
        lemma_nodes_view(nodes@);
        assert(nodes_view(nodes@) =~= seq![]);
    }
    while i < cs.len()
        invariant
            cs@ == text@,
            i <= cs@.len(),
            nodes@.len() == closed@.len(),
            tokenize_spec(schema@, text@) == tokenize_from(
                schema@,
                cs@,
                i as int,
                TokState { nodes: nodes_view(nodes@), closed: closed@, pending: pending@ },
            ),
        decreases cs@.len() - i,
    {
        if cs[i] != '[' {
            pending.push(cs[i]);
            i = i + 1;
        } else {
            match bracket_step(schema, cs.as_slice(), i, &mut nodes, &mut closed, &mut pending) {
                Ok(n) => {
                    i = n;
                },
                Err(e) => {
                    return Err(e);
                },
            }
        }
    }
    let s = string_of(pending.as_slice());
    proof {
        lemma_view_push(nodes@, Node::Text(s));
    }
    nodes.push(Node::Text(s));
    Ok(nodes)
}

proof fn lemma_find_open(nodes: Seq<NodeV>, closed: Seq<bool>, name: Seq<char>, k: int)
    ensures
        find_open(nodes, closed, name, k) matches Some(j) ==> 0 <= j < k && j < nodes.len() && j < closed.len()
            && nodes[j] is Tag && nodes[j]->Tag_0.name == name && !closed[j],
    decreases k,
{
    if k > 0 && k <= nodes.len() && k <= closed.len() {
        lemma_find_open(nodes, closed, name, k - 1);
    }
}

proof fn lemma_find_from_bounds(cs: Seq<char>, k: int, c: char)
    ensures
        find_from(cs, k, c) matches Some(j) ==> k <= j < cs.len() && cs[j] == c,
    decreases cs.len() - k,
{
    if 0 <= k < cs.len() && cs[k] != c {
        lemma_find_from_bounds(cs, k + 1, c);
    }
}

} // verus!
