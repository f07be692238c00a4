//! The node tree of a message: text runs and tag records with typed
//! parameters, with their binary encoding and their markup rendering.
use vstd::prelude::*;
use crate::text::{
    chars_of, decimal, is_numeral, numeral_text, decimal_string, decode_chars, decode_hex, decode_utf16_lossy, encode_hex_upper,
    encode_utf16, extend_bytes, hex_bytes, hex_upper, is_hex_text, le16, le_to_units, le_units,
    parse_decimal, parse_decimal_spec, push_char, push_le16, read_units, text_units, unit_at, units_to_le,
};

verus! {

broadcast use vstd::std_specs::vec::group_vec_axioms, vstd::seq::group_seq_axioms;

/// The unit that opens a tag record.
pub const MARKER_START: u16 = 0x0E;

/// The unit that closes the contents of a tag record.
pub const MARKER_END: u16 = 0x0F;

/// Why a conversion failed.
#[derive(Clone, Copy, Debug, PartialEq, Eq, Structural)]
pub enum Error {
    /// A tag record's parameters need more bytes than the record declares.
    ParamsExceedRecord,
    /// The stream ends inside a tag record.
    Truncated,
    /// A value or enumeration string does not parse as the parameter's kind.
    TypeMismatch,
    /// A byte-blob's payload length differs from its declared length.
    LengthMismatch,
    /// An encoded length does not fit its 16-bit prefix.
    TooLong,
}

/// A typed parameter value.
#[derive(Clone, Debug)]
pub enum Value {
    U8(u8),
    U16(u16),
    /// UTF-16 text with a 16-bit byte-count prefix.
    String(String),
    /// A blob of a declared length.
    Bytes(u16, Vec<u8>),
}

/// A named parameter of a tag, with its enumeration of
/// `(raw, symbolic)` pairs and whether it is hidden from the markup.
#[derive(Clone, Debug)]
pub struct Param {
    pub name: String,
    pub value: Value,
    pub stubbed: bool,
    pub map: Vec<(String, String)>,
}

/// A tag record: its name, its four code bytes, its parameters and the
/// nodes it encloses.
#[derive(Debug)]
pub struct Tag {
    pub name: String,
    pub bytes: Vec<u8>,
    pub params: Vec<Param>,
    pub contents: Vec<Node>,
}

/// A run of text or a tag record.
#[derive(Debug)]
pub enum Node {
    Text(String),
    Tag(Tag),
}

/// The mathematical value of a [`Value`].
pub enum ValueV {
    U8(u8),
    U16(u16),
    Str(Seq<char>),
    Bytes(u16, Seq<u8>),
}

pub struct ParamV {
    pub name: Seq<char>,
    pub value: ValueV,
    pub stubbed: bool,
    pub map: Seq<(Seq<char>, Seq<char>)>,
}

pub struct TagV {
    pub name: Seq<char>,
    pub code: Seq<u8>,
    pub params: Seq<ParamV>,
    pub contents: Seq<NodeV>,
}

pub enum NodeV {
    Text(Seq<char>),
    Tag(TagV),
}

impl View for Value {
    type V = ValueV;

    open spec fn view(&self) -> ValueV {
        match self {
            Value::U8(n) => ValueV::U8(*n),
            Value::U16(n) => ValueV::U16(*n),
            Value::String(s) => ValueV::Str(s@),
            Value::Bytes(len, v) => ValueV::Bytes(*len, v@),
        }
    }
}

pub open spec fn map_view(m: Seq<(String, String)>) -> Seq<(Seq<char>, Seq<char>)> {
    m.map_values(|e: (String, String)| (e.0@, e.1@))
}

impl View for Param {
    type V = ParamV;

    open spec fn view(&self) -> ParamV {
        ParamV { name: self.name@, value: self.value@, stubbed: self.stubbed, map: map_view(self.map@) }
    }
}

pub open spec fn params_view(ps: Seq<Param>) -> Seq<ParamV> {
    ps.map_values(|p: Param| p@)
}

pub open spec fn node_view(n: Node) -> NodeV
    decreases n,
{
    match n {
        Node::Text(s) => NodeV::Text(s@),
        Node::Tag(t) => NodeV::Tag(tag_view(t)),
    }
}

pub open spec fn tag_view(t: Tag) -> TagV
    decreases t,
{
    TagV {
        name: t.name@,
        code: t.bytes@,
        params: params_view(t.params@),
        contents: nodes_view(t.contents@),
    }
}

pub open spec fn nodes_view(ns: Seq<Node>) -> Seq<NodeV>
    decreases ns,
{
    if ns.len() == 0 {
        seq![]
    } else {
        nodes_view(ns.drop_last()).push(node_view(ns.last()))
    }
}

impl View for Tag {
    type V = TagV;

    open spec fn view(&self) -> TagV {
        tag_view(*self)
    }
}

impl View for Node {
    type V = NodeV;

    open spec fn view(&self) -> NodeV {
        node_view(*self)
    }
}

/// An enumeration whose lookups agree both ways: no two entries share a
/// raw value or a symbolic name, and no symbolic name is a decimal numeral.
pub open spec fn enumeration_wf(m: Seq<(Seq<char>, Seq<char>)>) -> bool {
    &&& forall|i: int, j: int| 0 <= i < j < m.len() ==> (#[trigger] m[i]).0 != (#[trigger] m[j]).0
    &&& forall|i: int, j: int| 0 <= i < j < m.len() ==> (#[trigger] m[i]).1 != (#[trigger] m[j]).1
    &&& forall|i: int| 0 <= i < m.len() ==> !is_numeral((#[trigger] m[i]).1)
}

/// The symbolic name that the first entry with this raw string gives.
pub open spec fn lookup_symbolic(m: Seq<(Seq<char>, Seq<char>)>, raw: Seq<char>) -> Option<Seq<char>>
    decreases m.len(),
{
    if m.len() == 0 {
        None
    } else if m[0].0 == raw {
        Some(m[0].1)
    } else {
        lookup_symbolic(m.drop_first(), raw)
    }
}

/// The raw string that the first entry with this symbolic name gives.
pub open spec fn lookup_raw(m: Seq<(Seq<char>, Seq<char>)>, sym: Seq<char>) -> Option<Seq<char>>
    decreases m.len(),
{
    if m.len() == 0 {
        None
    } else if m[0].1 == sym {
        Some(m[0].0)
    } else {
        lookup_raw(m.drop_first(), sym)
    }
}

/// A text with an enumeration's symbolic name replaced by its raw string.
pub open spec fn resolve_text(m: Seq<(Seq<char>, Seq<char>)>, t: Seq<char>) -> Seq<char> {
    match lookup_raw(m, t) {
        Some(r) => r,
        None => t,
    }
}

/// The canonical string form of a value: decimal, the text itself, or
/// upper-case hexadecimal.
pub open spec fn value_text(v: ValueV) -> Seq<char> {
    match v {
        ValueV::U8(n) => decimal(n as nat),
        ValueV::U16(n) => decimal(n as nat),
        ValueV::Str(s) => s,
        ValueV::Bytes(_, b) => hex_upper(b),
    }
}

/// A byte-length-prefixed UTF-16 string.
pub open spec fn str_bytes(s: Seq<char>) -> Result<Seq<u8>, Error> {
    let u = text_units(s);
    if 2 * u.len() > 0xFFFF {
        Err(Error::TooLong)
    } else {
        Ok(le16((2 * u.len()) as u16) + le_units(u))
    }
}

/// The encoding of a parameter. A value whose canonical form is a
/// symbolic name of the enumeration is written as that name's raw value.
pub open spec fn param_bytes(p: ParamV) -> Result<Seq<u8>, Error> {
    match p.value {
        ValueV::U8(n) => match parse_decimal_spec(resolve_text(p.map, decimal(n as nat)), 255) {
            Some(v) => Ok(seq![v as u8]),
            None => Err(Error::TypeMismatch),
        },
        ValueV::U16(n) => match parse_decimal_spec(resolve_text(p.map, decimal(n as nat)), 0xFFFF) {
            Some(v) => Ok(le16(v as u16)),
            None => Err(Error::TypeMismatch),
        },
        ValueV::Str(s) => str_bytes(s),
        ValueV::Bytes(len, b) => {
            let payload = match lookup_raw(p.map, hex_upper(b)) {
                None => Some(b),
                Some(r) => if is_hex_text(r) {
                    Some(hex_bytes(r))
                } else {
                    None
                },
            };
            match payload {
                None => Err(Error::TypeMismatch),
                Some(q) => if q.len() == len {
                    Ok(q)
                } else {
                    Err(Error::LengthMismatch)
                },
            }
        },
    }
}

/// The encodings of parameters one after another; the first failure wins.
pub open spec fn params_bytes(ps: Seq<ParamV>) -> Result<Seq<u8>, Error>
    decreases ps.len(),
{
    if ps.len() == 0 {
        Ok(seq![])
    } else {
        match params_bytes(ps.drop_last()) {
            Err(e) => Err(e),
            Ok(a) => match param_bytes(ps.last()) {
                Err(e) => Err(e),
                Ok(b) => Ok(a + b),
            },
        }
    }
}

/// The encoding of a node.
pub open spec fn node_bytes(n: NodeV) -> Result<Seq<u8>, Error>
    decreases n,
{
    match n {
        NodeV::Text(s) => Ok(le_units(text_units(s))),
        NodeV::Tag(t) => tag_bytes(t),
    }
}

/// A tag record: start marker, code bytes, parameter byte count, parameter
/// bytes; then, for a tag with contents, the contents and an end marker.
pub open spec fn tag_bytes(t: TagV) -> Result<Seq<u8>, Error>
    decreases t,
{
    match params_bytes(t.params) {
        Err(e) => Err(e),
        Ok(pb) => if pb.len() > 0xFFFF {
            Err(Error::TooLong)
        } else {
            let head = le16(MARKER_START) + t.code + le16(pb.len() as u16) + pb;
            if t.contents.len() == 0 {
                Ok(head)
            } else {
                match nodes_bytes(t.contents) {
                    Err(e) => Err(e),
                    Ok(cb) => Ok(head + cb + le16(MARKER_END)),
                }
            }
        },
    }
}

/// The encodings of nodes one after another; the first failure wins.
pub open spec fn nodes_bytes(ns: Seq<NodeV>) -> Result<Seq<u8>, Error>
    decreases ns,
{
    if ns.len() == 0 {
        Ok(seq![])
    } else {
        match nodes_bytes(ns.drop_last()) {
            Err(e) => Err(e),
            Ok(a) => match node_bytes(ns.last()) {
                Err(e) => Err(e),
                Ok(b) => Ok(a + b),
            },
        }
    }
}

/// The string a parameter shows: its enumeration's symbolic name for its
/// canonical form, else the canonical form.
pub open spec fn shown_text(p: ParamV) -> Seq<char> {
    match lookup_symbolic(p.map, value_text(p.value)) {
        Some(s) => s,
        None => value_text(p.value),
    }
}

/// The markup of a parameter: `name="value" `, or nothing for a stubbed
/// parameter or an empty value.
pub open spec fn param_text(p: ParamV) -> Seq<char> {
    if p.stubbed || shown_text(p).len() == 0 {
        seq![]
    } else {
        p.name + seq!['=', '"'] + escape(shown_text(p)) + seq!['"', ' ']
    }
}

/// One character of an attribute value: a quote, carriage return or tab
/// as `\"`, `\r` or `\t`, any other as it is.
pub open spec fn escape_char(c: char) -> Seq<char> {
    if c == '"' {
        seq!['\\', '"']
    } else if c == '\r' {
        seq!['\\', 'r']
    } else if c == '\t' {
        seq!['\\', 't']
    } else {
        seq![c]
    }
}

/// An attribute value with its quotes, carriage returns and tabs escaped.
pub open spec fn escape(s: Seq<char>) -> Seq<char>
    decreases s.len(),
{
    if s.len() == 0 {
        seq![]
    } else {
        escape_char(s[0]) + escape(s.subrange(1, s.len() as int))
    }
}

/// Appends an attribute value escaped.
fn push_escaped(r: &mut String, v: &str)
    ensures
        final(r)@ == old(r)@ + escape(v@),
{
    let cs = chars_of(v);
    let mut i: usize = 0;
    assert(cs@.subrange(0, cs@.len() as int) == cs@);
    while i < cs.len()
        invariant
            cs@ == v@,
            i <= cs@.len(),
            r@ + escape(cs@.subrange(i as int, cs@.len() as int)) == old(r)@ + escape(v@),
        decreases cs@.len() - i,
    {
        let ghost before = r@;
        let ghost rest = cs@.subrange(i as int, cs@.len() as int);
        assert(rest.subrange(1, rest.len() as int) == cs@.subrange(i + 1, cs@.len() as int));
        let c = cs[i];
        if c == '"' {
            push_char(r, '\\');
            push_char(r, '"');
        } else if c == '\r' {
            push_char(r, '\\');
            push_char(r, 'r');
        } else if c == '\t' {
            push_char(r, '\\');
            push_char(r, 't');
        } else {
            push_char(r, c);
        }
        assert(r@ =~= before + escape_char(c));
        assert(r@ + escape(cs@.subrange(i + 1, cs@.len() as int)) =~= before + escape(rest));
        i = i + 1;
    }
    assert(r@ + escape(Seq::<char>::empty()) =~= r@);
}

pub open spec fn params_text(ps: Seq<ParamV>) -> Seq<char>
    decreases ps.len(),
{
    if ps.len() == 0 {
        seq![]
    } else {
        params_text(ps.drop_last()) + param_text(ps.last())
    }
}

/// The opening markup of a tag: `[Name params]`.
pub open spec fn open_text(t: TagV) -> Seq<char> {
    seq!['['] + t.name + seq![' '] + params_text(t.params) + seq![']']
}

/// The closing markup of a tag: `[/Name ]`.
pub open spec fn close_text(name: Seq<char>) -> Seq<char> {
    seq!['[', '/'] + name + seq![' ', ']']
}

pub open spec fn node_text(n: NodeV) -> Seq<char>
    decreases n,
{
    match n {
        NodeV::Text(s) => s,
        NodeV::Tag(t) => tag_text(t),
    }
}

/// A tag's markup; a tag with contents encloses them in a closing mark.
pub open spec fn tag_text(t: TagV) -> Seq<char>
    decreases t,
{
    if t.contents.len() == 0 {
        open_text(t)
    } else {
        open_text(t) + nodes_text(t.contents) + close_text(t.name)
    }
}

pub open spec fn nodes_text(ns: Seq<NodeV>) -> Seq<char>
    decreases ns,
{
    if ns.len() == 0 {
        seq![]
    } else {
        nodes_text(ns.drop_last()) + node_text(ns.last())
    }
}

/// An encoding result, as a sequence of bytes.
pub open spec fn bytes_result(r: Result<Vec<u8>, Error>) -> Result<Seq<u8>, Error> {
    match r {
        Ok(b) => Ok(b@),
        Err(e) => Err(e),
    }
}

/// What a value becomes when read from `b` at `pos` without passing `end`,
/// and where reading stops; `None` where it does not fit.
pub open spec fn read_value(v: ValueV, b: Seq<u8>, pos: int, end: int) -> Option<(ValueV, int)> {
    match v {
        ValueV::U8(_) => if pos + 1 <= end {
            Some((ValueV::U8(b[pos]), pos + 1))
        } else {
            None
        },
        ValueV::U16(_) => if pos + 2 <= end {
            Some((ValueV::U16(unit_at(b, pos)), pos + 2))
        } else {
            None
        },
        ValueV::Str(_) => if pos + 2 <= end && pos + 2 + unit_at(b, pos) <= end {
            let n = unit_at(b, pos) as int;
            Some((ValueV::Str(decode_chars(le_to_units(b.subrange(pos + 2, pos + 2 + n)))), pos + 2 + n))
        } else {
            None
        },
        ValueV::Bytes(len, _) => if pos + len <= end {
            Some((ValueV::Bytes(len, b.subrange(pos, pos + len)), pos + len))
        } else {
            None
        },
    }
}

/// A parameter with another value.
pub open spec fn with_value(p: ParamV, v: ValueV) -> ParamV {
    ParamV { value: v, ..p }
}

/// Parameters read one after another from `b` at `pos` without passing
/// `end`, and where reading stops.
pub open spec fn read_params(ps: Seq<ParamV>, b: Seq<u8>, pos: int, end: int) -> Option<(Seq<ParamV>, int)>
    decreases ps.len(),
{
    if ps.len() == 0 {
        Some((seq![], pos))
    } else {
        match read_value(ps[0].value, b, pos, end) {
            None => None,
            Some((v, p)) => match read_params(ps.drop_first(), b, p, end) {
                None => None,
                Some((rest, q)) => Some((seq![with_value(ps[0], v)] + rest, q)),
            },
        }
    }
}

/// Reading parameters stops between where it started and its limit, with
/// one value for each parameter.
pub proof fn lemma_read_params_bounds(ps: Seq<ParamV>, b: Seq<u8>, pos: int, end: int)
    requires
        pos <= end,
    ensures
        read_params(ps, b, pos, end) matches Some((qs, q)) ==> pos <= q <= end && qs.len() == ps.len(),
    decreases ps.len(),
{
    if ps.len() > 0 {
        match read_value(ps[0].value, b, pos, end) {
            None => {},
            Some((v, p)) => {
                lemma_read_params_bounds(ps.drop_first(), b, p, end);
            },
        }
    }
}

/// Index `i` of a view of nodes is the view of node `i`.
pub proof fn lemma_nodes_view(ns: Seq<Node>)
    ensures
        nodes_view(ns).len() == ns.len(),
        forall|i: int| 0 <= i < ns.len() ==> #[trigger] nodes_view(ns)[i] == node_view(ns[i]),
    decreases ns.len(),
{
    if ns.len() > 0 {
        lemma_nodes_view(ns.drop_last());
    }
}

/// The first entry whose raw string is `raw`, as its symbolic name.
fn find_symbolic(m: &Vec<(String, String)>, raw: &String) -> (r: Option<String>)
    ensures
        r matches Some(s) ==> lookup_symbolic(map_view(m@), raw@) == Some(s@),
        r is None ==> lookup_symbolic(map_view(m@), raw@) is None,
{
    let ghost mv = map_view(m@);
    let mut i: usize = 0;
    assert(mv.subrange(0, mv.len() as int) == mv);
    while i < m.len()
        invariant
            i <= m@.len(),
            mv == map_view(m@),
            lookup_symbolic(mv, raw@) == lookup_symbolic(mv.subrange(i as int, mv.len() as int), raw@),
        decreases m@.len() - i,
    {
        let ghost rest = mv.subrange(i as int, mv.len() as int);
        assert(rest[0] == mv[i as int]);
        assert(rest.drop_first() == mv.subrange(i as int + 1, mv.len() as int));
        if m[i].0 == *raw {
            return Some(m[i].1.clone());
        }
        i = i + 1;
    }
    None
}

/// The first entry whose symbolic name is `sym`, as its raw string.
fn find_raw(m: &Vec<(String, String)>, sym: &String) -> (r: Option<String>)
    ensures
        r matches Some(s) ==> lookup_raw(map_view(m@), sym@) == Some(s@),
        r is None ==> lookup_raw(map_view(m@), sym@) is None,
{
    let ghost mv = map_view(m@);
    let mut i: usize = 0;
    assert(mv.subrange(0, mv.len() as int) == mv);
    while i < m.len()
        invariant
            i <= m@.len(),
            mv == map_view(m@),
            lookup_raw(mv, sym@) == lookup_raw(mv.subrange(i as int, mv.len() as int), sym@),
        decreases m@.len() - i,
    {
        let ghost rest = mv.subrange(i as int, mv.len() as int);
        assert(rest[0] == mv[i as int]);
        assert(rest.drop_first() == mv.subrange(i as int + 1, mv.len() as int));
        if m[i].1 == *sym {
            return Some(m[i].0.clone());
        }
        i = i + 1;
    }
    None
}

/// A text with a symbolic name of the enumeration replaced by its raw string.
pub(crate) fn resolve(m: &Vec<(String, String)>, t: &String) -> (r: String)
    ensures
        r@ == resolve_text(map_view(m@), t@),
{
    match find_raw(m, t) {
        Some(r) => r,
        None => t.clone(),
    }
}

/// A byte-length-prefixed UTF-16 string.
fn encode_str(s: &String) -> (r: Result<Vec<u8>, Error>)
    ensures
        bytes_result(r) == str_bytes(s@),
{
    let cs = chars_of(s.as_str());
    let u = encode_utf16(cs.as_slice());
    if u.len() > 0x7FFF {
        return Err(Error::TooLong);
    }
    let mut out: Vec<u8> = Vec::new();
    push_le16(&mut out, (2 * u.len()) as u16);
    let body = units_to_le(u.as_slice());
    extend_bytes(&mut out, body.as_slice());
    Ok(out)
}

impl Value {
    /// The canonical string form: decimal for numbers, the text itself,
    /// upper-case hexadecimal for a blob.
    pub fn to_string(&self) -> (r: String)
        ensures
            r@ == value_text(self@),
    {
        match self {
            Value::U8(n) => decimal_string(*n as u32),
            Value::U16(n) => decimal_string(*n as u32),
            Value::String(s) => s.clone(),
            Value::Bytes(_, v) => encode_hex_upper(v.as_slice()),
        }
    }

    /// A copy of the value.
    pub fn duplicate(&self) -> (r: Value)
        ensures
            r@ == self@,
    {
        match self {
            Value::U8(n) => Value::U8(*n),
            Value::U16(n) => Value::U16(*n),
            Value::String(s) => Value::String(s.clone()),
            Value::Bytes(len, v) => {
                let mut w: Vec<u8> = Vec::new();
                extend_bytes(&mut w, v.as_slice());
                Value::Bytes(*len, w)
            },
        }
    }
}

impl Param {
    /// A visible parameter without an enumeration.
    pub fn new(name: &str, value: Value) -> (r: Param)
        ensures
            r@ == (ParamV { name: name@, value: value@, stubbed: false, map: seq![] }),
    {
        let r = Param { name: String::from_str(name), value, stubbed: false, map: Vec::new() };
        assert(map_view(r.map@) =~= seq![]);
        r
    }

    /// A visible parameter with an enumeration of `(raw, symbolic)` pairs.
    pub fn new_mapped(name: &str, value: Value, map: &[(&str, &str)]) -> (r: Param)
        ensures
            r@.name == name@,
            r@.value == value@,
            !r@.stubbed,
            r@.map == map@.map_values(|e: (&str, &str)| (e.0@, e.1@)),
    {
        let mut m: Vec<(String, String)> = Vec::new();
        let mut i: usize = 0;
        while i < map.len()
            invariant
                i <= map@.len(),
                m@.len() == i,
                map_view(m@) =~= map@.map_values(|e: (&str, &str)| (e.0@, e.1@)).subrange(0, i as int),
            decreases map@.len() - i,
        {
            let (raw, sym) = map[i];
            let ghost before = m@;
            m.push((String::from_str(raw), String::from_str(sym)));
            proof {
                let target = map@.map_values(|e: (&str, &str)| (e.0@, e.1@));
                assert forall|k: int| 0 <= k <= i implies #[trigger] map_view(m@)[k] == target[k] by {
                    if k < i {
                        assert(m@[k] == before[k]);
                        assert(map_view(before)[k] == target.subrange(0, i as int)[k]);
                    }
                }
            }
            i = i + 1;
        }
        Param { name: String::from_str(name), value, stubbed: false, map: m }
    }

    /// A hidden parameter holding a constant value.
    pub fn new_stubbed(value: Value) -> (r: Param)
        ensures
            r@ == (ParamV {
                name: seq!['s', 't', 'u', 'b', 'b', 'e', 'd'],
                value: value@,
                stubbed: true,
                map: seq![],
            }),
    {
        let r = Param { name: String::from_str("stubbed"), value, stubbed: true, map: Vec::new() };
        proof {
            reveal_strlit("stubbed");
        }
        assert(r.name@ =~= seq!['s', 't', 'u', 'b', 'b', 'e', 'd']);
        assert(map_view(r.map@) =~= seq![]);
        r
    }

    /// Whether the enumeration's lookups agree both ways.
    pub fn enumeration_is_consistent(&self) -> (r: bool)
        ensures
            r == enumeration_wf(self@.map),
    {
        let ghost m = self@.map;
        let n = self.map.len();
        let mut i: usize = 0;
        while i < n
            invariant
                m == map_view(self.map@),
                n == self.map@.len(),
                i <= n,
                forall|a: int, b: int| 0 <= a < i && a < b < n ==> (#[trigger] m[a]).0 != (#[trigger] m[b]).0,
                forall|a: int, b: int| 0 <= a < i && a < b < n ==> (#[trigger] m[a]).1 != (#[trigger] m[b]).1,
                forall|a: int| 0 <= a < i ==> !is_numeral((#[trigger] m[a]).1),
            decreases n - i,
        {
            let raw = &self.map[i].0;
            let sym = &self.map[i].1;
            if numeral_text(chars_of(sym.as_str()).as_slice()) {
                assert(is_numeral(m[i as int].1));
                return false;
            }
            let mut j: usize = i + 1;
            while j < n
                invariant
                    m == map_view(self.map@),
                    n == self.map@.len(),
                    i < n,
                    i < j <= n,
                    *raw == self.map@[i as int].0,
                    *sym == self.map@[i as int].1,
                    forall|b: int| i < b < j ==> m[i as int].0 != (#[trigger] m[b]).0,
                    forall|b: int| i < b < j ==> m[i as int].1 != (#[trigger] m[b]).1,
                decreases n - j,
            {
                if *raw == self.map[j].0 {
                    assert(m[i as int].0 == m[j as int].0);
                    return false;
                }
                if *sym == self.map[j].1 {
                    assert(m[i as int].1 == m[j as int].1);
                    return false;
                }
                j = j + 1;
            }
            i = i + 1;
        }
        true
    }

    /// A copy of the parameter.
    pub fn duplicate(&self) -> (r: Param)
        ensures
            r@ == self@,
    {
        let mut m: Vec<(String, String)> = Vec::new();
        let mut i: usize = 0;
        while i < self.map.len()
            invariant
                i <= self.map@.len(),
                m@.len() == i,
                map_view(m@) =~= map_view(self.map@).subrange(0, i as int),
            decreases self.map@.len() - i,
        {
            let ghost before = m@;
            m.push((self.map[i].0.clone(), self.map[i].1.clone()));
            proof {
                assert forall|k: int| 0 <= k <= i implies #[trigger] map_view(m@)[k] == map_view(self.map@)[k] by {
                    if k < i {
                        assert(m@[k] == before[k]);
                        assert(map_view(before)[k] == map_view(self.map@).subrange(0, i as int)[k]);
                    }
                }
            }
            i = i + 1;
        }
        assert(map_view(self.map@).subrange(0, self.map@.len() as int) == map_view(self.map@));
        Param { name: self.name.clone(), value: self.value.duplicate(), stubbed: self.stubbed, map: m }
    }

    /// Reads the value from `b` at `pos`, not past `end`; returns where
    /// reading stopped, or `None` (and no change) where it does not fit.
    pub fn apply_bytes(&mut self, b: &[u8], pos: usize, end: usize) -> (r: Option<usize>)
        requires
            pos <= end <= b@.len(),
        ensures
            r matches Some(q) ==> read_value(old(self)@.value, b@, pos as int, end as int) == Some((final(self)@.value, q as int)),
            r is None ==> read_value(old(self)@.value, b@, pos as int, end as int) is None,
            r is None ==> *final(self) == *old(self),
            final(self).name == old(self).name,
            final(self).stubbed == old(self).stubbed,
            final(self).map == old(self).map,
    {
        match self.value {
            Value::U8(_) => {
                if end - pos < 1 {
                    return None;
                }
                self.value = Value::U8(b[pos]);
                Some(pos + 1)
            },
            Value::U16(_) => {
                if end - pos < 2 {
                    return None;
                }
                self.value = Value::U16((b[pos] as u16) + 256 * (b[pos + 1] as u16));
                Some(pos + 2)
            },
            Value::String(_) => {
                if end - pos < 2 {
                    return None;
                }
                let n: usize = (b[pos] as usize) + 256 * (b[pos + 1] as usize);
                if end - pos - 2 < n {
                    return None;
                }
                let u = read_units(b, pos + 2, pos + 2 + n);
                self.value = Value::String(decode_utf16_lossy(u.as_slice()));
                Some(pos + 2 + n)
            },
            Value::Bytes(len, _) => {
                if end - pos < len as usize {
                    return None;
                }
                let mut v: Vec<u8> = Vec::new();
                extend_bytes(&mut v, &b[pos..pos + len as usize]);
                assert(v@ == b@.subrange(pos as int, pos + len));
                self.value = Value::Bytes(len, v);
                Some(pos + len as usize)
            },
        }
    }

    /// The parameter's encoding.
    pub fn to_bytes(&self) -> (r: Result<Vec<u8>, Error>)
        ensures
            bytes_result(r) == param_bytes(self@),
    {
        match &self.value {
            Value::U8(n) => {
                let t = resolve(&self.map, &decimal_string(*n as u32));
                let cs = chars_of(t.as_str());
                match parse_decimal(cs.as_slice(), 255) {
                    Some(v) => {
                        let mut out: Vec<u8> = Vec::new();
                        out.push(v as u8);
                        Ok(out)
                    },
                    None => Err(Error::TypeMismatch),
                }
            },
            Value::U16(n) => {
                let t = resolve(&self.map, &decimal_string(*n as u32));
                let cs = chars_of(t.as_str());
                match parse_decimal(cs.as_slice(), 0xFFFF) {
                    Some(v) => {
                        let mut out: Vec<u8> = Vec::new();
                        push_le16(&mut out, v as u16);
                        Ok(out)
                    },
                    None => Err(Error::TypeMismatch),
                }
            },
            Value::String(s) => encode_str(s),
            Value::Bytes(len, v) => {
                let hx = encode_hex_upper(v.as_slice());
                let payload = match find_raw(&self.map, &hx) {
                    None => {
                        let mut w: Vec<u8> = Vec::new();
                        extend_bytes(&mut w, v.as_slice());
                        w
                    },
                    Some(r) => match decode_hex(r.as_str()) {
                        Some(q) => q,
                        None => {
                            return Err(Error::TypeMismatch);
                        },
                    },
                };
                if payload.len() != *len as usize {
                    return Err(Error::LengthMismatch);
                }
                Ok(payload)
            },
        }
    }

    /// The parameter's markup: `name="value" `, where the value is the
    /// enumeration's symbolic name if it has one, escaped; nothing for a
    /// stubbed parameter or an empty value.
    pub fn to_string(&self) -> (r: String)
        ensures
            r@ == param_text(self@),
    {
        if self.stubbed {
            return String::new();
        }
        let sval = self.value.to_string();
        let shown = match find_symbolic(&self.map, &sval) {
            Some(s) => s,
            None => sval,
        };
        if shown.as_str().unicode_len() == 0 {
            return String::new();
        }
        let mut r = self.name.clone();
        push_char(&mut r, '=');
        push_char(&mut r, '"');
        push_escaped(&mut r, shown.as_str());
        push_char(&mut r, '"');
        push_char(&mut r, ' ');
        assert(r@ =~= param_text(self@));
        r
    }
}

impl Tag {
    /// A tag without parameters or contents.
    pub fn new(name: &str, bytes: &[u8]) -> (r: Tag)
        ensures
            r@ == (TagV { name: name@, code: bytes@, params: seq![], contents: seq![] }),
    {
        let mut code: Vec<u8> = Vec::new();
        extend_bytes(&mut code, bytes);
        let r = Tag { name: String::from_str(name), bytes: code, params: Vec::new(), contents: Vec::new() };
        assert(params_view(r.params@) =~= seq![]);
        assert(nodes_view(r.contents@) =~= seq![]);
        r
    }

    /// A tag with the given parameters and no contents.
    pub fn new_with_params(name: &str, bytes: &[u8], params: Vec<Param>) -> (r: Tag)
        ensures
            r@ == (TagV { name: name@, code: bytes@, params: params_view(params@), contents: seq![] }),
    {
        let mut code: Vec<u8> = Vec::new();
        extend_bytes(&mut code, bytes);
        let r = Tag { name: String::from_str(name), bytes: code, params, contents: Vec::new() };
        assert(nodes_view(r.contents@) =~= seq![]);
        r
    }

    /// Reads the parameters in order from `b` at `pos`, not past `end`;
    /// returns where reading stopped, or `None` where they do not fit.
    pub fn apply_bytes(&mut self, b: &[u8], pos: usize, end: usize) -> (r: Option<usize>)
        requires
            pos <= end <= b@.len(),
        ensures
            r matches Some(q) ==> read_params(params_view(old(self).params@), b@, pos as int, end as int)
                == Some((params_view(final(self).params@), q as int)),
            r is None ==> read_params(params_view(old(self).params@), b@, pos as int, end as int) is None,
            final(self).name == old(self).name,
            final(self).bytes == old(self).bytes,
            final(self).contents == old(self).contents,
    {
        let ghost ps = params_view(self.params@);
        let mut out: Vec<Param> = Vec::new();
        let mut at: usize = pos;
        let mut i: usize = 0;
        assert(ps.subrange(0, ps.len() as int) == ps);
        while i < self.params.len()
            invariant
                i <= self.params@.len(),
                ps == params_view(self.params@),
                pos <= at <= end <= b@.len(),
                read_params(ps, b@, pos as int, end as int) == match read_params(
                    ps.subrange(i as int, ps.len() as int), b@, at as int, end as int) {
                    None => None,
                    Some((rest, q)) => Some((params_view(out@) + rest, q)),
                },
            decreases self.params@.len() - i,
        {
            let ghost rest = ps.subrange(i as int, ps.len() as int);
            assert(rest[0] == ps[i as int]);
            assert(rest.drop_first() == ps.subrange(i as int + 1, ps.len() as int));
            let mut p = self.params[i].duplicate();
            match p.apply_bytes(b, at, end) {
                None => {
                    return None;
                },
                Some(q) => {
                    let ghost before = out@;
                    out.push(p);
                    proof {
                        assert(params_view(out@) =~= params_view(before).push(p@));
                        assert(p@ == with_value(ps[i as int], p@.value));
                        match read_params(ps.subrange(i as int + 1, ps.len() as int), b@, q as int, end as int) {
                            None => {},
                            Some((r2, q2)) => {
                                assert(params_view(before) + (seq![p@] + r2) =~= params_view(out@) + r2);
                            },
                        }
                    }
                    at = q;
                },
            }
            i = i + 1;
        }
        proof {
            assert(read_params(ps.subrange(i as int, ps.len() as int), b@, at as int, end as int)
                == Some((Seq::<ParamV>::empty(), at as int)));
            assert(params_view(out@) + Seq::<ParamV>::empty() =~= params_view(out@));
        }
        self.params = out;
        Some(at)
    }

    /// The tag record's encoding: start marker, code bytes, parameter byte
    /// count, parameter bytes, then any contents and an end marker.
    pub fn to_bytes(&self) -> (r: Result<Vec<u8>, Error>)
        ensures
            bytes_result(r) == tag_bytes(self@),
        decreases self,
    {
        let ghost ps = params_view(self.params@);
        let mut pb: Vec<u8> = Vec::new();
        let mut i: usize = 0;
        while i < self.params.len()
            invariant
                i <= self.params@.len(),
                ps == params_view(self.params@),
                params_bytes(ps.subrange(0, i as int)) == Ok::<Seq<u8>, Error>(pb@),
            decreases self.params@.len() - i,
        {
            assert(ps.subrange(0, i as int + 1).drop_last() == ps.subrange(0, i as int));
            match self.params[i].to_bytes() {
                Err(e) => {
                    proof {
                        lemma_params_bytes_err(ps, i as int + 1, e);
                    }
                    return Err(e);
                },
                Ok(b) => {
                    extend_bytes(&mut pb, b.as_slice());
                },
            }
            i = i + 1;
        }
        assert(ps.subrange(0, ps.len() as int) == ps);
        if pb.len() > 0xFFFF {
            return Err(Error::TooLong);
        }
        let mut out: Vec<u8> = Vec::new();
        push_le16(&mut out, MARKER_START);
        extend_bytes(&mut out, self.bytes.as_slice());
        push_le16(&mut out, pb.len() as u16);
        extend_bytes(&mut out, pb.as_slice());
        if self.contents.len() == 0 {
            proof {
                lemma_nodes_view(self.contents@);
            }
            return Ok(out);
        }
        proof {
            lemma_nodes_view(self.contents@);
        }
        match encode_nodes(&self.contents) {
            Err(e) => Err(e),
            Ok(cb) => {
                extend_bytes(&mut out, cb.as_slice());
                push_le16(&mut out, MARKER_END);
                Ok(out)
            },
        }
    }

    /// The tag's markup: `[Name params]`, then for a tag with contents the
    /// contents and `[/Name ]`.
    pub fn to_string(&self) -> (r: String)
        ensures
            r@ == tag_text(self@),
        decreases self,
    {
        let ghost ps = params_view(self.params@);
        let mut r = String::new();
        push_char(&mut r, '[');
        r.append(self.name.as_str());
        push_char(&mut r, ' ');
        let ghost head = r@;
        let mut i: usize = 0;
        while i < self.params.len()
            invariant
                i <= self.params@.len(),
                ps == params_view(self.params@),
                r@ == head + params_text(ps.subrange(0, i as int)),
            decreases self.params@.len() - i,
        {
            assert(ps.subrange(0, i as int + 1).drop_last() == ps.subrange(0, i as int));
            let t = self.params[i].to_string();
            r.append(t.as_str());
            i = i + 1;
        }
        assert(ps.subrange(0, ps.len() as int) == ps);
        push_char(&mut r, ']');
        proof {
            lemma_nodes_view(self.contents@);
        }
        if self.contents.len() == 0 {
            return r;
        }
        let inner = render_nodes(&self.contents);
        r.append(inner.as_str());
        push_char(&mut r, '[');
        push_char(&mut r, '/');
        r.append(self.name.as_str());
        push_char(&mut r, ' ');
        push_char(&mut r, ']');
        r
    }
}

/// A failing parameter makes the whole parameter list fail with the first
/// failure.
proof fn lemma_params_bytes_err(ps: Seq<ParamV>, n: int, e: Error)
    requires
        0 < n <= ps.len(),
        params_bytes(ps.subrange(0, n - 1)) is Ok,
        param_bytes(ps[n - 1]) == Err::<Seq<u8>, Error>(e),
    ensures
        params_bytes(ps) == Err::<Seq<u8>, Error>(e),
{
    assert(ps.subrange(0, n).drop_last() == ps.subrange(0, n - 1));
    lemma_params_prefix_err(ps, n, e);
}

/// A prefix that fails makes every extension fail the same way.
proof fn lemma_params_prefix_err(ps: Seq<ParamV>, n: int, e: Error)
    requires
        0 <= n <= ps.len(),
        params_bytes(ps.subrange(0, n)) == Err::<Seq<u8>, Error>(e),
    ensures
        params_bytes(ps) == Err::<Seq<u8>, Error>(e),
    decreases ps.len() - n,
{
    if n == ps.len() {
        assert(ps.subrange(0, n) == ps);
    } else {
        assert(ps.subrange(0, n + 1).drop_last() == ps.subrange(0, n));
        lemma_params_prefix_err(ps, n + 1, e);
    }
}

/// A prefix that fails makes every extension fail the same way.
proof fn lemma_nodes_prefix_err(ns: Seq<NodeV>, n: int, e: Error)
    requires
        0 <= n <= ns.len(),
        nodes_bytes(ns.subrange(0, n)) == Err::<Seq<u8>, Error>(e),
    ensures
        nodes_bytes(ns) == Err::<Seq<u8>, Error>(e),
    decreases ns.len() - n,
{
    if n == ns.len() {
        assert(ns.subrange(0, n) == ns);
    } else {
        assert(ns.subrange(0, n + 1).drop_last() == ns.subrange(0, n));
        lemma_nodes_prefix_err(ns, n + 1, e);
    }
}

impl Node {
    /// The node's markup: text as it is, a tag as its markup.
    pub fn to_string(&self) -> (r: String)
        ensures
            r@ == node_text(self@),
        decreases self,
    {
        match self {
            Node::Text(s) => s.clone(),
            Node::Tag(t) => t.to_string(),
        }
    }

    /// The node's encoding: text as UTF-16 little-endian units, a tag as its
    /// record.
    pub fn to_bytes(&self) -> (r: Result<Vec<u8>, Error>)
        ensures
            bytes_result(r) == node_bytes(self@),
        decreases self,
    {
        match self {
            Node::Text(s) => {
                let cs = chars_of(s.as_str());
                let u = encode_utf16(cs.as_slice());
                Ok(units_to_le(u.as_slice()))
            },
            Node::Tag(t) => t.to_bytes(),
        }
    }
}

/// The encodings of nodes one after another; the first failure wins.
pub fn encode_nodes(ns: &Vec<Node>) -> (r: Result<Vec<u8>, Error>)
    ensures
        bytes_result(r) == nodes_bytes(nodes_view(ns@)),
    decreases ns,
{
    let ghost nv = nodes_view(ns@);
    proof {
        lemma_nodes_view(ns@);
    }
    let mut out: Vec<u8> = Vec::new();
    let mut i: usize = 0;
    while i < ns.len()
        invariant
            i <= ns@.len(),
            nv == nodes_view(ns@),
            nv.len() == ns@.len(),
            forall|k: int| 0 <= k < ns@.len() ==> #[trigger] nv[k] == node_view(ns@[k]),
            nodes_bytes(nv.subrange(0, i as int)) == Ok::<Seq<u8>, Error>(out@),
        decreases ns@.len() - i,
    {
        assert(nv.subrange(0, i as int + 1).drop_last() == nv.subrange(0, i as int));
        match ns[i].to_bytes() {
            Err(e) => {
                proof {
                    lemma_nodes_prefix_err(nv, i as int + 1, e);
                }
                return Err(e);
            },
            Ok(b) => {
                extend_bytes(&mut out, b.as_slice());
            },
        }
        i = i + 1;
    }
    assert(nv.subrange(0, nv.len() as int) == nv);
    Ok(out)
}

/// The markup of nodes one after another.
pub fn render_nodes(ns: &Vec<Node>) -> (r: String)
    ensures
        r@ == nodes_text(nodes_view(ns@)),
    decreases ns,
{
    let ghost nv = nodes_view(ns@);
    proof {
        lemma_nodes_view(ns@);
    }
    let mut out = String::new();
    let mut i: usize = 0;
    while i < ns.len()
        invariant
            i <= ns@.len(),
            nv == nodes_view(ns@),
            nv.len() == ns@.len(),
            forall|k: int| 0 <= k < ns@.len() ==> #[trigger] nv[k] == node_view(ns@[k]),
            nodes_text(nv.subrange(0, i as int)) == out@,
        decreases ns@.len() - i,
    {
        assert(nv.subrange(0, i as int + 1).drop_last() == nv.subrange(0, i as int));
        let t = ns[i].to_string();
        out.append(t.as_str());
        i = i + 1;
    }
    assert(nv.subrange(0, nv.len() as int) == nv);
    out
}

} // verus!
