//! Tag schemas: per-title tables from a tag's two-part code to its symbolic
//! name and parameter layout, resolved in both directions.
use vstd::prelude::*;
use crate::model::{params_view, Param, ParamV};
use crate::text::{chars_of, hex_char_value, hex_digit_upper, is_hex_char, lemma_hex_digit, push_char};

verus! {

broadcast use vstd::std_specs::vec::group_vec_axioms, vstd::seq::group_seq_axioms;

/// One code of a schema: its optional symbolic name and its parameter
/// layout. A code without a name goes by its fallback name.
pub struct SchemaEntry {
    pub group: u16,
    pub tag: u16,
    pub name: Option<String>,
    pub params: Vec<Param>,
}

pub struct EntryV {
    pub group: u16,
    pub tag: u16,
    pub name: Option<Seq<char>>,
    pub params: Seq<ParamV>,
}

impl View for SchemaEntry {
    type V = EntryV;

    open spec fn view(&self) -> EntryV {
        EntryV {
            group: self.group,
            tag: self.tag,
            name: match self.name {
                Some(n) => Some(n@),
                None => None,
            },
            params: params_view(self.params@),
        }
    }
}

/// The schema of one title. It is read-only once built.
pub struct TagSchema {
    pub entries: Vec<SchemaEntry>,
}

impl View for TagSchema {
    type V = Seq<EntryV>;

    open spec fn view(&self) -> Seq<EntryV> {
        self.entries@.map_values(|e: SchemaEntry| e@)
    }
}

/// Upper-case hexadecimal digits of a number, without leading zeros.
pub open spec fn hex_digits(x: nat) -> Seq<char>
    decreases x,
{
    if x < 16 {
        seq![hex_digit_upper(x as int)]
    } else {
        hex_digits(x / 16).push(hex_digit_upper((x % 16) as int))
    }
}

/// A code in a fallback name: upper-case hexadecimal, at least two digits.
pub open spec fn code_text(x: u16) -> Seq<char> {
    if x < 16 {
        seq!['0', hex_digit_upper(x as int)]
    } else {
        hex_digits(x as nat)
    }
}

/// The name of a code that the schema does not name: `GG:TT` in
/// upper-case hexadecimal, each part at least two digits.
pub open spec fn fallback_name(group: u16, tag: u16) -> Seq<char> {
    code_text(group) + seq![':'] + code_text(tag)
}

/// The number that hexadecimal digits spell.
pub open spec fn hex_value(cs: Seq<char>) -> nat
    decreases cs.len(),
{
    if cs.len() == 0 {
        0
    } else {
        hex_value(cs.drop_last()) * 16 + hex_char_value(cs.last()) as nat
    }
}

/// The code that one to four hexadecimal digits of either case spell.
pub open spec fn code_of_hex(cs: Seq<char>) -> Option<u16> {
    if 1 <= cs.len() <= 4 && forall|i: int| 0 <= i < cs.len() ==> is_hex_char(#[trigger] cs[i]) {
        Some(hex_value(cs) as u16)
    } else {
        None
    }
}

proof fn lemma_hex_value_bound(cs: Seq<char>)
    requires
        forall|i: int| 0 <= i < cs.len() ==> is_hex_char(#[trigger] cs[i]),
    ensures
        cs.len() <= 4 ==> hex_value(cs) < 0x10000,
        cs.len() <= 3 ==> hex_value(cs) < 0x1000,
        cs.len() <= 2 ==> hex_value(cs) < 0x100,
        cs.len() <= 1 ==> hex_value(cs) < 0x10,
    decreases cs.len(),
{
    if cs.len() > 0 {
        let d = cs.drop_last();
        assert forall|i: int| 0 <= i < d.len() implies is_hex_char(#[trigger] d[i]) by {
            assert(d[i] == cs[i]);
        }
        lemma_hex_value_bound(d);
        assert(is_hex_char(cs.last()));
        assert(0 <= hex_char_value(cs.last()) < 16);
    }
}

/// The digits of a number read back as that number, are hexadecimal
/// characters, and number at most four below 0x10000.
pub proof fn lemma_hex_digits(x: nat)
    ensures
        hex_value(hex_digits(x)) == x,
        forall|i: int| 0 <= i < hex_digits(x).len() ==> is_hex_char(#[trigger] hex_digits(x)[i]),
        1 <= hex_digits(x).len(),
        x < 0x10000 ==> hex_digits(x).len() <= 4,
        x < 0x1000 ==> hex_digits(x).len() <= 3,
        x < 0x100 ==> hex_digits(x).len() <= 2,
    decreases x,
{
    if x < 16 {
        lemma_hex_digit(x as int);
        assert(hex_digits(x).drop_last() =~= Seq::<char>::empty());
        assert(hex_value(hex_digits(x)) == hex_value(Seq::<char>::empty()) * 16 + hex_char_value(
            hex_digit_upper(x as int),
        ) as nat);
    } else {
        lemma_hex_digit((x % 16) as int);
        lemma_hex_digits(x / 16);
        let d = hex_digits(x / 16);
        assert(hex_digits(x).drop_last() == d);
        assert(hex_digits(x).last() == hex_digit_upper((x % 16) as int));
        assert(hex_value(hex_digits(x)) == hex_value(d) * 16 + (x % 16));
        assert forall|i: int| 0 <= i < hex_digits(x).len() implies is_hex_char(#[trigger] hex_digits(x)[i]) by {
            if i < d.len() {
                assert(hex_digits(x)[i] == d[i]);
            }
        }
    }
}

/// A code's text reads back as the code and holds hexadecimal digits only.
pub proof fn lemma_code_text(x: u16)
    ensures
        code_of_hex(code_text(x)) == Some(x),
        forall|i: int| 0 <= i < code_text(x).len() ==> is_hex_char(#[trigger] code_text(x)[i]),
{
    if x < 16 {
        lemma_hex_digit(x as int);
        lemma_hex_digit_table();
        let c = code_text(x);
        assert(c.drop_last() =~= seq!['0']);
        assert(seq!['0'].drop_last() =~= Seq::<char>::empty());
        assert(hex_char_value('0') == 0);
        assert(hex_value(seq!['0']) == hex_value(Seq::<char>::empty()) * 16 + hex_char_value('0') as nat);
        assert(hex_value(c) == hex_value(seq!['0']) * 16 + hex_char_value(c.last()) as nat);
        assert(is_hex_char('0'));
    } else {
        lemma_hex_digits(x as nat);
    }
}

/// The code that a name of the fallback form spells: the text before the
/// first `:` and the text after it, each one to four hexadecimal digits.
pub open spec fn parse_fallback(name: Seq<char>) -> Option<(u16, u16)> {
    if exists|i: int| 0 <= i < name.len() && name[i] == ':' {
        let i = choose|i: int| 0 <= i < name.len() && name[i] == ':' && forall|j: int| 0 <= j < i ==> name[j] != ':';
        match (code_of_hex(name.subrange(0, i)), code_of_hex(name.subrange(i + 1, name.len() as int))) {
            (Some(g), Some(t)) => Some((g, t)),
            _ => None,
        }
    } else {
        None
    }
}

/// The first entry with this code.
pub open spec fn entry_by_code(es: Seq<EntryV>, group: u16, tag: u16) -> Option<EntryV>
    decreases es.len(),
{
    if es.len() == 0 {
        None
    } else if es[0].group == group && es[0].tag == tag {
        Some(es[0])
    } else {
        entry_by_code(es.drop_first(), group, tag)
    }
}

/// The first entry with this symbolic name.
pub open spec fn entry_by_name(es: Seq<EntryV>, name: Seq<char>) -> Option<EntryV>
    decreases es.len(),
{
    if es.len() == 0 {
        None
    } else if es[0].name == Some(name) {
        Some(es[0])
    } else {
        entry_by_name(es.drop_first(), name)
    }
}

/// The name of a code: the schema's, else the fallback name.
pub open spec fn name_of_code(es: Seq<EntryV>, group: u16, tag: u16) -> Seq<char> {
    match entry_by_code(es, group, tag) {
        Some(e) => match e.name {
            Some(n) => n,
            None => fallback_name(group, tag),
        },
        None => fallback_name(group, tag),
    }
}

/// The parameter layout of a code; empty for a code the schema lacks.
pub open spec fn layout_of(es: Seq<EntryV>, group: u16, tag: u16) -> Seq<ParamV> {
    match entry_by_code(es, group, tag) {
        Some(e) => e.params,
        None => seq![],
    }
}

/// The code of a name: the schema's, else the one a fallback name spells.
pub open spec fn code_of_name(es: Seq<EntryV>, name: Seq<char>) -> Option<(u16, u16)> {
    match entry_by_name(es, name) {
        Some(e) => Some((e.group, e.tag)),
        None => parse_fallback(name),
    }
}

/// A schema whose lookups agree in both directions: codes and names are
/// unique, and no name of the schema has the fallback form.
pub open spec fn schema_wf(es: Seq<EntryV>) -> bool {
    &&& forall|i: int, j: int|
        0 <= i < j < es.len() ==> !(#[trigger] es[i].group == #[trigger] es[j].group && es[i].tag == es[j].tag)
    &&& forall|i: int, j: int|
        0 <= i < j < es.len() && (#[trigger] es[i]).name is Some ==> (#[trigger] es[j]).name != es[i].name
    &&& forall|i: int| 0 <= i < es.len() && (#[trigger] es[i]).name is Some ==> parse_fallback(es[i].name->Some_0) is None
}

/// Appends the hexadecimal digits of a number.
fn push_hex_digits(s: &mut String, x: u32)
    ensures
        final(s)@ == old(s)@ + hex_digits(x as nat),
    decreases x,
{
    if x >= 16 {
        push_hex_digits(s, x / 16);
    }
    push_char(s, hex_digit_char(x % 16));
}

fn hex_digit_char(d: u32) -> (c: char)
    requires
        d < 16,
    ensures
        c == hex_digit_upper(d as int),
{
    proof {
        lemma_hex_digit_table();
    }
    if d < 10 {
        if d == 0 { '0' } else if d == 1 { '1' } else if d == 2 { '2' } else if d == 3 { '3' } else if d == 4 {
            '4'
        } else if d == 5 { '5' } else if d == 6 { '6' } else if d == 7 { '7' } else if d == 8 { '8' } else { '9' }
    } else if d == 10 { 'A' } else if d == 11 { 'B' } else if d == 12 { 'C' } else if d == 13 { 'D' } else if d
        == 14 { 'E' } else { 'F' }
}

proof fn lemma_hex_digit_table()
    ensures
        hex_digit_upper(0) == '0' && hex_digit_upper(1) == '1' && hex_digit_upper(2) == '2' && hex_digit_upper(3)
            == '3' && hex_digit_upper(4) == '4' && hex_digit_upper(5) == '5' && hex_digit_upper(6) == '6'
            && hex_digit_upper(7) == '7' && hex_digit_upper(8) == '8' && hex_digit_upper(9) == '9'
            && hex_digit_upper(10) == 'A' && hex_digit_upper(11) == 'B' && hex_digit_upper(12) == 'C'
            && hex_digit_upper(13) == 'D' && hex_digit_upper(14) == 'E' && hex_digit_upper(15) == 'F',
{
}

/// The name of a code that the schema does not name.
pub fn fallback_tag_name(group: u16, tag: u16) -> (r: String)
    ensures
        r@ == fallback_name(group, tag),
{
    let mut s = String::new();
    push_code_text(&mut s, group);
    push_char(&mut s, ':');
    push_code_text(&mut s, tag);
    s
}

fn push_code_text(s: &mut String, x: u16)
    ensures
        final(s)@ == old(s)@ + code_text(x),
{
    if x < 16 {
        push_char(s, '0');
        push_char(s, hex_digit_char(x as u32));
        assert(final(s)@ =~= old(s)@ + code_text(x));
    } else {
        push_hex_digits(s, x as u32);
    }
}

/// The code that one to four hexadecimal digits spell.
fn code_from_hex(cs: &[char]) -> (r: Option<u16>)
    ensures
        r == code_of_hex(cs@),
{
    if cs.len() < 1 || cs.len() > 4 {
        return None;
    }
    let mut v: u32 = 0;
    let mut i: usize = 0;
    while i < cs.len()
        invariant
            1 <= cs@.len() <= 4,
            i <= cs@.len(),
            forall|j: int| 0 <= j < i ==> is_hex_char(#[trigger] cs@[j]),
            v as nat == hex_value(cs@.subrange(0, i as int)),
            v < 0x10000,
        decreases cs@.len() - i,
    {
        let c = cs[i];
        let d: u32 = if '0' <= c && c <= '9' {
            c as u32 - 48
        } else if 'a' <= c && c <= 'f' {
            c as u32 - 87
        } else if 'A' <= c && c <= 'F' {
            c as u32 - 55
        } else {
            assert(!is_hex_char(cs@[i as int]));
            return None;
        };
        proof {
            let pre = cs@.subrange(0, i as int + 1);
            assert(pre.drop_last() == cs@.subrange(0, i as int));
            assert forall|j: int| 0 <= j < pre.len() implies is_hex_char(#[trigger] pre[j]) by {
                assert(pre[j] == cs@[j]);
            }
            lemma_hex_value_bound(pre);
        }
        v = v * 16 + d;
        i = i + 1;
    }
    assert(cs@.subrange(0, cs@.len() as int) == cs@);
    Some(v as u16)
}

/// The code that a name of the fallback form spells.
pub fn parse_fallback_name(name: &str) -> (r: Option<(u16, u16)>)
    ensures
        r == parse_fallback(name@),
{
    let cs = chars_of(name);
    let mut i: usize = 0;
    while i < cs.len()
        invariant
            cs@ == name@,
            i <= cs@.len(),
            forall|j: int| 0 <= j < i ==> cs@[j] != ':',
        decreases cs@.len() - i,
    {
        if cs[i] == ':' {
            let ghost k = choose|k: int| 0 <= k < cs@.len() && cs@[k] == ':' && forall|j: int| 0 <= j < k ==> cs@[j] != ':';
            assert(k == i) by {
                if k < i {
                    assert(cs@[k] != ':');
                } else if k > i {
                    assert(cs@[i as int] != ':');
                }
            }
            let g = code_from_hex(&cs[0..i]);
            let t = code_from_hex(&cs[i + 1..cs.len()]);
            assert(cs@.subrange(0, i as int) == cs@.subrange(0, i as int));
            return match (g, t) {
                (Some(g), Some(t)) => Some((g, t)),
                _ => None,
            };
        }
        i = i + 1;
    }
    None
}

impl TagSchema {
    /// The first entry with this code, as its index.
    fn find_code(&self, group: u16, tag: u16) -> (r: Option<usize>)
        ensures
            r matches Some(i) ==> i < self@.len() && entry_by_code(self@, group, tag) == Some(self@[i as int]),
            r is None ==> entry_by_code(self@, group, tag) is None,
    {
        let ghost es = self@;
        let mut i: usize = 0;
        assert(es.subrange(0, es.len() as int) == es);
        while i < self.entries.len()
            invariant
                es == self@,
                i <= es.len(),
                es.len() == self.entries@.len(),
                entry_by_code(es, group, tag) == entry_by_code(es.subrange(i as int, es.len() as int), group, tag),
            decreases es.len() - i,
        {
            let ghost rest = es.subrange(i as int, es.len() as int);
            assert(rest[0] == es[i as int]);
            assert(rest.drop_first() == es.subrange(i as int + 1, es.len() as int));
            if self.entries[i].group == group && self.entries[i].tag == tag {
                return Some(i);
            }
            i = i + 1;
        }
        None
    }

    /// The first entry with this name, as its index.
    fn find_name(&self, name: &String) -> (r: Option<usize>)
        ensures
            r matches Some(i) ==> i < self@.len() && entry_by_name(self@, name@) == Some(self@[i as int]),
            r is None ==> entry_by_name(self@, name@) is None,
    {
        let ghost es = self@;
        let mut i: usize = 0;
        assert(es.subrange(0, es.len() as int) == es);
        while i < self.entries.len()
            invariant
                es == self@,
                i <= es.len(),
                es.len() == self.entries@.len(),
                entry_by_name(es, name@) == entry_by_name(es.subrange(i as int, es.len() as int), name@),
            decreases es.len() - i,
        {
            let ghost rest = es.subrange(i as int, es.len() as int);
            assert(rest[0] == es[i as int]);
            assert(rest.drop_first() == es.subrange(i as int + 1, es.len() as int));
            let hit = match &self.entries[i].name {
                Some(n) => *n == *name,
                None => false,
            };
            if hit {
                return Some(i);
            }
            i = i + 1;
        }
        None
    }

    /// Fresh copies of the parameter layout of an entry.
    fn layout_at(&self, i: usize) -> (r: Vec<Param>)
        requires
            i < self@.len(),
        ensures
            params_view(r@) == self@[i as int].params,
    {
        let ps = &self.entries[i].params;
        let mut out: Vec<Param> = Vec::new();
        let mut k: usize = 0;
        while k < ps.len()
            invariant
                i < self.entries@.len(),
                k <= ps@.len(),
                *ps == self.entries@[i as int].params,
                out@.len() == k,
                params_view(out@) =~= params_view(ps@).subrange(0, k as int),
            decreases ps@.len() - k,
        {
            let ghost before = out@;
            out.push(ps[k].duplicate());
            proof {
                assert forall|j: int| 0 <= j <= k implies #[trigger] params_view(out@)[j] == params_view(ps@)[j] by {
                    if j < k {
                        assert(out@[j] == before[j]);
                        assert(params_view(before)[j] == params_view(ps@).subrange(0, k as int)[j]);
                    }
                }
            }
            k = k + 1;
        }
        assert(params_view(ps@).subrange(0, ps@.len() as int) == params_view(ps@));
        out
    }

    /// The symbolic name and a fresh parameter layout for a code; a code
    /// the schema does not name goes by its fallback name, and one it lacks
    /// has no parameters.
    pub fn resolve_by_code(&self, group: u16, tag: u16) -> (r: (String, Vec<Param>))
        ensures
            r.0@ == name_of_code(self@, group, tag),
            params_view(r.1@) == layout_of(self@, group, tag),
    {
        match self.find_code(group, tag) {
            Some(i) => {
                let name = match &self.entries[i].name {
                    Some(n) => n.clone(),
                    None => fallback_tag_name(group, tag),
                };
                (name, self.layout_at(i))
            },
            None => {
                let r = (fallback_tag_name(group, tag), Vec::new());
                assert(params_view(r.1@) =~= seq![]);
                r
            },
        }
    }

    /// The code and a fresh parameter layout for a name: the schema's
    /// entry, else the code a fallback name spells; `None` for any other
    /// name.
    pub fn resolve_by_name(&self, name: &String) -> (r: Option<(u16, u16, Vec<Param>)>)
        ensures
            r is None <==> code_of_name(self@, name@) is None,
            r matches Some((g, t, ps)) ==> code_of_name(self@, name@) == Some((g, t)) && params_view(ps@)
                == layout_of(self@, g, t),
    {
        let (g, t) = match self.find_name(name) {
            Some(i) => (self.entries[i].group, self.entries[i].tag),
            None => match parse_fallback_name(name.as_str()) {
                Some(c) => c,
                None => {
                    return None;
                },
            },
        };
        let ps = match self.find_code(g, t) {
            Some(i) => self.layout_at(i),
            None => {
                let v: Vec<Param> = Vec::new();
                assert(params_view(v@) =~= seq![]);
                v
            },
        };
        Some((g, t, ps))
    }
}

impl TagSchema {
    /// Whether the schema's lookups agree in both directions: codes and
    /// names are unique, and no name has the fallback form.
    pub fn is_well_formed(&self) -> (r: bool)
        ensures
            r == schema_wf(self@),
    {
        let ghost es = self@;
        let n = self.entries.len();
        let mut i: usize = 0;
        while i < n
            invariant
                es == self@,
                n == es.len(),
                n == self.entries@.len(),
                i <= n,
                forall|a: int, b: int|
                    0 <= a < i && a < b < n ==> !(#[trigger] es[a].group == #[trigger] es[b].group && es[a].tag
                        == es[b].tag),
                forall|a: int, b: int|
                    0 <= a < i && a < b < n && (#[trigger] es[a]).name is Some ==> (#[trigger] es[b]).name
                        != es[a].name,
                forall|a: int| 0 <= a < i && (#[trigger] es[a]).name is Some ==> parse_fallback(es[a].name->Some_0) is None,
            decreases n - i,
        {
            let ei = &self.entries[i];
            match &ei.name {
                Some(nm) => {
                    if parse_fallback_name(nm.as_str()).is_some() {
                        return false;
                    }
                },
                None => {},
            }
            let mut j: usize = i + 1;
            while j < n
                invariant
                    es == self@,
                    n == es.len(),
                    n == self.entries@.len(),
                    i < n,
                    i < j <= n,
                    *ei == self.entries@[i as int],
                    forall|b: int| i < b < j ==> !(es[i as int].group == #[trigger] es[b].group && es[i as int].tag == es[b].tag),
                    forall|b: int| i < b < j && es[i as int].name is Some ==> (#[trigger] es[b]).name != es[i as int].name,
                decreases n - j,
            {
                let ej = &self.entries[j];
                assert(es[i as int] == self.entries@[i as int]@);
                assert(es[j as int] == self.entries@[j as int]@);
                if ei.group == ej.group && ei.tag == ej.tag {
                    assert(es[i as int].group == es[j as int].group && es[i as int].tag == es[j as int].tag);
                    return false;
                }
                let same = match (&ei.name, &ej.name) {
                    (Some(a), Some(b)) => *a == *b,
                    _ => false,
                };
                if same {
                    assert(es[i as int].name is Some && es[j as int].name == es[i as int].name);
                    return false;
                }
                j = j + 1;
            }
            i = i + 1;
        }
        true
    }
}

/// Entry `e` differs from every entry of `rest` in code, and in name where
/// it has one.
pub open spec fn distinct_from(e: EntryV, rest: Seq<EntryV>) -> bool
    decreases rest.len(),
{
    rest.len() == 0 || (!(e.group == rest[0].group && e.tag == rest[0].tag) && (e.name is Some ==> rest[0].name
        != e.name) && distinct_from(e, rest.drop_first()))
}

/// [`schema_wf`] checked entry by entry.
pub open spec fn wf_list(es: Seq<EntryV>) -> bool
    decreases es.len(),
{
    es.len() == 0 || ((es[0].name is Some ==> parse_fallback(es[0].name->Some_0) is None) && distinct_from(
        es[0],
        es.drop_first(),
    ) && wf_list(es.drop_first()))
}

proof fn lemma_distinct_from(e: EntryV, rest: Seq<EntryV>, j: int)
    requires
        distinct_from(e, rest),
        0 <= j < rest.len(),
    ensures
        !(e.group == rest[j].group && e.tag == rest[j].tag),
        e.name is Some ==> rest[j].name != e.name,
    decreases rest.len(),
{
    if j > 0 {
        lemma_distinct_from(e, rest.drop_first(), j - 1);
    }
}

/// Checking entry by entry establishes well-formedness.
pub proof fn lemma_wf_list(es: Seq<EntryV>)
    requires
        wf_list(es),
    ensures
        schema_wf(es),
    decreases es.len(),
{
    if es.len() > 0 {
        let t = es.drop_first();
        lemma_wf_list(t);
        assert forall|i: int, j: int| 0 <= i < j < es.len() implies !(#[trigger] es[i].group == #[trigger] es[j].group
            && es[i].tag == es[j].tag) by {
            if i == 0 {
                lemma_distinct_from(es[0], t, j - 1);
            } else {
                assert(es[i] == t[i - 1] && es[j] == t[j - 1]);
            }
        }
        assert forall|i: int, j: int| 0 <= i < j < es.len() && (#[trigger] es[i]).name is Some implies (
        #[trigger] es[j]).name != es[i].name by {
            if i == 0 {
                lemma_distinct_from(es[0], t, j - 1);
            } else {
                assert(es[i] == t[i - 1] && es[j] == t[j - 1]);
            }
        }
        assert forall|i: int| 0 <= i < es.len() && (#[trigger] es[i]).name is Some implies parse_fallback(
            es[i].name->Some_0,
        ) is None by {
            if i > 0 {
                assert(es[i] == t[i - 1]);
            }
        }
    }
}

/// A name with a character that is neither a hexadecimal digit nor `:`,
/// and no `:` before it, does not have the fallback form.
pub proof fn lemma_not_fallback(name: Seq<char>, k: int)
    requires
        0 <= k < name.len(),
        !is_hex_char(name[k]),
        name[k] != ':',
        forall|j: int| 0 <= j < k ==> name[j] != ':',
    ensures
        parse_fallback(name) is None,
{
    if exists|i: int| 0 <= i < name.len() && name[i] == ':' {
        let i = choose|i: int| 0 <= i < name.len() && name[i] == ':' && forall|j: int| 0 <= j < i ==> name[j] != ':';
        assert(exists|i: int| 0 <= i < name.len() && name[i] == ':' && forall|j: int| 0 <= j < i ==> name[j] != ':') by {
            let w = choose|w: int| 0 <= w < name.len() && name[w] == ':';
            lemma_first_colon(name, w);
        }
        assert(i > k);
        let pre = name.subrange(0, i);
        assert(pre[k] == name[k]);
    }
}

proof fn lemma_first_colon(name: Seq<char>, w: int)
    requires
        0 <= w < name.len(),
        name[w] == ':',
    ensures
        exists|i: int| 0 <= i < name.len() && name[i] == ':' && forall|j: int| 0 <= j < i ==> name[j] != ':',
    decreases w,
{
    if exists|v: int| 0 <= v < w && name[v] == ':' {
        let v = choose|v: int| 0 <= v < w && name[v] == ':';
        lemma_first_colon(name, v);
    } else {
        assert(forall|j: int| 0 <= j < w ==> name[j] != ':');
    }
}

} // verus!
