//! The tag schemas of the two supported titles.
use vstd::prelude::*;
use crate::model::{map_view, params_view, Param, ParamV, Value, ValueV};
use crate::schema::{lemma_not_fallback, lemma_wf_list, schema_wf, distinct_from, wf_list, EntryV, SchemaEntry, TagSchema};

verus! {

pub open spec fn u8_v(name: Seq<char>) -> ParamV {
    ParamV { name, value: ValueV::U8(0), stubbed: false, map: seq![] }
}

pub open spec fn u16_v(name: Seq<char>) -> ParamV {
    ParamV { name, value: ValueV::U16(0), stubbed: false, map: seq![] }
}

pub open spec fn str_v(name: Seq<char>) -> ParamV {
    ParamV { name, value: ValueV::Str(seq![]), stubbed: false, map: seq![] }
}

pub open spec fn mapped_u16_v(name: Seq<char>, map: Seq<(Seq<char>, Seq<char>)>) -> ParamV {
    ParamV { name, value: ValueV::U16(0), stubbed: false, map }
}

/// A hidden parameter holding a constant.
pub open spec fn stub_v(value: ValueV) -> ParamV {
    ParamV { name: seq!['s', 't', 'u', 'b', 'b', 'e', 'd'], value, stubbed: true, map: seq![] }
}

pub open spec fn named_v(group: u16, tag: u16, name: Seq<char>, params: Seq<ParamV>) -> EntryV {
    EntryV { group, tag, name: Some(name), params }
}

pub open spec fn unnamed_v(group: u16, tag: u16, params: Seq<ParamV>) -> EntryV {
    EntryV { group, tag, name: None, params }
}

fn u8_param(name: &str) -> (r: Param)
    ensures
        r@ == u8_v(name@),
{
    Param::new(name, Value::U8(0))
}

fn u16_param(name: &str) -> (r: Param)
    ensures
        r@ == u16_v(name@),
{
    Param::new(name, Value::U16(0))
}

fn str_param(name: &str) -> (r: Param)
    ensures
        r@ == str_v(name@),
{
    Param::new(name, Value::String(String::new()))
}

fn stub_blob(a: u8, b: Option<u8>) -> (r: Param)
    ensures
        r@ == stub_v(
            match b {
                None => ValueV::Bytes(1, seq![a]),
                Some(b) => ValueV::Bytes(2, seq![a, b]),
            },
        ),
{
    let mut v: Vec<u8> = Vec::new();
    v.push(a);
    match b {
        None => {
            assert(v@ =~= seq![a]);
            Param::new_stubbed(Value::Bytes(1, v))
        },
        Some(b) => {
            v.push(b);
            assert(v@ =~= seq![a, b]);
            Param::new_stubbed(Value::Bytes(2, v))
        },
    }
}

fn mapped_u16(name: &str, map: Vec<(String, String)>) -> (r: Param)
    ensures
        r@ == mapped_u16_v(name@, map_view(map@)),
{
    Param { name: String::from_str(name), value: Value::U16(0), stubbed: false, map }
}

fn pair(raw: &str, sym: &str) -> (r: (String, String))
    ensures
        r.0@ == raw@,
        r.1@ == sym@,
{
    (String::from_str(raw), String::from_str(sym))
}

fn named(group: u16, tag: u16, name: &str, params: Vec<Param>) -> (r: SchemaEntry)
    ensures
        r@ == named_v(group, tag, name@, params_view(params@)),
{
    SchemaEntry { group, tag, name: Some(String::from_str(name)), params }
}

fn unnamed(group: u16, tag: u16, params: Vec<Param>) -> (r: SchemaEntry)
    ensures
        r@ == unnamed_v(group, tag, params_view(params@)),
{
    SchemaEntry { group, tag, name: None, params }
}

pub open spec fn faces_map() -> Seq<(Seq<char>, Seq<char>)> {
    seq![("0"@, "hylian"@), ("65535"@, "unset"@)]
}

fn faces_pairs() -> (r: Vec<(String, String)>)
    ensures
        map_view(r@) == faces_map(),
{
    let mut m: Vec<(String, String)> = Vec::new();
    m.push(pair("0", "hylian"));
    m.push(pair("65535", "unset"));
    assert(map_view(m@) =~= faces_map());
    m
}

pub open spec fn botw_colors_map() -> Seq<(Seq<char>, Seq<char>)> {
    seq![("0"@, "red"@), ("1"@, "green"@), ("2"@, "blue"@), ("3"@, "gray"@), ("4"@, "white"@), ("5"@, "orange"@), ("65535"@, "unset"@)]
}

fn botw_colors_pairs() -> (r: Vec<(String, String)>)
    ensures
        map_view(r@) == botw_colors_map(),
{
    let mut m: Vec<(String, String)> = Vec::new();
    m.push(pair("0", "red"));
    m.push(pair("1", "green"));
    m.push(pair("2", "blue"));
    m.push(pair("3", "gray"));
    m.push(pair("4", "white"));
    m.push(pair("5", "orange"));
    m.push(pair("65535", "unset"));
    assert(map_view(m@) =~= botw_colors_map());
    m
}

pub open spec fn card_colors_map() -> Seq<(Seq<char>, Seq<char>)> {
    seq![("0"@, "white"@), ("1"@, "red"@), ("2"@, "blue"@), ("65535"@, "unset"@)]
}

fn card_colors_pairs() -> (r: Vec<(String, String)>)
    ensures
        map_view(r@) == card_colors_map(),
{
    let mut m: Vec<(String, String)> = Vec::new();
    m.push(pair("0", "white"));
    m.push(pair("1", "red"));
    m.push(pair("2", "blue"));
    m.push(pair("65535", "unset"));
    assert(map_view(m@) =~= card_colors_map());
    m
}

pub open spec fn none_map() -> Seq<(Seq<char>, Seq<char>)> {
    seq![]
}

fn none_pairs() -> (r: Vec<(String, String)>)
    ensures
        map_view(r@) == none_map(),
{
    let mut m: Vec<(String, String)> = Vec::new();
    assert(map_view(m@) =~= none_map());
    m
}

pub open spec fn ruby_layout() -> Seq<ParamV> {
    seq![u16_v("width"@), str_v("rt"@)]
}

fn ruby_params() -> (r: Vec<Param>)
    ensures
        params_view(r@) == ruby_layout(),
{
    let mut ps: Vec<Param> = Vec::new();
    ps.push(u16_param("width"));
    ps.push(str_param("rt"));
    assert(params_view(ps@) =~= ruby_layout());
    ps
}

pub open spec fn font_layout() -> Seq<ParamV> {
    seq![mapped_u16_v("face"@, faces_map())]
}

fn font_params() -> (r: Vec<Param>)
    ensures
        params_view(r@) == font_layout(),
{
    let mut ps: Vec<Param> = Vec::new();
    ps.push(mapped_u16("face", faces_pairs()));
    assert(params_view(ps@) =~= font_layout());
    ps
}

pub open spec fn size_layout() -> Seq<ParamV> {
    seq![u16_v("percent"@)]
}

fn size_params() -> (r: Vec<Param>)
    ensures
        params_view(r@) == size_layout(),
{
    let mut ps: Vec<Param> = Vec::new();
    ps.push(u16_param("percent"));
    assert(params_view(ps@) =~= size_layout());
    ps
}

pub open spec fn botw_color_layout() -> Seq<ParamV> {
    seq![mapped_u16_v("name"@, botw_colors_map())]
}

fn botw_color_params() -> (r: Vec<Param>)
    ensures
        params_view(r@) == botw_color_layout(),
{
    let mut ps: Vec<Param> = Vec::new();
    ps.push(mapped_u16("name", botw_colors_pairs()));
    assert(params_view(ps@) =~= botw_color_layout());
    ps
}

pub open spec fn pause_layout() -> Seq<ParamV> {
    seq![u16_v("frames"@), stub_v(ValueV::U16(0))]
}

fn pause_params() -> (r: Vec<Param>)
    ensures
        params_view(r@) == pause_layout(),
{
    let mut ps: Vec<Param> = Vec::new();
    ps.push(u16_param("frames"));
    ps.push(Param::new_stubbed(Value::U16(0)));
    assert(params_view(ps@) =~= pause_layout());
    ps
}

pub open spec fn choice2_layout() -> Seq<ParamV> {
    seq![u16_v("label1"@), u16_v("label2"@), u8_v("select_idx"@), u8_v("cancel_idx"@)]
}

fn choice2_params() -> (r: Vec<Param>)
    ensures
        params_view(r@) == choice2_layout(),
{
    let mut ps: Vec<Param> = Vec::new();
    ps.push(u16_param("label1"));
    ps.push(u16_param("label2"));
    ps.push(u8_param("select_idx"));
    ps.push(u8_param("cancel_idx"));
    assert(params_view(ps@) =~= choice2_layout());
    ps
}

pub open spec fn choice3_layout() -> Seq<ParamV> {
    seq![u16_v("label1"@), u16_v("label2"@), u16_v("label3"@), u8_v("select_idx"@), u8_v("cancel_idx"@)]
}

fn choice3_params() -> (r: Vec<Param>)
    ensures
        params_view(r@) == choice3_layout(),
{
    let mut ps: Vec<Param> = Vec::new();
    ps.push(u16_param("label1"));
    ps.push(u16_param("label2"));
    ps.push(u16_param("label3"));
    ps.push(u8_param("select_idx"));
    ps.push(u8_param("cancel_idx"));
    assert(params_view(ps@) =~= choice3_layout());
    ps
}

pub open spec fn choice4_layout() -> Seq<ParamV> {
    seq![u16_v("label1"@), u16_v("label2"@), u16_v("label3"@), u16_v("label4"@), u8_v("select_idx"@), u8_v("cancel_idx"@)]
}

fn choice4_params() -> (r: Vec<Param>)
    ensures
        params_view(r@) == choice4_layout(),
{
    let mut ps: Vec<Param> = Vec::new();
    ps.push(u16_param("label1"));
    ps.push(u16_param("label2"));
    ps.push(u16_param("label3"));
    ps.push(u16_param("label4"));
    ps.push(u8_param("select_idx"));
    ps.push(u8_param("cancel_idx"));
    assert(params_view(ps@) =~= choice4_layout());
    ps
}

pub open spec fn icon_layout() -> Seq<ParamV> {
    seq![u8_v("id"@), stub_v(ValueV::Bytes(1, seq![0xCDu8]))]
}

fn icon_params() -> (r: Vec<Param>)
    ensures
        params_view(r@) == icon_layout(),
{
    let mut ps: Vec<Param> = Vec::new();
    ps.push(u8_param("id"));
    ps.push(stub_blob(0xCD, None));
    assert(params_view(ps@) =~= icon_layout());
    ps
}

pub open spec fn choice4_flags_layout() -> Seq<ParamV> {
    seq![u16_v("label1"@), str_v("flag1"@), u16_v("label2"@), str_v("flag2"@), u16_v("label3"@), str_v("flag3"@), u16_v("label4"@), str_v("flag4"@), u8_v("select_idx"@), u8_v("cancel_idx"@)]
}

fn choice4_flags_params() -> (r: Vec<Param>)
    ensures
        params_view(r@) == choice4_flags_layout(),
{
    let mut ps: Vec<Param> = Vec::new();
    ps.push(u16_param("label1"));
    ps.push(str_param("flag1"));
    ps.push(u16_param("label2"));
    ps.push(str_param("flag2"));
    ps.push(u16_param("label3"));
    ps.push(str_param("flag3"));
    ps.push(u16_param("label4"));
    ps.push(str_param("flag4"));
    ps.push(u8_param("select_idx"));
    ps.push(u8_param("cancel_idx"));
    assert(params_view(ps@) =~= choice4_flags_layout());
    ps
}

pub open spec fn choice4_unknown_layout() -> Seq<ParamV> {
    seq![u16_v("label1"@), str_v("flag1"@), u16_v("label2"@), str_v("flag2"@), u16_v("label3"@), str_v("flag3"@), u16_v("label4"@), str_v("flag4"@), u16_v("unk5"@), str_v("name5"@)]
}

fn choice4_unknown_params() -> (r: Vec<Param>)
    ensures
        params_view(r@) == choice4_unknown_layout(),
{
    let mut ps: Vec<Param> = Vec::new();
    ps.push(u16_param("label1"));
    ps.push(str_param("flag1"));
    ps.push(u16_param("label2"));
    ps.push(str_param("flag2"));
    ps.push(u16_param("label3"));
    ps.push(str_param("flag3"));
    ps.push(u16_param("label4"));
    ps.push(str_param("flag4"));
    ps.push(u16_param("unk5"));
    ps.push(str_param("name5"));
    assert(params_view(ps@) =~= choice4_unknown_layout());
    ps
}

pub open spec fn choice1_layout() -> Seq<ParamV> {
    seq![u16_v("label"@), stub_v(ValueV::Bytes(2, seq![0x01u8, 0xCDu8]))]
}

fn choice1_params() -> (r: Vec<Param>)
    ensures
        params_view(r@) == choice1_layout(),
{
    let mut ps: Vec<Param> = Vec::new();
    ps.push(u16_param("label"));
    ps.push(stub_blob(0x01, Some(0xCD)));
    assert(params_view(ps@) =~= choice1_layout());
    ps
}

pub open spec fn animation_layout() -> Seq<ParamV> {
    seq![str_v("name"@)]
}

fn animation_params() -> (r: Vec<Param>)
    ensures
        params_view(r@) == animation_layout(),
{
    let mut ps: Vec<Param> = Vec::new();
    ps.push(str_param("name"));
    assert(params_view(ps@) =~= animation_layout());
    ps
}

pub open spec fn gender_layout() -> Seq<ParamV> {
    seq![str_v("masculine"@), str_v("feminine"@), str_v("unk"@)]
}

fn gender_params() -> (r: Vec<Param>)
    ensures
        params_view(r@) == gender_layout(),
{
    let mut ps: Vec<Param> = Vec::new();
    ps.push(str_param("masculine"));
    ps.push(str_param("feminine"));
    ps.push(str_param("unk"));
    assert(params_view(ps@) =~= gender_layout());
    ps
}

pub open spec fn switch_layout() -> Seq<ParamV> {
    seq![str_v("singular"@), str_v("plural"@), str_v("plural2"@)]
}

fn switch_params() -> (r: Vec<Param>)
    ensures
        params_view(r@) == switch_layout(),
{
    let mut ps: Vec<Param> = Vec::new();
    ps.push(str_param("singular"));
    ps.push(str_param("plural"));
    ps.push(str_param("plural2"));
    assert(params_view(ps@) =~= switch_layout());
    ps
}

pub open spec fn named_value_layout() -> Seq<ParamV> {
    seq![str_v("name"@), stub_v(ValueV::U16(0))]
}

fn named_value_params() -> (r: Vec<Param>)
    ensures
        params_view(r@) == named_value_layout(),
{
    let mut ps: Vec<Param> = Vec::new();
    ps.push(str_param("name"));
    ps.push(Param::new_stubbed(Value::U16(0)));
    assert(params_view(ps@) =~= named_value_layout());
    ps
}

pub open spec fn empty_layout() -> Seq<ParamV> {
    seq![]
}

fn empty_params() -> (r: Vec<Param>)
    ensures
        params_view(r@) == empty_layout(),
{
    let mut ps: Vec<Param> = Vec::new();
    assert(params_view(ps@) =~= empty_layout());
    ps
}

pub open spec fn system_font_layout() -> Seq<ParamV> {
    seq![mapped_u16_v("face"@, none_map())]
}

fn system_font_params() -> (r: Vec<Param>)
    ensures
        params_view(r@) == system_font_layout(),
{
    let mut ps: Vec<Param> = Vec::new();
    ps.push(mapped_u16("face", none_pairs()));
    assert(params_view(ps@) =~= system_font_layout());
    ps
}

pub open spec fn card_color_layout() -> Seq<ParamV> {
    seq![mapped_u16_v("name"@, card_colors_map())]
}

fn card_color_params() -> (r: Vec<Param>)
    ensures
        params_view(r@) == card_color_layout(),
{
    let mut ps: Vec<Param> = Vec::new();
    ps.push(mapped_u16("name", card_colors_pairs()));
    assert(params_view(ps@) =~= card_color_layout());
    ps
}

pub open spec fn interval_layout() -> Seq<ParamV> {
    seq![u16_v("Interval"@)]
}

fn interval_params() -> (r: Vec<Param>)
    ensures
        params_view(r@) == interval_layout(),
{
    let mut ps: Vec<Param> = Vec::new();
    ps.push(u16_param("Interval"));
    assert(params_view(ps@) =~= interval_layout());
    ps
}

pub open spec fn keta_layout() -> Seq<ParamV> {
    seq![u16_v("keta"@)]
}

fn keta_params() -> (r: Vec<Param>)
    ensures
        params_view(r@) == keta_layout(),
{
    let mut ps: Vec<Param> = Vec::new();
    ps.push(u16_param("keta"));
    assert(params_view(ps@) =~= keta_layout());
    ps
}

/// The entries of the open-air adventure title, by code.
pub open spec fn botw_entries() -> Seq<EntryV> {
    seq![
        named_v(0x00, 0x00, "Ruby"@, ruby_layout()),
        named_v(0x00, 0x01, "Font"@, font_layout()),
        named_v(0x00, 0x02, "Size"@, size_layout()),
        named_v(0x00, 0x03, "Color"@, botw_color_layout()),
        named_v(0x00, 0x04, "PageBreak"@, empty_layout()),
        named_v(0x01, 0x00, "Pause"@, pause_layout()),
        named_v(0x01, 0x03, "PauseAuto"@, pause_layout()),
        named_v(0x01, 0x04, "Choice2"@, choice2_layout()),
        named_v(0x01, 0x05, "Choice3"@, choice3_layout()),
        named_v(0x01, 0x06, "Choice4"@, choice4_layout()),
        named_v(0x01, 0x07, "Icon"@, icon_layout()),
        named_v(0x01, 0x08, "Choice4Flags"@, choice4_flags_layout()),
        named_v(0x01, 0x09, "Choice4Unknown"@, choice4_unknown_layout()),
        named_v(0x01, 0x0A, "Choice1"@, choice1_layout()),
        unnamed_v(0x02, 0x01, named_value_layout()),
        unnamed_v(0x02, 0x02, named_value_layout()),
        named_v(0x02, 0x03, "ActiveHorse"@, empty_layout()),
        named_v(0x02, 0x04, "StableHorse"@, empty_layout()),
        unnamed_v(0x02, 0x09, named_value_layout()),
        unnamed_v(0x02, 0x0B, named_value_layout()),
        unnamed_v(0x02, 0x0C, named_value_layout()),
        unnamed_v(0x02, 0x0E, named_value_layout()),
        unnamed_v(0x02, 0x0F, named_value_layout()),
        unnamed_v(0x02, 0x10, named_value_layout()),
        unnamed_v(0x02, 0x11, named_value_layout()),
        unnamed_v(0x02, 0x12, named_value_layout()),
        unnamed_v(0x02, 0x13, named_value_layout()),
        named_v(0x03, 0x01, "Sound1"@, empty_layout()),
        named_v(0x04, 0x01, "Sound2"@, icon_layout()),
        named_v(0x04, 0x02, "Animation"@, animation_layout()),
        named_v(0x05, 0x00, "PauseShort"@, empty_layout()),
        named_v(0x05, 0x01, "PauseMid"@, empty_layout()),
        named_v(0x05, 0x02, "PauseLong"@, empty_layout()),
        named_v(0xC9, 0x05, "Gender"@, gender_layout()),
        named_v(0xC9, 0x06, "SPSwitch"@, switch_layout()),
    ]
}

proof fn lemma_botw_wf()
    ensures
        schema_wf(botw_entries()),
{
    broadcast use vstd::string::group_string_axioms;

    reveal_strlit("Ruby");
    assert("Ruby"@.len() == 4);
    assert("Ruby"@[0] == 'R' && "Ruby"@[1] == 'u' && "Ruby"@[2] == 'b' && "Ruby"@[3] == 'y');
    lemma_not_fallback("Ruby"@, 0);
    reveal_strlit("Font");
    assert("Font"@.len() == 4);
    assert("Font"@[0] == 'F' && "Font"@[1] == 'o' && "Font"@[2] == 'n' && "Font"@[3] == 't');
    lemma_not_fallback("Font"@, 1);
    reveal_strlit("Size");
    assert("Size"@.len() == 4);
    assert("Size"@[0] == 'S' && "Size"@[1] == 'i' && "Size"@[2] == 'z' && "Size"@[3] == 'e');
    lemma_not_fallback("Size"@, 0);
    reveal_strlit("Color");
    assert("Color"@.len() == 5);
    assert("Color"@[0] == 'C' && "Color"@[1] == 'o' && "Color"@[2] == 'l' && "Color"@[3] == 'o' && "Color"@[4] == 'r');
    lemma_not_fallback("Color"@, 1);
    reveal_strlit("PageBreak");
    assert("PageBreak"@.len() == 9);
    assert("PageBreak"@[0] == 'P' && "PageBreak"@[1] == 'a' && "PageBreak"@[2] == 'g' && "PageBreak"@[3] == 'e' && "PageBreak"@[4] == 'B' && "PageBreak"@[5] == 'r' && "PageBreak"@[6] == 'e' && "PageBreak"@[7] == 'a' && "PageBreak"@[8] == 'k');
    lemma_not_fallback("PageBreak"@, 0);
    reveal_strlit("Pause");
    assert("Pause"@.len() == 5);
    assert("Pause"@[0] == 'P' && "Pause"@[1] == 'a' && "Pause"@[2] == 'u' && "Pause"@[3] == 's' && "Pause"@[4] == 'e');
    lemma_not_fallback("Pause"@, 0);
    reveal_strlit("PauseAuto");
    assert("PauseAuto"@.len() == 9);
    assert("PauseAuto"@[0] == 'P' && "PauseAuto"@[1] == 'a' && "PauseAuto"@[2] == 'u' && "PauseAuto"@[3] == 's' && "PauseAuto"@[4] == 'e' && "PauseAuto"@[5] == 'A' && "PauseAuto"@[6] == 'u' && "PauseAuto"@[7] == 't' && "PauseAuto"@[8] == 'o');
    lemma_not_fallback("PauseAuto"@, 0);
    reveal_strlit("Choice2");
    assert("Choice2"@.len() == 7);
    assert("Choice2"@[0] == 'C' && "Choice2"@[1] == 'h' && "Choice2"@[2] == 'o' && "Choice2"@[3] == 'i' && "Choice2"@[4] == 'c' && "Choice2"@[5] == 'e' && "Choice2"@[6] == '2');
    lemma_not_fallback("Choice2"@, 1);
    reveal_strlit("Choice3");
    assert("Choice3"@.len() == 7);
    assert("Choice3"@[0] == 'C' && "Choice3"@[1] == 'h' && "Choice3"@[2] == 'o' && "Choice3"@[3] == 'i' && "Choice3"@[4] == 'c' && "Choice3"@[5] == 'e' && "Choice3"@[6] == '3');
    lemma_not_fallback("Choice3"@, 1);
    reveal_strlit("Choice4");
    assert("Choice4"@.len() == 7);
    assert("Choice4"@[0] == 'C' && "Choice4"@[1] == 'h' && "Choice4"@[2] == 'o' && "Choice4"@[3] == 'i' && "Choice4"@[4] == 'c' && "Choice4"@[5] == 'e' && "Choice4"@[6] == '4');
    lemma_not_fallback("Choice4"@, 1);
    reveal_strlit("Icon");
    assert("Icon"@.len() == 4);
    assert("Icon"@[0] == 'I' && "Icon"@[1] == 'c' && "Icon"@[2] == 'o' && "Icon"@[3] == 'n');
    lemma_not_fallback("Icon"@, 0);
    reveal_strlit("Choice4Flags");
    assert("Choice4Flags"@.len() == 12);
    assert("Choice4Flags"@[0] == 'C' && "Choice4Flags"@[1] == 'h' && "Choice4Flags"@[2] == 'o' && "Choice4Flags"@[3] == 'i' && "Choice4Flags"@[4] == 'c' && "Choice4Flags"@[5] == 'e' && "Choice4Flags"@[6] == '4' && "Choice4Flags"@[7] == 'F' && "Choice4Flags"@[8] == 'l' && "Choice4Flags"@[9] == 'a' && "Choice4Flags"@[10] == 'g' && "Choice4Flags"@[11] == 's');
    lemma_not_fallback("Choice4Flags"@, 1);
    reveal_strlit("Choice4Unknown");
    assert("Choice4Unknown"@.len() == 14);
    assert("Choice4Unknown"@[0] == 'C' && "Choice4Unknown"@[1] == 'h' && "Choice4Unknown"@[2] == 'o' && "Choice4Unknown"@[3] == 'i' && "Choice4Unknown"@[4] == 'c' && "Choice4Unknown"@[5] == 'e' && "Choice4Unknown"@[6] == '4' && "Choice4Unknown"@[7] == 'U' && "Choice4Unknown"@[8] == 'n' && "Choice4Unknown"@[9] == 'k' && "Choice4Unknown"@[10] == 'n' && "Choice4Unknown"@[11] == 'o' && "Choice4Unknown"@[12] == 'w' && "Choice4Unknown"@[13] == 'n');
    lemma_not_fallback("Choice4Unknown"@, 1);
    reveal_strlit("Choice1");
    assert("Choice1"@.len() == 7);
    assert("Choice1"@[0] == 'C' && "Choice1"@[1] == 'h' && "Choice1"@[2] == 'o' && "Choice1"@[3] == 'i' && "Choice1"@[4] == 'c' && "Choice1"@[5] == 'e' && "Choice1"@[6] == '1');
    lemma_not_fallback("Choice1"@, 1);
    reveal_strlit("ActiveHorse");
    assert("ActiveHorse"@.len() == 11);
    assert("ActiveHorse"@[0] == 'A' && "ActiveHorse"@[1] == 'c' && "ActiveHorse"@[2] == 't' && "ActiveHorse"@[3] == 'i' && "ActiveHorse"@[4] == 'v' && "ActiveHorse"@[5] == 'e' && "ActiveHorse"@[6] == 'H' && "ActiveHorse"@[7] == 'o' && "ActiveHorse"@[8] == 'r' && "ActiveHorse"@[9] == 's' && "ActiveHorse"@[10] == 'e');
    lemma_not_fallback("ActiveHorse"@, 2);
    reveal_strlit("StableHorse");
    assert("StableHorse"@.len() == 11);
    assert("StableHorse"@[0] == 'S' && "StableHorse"@[1] == 't' && "StableHorse"@[2] == 'a' && "StableHorse"@[3] == 'b' && "StableHorse"@[4] == 'l' && "StableHorse"@[5] == 'e' && "StableHorse"@[6] == 'H' && "StableHorse"@[7] == 'o' && "StableHorse"@[8] == 'r' && "StableHorse"@[9] == 's' && "StableHorse"@[10] == 'e');
    lemma_not_fallback("StableHorse"@, 0);
    reveal_strlit("Sound1");
    assert("Sound1"@.len() == 6);
    assert("Sound1"@[0] == 'S' && "Sound1"@[1] == 'o' && "Sound1"@[2] == 'u' && "Sound1"@[3] == 'n' && "Sound1"@[4] == 'd' && "Sound1"@[5] == '1');
    lemma_not_fallback("Sound1"@, 0);
    reveal_strlit("Sound2");
    assert("Sound2"@.len() == 6);
    assert("Sound2"@[0] == 'S' && "Sound2"@[1] == 'o' && "Sound2"@[2] == 'u' && "Sound2"@[3] == 'n' && "Sound2"@[4] == 'd' && "Sound2"@[5] == '2');
    lemma_not_fallback("Sound2"@, 0);
    reveal_strlit("Animation");
    assert("Animation"@.len() == 9);
    assert("Animation"@[0] == 'A' && "Animation"@[1] == 'n' && "Animation"@[2] == 'i' && "Animation"@[3] == 'm' && "Animation"@[4] == 'a' && "Animation"@[5] == 't' && "Animation"@[6] == 'i' && "Animation"@[7] == 'o' && "Animation"@[8] == 'n');
    lemma_not_fallback("Animation"@, 1);
    reveal_strlit("PauseShort");
    assert("PauseShort"@.len() == 10);
    assert("PauseShort"@[0] == 'P' && "PauseShort"@[1] == 'a' && "PauseShort"@[2] == 'u' && "PauseShort"@[3] == 's' && "PauseShort"@[4] == 'e' && "PauseShort"@[5] == 'S' && "PauseShort"@[6] == 'h' && "PauseShort"@[7] == 'o' && "PauseShort"@[8] == 'r' && "PauseShort"@[9] == 't');
    lemma_not_fallback("PauseShort"@, 0);
    reveal_strlit("PauseMid");
    assert("PauseMid"@.len() == 8);
    assert("PauseMid"@[0] == 'P' && "PauseMid"@[1] == 'a' && "PauseMid"@[2] == 'u' && "PauseMid"@[3] == 's' && "PauseMid"@[4] == 'e' && "PauseMid"@[5] == 'M' && "PauseMid"@[6] == 'i' && "PauseMid"@[7] == 'd');
    lemma_not_fallback("PauseMid"@, 0);
    reveal_strlit("PauseLong");
    assert("PauseLong"@.len() == 9);
    assert("PauseLong"@[0] == 'P' && "PauseLong"@[1] == 'a' && "PauseLong"@[2] == 'u' && "PauseLong"@[3] == 's' && "PauseLong"@[4] == 'e' && "PauseLong"@[5] == 'L' && "PauseLong"@[6] == 'o' && "PauseLong"@[7] == 'n' && "PauseLong"@[8] == 'g');
    lemma_not_fallback("PauseLong"@, 0);
    reveal_strlit("Gender");
    assert("Gender"@.len() == 6);
    assert("Gender"@[0] == 'G' && "Gender"@[1] == 'e' && "Gender"@[2] == 'n' && "Gender"@[3] == 'd' && "Gender"@[4] == 'e' && "Gender"@[5] == 'r');
    lemma_not_fallback("Gender"@, 0);
    reveal_strlit("SPSwitch");
    assert("SPSwitch"@.len() == 8);
    assert("SPSwitch"@[0] == 'S' && "SPSwitch"@[1] == 'P' && "SPSwitch"@[2] == 'S' && "SPSwitch"@[3] == 'w' && "SPSwitch"@[4] == 'i' && "SPSwitch"@[5] == 't' && "SPSwitch"@[6] == 'c' && "SPSwitch"@[7] == 'h');
    lemma_not_fallback("SPSwitch"@, 0);
    reveal_with_fuel(wf_list, 40);
    reveal_with_fuel(distinct_from, 40);
    assert(wf_list(botw_entries()));
    lemma_wf_list(botw_entries());
}

/// The entries of the handheld system-menu title, by code.
pub open spec fn cardboard_entries() -> Seq<EntryV> {
    seq![
        named_v(0x00, 0x00, "System:Ruby"@, ruby_layout()),
        named_v(0x00, 0x01, "System:Font"@, system_font_layout()),
        named_v(0x00, 0x02, "System:Size"@, size_layout()),
        named_v(0x00, 0x03, "System:Color"@, card_color_layout()),
        named_v(0x00, 0x04, "System:PageBreak"@, empty_layout()),
        named_v(0x01, 0x00, "UserName:MyName"@, empty_layout()),
        named_v(0x01, 0x01, "UserName:TargetName"@, empty_layout()),
        named_v(0x01, 0x02, "UserName:SenderName"@, empty_layout()),
        named_v(0x01, 0x03, "UserName:ReceiverName"@, empty_layout()),
        named_v(0x02, 0x00, "DayTime:Month"@, empty_layout()),
        named_v(0x02, 0x01, "DayTime:Day"@, empty_layout()),
        named_v(0x02, 0x02, "DayTime:Hour"@, empty_layout()),
        named_v(0x02, 0x03, "DayTime:Minute"@, empty_layout()),
        named_v(0x03, 0x00, "SoftInfo:TitleInfoTag"@, empty_layout()),
        named_v(0x03, 0x01, "SoftInfo:NameTag"@, empty_layout()),
        named_v(0x03, 0x02, "SoftInfo:SizeTag"@, empty_layout()),
        named_v(0x03, 0x03, "SoftInfo:StatusTag"@, empty_layout()),
        named_v(0x03, 0x04, "SoftInfo:PubTag"@, empty_layout()),
        named_v(0x03, 0x05, "SoftInfo:otherNumber"@, empty_layout()),
        named_v(0x03, 0x06, "SoftInfo:otherNumber2"@, empty_layout()),
        named_v(0x03, 0x07, "SoftInfo:DSiWare_SD"@, empty_layout()),
        named_v(0x04, 0x00, "SettingInfo:NameTag"@, empty_layout()),
        named_v(0x04, 0x01, "SettingInfo:NumFriend_Sender"@, empty_layout()),
        named_v(0x04, 0x02, "SettingInfo:NumFriend_Receiver"@, empty_layout()),
        named_v(0x05, 0x00, "NandInfo:SendTotal_TWL"@, empty_layout()),
        named_v(0x05, 0x01, "NandInfo:ReceiveRest_TWL"@, empty_layout()),
        named_v(0x06, 0x00, "PointInfo:RestNumberTag"@, empty_layout()),
        named_v(0x06, 0x01, "PointInfo:SendPointTag"@, empty_layout()),
        named_v(0x06, 0x02, "PointInfo:UnitTag"@, empty_layout()),
        named_v(0x07, 0x00, "DataInfo:NameTag"@, empty_layout()),
        named_v(0x07, 0x01, "DataInfo:SizeTag"@, empty_layout()),
        named_v(0x08, 0x00, "ErrorInfo:ErrorCode"@, empty_layout()),
        named_v(0x09, 0x00, "Blink:TimeTag"@, interval_layout()),
        named_v(0x0A, 0x00, "ProgressInfo:Index"@, keta_layout()),
        named_v(0x0A, 0x01, "ProgressInfo:Total"@, keta_layout()),
        named_v(0x0B, 0x00, "MigrateInfo:Interval"@, empty_layout()),
        named_v(0x0B, 0x01, "MigrateInfo:restNum"@, empty_layout()),
    ]
}

#[verifier::spinoff_prover]
#[verifier::rlimit(100)]
proof fn lemma_cardboard_wf()
    ensures
        schema_wf(cardboard_entries()),
{
    broadcast use vstd::string::group_string_axioms;

    reveal_strlit("System:Ruby");
    assert("System:Ruby"@.len() == 11);
    assert("System:Ruby"@[0] == 'S' && "System:Ruby"@[1] == 'y' && "System:Ruby"@[2] == 's' && "System:Ruby"@[3] == 't' && "System:Ruby"@[4] == 'e' && "System:Ruby"@[5] == 'm' && "System:Ruby"@[6] == ':' && "System:Ruby"@[7] == 'R' && "System:Ruby"@[8] == 'u' && "System:Ruby"@[9] == 'b' && "System:Ruby"@[10] == 'y');
    lemma_not_fallback("System:Ruby"@, 0);
    reveal_strlit("System:Font");
    assert("System:Font"@.len() == 11);
    assert("System:Font"@[0] == 'S' && "System:Font"@[1] == 'y' && "System:Font"@[2] == 's' && "System:Font"@[3] == 't' && "System:Font"@[4] == 'e' && "System:Font"@[5] == 'm' && "System:Font"@[6] == ':' && "System:Font"@[7] == 'F' && "System:Font"@[8] == 'o' && "System:Font"@[9] == 'n' && "System:Font"@[10] == 't');
    lemma_not_fallback("System:Font"@, 0);
    reveal_strlit("System:Size");
    assert("System:Size"@.len() == 11);
    assert("System:Size"@[0] == 'S' && "System:Size"@[1] == 'y' && "System:Size"@[2] == 's' && "System:Size"@[3] == 't' && "System:Size"@[4] == 'e' && "System:Size"@[5] == 'm' && "System:Size"@[6] == ':' && "System:Size"@[7] == 'S' && "System:Size"@[8] == 'i' && "System:Size"@[9] == 'z' && "System:Size"@[10] == 'e');
    lemma_not_fallback("System:Size"@, 0);
    reveal_strlit("System:Color");
    assert("System:Color"@.len() == 12);
    assert("System:Color"@[0] == 'S' && "System:Color"@[1] == 'y' && "System:Color"@[2] == 's' && "System:Color"@[3] == 't' && "System:Color"@[4] == 'e' && "System:Color"@[5] == 'm' && "System:Color"@[6] == ':' && "System:Color"@[7] == 'C' && "System:Color"@[8] == 'o' && "System:Color"@[9] == 'l' && "System:Color"@[10] == 'o' && "System:Color"@[11] == 'r');
    lemma_not_fallback("System:Color"@, 0);
    reveal_strlit("System:PageBreak");
    assert("System:PageBreak"@.len() == 16);
    assert("System:PageBreak"@[0] == 'S' && "System:PageBreak"@[1] == 'y' && "System:PageBreak"@[2] == 's' && "System:PageBreak"@[3] == 't' && "System:PageBreak"@[4] == 'e' && "System:PageBreak"@[5] == 'm' && "System:PageBreak"@[6] == ':' && "System:PageBreak"@[7] == 'P' && "System:PageBreak"@[8] == 'a' && "System:PageBreak"@[9] == 'g' && "System:PageBreak"@[10] == 'e' && "System:PageBreak"@[11] == 'B' && "System:PageBreak"@[12] == 'r' && "System:PageBreak"@[13] == 'e' && "System:PageBreak"@[14] == 'a' && "System:PageBreak"@[15] == 'k');
    lemma_not_fallback("System:PageBreak"@, 0);
    reveal_strlit("UserName:MyName");
    assert("UserName:MyName"@.len() == 15);
    assert("UserName:MyName"@[0] == 'U' && "UserName:MyName"@[1] == 's' && "UserName:MyName"@[2] == 'e' && "UserName:MyName"@[3] == 'r' && "UserName:MyName"@[4] == 'N' && "UserName:MyName"@[5] == 'a' && "UserName:MyName"@[6] == 'm' && "UserName:MyName"@[7] == 'e' && "UserName:MyName"@[8] == ':' && "UserName:MyName"@[9] == 'M' && "UserName:MyName"@[10] == 'y' && "UserName:MyName"@[11] == 'N' && "UserName:MyName"@[12] == 'a' && "UserName:MyName"@[13] == 'm' && "UserName:MyName"@[14] == 'e');
    lemma_not_fallback("UserName:MyName"@, 0);
    reveal_strlit("UserName:TargetName");
    assert("UserName:TargetName"@.len() == 19);
    assert("UserName:TargetName"@[0] == 'U' && "UserName:TargetName"@[1] == 's' && "UserName:TargetName"@[2] == 'e' && "UserName:TargetName"@[3] == 'r' && "UserName:TargetName"@[4] == 'N' && "UserName:TargetName"@[5] == 'a' && "UserName:TargetName"@[6] == 'm' && "UserName:TargetName"@[7] == 'e' && "UserName:TargetName"@[8] == ':' && "UserName:TargetName"@[9] == 'T' && "UserName:TargetName"@[10] == 'a' && "UserName:TargetName"@[11] == 'r' && "UserName:TargetName"@[12] == 'g' && "UserName:TargetName"@[13] == 'e' && "UserName:TargetName"@[14] == 't' && "UserName:TargetName"@[15] == 'N' && "UserName:TargetName"@[16] == 'a' && "UserName:TargetName"@[17] == 'm' && "UserName:TargetName"@[18] == 'e');
    lemma_not_fallback("UserName:TargetName"@, 0);
    reveal_strlit("UserName:SenderName");
    assert("UserName:SenderName"@.len() == 19);
    assert("UserName:SenderName"@[0] == 'U' && "UserName:SenderName"@[1] == 's' && "UserName:SenderName"@[2] == 'e' && "UserName:SenderName"@[3] == 'r' && "UserName:SenderName"@[4] == 'N' && "UserName:SenderName"@[5] == 'a' && "UserName:SenderName"@[6] == 'm' && "UserName:SenderName"@[7] == 'e' && "UserName:SenderName"@[8] == ':' && "UserName:SenderName"@[9] == 'S' && "UserName:SenderName"@[10] == 'e' && "UserName:SenderName"@[11] == 'n' && "UserName:SenderName"@[12] == 'd' && "UserName:SenderName"@[13] == 'e' && "UserName:SenderName"@[14] == 'r' && "UserName:SenderName"@[15] == 'N' && "UserName:SenderName"@[16] == 'a' && "UserName:SenderName"@[17] == 'm' && "UserName:SenderName"@[18] == 'e');
    lemma_not_fallback("UserName:SenderName"@, 0);
    reveal_strlit("UserName:ReceiverName");
    assert("UserName:ReceiverName"@.len() == 21);
    assert("UserName:ReceiverName"@[0] == 'U' && "UserName:ReceiverName"@[1] == 's' && "UserName:ReceiverName"@[2] == 'e' && "UserName:ReceiverName"@[3] == 'r' && "UserName:ReceiverName"@[4] == 'N' && "UserName:ReceiverName"@[5] == 'a' && "UserName:ReceiverName"@[6] == 'm' && "UserName:ReceiverName"@[7] == 'e' && "UserName:ReceiverName"@[8] == ':' && "UserName:ReceiverName"@[9] == 'R' && "UserName:ReceiverName"@[10] == 'e' && "UserName:ReceiverName"@[11] == 'c' && "UserName:ReceiverName"@[12] == 'e' && "UserName:ReceiverName"@[13] == 'i' && "UserName:ReceiverName"@[14] == 'v' && "UserName:ReceiverName"@[15] == 'e' && "UserName:ReceiverName"@[16] == 'r' && "UserName:ReceiverName"@[17] == 'N' && "UserName:ReceiverName"@[18] == 'a' && "UserName:ReceiverName"@[19] == 'm' && "UserName:ReceiverName"@[20] == 'e');
    lemma_not_fallback("UserName:ReceiverName"@, 0);
    reveal_strlit("DayTime:Month");
    assert("DayTime:Month"@.len() == 13);
    assert("DayTime:Month"@[0] == 'D' && "DayTime:Month"@[1] == 'a' && "DayTime:Month"@[2] == 'y' && "DayTime:Month"@[3] == 'T' && "DayTime:Month"@[4] == 'i' && "DayTime:Month"@[5] == 'm' && "DayTime:Month"@[6] == 'e' && "DayTime:Month"@[7] == ':' && "DayTime:Month"@[8] == 'M' && "DayTime:Month"@[9] == 'o' && "DayTime:Month"@[10] == 'n' && "DayTime:Month"@[11] == 't' && "DayTime:Month"@[12] == 'h');
    lemma_not_fallback("DayTime:Month"@, 2);
    reveal_strlit("DayTime:Day");
    assert("DayTime:Day"@.len() == 11);
    assert("DayTime:Day"@[0] == 'D' && "DayTime:Day"@[1] == 'a' && "DayTime:Day"@[2] == 'y' && "DayTime:Day"@[3] == 'T' && "DayTime:Day"@[4] == 'i' && "DayTime:Day"@[5] == 'm' && "DayTime:Day"@[6] == 'e' && "DayTime:Day"@[7] == ':' && "DayTime:Day"@[8] == 'D' && "DayTime:Day"@[9] == 'a' && "DayTime:Day"@[10] == 'y');
    lemma_not_fallback("DayTime:Day"@, 2);
    reveal_strlit("DayTime:Hour");
    assert("DayTime:Hour"@.len() == 12);
    assert("DayTime:Hour"@[0] == 'D' && "DayTime:Hour"@[1] == 'a' && "DayTime:Hour"@[2] == 'y' && "DayTime:Hour"@[3] == 'T' && "DayTime:Hour"@[4] == 'i' && "DayTime:Hour"@[5] == 'm' && "DayTime:Hour"@[6] == 'e' && "DayTime:Hour"@[7] == ':' && "DayTime:Hour"@[8] == 'H' && "DayTime:Hour"@[9] == 'o' && "DayTime:Hour"@[10] == 'u' && "DayTime:Hour"@[11] == 'r');
    lemma_not_fallback("DayTime:Hour"@, 2);
    reveal_strlit("DayTime:Minute");
    assert("DayTime:Minute"@.len() == 14);
    assert("DayTime:Minute"@[0] == 'D' && "DayTime:Minute"@[1] == 'a' && "DayTime:Minute"@[2] == 'y' && "DayTime:Minute"@[3] == 'T' && "DayTime:Minute"@[4] == 'i' && "DayTime:Minute"@[5] == 'm' && "DayTime:Minute"@[6] == 'e' && "DayTime:Minute"@[7] == ':' && "DayTime:Minute"@[8] == 'M' && "DayTime:Minute"@[9] == 'i' && "DayTime:Minute"@[10] == 'n' && "DayTime:Minute"@[11] == 'u' && "DayTime:Minute"@[12] == 't' && "DayTime:Minute"@[13] == 'e');
    lemma_not_fallback("DayTime:Minute"@, 2);
    reveal_strlit("SoftInfo:TitleInfoTag");
    assert("SoftInfo:TitleInfoTag"@.len() == 21);
    assert("SoftInfo:TitleInfoTag"@[0] == 'S' && "SoftInfo:TitleInfoTag"@[1] == 'o' && "SoftInfo:TitleInfoTag"@[2] == 'f' && "SoftInfo:TitleInfoTag"@[3] == 't' && "SoftInfo:TitleInfoTag"@[4] == 'I' && "SoftInfo:TitleInfoTag"@[5] == 'n' && "SoftInfo:TitleInfoTag"@[6] == 'f' && "SoftInfo:TitleInfoTag"@[7] == 'o' && "SoftInfo:TitleInfoTag"@[8] == ':' && "SoftInfo:TitleInfoTag"@[9] == 'T' && "SoftInfo:TitleInfoTag"@[10] == 'i' && "SoftInfo:TitleInfoTag"@[11] == 't' && "SoftInfo:TitleInfoTag"@[12] == 'l' && "SoftInfo:TitleInfoTag"@[13] == 'e' && "SoftInfo:TitleInfoTag"@[14] == 'I' && "SoftInfo:TitleInfoTag"@[15] == 'n' && "SoftInfo:TitleInfoTag"@[16] == 'f' && "SoftInfo:TitleInfoTag"@[17] == 'o' && "SoftInfo:TitleInfoTag"@[18] == 'T' && "SoftInfo:TitleInfoTag"@[19] == 'a' && "SoftInfo:TitleInfoTag"@[20] == 'g');
    lemma_not_fallback("SoftInfo:TitleInfoTag"@, 0);
    reveal_strlit("SoftInfo:NameTag");
    assert("SoftInfo:NameTag"@.len() == 16);
    assert("SoftInfo:NameTag"@[0] == 'S' && "SoftInfo:NameTag"@[1] == 'o' && "SoftInfo:NameTag"@[2] == 'f' && "SoftInfo:NameTag"@[3] == 't' && "SoftInfo:NameTag"@[4] == 'I' && "SoftInfo:NameTag"@[5] == 'n' && "SoftInfo:NameTag"@[6] == 'f' && "SoftInfo:NameTag"@[7] == 'o' && "SoftInfo:NameTag"@[8] == ':' && "SoftInfo:NameTag"@[9] == 'N' && "SoftInfo:NameTag"@[10] == 'a' && "SoftInfo:NameTag"@[11] == 'm' && "SoftInfo:NameTag"@[12] == 'e' && "SoftInfo:NameTag"@[13] == 'T' && "SoftInfo:NameTag"@[14] == 'a' && "SoftInfo:NameTag"@[15] == 'g');
    lemma_not_fallback("SoftInfo:NameTag"@, 0);
    reveal_strlit("SoftInfo:SizeTag");
    assert("SoftInfo:SizeTag"@.len() == 16);
    assert("SoftInfo:SizeTag"@[0] == 'S' && "SoftInfo:SizeTag"@[1] == 'o' && "SoftInfo:SizeTag"@[2] == 'f' && "SoftInfo:SizeTag"@[3] == 't' && "SoftInfo:SizeTag"@[4] == 'I' && "SoftInfo:SizeTag"@[5] == 'n' && "SoftInfo:SizeTag"@[6] == 'f' && "SoftInfo:SizeTag"@[7] == 'o' && "SoftInfo:SizeTag"@[8] == ':' && "SoftInfo:SizeTag"@[9] == 'S' && "SoftInfo:SizeTag"@[10] == 'i' && "SoftInfo:SizeTag"@[11] == 'z' && "SoftInfo:SizeTag"@[12] == 'e' && "SoftInfo:SizeTag"@[13] == 'T' && "SoftInfo:SizeTag"@[14] == 'a' && "SoftInfo:SizeTag"@[15] == 'g');
    lemma_not_fallback("SoftInfo:SizeTag"@, 0);
    reveal_strlit("SoftInfo:StatusTag");
    assert("SoftInfo:StatusTag"@.len() == 18);
    assert("SoftInfo:StatusTag"@[0] == 'S' && "SoftInfo:StatusTag"@[1] == 'o' && "SoftInfo:StatusTag"@[2] == 'f' && "SoftInfo:StatusTag"@[3] == 't' && "SoftInfo:StatusTag"@[4] == 'I' && "SoftInfo:StatusTag"@[5] == 'n' && "SoftInfo:StatusTag"@[6] == 'f' && "SoftInfo:StatusTag"@[7] == 'o' && "SoftInfo:StatusTag"@[8] == ':' && "SoftInfo:StatusTag"@[9] == 'S' && "SoftInfo:StatusTag"@[10] == 't' && "SoftInfo:StatusTag"@[11] == 'a' && "SoftInfo:StatusTag"@[12] == 't' && "SoftInfo:StatusTag"@[13] == 'u' && "SoftInfo:StatusTag"@[14] == 's' && "SoftInfo:StatusTag"@[15] == 'T' && "SoftInfo:StatusTag"@[16] == 'a' && "SoftInfo:StatusTag"@[17] == 'g');
    lemma_not_fallback("SoftInfo:StatusTag"@, 0);
    reveal_strlit("SoftInfo:PubTag");
    assert("SoftInfo:PubTag"@.len() == 15);
    assert("SoftInfo:PubTag"@[0] == 'S' && "SoftInfo:PubTag"@[1] == 'o' && "SoftInfo:PubTag"@[2] == 'f' && "SoftInfo:PubTag"@[3] == 't' && "SoftInfo:PubTag"@[4] == 'I' && "SoftInfo:PubTag"@[5] == 'n' && "SoftInfo:PubTag"@[6] == 'f' && "SoftInfo:PubTag"@[7] == 'o' && "SoftInfo:PubTag"@[8] == ':' && "SoftInfo:PubTag"@[9] == 'P' && "SoftInfo:PubTag"@[10] == 'u' && "SoftInfo:PubTag"@[11] == 'b' && "SoftInfo:PubTag"@[12] == 'T' && "SoftInfo:PubTag"@[13] == 'a' && "SoftInfo:PubTag"@[14] == 'g');
    lemma_not_fallback("SoftInfo:PubTag"@, 0);
    reveal_strlit("SoftInfo:otherNumber");
    assert("SoftInfo:otherNumber"@.len() == 20);
    assert("SoftInfo:otherNumber"@[0] == 'S' && "SoftInfo:otherNumber"@[1] == 'o' && "SoftInfo:otherNumber"@[2] == 'f' && "SoftInfo:otherNumber"@[3] == 't' && "SoftInfo:otherNumber"@[4] == 'I' && "SoftInfo:otherNumber"@[5] == 'n' && "SoftInfo:otherNumber"@[6] == 'f' && "SoftInfo:otherNumber"@[7] == 'o' && "SoftInfo:otherNumber"@[8] == ':' && "SoftInfo:otherNumber"@[9] == 'o' && "SoftInfo:otherNumber"@[10] == 't' && "SoftInfo:otherNumber"@[11] == 'h' && "SoftInfo:otherNumber"@[12] == 'e' && "SoftInfo:otherNumber"@[13] == 'r' && "SoftInfo:otherNumber"@[14] == 'N' && "SoftInfo:otherNumber"@[15] == 'u' && "SoftInfo:otherNumber"@[16] == 'm' && "SoftInfo:otherNumber"@[17] == 'b' && "SoftInfo:otherNumber"@[18] == 'e' && "SoftInfo:otherNumber"@[19] == 'r');
    lemma_not_fallback("SoftInfo:otherNumber"@, 0);
    reveal_strlit("SoftInfo:otherNumber2");
    assert("SoftInfo:otherNumber2"@.len() == 21);
    assert("SoftInfo:otherNumber2"@[0] == 'S' && "SoftInfo:otherNumber2"@[1] == 'o' && "SoftInfo:otherNumber2"@[2] == 'f' && "SoftInfo:otherNumber2"@[3] == 't' && "SoftInfo:otherNumber2"@[4] == 'I' && "SoftInfo:otherNumber2"@[5] == 'n' && "SoftInfo:otherNumber2"@[6] == 'f' && "SoftInfo:otherNumber2"@[7] == 'o' && "SoftInfo:otherNumber2"@[8] == ':' && "SoftInfo:otherNumber2"@[9] == 'o' && "SoftInfo:otherNumber2"@[10] == 't' && "SoftInfo:otherNumber2"@[11] == 'h' && "SoftInfo:otherNumber2"@[12] == 'e' && "SoftInfo:otherNumber2"@[13] == 'r' && "SoftInfo:otherNumber2"@[14] == 'N' && "SoftInfo:otherNumber2"@[15] == 'u' && "SoftInfo:otherNumber2"@[16] == 'm' && "SoftInfo:otherNumber2"@[17] == 'b' && "SoftInfo:otherNumber2"@[18] == 'e' && "SoftInfo:otherNumber2"@[19] == 'r' && "SoftInfo:otherNumber2"@[20] == '2');
    lemma_not_fallback("SoftInfo:otherNumber2"@, 0);
    reveal_strlit("SoftInfo:DSiWare_SD");
    assert("SoftInfo:DSiWare_SD"@.len() == 19);
    assert("SoftInfo:DSiWare_SD"@[0] == 'S' && "SoftInfo:DSiWare_SD"@[1] == 'o' && "SoftInfo:DSiWare_SD"@[2] == 'f' && "SoftInfo:DSiWare_SD"@[3] == 't' && "SoftInfo:DSiWare_SD"@[4] == 'I' && "SoftInfo:DSiWare_SD"@[5] == 'n' && "SoftInfo:DSiWare_SD"@[6] == 'f' && "SoftInfo:DSiWare_SD"@[7] == 'o' && "SoftInfo:DSiWare_SD"@[8] == ':' && "SoftInfo:DSiWare_SD"@[9] == 'D' && "SoftInfo:DSiWare_SD"@[10] == 'S' && "SoftInfo:DSiWare_SD"@[11] == 'i' && "SoftInfo:DSiWare_SD"@[12] == 'W' && "SoftInfo:DSiWare_SD"@[13] == 'a' && "SoftInfo:DSiWare_SD"@[14] == 'r' && "SoftInfo:DSiWare_SD"@[15] == 'e' && "SoftInfo:DSiWare_SD"@[16] == '_' && "SoftInfo:DSiWare_SD"@[17] == 'S' && "SoftInfo:DSiWare_SD"@[18] == 'D');
    lemma_not_fallback("SoftInfo:DSiWare_SD"@, 0);
    reveal_strlit("SettingInfo:NameTag");
    assert("SettingInfo:NameTag"@.len() == 19);
    assert("SettingInfo:NameTag"@[0] == 'S' && "SettingInfo:NameTag"@[1] == 'e' && "SettingInfo:NameTag"@[2] == 't' && "SettingInfo:NameTag"@[3] == 't' && "SettingInfo:NameTag"@[4] == 'i' && "SettingInfo:NameTag"@[5] == 'n' && "SettingInfo:NameTag"@[6] == 'g' && "SettingInfo:NameTag"@[7] == 'I' && "SettingInfo:NameTag"@[8] == 'n' && "SettingInfo:NameTag"@[9] == 'f' && "SettingInfo:NameTag"@[10] == 'o' && "SettingInfo:NameTag"@[11] == ':' && "SettingInfo:NameTag"@[12] == 'N' && "SettingInfo:NameTag"@[13] == 'a' && "SettingInfo:NameTag"@[14] == 'm' && "SettingInfo:NameTag"@[15] == 'e' && "SettingInfo:NameTag"@[16] == 'T' && "SettingInfo:NameTag"@[17] == 'a' && "SettingInfo:NameTag"@[18] == 'g');
    lemma_not_fallback("SettingInfo:NameTag"@, 0);
    reveal_strlit("SettingInfo:NumFriend_Sender");
    assert("SettingInfo:NumFriend_Sender"@.len() == 28);
    assert("SettingInfo:NumFriend_Sender"@[0] == 'S' && "SettingInfo:NumFriend_Sender"@[1] == 'e' && "SettingInfo:NumFriend_Sender"@[2] == 't' && "SettingInfo:NumFriend_Sender"@[3] == 't' && "SettingInfo:NumFriend_Sender"@[4] == 'i' && "SettingInfo:NumFriend_Sender"@[5] == 'n' && "SettingInfo:NumFriend_Sender"@[6] == 'g' && "SettingInfo:NumFriend_Sender"@[7] == 'I' && "SettingInfo:NumFriend_Sender"@[8] == 'n' && "SettingInfo:NumFriend_Sender"@[9] == 'f' && "SettingInfo:NumFriend_Sender"@[10] == 'o' && "SettingInfo:NumFriend_Sender"@[11] == ':' && "SettingInfo:NumFriend_Sender"@[12] == 'N' && "SettingInfo:NumFriend_Sender"@[13] == 'u' && "SettingInfo:NumFriend_Sender"@[14] == 'm' && "SettingInfo:NumFriend_Sender"@[15] == 'F' && "SettingInfo:NumFriend_Sender"@[16] == 'r' && "SettingInfo:NumFriend_Sender"@[17] == 'i' && "SettingInfo:NumFriend_Sender"@[18] == 'e' && "SettingInfo:NumFriend_Sender"@[19] == 'n' && "SettingInfo:NumFriend_Sender"@[20] == 'd' && "SettingInfo:NumFriend_Sender"@[21] == '_' && "SettingInfo:NumFriend_Sender"@[22] == 'S' && "SettingInfo:NumFriend_Sender"@[23] == 'e' && "SettingInfo:NumFriend_Sender"@[24] == 'n' && "SettingInfo:NumFriend_Sender"@[25] == 'd' && "SettingInfo:NumFriend_Sender"@[26] == 'e' && "SettingInfo:NumFriend_Sender"@[27] == 'r');
    lemma_not_fallback("SettingInfo:NumFriend_Sender"@, 0);
    reveal_strlit("SettingInfo:NumFriend_Receiver");
    assert("SettingInfo:NumFriend_Receiver"@.len() == 30);
    assert("SettingInfo:NumFriend_Receiver"@[0] == 'S' && "SettingInfo:NumFriend_Receiver"@[1] == 'e' && "SettingInfo:NumFriend_Receiver"@[2] == 't' && "SettingInfo:NumFriend_Receiver"@[3] == 't' && "SettingInfo:NumFriend_Receiver"@[4] == 'i' && "SettingInfo:NumFriend_Receiver"@[5] == 'n' && "SettingInfo:NumFriend_Receiver"@[6] == 'g' && "SettingInfo:NumFriend_Receiver"@[7] == 'I' && "SettingInfo:NumFriend_Receiver"@[8] == 'n' && "SettingInfo:NumFriend_Receiver"@[9] == 'f' && "SettingInfo:NumFriend_Receiver"@[10] == 'o' && "SettingInfo:NumFriend_Receiver"@[11] == ':' && "SettingInfo:NumFriend_Receiver"@[12] == 'N' && "SettingInfo:NumFriend_Receiver"@[13] == 'u' && "SettingInfo:NumFriend_Receiver"@[14] == 'm' && "SettingInfo:NumFriend_Receiver"@[15] == 'F' && "SettingInfo:NumFriend_Receiver"@[16] == 'r' && "SettingInfo:NumFriend_Receiver"@[17] == 'i' && "SettingInfo:NumFriend_Receiver"@[18] == 'e' && "SettingInfo:NumFriend_Receiver"@[19] == 'n' && "SettingInfo:NumFriend_Receiver"@[20] == 'd' && "SettingInfo:NumFriend_Receiver"@[21] == '_' && "SettingInfo:NumFriend_Receiver"@[22] == 'R' && "SettingInfo:NumFriend_Receiver"@[23] == 'e' && "SettingInfo:NumFriend_Receiver"@[24] == 'c' && "SettingInfo:NumFriend_Receiver"@[25] == 'e' && "SettingInfo:NumFriend_Receiver"@[26] == 'i' && "SettingInfo:NumFriend_Receiver"@[27] == 'v' && "SettingInfo:NumFriend_Receiver"@[28] == 'e' && "SettingInfo:NumFriend_Receiver"@[29] == 'r');
    lemma_not_fallback("SettingInfo:NumFriend_Receiver"@, 0);
    reveal_strlit("NandInfo:SendTotal_TWL");
    assert("NandInfo:SendTotal_TWL"@.len() == 22);
    assert("NandInfo:SendTotal_TWL"@[0] == 'N' && "NandInfo:SendTotal_TWL"@[1] == 'a' && "NandInfo:SendTotal_TWL"@[2] == 'n' && "NandInfo:SendTotal_TWL"@[3] == 'd' && "NandInfo:SendTotal_TWL"@[4] == 'I' && "NandInfo:SendTotal_TWL"@[5] == 'n' && "NandInfo:SendTotal_TWL"@[6] == 'f' && "NandInfo:SendTotal_TWL"@[7] == 'o' && "NandInfo:SendTotal_TWL"@[8] == ':' && "NandInfo:SendTotal_TWL"@[9] == 'S' && "NandInfo:SendTotal_TWL"@[10] == 'e' && "NandInfo:SendTotal_TWL"@[11] == 'n' && "NandInfo:SendTotal_TWL"@[12] == 'd' && "NandInfo:SendTotal_TWL"@[13] == 'T' && "NandInfo:SendTotal_TWL"@[14] == 'o' && "NandInfo:SendTotal_TWL"@[15] == 't' && "NandInfo:SendTotal_TWL"@[16] == 'a' && "NandInfo:SendTotal_TWL"@[17] == 'l' && "NandInfo:SendTotal_TWL"@[18] == '_' && "NandInfo:SendTotal_TWL"@[19] == 'T' && "NandInfo:SendTotal_TWL"@[20] == 'W' && "NandInfo:SendTotal_TWL"@[21] == 'L');
    lemma_not_fallback("NandInfo:SendTotal_TWL"@, 0);
    reveal_strlit("NandInfo:ReceiveRest_TWL");
    assert("NandInfo:ReceiveRest_TWL"@.len() == 24);
    assert("NandInfo:ReceiveRest_TWL"@[0] == 'N' && "NandInfo:ReceiveRest_TWL"@[1] == 'a' && "NandInfo:ReceiveRest_TWL"@[2] == 'n' && "NandInfo:ReceiveRest_TWL"@[3] == 'd' && "NandInfo:ReceiveRest_TWL"@[4] == 'I' && "NandInfo:ReceiveRest_TWL"@[5] == 'n' && "NandInfo:ReceiveRest_TWL"@[6] == 'f' && "NandInfo:ReceiveRest_TWL"@[7] == 'o' && "NandInfo:ReceiveRest_TWL"@[8] == ':' && "NandInfo:ReceiveRest_TWL"@[9] == 'R' && "NandInfo:ReceiveRest_TWL"@[10] == 'e' && "NandInfo:ReceiveRest_TWL"@[11] == 'c' && "NandInfo:ReceiveRest_TWL"@[12] == 'e' && "NandInfo:ReceiveRest_TWL"@[13] == 'i' && "NandInfo:ReceiveRest_TWL"@[14] == 'v' && "NandInfo:ReceiveRest_TWL"@[15] == 'e' && "NandInfo:ReceiveRest_TWL"@[16] == 'R' && "NandInfo:ReceiveRest_TWL"@[17] == 'e' && "NandInfo:ReceiveRest_TWL"@[18] == 's' && "NandInfo:ReceiveRest_TWL"@[19] == 't' && "NandInfo:ReceiveRest_TWL"@[20] == '_' && "NandInfo:ReceiveRest_TWL"@[21] == 'T' && "NandInfo:ReceiveRest_TWL"@[22] == 'W' && "NandInfo:ReceiveRest_TWL"@[23] == 'L');
    lemma_not_fallback("NandInfo:ReceiveRest_TWL"@, 0);
    reveal_strlit("PointInfo:RestNumberTag");
    assert("PointInfo:RestNumberTag"@.len() == 23);
    assert("PointInfo:RestNumberTag"@[0] == 'P' && "PointInfo:RestNumberTag"@[1] == 'o' && "PointInfo:RestNumberTag"@[2] == 'i' && "PointInfo:RestNumberTag"@[3] == 'n' && "PointInfo:RestNumberTag"@[4] == 't' && "PointInfo:RestNumberTag"@[5] == 'I' && "PointInfo:RestNumberTag"@[6] == 'n' && "PointInfo:RestNumberTag"@[7] == 'f' && "PointInfo:RestNumberTag"@[8] == 'o' && "PointInfo:RestNumberTag"@[9] == ':' && "PointInfo:RestNumberTag"@[10] == 'R' && "PointInfo:RestNumberTag"@[11] == 'e' && "PointInfo:RestNumberTag"@[12] == 's' && "PointInfo:RestNumberTag"@[13] == 't' && "PointInfo:RestNumberTag"@[14] == 'N' && "PointInfo:RestNumberTag"@[15] == 'u' && "PointInfo:RestNumberTag"@[16] == 'm' && "PointInfo:RestNumberTag"@[17] == 'b' && "PointInfo:RestNumberTag"@[18] == 'e' && "PointInfo:RestNumberTag"@[19] == 'r' && "PointInfo:RestNumberTag"@[20] == 'T' && "PointInfo:RestNumberTag"@[21] == 'a' && "PointInfo:RestNumberTag"@[22] == 'g');
    lemma_not_fallback("PointInfo:RestNumberTag"@, 0);
    reveal_strlit("PointInfo:SendPointTag");
    assert("PointInfo:SendPointTag"@.len() == 22);
    assert("PointInfo:SendPointTag"@[0] == 'P' && "PointInfo:SendPointTag"@[1] == 'o' && "PointInfo:SendPointTag"@[2] == 'i' && "PointInfo:SendPointTag"@[3] == 'n' && "PointInfo:SendPointTag"@[4] == 't' && "PointInfo:SendPointTag"@[5] == 'I' && "PointInfo:SendPointTag"@[6] == 'n' && "PointInfo:SendPointTag"@[7] == 'f' && "PointInfo:SendPointTag"@[8] == 'o' && "PointInfo:SendPointTag"@[9] == ':' && "PointInfo:SendPointTag"@[10] == 'S' && "PointInfo:SendPointTag"@[11] == 'e' && "PointInfo:SendPointTag"@[12] == 'n' && "PointInfo:SendPointTag"@[13] == 'd' && "PointInfo:SendPointTag"@[14] == 'P' && "PointInfo:SendPointTag"@[15] == 'o' && "PointInfo:SendPointTag"@[16] == 'i' && "PointInfo:SendPointTag"@[17] == 'n' && "PointInfo:SendPointTag"@[18] == 't' && "PointInfo:SendPointTag"@[19] == 'T' && "PointInfo:SendPointTag"@[20] == 'a' && "PointInfo:SendPointTag"@[21] == 'g');
    lemma_not_fallback("PointInfo:SendPointTag"@, 0);
    reveal_strlit("PointInfo:UnitTag");
    assert("PointInfo:UnitTag"@.len() == 17);
    assert("PointInfo:UnitTag"@[0] == 'P' && "PointInfo:UnitTag"@[1] == 'o' && "PointInfo:UnitTag"@[2] == 'i' && "PointInfo:UnitTag"@[3] == 'n' && "PointInfo:UnitTag"@[4] == 't' && "PointInfo:UnitTag"@[5] == 'I' && "PointInfo:UnitTag"@[6] == 'n' && "PointInfo:UnitTag"@[7] == 'f' && "PointInfo:UnitTag"@[8] == 'o' && "PointInfo:UnitTag"@[9] == ':' && "PointInfo:UnitTag"@[10] == 'U' && "PointInfo:UnitTag"@[11] == 'n' && "PointInfo:UnitTag"@[12] == 'i' && "PointInfo:UnitTag"@[13] == 't' && "PointInfo:UnitTag"@[14] == 'T' && "PointInfo:UnitTag"@[15] == 'a' && "PointInfo:UnitTag"@[16] == 'g');
    lemma_not_fallback("PointInfo:UnitTag"@, 0);
    reveal_strlit("DataInfo:NameTag");
    assert("DataInfo:NameTag"@.len() == 16);
    assert("DataInfo:NameTag"@[0] == 'D' && "DataInfo:NameTag"@[1] == 'a' && "DataInfo:NameTag"@[2] == 't' && "DataInfo:NameTag"@[3] == 'a' && "DataInfo:NameTag"@[4] == 'I' && "DataInfo:NameTag"@[5] == 'n' && "DataInfo:NameTag"@[6] == 'f' && "DataInfo:NameTag"@[7] == 'o' && "DataInfo:NameTag"@[8] == ':' && "DataInfo:NameTag"@[9] == 'N' && "DataInfo:NameTag"@[10] == 'a' && "DataInfo:NameTag"@[11] == 'm' && "DataInfo:NameTag"@[12] == 'e' && "DataInfo:NameTag"@[13] == 'T' && "DataInfo:NameTag"@[14] == 'a' && "DataInfo:NameTag"@[15] == 'g');
    lemma_not_fallback("DataInfo:NameTag"@, 2);
    reveal_strlit("DataInfo:SizeTag");
    assert("DataInfo:SizeTag"@.len() == 16);
    assert("DataInfo:SizeTag"@[0] == 'D' && "DataInfo:SizeTag"@[1] == 'a' && "DataInfo:SizeTag"@[2] == 't' && "DataInfo:SizeTag"@[3] == 'a' && "DataInfo:SizeTag"@[4] == 'I' && "DataInfo:SizeTag"@[5] == 'n' && "DataInfo:SizeTag"@[6] == 'f' && "DataInfo:SizeTag"@[7] == 'o' && "DataInfo:SizeTag"@[8] == ':' && "DataInfo:SizeTag"@[9] == 'S' && "DataInfo:SizeTag"@[10] == 'i' && "DataInfo:SizeTag"@[11] == 'z' && "DataInfo:SizeTag"@[12] == 'e' && "DataInfo:SizeTag"@[13] == 'T' && "DataInfo:SizeTag"@[14] == 'a' && "DataInfo:SizeTag"@[15] == 'g');
    lemma_not_fallback("DataInfo:SizeTag"@, 2);
    reveal_strlit("ErrorInfo:ErrorCode");
    assert("ErrorInfo:ErrorCode"@.len() == 19);
    assert("ErrorInfo:ErrorCode"@[0] == 'E' && "ErrorInfo:ErrorCode"@[1] == 'r' && "ErrorInfo:ErrorCode"@[2] == 'r' && "ErrorInfo:ErrorCode"@[3] == 'o' && "ErrorInfo:ErrorCode"@[4] == 'r' && "ErrorInfo:ErrorCode"@[5] == 'I' && "ErrorInfo:ErrorCode"@[6] == 'n' && "ErrorInfo:ErrorCode"@[7] == 'f' && "ErrorInfo:ErrorCode"@[8] == 'o' && "ErrorInfo:ErrorCode"@[9] == ':' && "ErrorInfo:ErrorCode"@[10] == 'E' && "ErrorInfo:ErrorCode"@[11] == 'r' && "ErrorInfo:ErrorCode"@[12] == 'r' && "ErrorInfo:ErrorCode"@[13] == 'o' && "ErrorInfo:ErrorCode"@[14] == 'r' && "ErrorInfo:ErrorCode"@[15] == 'C' && "ErrorInfo:ErrorCode"@[16] == 'o' && "ErrorInfo:ErrorCode"@[17] == 'd' && "ErrorInfo:ErrorCode"@[18] == 'e');
    lemma_not_fallback("ErrorInfo:ErrorCode"@, 1);
    reveal_strlit("Blink:TimeTag");
    assert("Blink:TimeTag"@.len() == 13);
    assert("Blink:TimeTag"@[0] == 'B' && "Blink:TimeTag"@[1] == 'l' && "Blink:TimeTag"@[2] == 'i' && "Blink:TimeTag"@[3] == 'n' && "Blink:TimeTag"@[4] == 'k' && "Blink:TimeTag"@[5] == ':' && "Blink:TimeTag"@[6] == 'T' && "Blink:TimeTag"@[7] == 'i' && "Blink:TimeTag"@[8] == 'm' && "Blink:TimeTag"@[9] == 'e' && "Blink:TimeTag"@[10] == 'T' && "Blink:TimeTag"@[11] == 'a' && "Blink:TimeTag"@[12] == 'g');
    lemma_not_fallback("Blink:TimeTag"@, 1);
    reveal_strlit("ProgressInfo:Index");
    assert("ProgressInfo:Index"@.len() == 18);
    assert("ProgressInfo:Index"@[0] == 'P' && "ProgressInfo:Index"@[1] == 'r' && "ProgressInfo:Index"@[2] == 'o' && "ProgressInfo:Index"@[3] == 'g' && "ProgressInfo:Index"@[4] == 'r' && "ProgressInfo:Index"@[5] == 'e' && "ProgressInfo:Index"@[6] == 's' && "ProgressInfo:Index"@[7] == 's' && "ProgressInfo:Index"@[8] == 'I' && "ProgressInfo:Index"@[9] == 'n' && "ProgressInfo:Index"@[10] == 'f' && "ProgressInfo:Index"@[11] == 'o' && "ProgressInfo:Index"@[12] == ':' && "ProgressInfo:Index"@[13] == 'I' && "ProgressInfo:Index"@[14] == 'n' && "ProgressInfo:Index"@[15] == 'd' && "ProgressInfo:Index"@[16] == 'e' && "ProgressInfo:Index"@[17] == 'x');
    lemma_not_fallback("ProgressInfo:Index"@, 0);
    reveal_strlit("ProgressInfo:Total");
    assert("ProgressInfo:Total"@.len() == 18);
    assert("ProgressInfo:Total"@[0] == 'P' && "ProgressInfo:Total"@[1] == 'r' && "ProgressInfo:Total"@[2] == 'o' && "ProgressInfo:Total"@[3] == 'g' && "ProgressInfo:Total"@[4] == 'r' && "ProgressInfo:Total"@[5] == 'e' && "ProgressInfo:Total"@[6] == 's' && "ProgressInfo:Total"@[7] == 's' && "ProgressInfo:Total"@[8] == 'I' && "ProgressInfo:Total"@[9] == 'n' && "ProgressInfo:Total"@[10] == 'f' && "ProgressInfo:Total"@[11] == 'o' && "ProgressInfo:Total"@[12] == ':' && "ProgressInfo:Total"@[13] == 'T' && "ProgressInfo:Total"@[14] == 'o' && "ProgressInfo:Total"@[15] == 't' && "ProgressInfo:Total"@[16] == 'a' && "ProgressInfo:Total"@[17] == 'l');
    lemma_not_fallback("ProgressInfo:Total"@, 0);
    reveal_strlit("MigrateInfo:Interval");
    assert("MigrateInfo:Interval"@.len() == 20);
    assert("MigrateInfo:Interval"@[0] == 'M' && "MigrateInfo:Interval"@[1] == 'i' && "MigrateInfo:Interval"@[2] == 'g' && "MigrateInfo:Interval"@[3] == 'r' && "MigrateInfo:Interval"@[4] == 'a' && "MigrateInfo:Interval"@[5] == 't' && "MigrateInfo:Interval"@[6] == 'e' && "MigrateInfo:Interval"@[7] == 'I' && "MigrateInfo:Interval"@[8] == 'n' && "MigrateInfo:Interval"@[9] == 'f' && "MigrateInfo:Interval"@[10] == 'o' && "MigrateInfo:Interval"@[11] == ':' && "MigrateInfo:Interval"@[12] == 'I' && "MigrateInfo:Interval"@[13] == 'n' && "MigrateInfo:Interval"@[14] == 't' && "MigrateInfo:Interval"@[15] == 'e' && "MigrateInfo:Interval"@[16] == 'r' && "MigrateInfo:Interval"@[17] == 'v' && "MigrateInfo:Interval"@[18] == 'a' && "MigrateInfo:Interval"@[19] == 'l');
    lemma_not_fallback("MigrateInfo:Interval"@, 0);
    reveal_strlit("MigrateInfo:restNum");
    assert("MigrateInfo:restNum"@.len() == 19);
    assert("MigrateInfo:restNum"@[0] == 'M' && "MigrateInfo:restNum"@[1] == 'i' && "MigrateInfo:restNum"@[2] == 'g' && "MigrateInfo:restNum"@[3] == 'r' && "MigrateInfo:restNum"@[4] == 'a' && "MigrateInfo:restNum"@[5] == 't' && "MigrateInfo:restNum"@[6] == 'e' && "MigrateInfo:restNum"@[7] == 'I' && "MigrateInfo:restNum"@[8] == 'n' && "MigrateInfo:restNum"@[9] == 'f' && "MigrateInfo:restNum"@[10] == 'o' && "MigrateInfo:restNum"@[11] == ':' && "MigrateInfo:restNum"@[12] == 'r' && "MigrateInfo:restNum"@[13] == 'e' && "MigrateInfo:restNum"@[14] == 's' && "MigrateInfo:restNum"@[15] == 't' && "MigrateInfo:restNum"@[16] == 'N' && "MigrateInfo:restNum"@[17] == 'u' && "MigrateInfo:restNum"@[18] == 'm');
    lemma_not_fallback("MigrateInfo:restNum"@, 0);
    reveal_with_fuel(wf_list, 40);
    reveal_with_fuel(distinct_from, 40);
    assert(wf_list(cardboard_entries()));
    lemma_wf_list(cardboard_entries());
}

impl TagSchema {
    /// The schema of the open-air adventure title: text styling, pauses,
    /// choices, icons, sounds and grammatical switches. Sub-codes
    /// 01, 02, 09, 0B, 0C and 0E to 13 of group 02 share one unnamed layout,
    /// a name and a reserved halfword.
    pub fn botw() -> (r: TagSchema)
        ensures
            r@ == botw_entries(),
            schema_wf(r@),
    {
        let mut entries: Vec<SchemaEntry> = Vec::new();
        entries.push(named(0x00, 0x00, "Ruby", ruby_params()));
        entries.push(named(0x00, 0x01, "Font", font_params()));
        entries.push(named(0x00, 0x02, "Size", size_params()));
        entries.push(named(0x00, 0x03, "Color", botw_color_params()));
        entries.push(named(0x00, 0x04, "PageBreak", empty_params()));
        entries.push(named(0x01, 0x00, "Pause", pause_params()));
        entries.push(named(0x01, 0x03, "PauseAuto", pause_params()));
        entries.push(named(0x01, 0x04, "Choice2", choice2_params()));
        entries.push(named(0x01, 0x05, "Choice3", choice3_params()));
        entries.push(named(0x01, 0x06, "Choice4", choice4_params()));
        entries.push(named(0x01, 0x07, "Icon", icon_params()));
        entries.push(named(0x01, 0x08, "Choice4Flags", choice4_flags_params()));
        entries.push(named(0x01, 0x09, "Choice4Unknown", choice4_unknown_params()));
        entries.push(named(0x01, 0x0A, "Choice1", choice1_params()));
        entries.push(unnamed(0x02, 0x01, named_value_params()));
        entries.push(unnamed(0x02, 0x02, named_value_params()));
        entries.push(named(0x02, 0x03, "ActiveHorse", empty_params()));
        entries.push(named(0x02, 0x04, "StableHorse", empty_params()));
        entries.push(unnamed(0x02, 0x09, named_value_params()));
        entries.push(unnamed(0x02, 0x0B, named_value_params()));
        entries.push(unnamed(0x02, 0x0C, named_value_params()));
        entries.push(unnamed(0x02, 0x0E, named_value_params()));
        entries.push(unnamed(0x02, 0x0F, named_value_params()));
        entries.push(unnamed(0x02, 0x10, named_value_params()));
        entries.push(unnamed(0x02, 0x11, named_value_params()));
        entries.push(unnamed(0x02, 0x12, named_value_params()));
        entries.push(unnamed(0x02, 0x13, named_value_params()));
        entries.push(named(0x03, 0x01, "Sound1", empty_params()));
        entries.push(named(0x04, 0x01, "Sound2", icon_params()));
        entries.push(named(0x04, 0x02, "Animation", animation_params()));
        entries.push(named(0x05, 0x00, "PauseShort", empty_params()));
        entries.push(named(0x05, 0x01, "PauseMid", empty_params()));
        entries.push(named(0x05, 0x02, "PauseLong", empty_params()));
        entries.push(named(0xC9, 0x05, "Gender", gender_params()));
        entries.push(named(0xC9, 0x06, "SPSwitch", switch_params()));
        let r = TagSchema { entries };
        assert(r@ =~= botw_entries());
        proof {
            lemma_botw_wf();
        }
        r
    }

    /// The schema of the handheld system-menu title, whose names carry a
    /// `Group:Tag` prefix.
    pub fn cardboard() -> (r: TagSchema)
        ensures
            r@ == cardboard_entries(),
            schema_wf(r@),
    {
        let mut entries: Vec<SchemaEntry> = Vec::new();
        entries.push(named(0x00, 0x00, "System:Ruby", ruby_params()));
        entries.push(named(0x00, 0x01, "System:Font", system_font_params()));
        entries.push(named(0x00, 0x02, "System:Size", size_params()));
        entries.push(named(0x00, 0x03, "System:Color", card_color_params()));
        entries.push(named(0x00, 0x04, "System:PageBreak", empty_params()));
        entries.push(named(0x01, 0x00, "UserName:MyName", empty_params()));
        entries.push(named(0x01, 0x01, "UserName:TargetName", empty_params()));
        entries.push(named(0x01, 0x02, "UserName:SenderName", empty_params()));
        entries.push(named(0x01, 0x03, "UserName:ReceiverName", empty_params()));
        entries.push(named(0x02, 0x00, "DayTime:Month", empty_params()));
        entries.push(named(0x02, 0x01, "DayTime:Day", empty_params()));
        entries.push(named(0x02, 0x02, "DayTime:Hour", empty_params()));
        entries.push(named(0x02, 0x03, "DayTime:Minute", empty_params()));
        entries.push(named(0x03, 0x00, "SoftInfo:TitleInfoTag", empty_params()));
        entries.push(named(0x03, 0x01, "SoftInfo:NameTag", empty_params()));
        entries.push(named(0x03, 0x02, "SoftInfo:SizeTag", empty_params()));
        entries.push(named(0x03, 0x03, "SoftInfo:StatusTag", empty_params()));
        entries.push(named(0x03, 0x04, "SoftInfo:PubTag", empty_params()));
        entries.push(named(0x03, 0x05, "SoftInfo:otherNumber", empty_params()));
        entries.push(named(0x03, 0x06, "SoftInfo:otherNumber2", empty_params()));
        entries.push(named(0x03, 0x07, "SoftInfo:DSiWare_SD", empty_params()));
        entries.push(named(0x04, 0x00, "SettingInfo:NameTag", empty_params()));
        entries.push(named(0x04, 0x01, "SettingInfo:NumFriend_Sender", empty_params()));
        entries.push(named(0x04, 0x02, "SettingInfo:NumFriend_Receiver", empty_params()));
        entries.push(named(0x05, 0x00, "NandInfo:SendTotal_TWL", empty_params()));
        entries.push(named(0x05, 0x01, "NandInfo:ReceiveRest_TWL", empty_params()));
        entries.push(named(0x06, 0x00, "PointInfo:RestNumberTag", empty_params()));
        entries.push(named(0x06, 0x01, "PointInfo:SendPointTag", empty_params()));
        entries.push(named(0x06, 0x02, "PointInfo:UnitTag", empty_params()));
        entries.push(named(0x07, 0x00, "DataInfo:NameTag", empty_params()));
        entries.push(named(0x07, 0x01, "DataInfo:SizeTag", empty_params()));
        entries.push(named(0x08, 0x00, "ErrorInfo:ErrorCode", empty_params()));
        entries.push(named(0x09, 0x00, "Blink:TimeTag", interval_params()));
        entries.push(named(0x0A, 0x00, "ProgressInfo:Index", keta_params()));
        entries.push(named(0x0A, 0x01, "ProgressInfo:Total", keta_params()));
        entries.push(named(0x0B, 0x00, "MigrateInfo:Interval", empty_params()));
        entries.push(named(0x0B, 0x01, "MigrateInfo:restNum", empty_params()));
        let r = TagSchema { entries };
        assert(r@ =~= cardboard_entries());
        proof {
            lemma_cardboard_wf();
        }
        r
    }
}

} // verus!
