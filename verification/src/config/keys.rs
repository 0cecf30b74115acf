//! The keys of a keyboard and their codes.
use vstd::prelude::*;

use crate::config;
use crate::search;
use crate::text::same;

verus! {

/// The keys by their place on a US keyboard, each with its code.
pub open spec fn virtual_keys() -> Seq<(Seq<char>, u8)> {
    seq![
        ("a"@, 0x00u8),
        ("s"@, 0x01u8),
        ("d"@, 0x02u8),
        ("f"@, 0x03u8),
        ("h"@, 0x04u8),
        ("g"@, 0x05u8),
        ("z"@, 0x06u8),
        ("x"@, 0x07u8),
        ("c"@, 0x08u8),
        ("v"@, 0x09u8),
        ("section"@, 0x0au8),
        ("b"@, 0x0bu8),
        ("q"@, 0x0cu8),
        ("w"@, 0x0du8),
        ("e"@, 0x0eu8),
        ("r"@, 0x0fu8),
        ("y"@, 0x10u8),
        ("t"@, 0x11u8),
        ("1"@, 0x12u8),
        ("2"@, 0x13u8),
        ("3"@, 0x14u8),
        ("4"@, 0x15u8),
        ("6"@, 0x16u8),
        ("5"@, 0x17u8),
        ("equal"@, 0x18u8),
        ("9"@, 0x19u8),
        ("7"@, 0x1au8),
        ("minus"@, 0x1bu8),
        ("8"@, 0x1cu8),
        ("0"@, 0x1du8),
        ("rightbracket"@, 0x1eu8),
        ("o"@, 0x1fu8),
        ("u"@, 0x20u8),
        ("leftbracket"@, 0x21u8),
        ("i"@, 0x22u8),
        ("p"@, 0x23u8),
        ("l"@, 0x25u8),
        ("j"@, 0x26u8),
        ("quote"@, 0x27u8),
        ("k"@, 0x28u8),
        ("semicolon"@, 0x29u8),
        ("backslash"@, 0x2au8),
        ("comma"@, 0x2bu8),
        ("slash"@, 0x2cu8),
        ("n"@, 0x2du8),
        ("m"@, 0x2eu8),
        ("period"@, 0x2fu8),
        ("grave"@, 0x32u8),
        ("keypaddecimal"@, 0x41u8),
        ("keypadmultiply"@, 0x43u8),
        ("keypadplus"@, 0x45u8),
        ("keypadclear"@, 0x47u8),
        ("keypaddivide"@, 0x4bu8),
        ("keypadenter"@, 0x4cu8),
        ("keypadminus"@, 0x4eu8),
        ("keypadequals"@, 0x51u8),
        ("keypad0"@, 0x52u8),
        ("keypad1"@, 0x53u8),
        ("keypad2"@, 0x54u8),
        ("keypad3"@, 0x55u8),
        ("keypad4"@, 0x56u8),
        ("keypad5"@, 0x57u8),
        ("keypad6"@, 0x58u8),
        ("keypad7"@, 0x59u8),
        ("keypad8"@, 0x5bu8),
        ("keypad9"@, 0x5cu8),
    ]
}

/// The keys that are the same on every layout, each with its code.
pub open spec fn literal_keys() -> Seq<(Seq<char>, u8)> {
    seq![
        ("return"@, 0x24u8),
        ("tab"@, 0x30u8),
        ("space"@, 0x31u8),
        ("delete"@, 0x33u8),
        ("escape"@, 0x35u8),
        ("command"@, 0x37u8),
        ("shift"@, 0x38u8),
        ("capslock"@, 0x39u8),
        ("option"@, 0x3au8),
        ("control"@, 0x3bu8),
        ("rightcommand"@, 0x36u8),
        ("rightshift"@, 0x3cu8),
        ("rightoption"@, 0x3du8),
        ("rightcontrol"@, 0x3eu8),
        ("function"@, 0x3fu8),
        ("f17"@, 0x40u8),
        ("volumeup"@, 0x48u8),
        ("volumedown"@, 0x49u8),
        ("mute"@, 0x4au8),
        ("f18"@, 0x4fu8),
        ("f19"@, 0x50u8),
        ("f20"@, 0x5au8),
        ("f5"@, 0x60u8),
        ("f6"@, 0x61u8),
        ("f7"@, 0x62u8),
        ("f3"@, 0x63u8),
        ("f8"@, 0x64u8),
        ("f9"@, 0x65u8),
        ("f11"@, 0x67u8),
        ("f13"@, 0x69u8),
        ("f16"@, 0x6au8),
        ("f14"@, 0x6bu8),
        ("f10"@, 0x6du8),
        ("contextualmenu"@, 0x6eu8),
        ("f12"@, 0x6fu8),
        ("f15"@, 0x71u8),
        ("help"@, 0x72u8),
        ("home"@, 0x73u8),
        ("pageup"@, 0x74u8),
        ("forwarddelete"@, 0x75u8),
        ("f4"@, 0x76u8),
        ("end"@, 0x77u8),
        ("f2"@, 0x78u8),
        ("pagedown"@, 0x79u8),
        ("f1"@, 0x7au8),
        ("leftarrow"@, 0x7bu8),
        ("rightarrow"@, 0x7cu8),
        ("downarrow"@, 0x7du8),
        ("uparrow"@, 0x7eu8),
    ]
}

/// What a table of keys holds.
pub open spec fn table_view(table: Seq<(&'static str, u8)>) -> Seq<(Seq<char>, u8)> {
    table.map_values(|key: (&'static str, u8)| (key.0@, key.1))
}

/// The keys by their place on a US keyboard, each with its code.
pub fn virtual_keycode() -> (table: Vec<(&'static str, u8)>)
    ensures
        table_view(table@) == virtual_keys(),
{
    let table: Vec<(&'static str, u8)> = vec![
        ("a", 0x00),
        ("s", 0x01),
        ("d", 0x02),
        ("f", 0x03),
        ("h", 0x04),
        ("g", 0x05),
        ("z", 0x06),
        ("x", 0x07),
        ("c", 0x08),
        ("v", 0x09),
        ("section", 0x0a),
        ("b", 0x0b),
        ("q", 0x0c),
        ("w", 0x0d),
        ("e", 0x0e),
        ("r", 0x0f),
        ("y", 0x10),
        ("t", 0x11),
        ("1", 0x12),
        ("2", 0x13),
        ("3", 0x14),
        ("4", 0x15),
        ("6", 0x16),
        ("5", 0x17),
        ("equal", 0x18),
        ("9", 0x19),
        ("7", 0x1a),
        ("minus", 0x1b),
        ("8", 0x1c),
        ("0", 0x1d),
        ("rightbracket", 0x1e),
        ("o", 0x1f),
        ("u", 0x20),
        ("leftbracket", 0x21),
        ("i", 0x22),
        ("p", 0x23),
        ("l", 0x25),
        ("j", 0x26),
        ("quote", 0x27),
        ("k", 0x28),
        ("semicolon", 0x29),
        ("backslash", 0x2a),
        ("comma", 0x2b),
        ("slash", 0x2c),
        ("n", 0x2d),
        ("m", 0x2e),
        ("period", 0x2f),
        ("grave", 0x32),
        ("keypaddecimal", 0x41),
        ("keypadmultiply", 0x43),
        ("keypadplus", 0x45),
        ("keypadclear", 0x47),
        ("keypaddivide", 0x4b),
        ("keypadenter", 0x4c),
        ("keypadminus", 0x4e),
        ("keypadequals", 0x51),
        ("keypad0", 0x52),
        ("keypad1", 0x53),
        ("keypad2", 0x54),
        ("keypad3", 0x55),
        ("keypad4", 0x56),
        ("keypad5", 0x57),
        ("keypad6", 0x58),
        ("keypad7", 0x59),
        ("keypad8", 0x5b),
        ("keypad9", 0x5c),
    ];
    assert(table_view(table@) =~= virtual_keys());
    table
}

/// The keys that are the same on every layout, each with its code.
pub fn literal_keycode() -> (table: Vec<(&'static str, u8)>)
    ensures
        table_view(table@) == literal_keys(),
{
    let table: Vec<(&'static str, u8)> = vec![
        ("return", 0x24),
        ("tab", 0x30),
        ("space", 0x31),
        ("delete", 0x33),
        ("escape", 0x35),
        ("command", 0x37),
        ("shift", 0x38),
        ("capslock", 0x39),
        ("option", 0x3a),
        ("control", 0x3b),
        ("rightcommand", 0x36),
        ("rightshift", 0x3c),
        ("rightoption", 0x3d),
        ("rightcontrol", 0x3e),
        ("function", 0x3f),
        ("f17", 0x40),
        ("volumeup", 0x48),
        ("volumedown", 0x49),
        ("mute", 0x4a),
        ("f18", 0x4f),
        ("f19", 0x50),
        ("f20", 0x5a),
        ("f5", 0x60),
        ("f6", 0x61),
        ("f7", 0x62),
        ("f3", 0x63),
        ("f8", 0x64),
        ("f9", 0x65),
        ("f11", 0x67),
        ("f13", 0x69),
        ("f16", 0x6a),
        ("f14", 0x6b),
        ("f10", 0x6d),
        ("contextualmenu", 0x6e),
        ("f12", 0x6f),
        ("f15", 0x71),
        ("help", 0x72),
        ("home", 0x73),
        ("pageup", 0x74),
        ("forwarddelete", 0x75),
        ("f4", 0x76),
        ("end", 0x77),
        ("f2", 0x78),
        ("pagedown", 0x79),
        ("f1", 0x7a),
        ("leftarrow", 0x7b),
        ("rightarrow", 0x7c),
        ("downarrow", 0x7d),
        ("uparrow", 0x7e),
    ];
    assert(table_view(table@) =~= literal_keys());
    table
}

/// The code of a key that is the same on every layout.
pub fn find_literal(name: &str) -> (code: Option<u8>)
    ensures
        code == match search::first_where(literal_keys(), config::named(name@)) {
            Some(key) => Some(key.1),
            None => None,
        },
{
    let table = literal_keycode();
    let ghost view = literal_keys();
    let ghost p = config::named(name@);
    let mut i: usize = 0;
    while i < table.len()
        invariant
            i <= table.len(),
            view == table_view(table@),
            view == literal_keys(),
            p == config::named(name@),
            forall|j: int| 0 <= j < i ==> !p(#[trigger] view[j]),
        decreases table.len() - i,
    {
        assert(view[i as int] == (table@[i as int].0@, table@[i as int].1));
        if same(table[i].0, name) {
            proof {
                search::lemma_first_index(view, p, i as int);
            }
            return Some(table[i].1);
        }
        i = i + 1;
    }
    proof {
        search::lemma_no_first_index(view, p);
    }
    None
}

/// The keys that have a place on the keyboard are listed by their codes, so no
/// two of them share one.
pub proof fn law_virtual_codes_rise(i: int, j: int)
    requires
        0 <= i < j < virtual_keys().len(),
    ensures
        virtual_keys()[i].1 < virtual_keys()[j].1,
{
}

/// No two keys that are the same on every layout share a code.
pub proof fn law_literal_codes_differ(i: int, j: int)
    requires
        0 <= i < j < literal_keys().len(),
    ensures
        literal_keys()[i].1 != literal_keys()[j].1,
{
}

/// No key is in both tables.
pub proof fn law_no_code_is_in_both(i: int, j: int)
    requires
        0 <= i < virtual_keys().len(),
        0 <= j < literal_keys().len(),
    ensures
        virtual_keys()[i].1 != literal_keys()[j].1,
{
}

/// The keys that have a place on the keyboard, and those that are the same on every
/// layout.
pub open spec fn all_keys() -> Seq<(Seq<char>, u8)> {
    virtual_keys() + literal_keys()
}

/// A number that tells the names of keys apart: their length, and their first and last
/// two letters.
spec fn name_mark(name: Seq<char>) -> int {
    let n = name.len() as int;
    let before = if n > 1 {
        name[n - 2]
    } else {
        name[0]
    };
    ((n * 128 + name[0] as int) * 128 + before as int) * 128 + name[n - 1] as int
}

/// The numbers of the keys that have a place on the keyboard.
spec fn virtual_marks() -> Seq<int> {
    seq![
        3698913int,
        3996147int,
        3748452int,
        3781478int,
        3814504int,
        3797991int,
        4111738int,
        4078712int,
        3731939int,
        4045686int,
        16578542int,
        3715426int,
        3963121int,
        4062199int,
        3764965int,
        3979634int,
        4095225int,
        4012660int,
        2906289int,
        2922802int,
        2939315int,
        2955828int,
        2988854int,
        2972341int,
        12153068int,
        3038393int,
        3005367int,
        12286707int,
        3021880int,
        2889776int,
        27046644int,
        3930095int,
        4029173int,
        24851188int,
        3831017int,
        3946608int,
        3880556int,
        3847530int,
        12352101int,
        3864043int,
        20772846int,
        20494824int,
        12121825int,
        12384744int,
        3913582int,
        3897069int,
        14432228int,
        12188517int,
        29028588int,
        31127161int,
        22739699int,
        24834290int,
        26931813int,
        24834802int,
        24836851int,
        26932851int,
        16446000int,
        16446001int,
        16446002int,
        16446003int,
        16446004int,
        16446005int,
        16446006int,
        16446007int,
        16446008int,
        16446009int,
    ]
}

/// The numbers of the keys that are the same on every layout.
spec fn literal_marks() -> Seq<int> {
    seq![
        14465390int,
        8204514int,
        12382693int,
        14236261int,
        14252133int,
        16316260int,
        12383092int,
        18412011int,
        14415854int,
        16316396int,
        27047780int,
        22852468int,
        24950766int,
        27047916int,
        18462702int,
        7968951int,
        18725616int,
        22920174int,
        10189413int,
        7968952int,
        7968953int,
        7969072int,
        5878581int,
        5878582int,
        5878583int,
        5878579int,
        5878584int,
        5878585int,
        7968945int,
        7968947int,
        7968950int,
        7968948int,
        7968944int,
        30996341int,
        7968946int,
        7968949int,
        10106480int,
        10106597int,
        14433008int,
        28949093int,
        5878580int,
        7960420int,
        5878578int,
        18627566int,
        5878577int,
        20658167int,
        22853623int,
        20527095int,
        16611319int,
    ]
}

#[verifier::rlimit(60)]
proof fn lemma_virtual_marks(i: int)
    requires
        0 <= i < virtual_keys().len(),
    ensures
        virtual_marks()[i] == name_mark(virtual_keys()[i].0),
{
    reveal_strlit("a");
    reveal_strlit("s");
    reveal_strlit("d");
    reveal_strlit("f");
    reveal_strlit("h");
    reveal_strlit("g");
    reveal_strlit("z");
    reveal_strlit("x");
    reveal_strlit("c");
    reveal_strlit("v");
    reveal_strlit("section");
    reveal_strlit("b");
    reveal_strlit("q");
    reveal_strlit("w");
    reveal_strlit("e");
    reveal_strlit("r");
    reveal_strlit("y");
    reveal_strlit("t");
    reveal_strlit("1");
    reveal_strlit("2");
    reveal_strlit("3");
    reveal_strlit("4");
    reveal_strlit("6");
    reveal_strlit("5");
    reveal_strlit("equal");
    reveal_strlit("9");
    reveal_strlit("7");
    reveal_strlit("minus");
    reveal_strlit("8");
    reveal_strlit("0");
    reveal_strlit("rightbracket");
    reveal_strlit("o");
    reveal_strlit("u");
    reveal_strlit("leftbracket");
    reveal_strlit("i");
    reveal_strlit("p");
    reveal_strlit("l");
    reveal_strlit("j");
    reveal_strlit("quote");
    reveal_strlit("k");
    reveal_strlit("semicolon");
    reveal_strlit("backslash");
    reveal_strlit("comma");
    reveal_strlit("slash");
    reveal_strlit("n");
    reveal_strlit("m");
    reveal_strlit("period");
    reveal_strlit("grave");
    reveal_strlit("keypaddecimal");
    reveal_strlit("keypadmultiply");
    reveal_strlit("keypadplus");
    reveal_strlit("keypadclear");
    reveal_strlit("keypaddivide");
    reveal_strlit("keypadenter");
    reveal_strlit("keypadminus");
    reveal_strlit("keypadequals");
    reveal_strlit("keypad0");
    reveal_strlit("keypad1");
    reveal_strlit("keypad2");
    reveal_strlit("keypad3");
    reveal_strlit("keypad4");
    reveal_strlit("keypad5");
    reveal_strlit("keypad6");
    reveal_strlit("keypad7");
    reveal_strlit("keypad8");
    reveal_strlit("keypad9");
    assert(name_mark("a"@) == 3698913);
    assert(name_mark("s"@) == 3996147);
    assert(name_mark("d"@) == 3748452);
    assert(name_mark("f"@) == 3781478);
    assert(name_mark("h"@) == 3814504);
    assert(name_mark("g"@) == 3797991);
    assert(name_mark("z"@) == 4111738);
    assert(name_mark("x"@) == 4078712);
    assert(name_mark("c"@) == 3731939);
    assert(name_mark("v"@) == 4045686);
    assert(name_mark("section"@) == 16578542);
    assert(name_mark("b"@) == 3715426);
    assert(name_mark("q"@) == 3963121);
    assert(name_mark("w"@) == 4062199);
    assert(name_mark("e"@) == 3764965);
    assert(name_mark("r"@) == 3979634);
    assert(name_mark("y"@) == 4095225);
    assert(name_mark("t"@) == 4012660);
    assert(name_mark("1"@) == 2906289);
    assert(name_mark("2"@) == 2922802);
    assert(name_mark("3"@) == 2939315);
    assert(name_mark("4"@) == 2955828);
    assert(name_mark("6"@) == 2988854);
    assert(name_mark("5"@) == 2972341);
    assert(name_mark("equal"@) == 12153068);
    assert(name_mark("9"@) == 3038393);
    assert(name_mark("7"@) == 3005367);
    assert(name_mark("minus"@) == 12286707);
    assert(name_mark("8"@) == 3021880);
    assert(name_mark("0"@) == 2889776);
    assert(name_mark("rightbracket"@) == 27046644);
    assert(name_mark("o"@) == 3930095);
    assert(name_mark("u"@) == 4029173);
    assert(name_mark("leftbracket"@) == 24851188);
    assert(name_mark("i"@) == 3831017);
    assert(name_mark("p"@) == 3946608);
    assert(name_mark("l"@) == 3880556);
    assert(name_mark("j"@) == 3847530);
    assert(name_mark("quote"@) == 12352101);
    assert(name_mark("k"@) == 3864043);
    assert(name_mark("semicolon"@) == 20772846);
    assert(name_mark("backslash"@) == 20494824);
    assert(name_mark("comma"@) == 12121825);
    assert(name_mark("slash"@) == 12384744);
    assert(name_mark("n"@) == 3913582);
    assert(name_mark("m"@) == 3897069);
    assert(name_mark("period"@) == 14432228);
    assert(name_mark("grave"@) == 12188517);
    assert(name_mark("keypaddecimal"@) == 29028588);
    assert(name_mark("keypadmultiply"@) == 31127161);
    assert(name_mark("keypadplus"@) == 22739699);
    assert(name_mark("keypadclear"@) == 24834290);
    assert(name_mark("keypaddivide"@) == 26931813);
    assert(name_mark("keypadenter"@) == 24834802);
    assert(name_mark("keypadminus"@) == 24836851);
    assert(name_mark("keypadequals"@) == 26932851);
    assert(name_mark("keypad0"@) == 16446000);
    assert(name_mark("keypad1"@) == 16446001);
    assert(name_mark("keypad2"@) == 16446002);
    assert(name_mark("keypad3"@) == 16446003);
    assert(name_mark("keypad4"@) == 16446004);
    assert(name_mark("keypad5"@) == 16446005);
    assert(name_mark("keypad6"@) == 16446006);
    assert(name_mark("keypad7"@) == 16446007);
    assert(name_mark("keypad8"@) == 16446008);
    assert(name_mark("keypad9"@) == 16446009);
}

#[verifier::rlimit(60)]
proof fn lemma_literal_marks(i: int)
    requires
        0 <= i < literal_keys().len(),
    ensures
        literal_marks()[i] == name_mark(literal_keys()[i].0),
{
    reveal_strlit("return");
    reveal_strlit("tab");
    reveal_strlit("space");
    reveal_strlit("delete");
    reveal_strlit("escape");
    reveal_strlit("command");
    reveal_strlit("shift");
    reveal_strlit("capslock");
    reveal_strlit("option");
    reveal_strlit("control");
    reveal_strlit("rightcommand");
    reveal_strlit("rightshift");
    reveal_strlit("rightoption");
    reveal_strlit("rightcontrol");
    reveal_strlit("function");
    reveal_strlit("f17");
    reveal_strlit("volumeup");
    reveal_strlit("volumedown");
    reveal_strlit("mute");
    reveal_strlit("f18");
    reveal_strlit("f19");
    reveal_strlit("f20");
    reveal_strlit("f5");
    reveal_strlit("f6");
    reveal_strlit("f7");
    reveal_strlit("f3");
    reveal_strlit("f8");
    reveal_strlit("f9");
    reveal_strlit("f11");
    reveal_strlit("f13");
    reveal_strlit("f16");
    reveal_strlit("f14");
    reveal_strlit("f10");
    reveal_strlit("contextualmenu");
    reveal_strlit("f12");
    reveal_strlit("f15");
    reveal_strlit("help");
    reveal_strlit("home");
    reveal_strlit("pageup");
    reveal_strlit("forwarddelete");
    reveal_strlit("f4");
    reveal_strlit("end");
    reveal_strlit("f2");
    reveal_strlit("pagedown");
    reveal_strlit("f1");
    reveal_strlit("leftarrow");
    reveal_strlit("rightarrow");
    reveal_strlit("downarrow");
    reveal_strlit("uparrow");
    assert(name_mark("return"@) == 14465390);
    assert(name_mark("tab"@) == 8204514);
    assert(name_mark("space"@) == 12382693);
    assert(name_mark("delete"@) == 14236261);
    assert(name_mark("escape"@) == 14252133);
    assert(name_mark("command"@) == 16316260);
    assert(name_mark("shift"@) == 12383092);
    assert(name_mark("capslock"@) == 18412011);
    assert(name_mark("option"@) == 14415854);
    assert(name_mark("control"@) == 16316396);
    assert(name_mark("rightcommand"@) == 27047780);
    assert(name_mark("rightshift"@) == 22852468);
    assert(name_mark("rightoption"@) == 24950766);
    assert(name_mark("rightcontrol"@) == 27047916);
    assert(name_mark("function"@) == 18462702);
    assert(name_mark("f17"@) == 7968951);
    assert(name_mark("volumeup"@) == 18725616);
    assert(name_mark("volumedown"@) == 22920174);
    assert(name_mark("mute"@) == 10189413);
    assert(name_mark("f18"@) == 7968952);
    assert(name_mark("f19"@) == 7968953);
    assert(name_mark("f20"@) == 7969072);
    assert(name_mark("f5"@) == 5878581);
    assert(name_mark("f6"@) == 5878582);
    assert(name_mark("f7"@) == 5878583);
    assert(name_mark("f3"@) == 5878579);
    assert(name_mark("f8"@) == 5878584);
    assert(name_mark("f9"@) == 5878585);
    assert(name_mark("f11"@) == 7968945);
    assert(name_mark("f13"@) == 7968947);
    assert(name_mark("f16"@) == 7968950);
    assert(name_mark("f14"@) == 7968948);
    assert(name_mark("f10"@) == 7968944);
    assert(name_mark("contextualmenu"@) == 30996341);
    assert(name_mark("f12"@) == 7968946);
    assert(name_mark("f15"@) == 7968949);
    assert(name_mark("help"@) == 10106480);
    assert(name_mark("home"@) == 10106597);
    assert(name_mark("pageup"@) == 14433008);
    assert(name_mark("forwarddelete"@) == 28949093);
    assert(name_mark("f4"@) == 5878580);
    assert(name_mark("end"@) == 7960420);
    assert(name_mark("f2"@) == 5878578);
    assert(name_mark("pagedown"@) == 18627566);
    assert(name_mark("f1"@) == 5878577);
    assert(name_mark("leftarrow"@) == 20658167);
    assert(name_mark("rightarrow"@) == 22853623);
    assert(name_mark("downarrow"@) == 20527095);
    assert(name_mark("uparrow"@) == 16611319);
}

/// No two numbers are the same.
#[verifier::rlimit(60)]
proof fn lemma_marks_differ()
    ensures
        forall|i: int, j: int|
            0 <= i < j < virtual_marks().len() ==> virtual_marks()[i] != virtual_marks()[j],
        forall|i: int, j: int|
            0 <= i < j < literal_marks().len() ==> literal_marks()[i] != literal_marks()[j],
        forall|i: int, j: int|
            0 <= i < virtual_marks().len() && 0 <= j < literal_marks().len()
                ==> virtual_marks()[i] != literal_marks()[j],
{
}

/// No two keys of the two tables share a name, and none share a code.
pub proof fn law_keys_differ(i: int, j: int)
    requires
        0 <= i < j < all_keys().len(),
    ensures
        all_keys()[i].0 != all_keys()[j].0,
        all_keys()[i].1 != all_keys()[j].1,
{
    let n = virtual_keys().len() as int;
    lemma_marks_differ();
    if j < n {
        law_virtual_codes_rise(i, j);
        lemma_virtual_marks(i);
        lemma_virtual_marks(j);
    } else if i >= n {
        law_literal_codes_differ(i - n, j - n);
        lemma_literal_marks(i - n);
        lemma_literal_marks(j - n);
    } else {
        law_no_code_is_in_both(i, j - n);
        lemma_virtual_marks(i);
        lemma_literal_marks(j - n);
    }
}

/// A small letter or a digit.
pub open spec fn is_letter_or_digit(c: char) -> bool {
    'a' <= c <= 'z' || '0' <= c <= '9'
}

/// Each letter and each digit is the name of one key that has a place on the keyboard,
/// of which there are sixty-six.
pub proof fn law_letters_and_digits_are_keys(c: char)
    requires
        is_letter_or_digit(c),
    ensures
        virtual_keys().len() == 66,
        exists|i: int|
            0 <= i < virtual_keys().len() && (#[trigger] virtual_keys()[i]).0 == seq![c],
        forall|i: int, j: int|
            0 <= i < virtual_keys().len() && 0 <= j < virtual_keys().len() && (
            #[trigger] virtual_keys()[i]).0 == seq![c] && (#[trigger] virtual_keys()[j]).0
                == seq![c] ==> i == j,
{
    reveal_strlit("a");
    reveal_strlit("b");
    reveal_strlit("c");
    reveal_strlit("d");
    reveal_strlit("e");
    reveal_strlit("f");
    reveal_strlit("g");
    reveal_strlit("h");
    reveal_strlit("i");
    reveal_strlit("j");
    reveal_strlit("k");
    reveal_strlit("l");
    reveal_strlit("m");
    reveal_strlit("n");
    reveal_strlit("o");
    reveal_strlit("p");
    reveal_strlit("q");
    reveal_strlit("r");
    reveal_strlit("s");
    reveal_strlit("t");
    reveal_strlit("u");
    reveal_strlit("v");
    reveal_strlit("w");
    reveal_strlit("x");
    reveal_strlit("y");
    reveal_strlit("z");
    reveal_strlit("0");
    reveal_strlit("1");
    reveal_strlit("2");
    reveal_strlit("3");
    reveal_strlit("4");
    reveal_strlit("5");
    reveal_strlit("6");
    reveal_strlit("7");
    reveal_strlit("8");
    reveal_strlit("9");
    let i: int = if c == 'a' {
        0
    } else if c == 'b' {
        11
    } else if c == 'c' {
        8
    } else if c == 'd' {
        2
    } else if c == 'e' {
        14
    } else if c == 'f' {
        3
    } else if c == 'g' {
        5
    } else if c == 'h' {
        4
    } else if c == 'i' {
        34
    } else if c == 'j' {
        37
    } else if c == 'k' {
        39
    } else if c == 'l' {
        36
    } else if c == 'm' {
        45
    } else if c == 'n' {
        44
    } else if c == 'o' {
        31
    } else if c == 'p' {
        35
    } else if c == 'q' {
        12
    } else if c == 'r' {
        15
    } else if c == 's' {
        1
    } else if c == 't' {
        17
    } else if c == 'u' {
        32
    } else if c == 'v' {
        9
    } else if c == 'w' {
        13
    } else if c == 'x' {
        7
    } else if c == 'y' {
        16
    } else if c == 'z' {
        6
    } else if c == '0' {
        29
    } else if c == '1' {
        18
    } else if c == '2' {
        19
    } else if c == '3' {
        20
    } else if c == '4' {
        21
    } else if c == '5' {
        23
    } else if c == '6' {
        22
    } else if c == '7' {
        26
    } else if c == '8' {
        28
    } else {
        25
    };
    assert(virtual_keys()[i].0 =~= seq![c]);
    assert forall|i: int, j: int|
        0 <= i < virtual_keys().len() && 0 <= j < virtual_keys().len() && (
        #[trigger] virtual_keys()[i]).0 == seq![c] && (#[trigger] virtual_keys()[j]).0 == seq![c]
        implies i == j by {
        if i < j {
            law_keys_differ(i, j);
        } else if j < i {
            law_keys_differ(j, i);
        }
    }
}

} // verus!
