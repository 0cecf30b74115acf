//! The configuration: options and key bindings.
use vstd::prelude::*;
use vstd::string::*;

use crate::search;
use crate::text;
use crate::text::{same, split_trimmed};

pub mod constructor;
pub mod document;
pub mod keys;
pub mod padding;
pub mod snippet;
pub mod swipe;

verus! {

/// The main options.
#[derive(Clone, Copy, Debug, PartialEq, Eq, Structural)]
pub struct MainOptions {
    pub focus_follows_mouse: bool,
}

/// A key that runs a command.
#[derive(Debug)]
pub struct Keybinding {
    /// The name of the key.
    pub key: String,
    /// The code of the key, zero where its name is not known.
    pub code: u8,
    /// The modifiers that are held, one bit each.
    pub modifiers: u8,
    /// The command that the key runs.
    pub command: String,
}

/// What a [`Keybinding`] holds.
pub struct BindingModel {
    pub key: Seq<char>,
    pub code: u8,
    pub modifiers: u8,
    pub command: Seq<char>,
}

impl View for Keybinding {
    type V = BindingModel;

    open spec fn view(&self) -> BindingModel {
        BindingModel {
            key: self.key@,
            code: self.code,
            modifiers: self.modifiers,
            command: self.command@,
        }
    }
}

impl Clone for Keybinding {
    fn clone(&self) -> (copy: Self)
        ensures
            copy@ == self@,
    {
        Keybinding {
            key: self.key.clone(),
            code: self.code,
            modifiers: self.modifiers,
            command: self.command.clone(),
        }
    }
}

/// What some bindings hold.
pub open spec fn bindings_view(bindings: Seq<Keybinding>) -> Seq<BindingModel> {
    bindings.map_values(|binding: Keybinding| binding@)
}

// ---------------------------------------------------------------------------
// Modifiers
// ---------------------------------------------------------------------------
/// The names of the modifiers.
pub open spec fn is_modifier(name: Seq<char>) -> bool {
    name == "alt"@ || name == "shift"@ || name == "cmd"@ || name == "ctrl"@
}

/// Names that are not those of a modifier.
pub open spec fn is_no_modifier() -> spec_fn(Seq<char>) -> bool {
    |name: Seq<char>| !is_modifier(name)
}

/// A bit that is set or not.
pub open spec fn bit(set: bool, value: int) -> int {
    if set {
        value
    } else {
        0
    }
}

/// The mask of some modifiers: a bit for each that is named, however often.
pub open spec fn mask(names: Seq<Seq<char>>) -> int {
    bit(names.contains("alt"@), 1) + bit(names.contains("shift"@), 2) + bit(
        names.contains("cmd"@),
        4,
    ) + bit(names.contains("ctrl"@), 8)
}

/// Reads the names of modifiers, separated by plus signs, and returns their
/// combined mask, or a message that tells the first name which is none.
pub fn parse_modifiers(input: &str) -> (mask: Result<u8, String>)
    ensures
        ({
            let names = text::trimmed_pieces(input@, '+');
            match search::first_where(names, is_no_modifier()) {
                None => mask is Ok && mask->Ok_0 == self::mask(names),
                Some(name) => mask is Err && mask->Err_0@ == "Invalid modifier: "@ + name,
            }
        }),
{
    let ghost all = text::trimmed_pieces(input@, '+');
    let ghost p = is_no_modifier();
    let modifiers = split_trimmed(input, '+');
    let (mut alt, mut shift, mut cmd, mut ctrl) = (false, false, false, false);
    let mut i: usize = 0;
    while i < modifiers.len()
        invariant
            i <= modifiers.len(),
            p == is_no_modifier(),
            all == text::trimmed_pieces(input@, '+'),
            text::texts(modifiers@) == all,
            forall|j: int| 0 <= j < i ==> !p(#[trigger] all[j]),
            alt == all.take(i as int).contains("alt"@),
            shift == all.take(i as int).contains("shift"@),
            cmd == all.take(i as int).contains("cmd"@),
            ctrl == all.take(i as int).contains("ctrl"@),
        decreases modifiers.len() - i,
    {
        let modifier = modifiers[i].as_str();
        assert(text::texts(modifiers@)[i as int] == modifiers@[i as int]@);
        let is_alt = same(modifier, "alt");
        let is_shift = same(modifier, "shift");
        let is_cmd = same(modifier, "cmd");
        let is_ctrl = same(modifier, "ctrl");
        if !is_alt && !is_shift && !is_cmd && !is_ctrl {
            proof {
                search::lemma_first_index(all, p, i as int);
            }
            let mut message = "Invalid modifier: ".to_owned();
            message.append(modifier);
            return Err(message);
        }
        alt = alt || is_alt;
        shift = shift || is_shift;
        cmd = cmd || is_cmd;
        ctrl = ctrl || is_ctrl;
        proof {
            lemma_contains_next(all, i as int, "alt"@);
            lemma_contains_next(all, i as int, "shift"@);
            lemma_contains_next(all, i as int, "cmd"@);
            lemma_contains_next(all, i as int, "ctrl"@);
        }
        i = i + 1;
    }
    proof {
        search::lemma_no_first_index(all, p);
        assert(all.take(i as int) =~= all);
    }
    let mut out: u8 = 0;
    if alt {
        out = out + 1;
    }
    if shift {
        out = out + 2;
    }
    if cmd {
        out = out + 4;
    }
    if ctrl {
        out = out + 8;
    }
    Ok(out)
}

/// What the first elements hold, one more of them.
proof fn lemma_contains_next(names: Seq<Seq<char>>, i: int, name: Seq<char>)
    requires
        0 <= i < names.len(),
    ensures
        names.take(i + 1).contains(name) <==> names.take(i).contains(name) || names[i] == name,
{
    let (s, t) = (names.take(i), names.take(i + 1));
    if s.contains(name) {
        assert(t[s.index_of(name)] == name);
    }
    if names[i] == name {
        assert(t[i] == name);
    }
    if t.contains(name) {
        let k = t.index_of(name);
        if k < i {
            assert(s[k] == name);
        }
    }
}

/// The order of the modifiers does not matter, nor how often each is named.
pub proof fn law_modifier_order_is_free(a: Seq<Seq<char>>, b: Seq<Seq<char>>)
    requires
        forall|name: Seq<char>| a.contains(name) <==> b.contains(name),
    ensures
        mask(a) == mask(b),
{
}

// ---------------------------------------------------------------------------
// Bindings
// ---------------------------------------------------------------------------
/// How a text reads between quotation marks with its special characters
/// escaped.
pub uninterp spec fn quoted(text: Seq<char>) -> Seq<char>;

/// `format!("{:?}")` of a text: the text between quotation marks, with its
/// special characters escaped. How each one is escaped is not stated.
#[verifier::external_body]
fn debug_text(text: &str) -> (debug: String)
    ensures
        debug@ == quoted(text@),
{
    format!("{text:?}")
}

/// What the text of a binding says, or the message that it is refused with.
pub open spec fn is_binding(input: Seq<char>, binding: Result<Keybinding, String>) -> bool {
    let parts = text::trimmed_pieces(input, '-');
    if parts.len() > 2 {
        binding is Err && binding->Err_0@ == "Too many dashes: "@ + quoted(input)
    } else if parts.len() == 2 {
        let names = text::trimmed_pieces(parts[0], '+');
        match search::first_where(names, is_no_modifier()) {
            None => binding is Ok && binding->Ok_0@ == (BindingModel {
                key: parts[1],
                code: 0,
                modifiers: mask(names) as u8,
                command: Seq::empty(),
            }),
            Some(name) => binding is Err && binding->Err_0@ == "Invalid modifier: "@ + name,
        }
    } else {
        binding is Ok && binding->Ok_0@ == (BindingModel {
            key: parts[0],
            code: 0,
            modifiers: 0,
            command: Seq::empty(),
        })
    }
}

impl Keybinding {
    /// Reads a binding: a key, or modifiers separated by plus signs, a dash and
    /// a key.
    pub fn parse(input: &str) -> (binding: Result<Keybinding, String>)
        ensures
            is_binding(input@, binding),
    {
        let parts = split_trimmed(input, '-');
        assert(text::texts(parts@).len() == parts.len());
        if parts.len() > 2 {
            let mut message = "Too many dashes: ".to_owned();
            let text = debug_text(input);
            message.append(text.as_str());
            return Err(message);
        }
        let last: usize = parts.len() - 1;
        let key = parts[last].clone();
        assert(text::texts(parts@)[last as int] == parts@[last as int]@);
        assert(text::texts(parts@)[0] == parts@[0]@);
        let modifiers: u8 = if last == 1 {
            match parse_modifiers(parts[0].as_str()) {
                Ok(modifiers) => modifiers,
                Err(message) => return Err(message),
            }
        } else {
            0
        };
        let binding = Keybinding { key, code: 0, modifiers, command: String::new() };
        assert(binding.command@ =~= Seq::empty());
        Ok(binding)
    }
}

/// The binding of a key with some modifiers.
pub open spec fn binding_for(bindings: Seq<BindingModel>, code: u8, modifiers: u8) -> Option<
    BindingModel,
> {
    search::first_where(bindings, is_bound(code, modifiers))
}

/// Bindings with this key and these modifiers.
pub open spec fn is_bound(code: u8, modifiers: u8) -> spec_fn(BindingModel) -> bool {
    |binding: BindingModel| binding.code == code && binding.modifiers == modifiers
}

/// Key names in a table.
pub open spec fn named(name: Seq<char>) -> spec_fn((Seq<char>, u8)) -> bool {
    |key: (Seq<char>, u8)| key.0 == name
}

/// What a table of keys holds.
pub open spec fn keys_view(keys: Seq<(String, u8)>) -> Seq<(Seq<char>, u8)> {
    keys.map_values(|key: (String, u8)| (key.0@, key.1))
}

/// The code of a key: as the keyboard's layout names it, else by a name that is
/// the same on every layout, else zero.
pub open spec fn key_code(layout: Seq<(Seq<char>, u8)>, name: Seq<char>) -> u8 {
    match search::first_where(layout, named(name)) {
        Some(key) => key.1,
        None => match search::first_where(keys::literal_keys(), named(name)) {
            Some(key) => key.1,
            None => 0,
        },
    }
}

/// The code of a key.
fn find_code(layout: &Vec<(String, u8)>, name: &str) -> (code: u8)
    ensures
        code == key_code(keys_view(layout@), name@),
{
    let ghost view = keys_view(layout@);
    let ghost p = named(name@);
    let mut i: usize = 0;
    while i < layout.len()
        invariant
            i <= layout.len(),
            view == keys_view(layout@),
            p == named(name@),
            forall|j: int| 0 <= j < i ==> !p(#[trigger] view[j]),
        decreases layout.len() - i,
    {
        assert(view[i as int] == (layout@[i as int].0@, layout@[i as int].1));
        if same(layout[i].0.as_str(), name) {
            proof {
                search::lemma_first_index(view, p, i as int);
            }
            return layout[i].1;
        }
        i = i + 1;
    }
    proof {
        search::lemma_no_first_index(view, p);
    }
    match keys::find_literal(name) {
        Some(code) => code,
        None => 0,
    }
}

/// A configuration as it is written down: the text of each binding stands behind
/// the name of its command.
#[derive(Debug)]
pub struct RawConfig {
    pub options: MainOptions,
    pub bindings: Vec<(String, String)>,
}

/// The configuration in use.
#[derive(Debug)]
pub struct Config {
    options: MainOptions,
    bindings: Vec<Keybinding>,
}

/// The text of a binding is one that can be read.
pub open spec fn is_readable(input: Seq<char>) -> bool {
    let parts = text::trimmed_pieces(input, '-');
    parts.len() <= 2 && (parts.len() == 2 ==> search::first_where(
        text::trimmed_pieces(parts[0], '+'),
        is_no_modifier(),
    ) is None)
}

/// The binding stands for a text and a command.
pub open spec fn stands_for(
    binding: BindingModel,
    command: Seq<char>,
    input: Seq<char>,
    layout: Seq<(Seq<char>, u8)>,
) -> bool {
    let parts = text::trimmed_pieces(input, '-');
    let key = parts[parts.len() - 1];
    &&& binding.key == key
    &&& binding.code == key_code(layout, key)
    &&& binding.modifiers == if parts.len() == 2 {
        mask(text::trimmed_pieces(parts[0], '+')) as u8
    } else {
        0
    }
    &&& binding.command == command
}

/// Bindings whose text cannot be read.
pub open spec fn is_unreadable() -> spec_fn((String, String)) -> bool {
    |entry: (String, String)| !is_readable(entry.1@)
}

/// The bindings of a configuration stand for those that are written down.
pub open spec fn are_bindings(
    bindings: Seq<BindingModel>,
    raw: Seq<(String, String)>,
    layout: Seq<(Seq<char>, u8)>,
) -> bool {
    &&& bindings.len() == raw.len()
    &&& forall|i: int|
        0 <= i < raw.len() ==> stands_for(
            #[trigger] bindings[i],
            raw[i].0@,
            raw[i].1@,
            layout,
        )
}

/// The message for a text that cannot be read.
pub open spec fn refusal(input: Seq<char>) -> Seq<char> {
    let parts = text::trimmed_pieces(input, '-');
    if parts.len() > 2 {
        "Too many dashes: "@ + quoted(input)
    } else {
        "Invalid modifier: "@ + search::first_where(
            text::trimmed_pieces(parts[0], '+'),
            is_no_modifier(),
        )->0
    }
}

/// Reads the bindings that are written down, or returns the message of the first
/// that cannot be read.
fn read_bindings(raw: &Vec<(String, String)>, layout: &Vec<(String, u8)>) -> (bindings: Result<
    Vec<Keybinding>,
    String,
>)
    ensures
        match search::first_where(raw@, is_unreadable()) {
            None => bindings is Ok && are_bindings(
                bindings_view(bindings->Ok_0@),
                raw@,
                keys_view(layout@),
            ),
            Some(entry) => bindings is Err && bindings->Err_0@ == refusal(entry.1@),
        },
{
    let ghost p = is_unreadable();
    let mut bindings: Vec<Keybinding> = Vec::new();
    let mut i: usize = 0;
    while i < raw.len()
        invariant
            i <= raw.len(),
            p == is_unreadable(),
            forall|j: int| 0 <= j < i ==> !p(#[trigger] raw@[j]),
            bindings.len() == i,
            forall|j: int|
                0 <= j < i ==> stands_for(
                    (#[trigger] bindings@[j])@,
                    raw@[j].0@,
                    raw@[j].1@,
                    keys_view(layout@),
                ),
        decreases raw.len() - i,
    {
        let ghost input = raw@[i as int].1@;
        proof {
            text::lemma_some_piece(input, '-');
        }
        match Keybinding::parse(raw[i].1.as_str()) {
            Err(message) => {
                proof {
                    search::lemma_first_index(raw@, p, i as int);
                }
                return Err(message);
            },
            Ok(parsed) => {
                let code: u8 = find_code(layout, parsed.key.as_str());
                bindings.push(
                    Keybinding {
                        key: parsed.key,
                        code,
                        modifiers: parsed.modifiers,
                        command: raw[i].0.clone(),
                    },
                );
            },
        }
        i = i + 1;
    }
    proof {
        search::lemma_no_first_index(raw@, p);
        assert(are_bindings(bindings_view(bindings@), raw@, keys_view(layout@)));
    }
    Ok(bindings)
}

impl Config {
    /// The main options.
    pub closed spec fn spec_options(&self) -> MainOptions {
        self.options
    }

    /// The bindings.
    pub closed spec fn spec_bindings(&self) -> Seq<BindingModel> {
        bindings_view(self.bindings@)
    }

    /// What becomes of a configuration that was read, or could not be: the
    /// configuration with these options and bindings, or the message.
    pub open spec fn is_made(
        raw: Result<RawConfig, String>,
        layout: Seq<(Seq<char>, u8)>,
        config: Result<Config, String>,
    ) -> bool {
        match raw {
            Err(message) => config is Err && config->Err_0@ == message@,
            Ok(raw) => match search::first_where(raw.bindings@, is_unreadable()) {
                Some(entry) => config is Err && config->Err_0@ == refusal(entry.1@),
                None => config is Ok && config->Ok_0.spec_options() == raw.options && are_bindings(
                    config->Ok_0.spec_bindings(),
                    raw.bindings@,
                    layout,
                ),
            },
        }
    }

    /// The configuration that was read, if it could be. `layout` names the keys
    /// of the keyboard.
    pub fn new(raw: Result<RawConfig, String>, layout: &Vec<(String, u8)>) -> (config: Result<
        Config,
        String,
    >)
        ensures
            Config::is_made(raw, keys_view(layout@), config),
    {
        match raw {
            Err(message) => Err(message),
            Ok(raw) => match read_bindings(&raw.bindings, layout) {
                Ok(bindings) => Ok(Config { options: raw.options, bindings }),
                Err(message) => Err(message),
            },
        }
    }

    /// Takes over another configuration that was read, if it could be; else
    /// nothing changes.
    pub fn reload_config(
        &mut self,
        raw: Result<RawConfig, String>,
        layout: &Vec<(String, u8)>,
    ) -> (done: Result<(), String>)
        ensures
            match done {
                Ok(_) => Config::is_made(raw, keys_view(layout@), Ok(*final(self))),
                Err(message) => Config::is_made(raw, keys_view(layout@), Err(message))
                    && *final(self) == *old(self),
            },
    {
        match Config::new(raw, layout) {
            Ok(new) => {
                self.options = new.options;
                self.bindings = new.bindings;
                Ok(())
            },
            Err(message) => Err(message),
        }
    }

    /// The main options.
    pub fn options(&self) -> (options: MainOptions)
        ensures
            options == self.spec_options(),
    {
        self.options
    }

    /// The binding of a key with modifiers, if there is one.
    pub fn find_keybind(&self, keycode: u8, mask: u8) -> (binding: Option<Keybinding>)
        ensures
            match binding_for(self.spec_bindings(), keycode, mask) {
                Some(found) => binding is Some && binding->0@ == found,
                None => binding is None,
            },
    {
        let ghost view = self.spec_bindings();
        let ghost p = is_bound(keycode, mask);
        let mut i: usize = 0;
        while i < self.bindings.len()
            invariant
                i <= self.bindings.len(),
                view == bindings_view(self.bindings@),
                p == is_bound(keycode, mask),
                forall|j: int| 0 <= j < i ==> !p(#[trigger] view[j]),
            decreases self.bindings.len() - i,
        {
            assert(view[i as int] == self.bindings@[i as int]@);
            if self.bindings[i].code == keycode && self.bindings[i].modifiers == mask {
                proof {
                    search::lemma_first_index(view, p, i as int);
                }
                return Some(self.bindings[i].clone());
            }
            i = i + 1;
        }
        proof {
            search::lemma_no_first_index(view, p);
        }
        None
    }
}

} // verus!
