//! Keyboard and mouse handling for the inner X display.
//!
//! Every key goes to the focused inner window, except behind a Ctrl+B
//! leader (tmux style): the key after the leader selects a local command.
//! Printable characters are typed literally; modifier chords and special
//! keys are sent as `xdotool` key chords.

use vstd::prelude::*;
use crate::layout::{cell_to_source, source_pixel, Placement};
use crate::text::{chars_of, decimal, hex, push_chars, push_decimal, push_hex, push_str, string_from_chars};

verus! {

/// A request from the input side to the main control loop.
pub enum ControlCmd {
    Exec(String),
    ToggleMute,
    VolumeBy(i32),
    Quit,
    /// Leave the persistent X session running and exit (session mode only).
    Detach,
    Resize(u16, u16),
}

/// The key that was pressed.
#[derive(Debug, Clone, Copy, PartialEq, Eq, Structural)]
pub enum KeyCode {
    Char(char),
    F(u8),
    BackTab,
    Up,
    Down,
    Left,
    Right,
    Home,
    End,
    PageUp,
    PageDown,
    Tab,
    Enter,
    Esc,
    Backspace,
    Delete,
    Insert,
    /// Any other key.
    Other,
}

/// Modifiers held with a key.
#[derive(Debug, Clone, Copy, PartialEq, Eq, Structural)]
pub struct KeyMods {
    pub ctrl: bool,
    pub alt: bool,
    pub shift: bool,
    pub logo: bool,
}

/// A key press.
#[derive(Debug, Clone, Copy, PartialEq, Eq, Structural)]
pub struct Key {
    pub code: KeyCode,
    pub mods: KeyMods,
}

/// The status-bar help shown while no prompt is open.
pub open spec fn status_help() -> Seq<char> {
    "keys/mouse -> app | C-b leader: r=run i=type m=mute +/-=vol q=quit (C-b C-b sends C-b)"@
}

/// The help text; session mode adds the detach binding.
pub fn status_help_text(session_mode: bool) -> (s: String)
    ensures
        s@ == status_help() + if session_mode {
            " | C-b d=detach"@
        } else {
            Seq::<char>::empty()
        },
{
    let mut v: Vec<char> = Vec::new();
    push_str(&mut v, "keys/mouse -> app | C-b leader: r=run i=type m=mute +/-=vol q=quit (C-b C-b sends C-b)");
    if session_mode {
        push_str(&mut v, " | C-b d=detach");
    }
    assert(v@ =~= status_help() + if session_mode {
        " | C-b d=detach"@
    } else {
        Seq::<char>::empty()
    });
    string_from_chars(&v)
}

// ----------------------------------------------------------------------------
// Key names
// ----------------------------------------------------------------------------

/// True for the Ctrl+B leader.
pub open spec fn leader(key: Key) -> bool {
    key.mods.ctrl && (key.code == KeyCode::Char('b') || key.code == KeyCode::Char('B'))
}

/// True if `key` is the Ctrl+B leader.
pub fn is_leader(key: &Key) -> (b: bool)
    ensures
        b == leader(*key),
{
    key.mods.ctrl && match key.code {
        KeyCode::Char(c) => c == 'b' || c == 'B',
        _ => false,
    }
}

/// The `mod+...+` prefix of a key chord: the held modifiers in the order
/// ctrl, alt, super, shift, each followed by `+`; empty with no modifiers.
pub open spec fn modifier_prefix_text(m: KeyMods) -> Seq<char> {
    (if m.ctrl {
        "ctrl+"@
    } else {
        Seq::empty()
    }) + (if m.alt {
        "alt+"@
    } else {
        Seq::empty()
    }) + (if m.logo {
        "super+"@
    } else {
        Seq::empty()
    }) + (if m.shift {
        "shift+"@
    } else {
        Seq::empty()
    })
}

/// Builds the chord prefix for `mods`.
pub fn modifier_prefix(mods: KeyMods) -> (s: Vec<char>)
    ensures
        s@ == modifier_prefix_text(mods),
{
    let mut v: Vec<char> = Vec::new();
    if mods.ctrl {
        push_str(&mut v, "ctrl+");
    }
    let ghost a = v@;
    if mods.alt {
        push_str(&mut v, "alt+");
    }
    let ghost b = v@;
    if mods.logo {
        push_str(&mut v, "super+");
    }
    let ghost c = v@;
    if mods.shift {
        push_str(&mut v, "shift+");
    }
    assert(v@ =~= modifier_prefix_text(mods));
    v
}

/// The prefix is empty exactly when no modifier is held.
pub proof fn lemma_modifier_prefix_empty(m: KeyMods)
    ensures
        (modifier_prefix_text(m).len() == 0) <==> (!m.ctrl && !m.alt && !m.logo && !m.shift),
{
    reveal_strlit("ctrl+");
    reveal_strlit("alt+");
    reveal_strlit("super+");
    reveal_strlit("shift+");
}

/// The X keysym of a special key, or `None` for keys that are not forwarded
/// this way.
pub open spec fn special_keysym_text(code: KeyCode) -> Option<Seq<char>> {
    match code {
        KeyCode::Up => Some("Up"@),
        KeyCode::Down => Some("Down"@),
        KeyCode::Left => Some("Left"@),
        KeyCode::Right => Some("Right"@),
        KeyCode::Home => Some("Home"@),
        KeyCode::End => Some("End"@),
        KeyCode::PageUp => Some("Page_Up"@),
        KeyCode::PageDown => Some("Page_Down"@),
        KeyCode::Tab => Some("Tab"@),
        KeyCode::Enter => Some("Return"@),
        KeyCode::Esc => Some("Escape"@),
        KeyCode::Backspace => Some("BackSpace"@),
        KeyCode::Delete => Some("Delete"@),
        KeyCode::Insert => Some("Insert"@),
        _ => None,
    }
}

/// The special keys are sent as their X keysyms, spelled out: the arrows
/// as `Up`, `Down`, `Left`, `Right`; `Home`, `End`, `Page_Up`, `Page_Down`,
/// `Tab`; Enter as `Return`, Esc as `Escape`, Backspace as `BackSpace`;
/// `Delete` and `Insert`. Characters, function keys, Shift+Tab and other
/// keys have no entry here.
pub proof fn lemma_special_keysym_table()
    ensures
        special_keysym_text(KeyCode::Up) == Some(seq!['U', 'p']),
        special_keysym_text(KeyCode::Down) == Some(seq!['D', 'o', 'w', 'n']),
        special_keysym_text(KeyCode::Left) == Some(seq!['L', 'e', 'f', 't']),
        special_keysym_text(KeyCode::Right) == Some(seq!['R', 'i', 'g', 'h', 't']),
        special_keysym_text(KeyCode::Home) == Some(seq!['H', 'o', 'm', 'e']),
        special_keysym_text(KeyCode::End) == Some(seq!['E', 'n', 'd']),
        special_keysym_text(KeyCode::PageUp) == Some(seq!['P', 'a', 'g', 'e', '_', 'U', 'p']),
        special_keysym_text(KeyCode::PageDown) == Some(seq!['P', 'a', 'g', 'e', '_', 'D', 'o', 'w', 'n']),
        special_keysym_text(KeyCode::Tab) == Some(seq!['T', 'a', 'b']),
        special_keysym_text(KeyCode::Enter) == Some(seq!['R', 'e', 't', 'u', 'r', 'n']),
        special_keysym_text(KeyCode::Esc) == Some(seq!['E', 's', 'c', 'a', 'p', 'e']),
        special_keysym_text(KeyCode::Backspace) == Some(seq!['B', 'a', 'c', 'k', 'S', 'p', 'a', 'c', 'e']),
        special_keysym_text(KeyCode::Delete) == Some(seq!['D', 'e', 'l', 'e', 't', 'e']),
        special_keysym_text(KeyCode::Insert) == Some(seq!['I', 'n', 's', 'e', 'r', 't']),
        forall|c: char| special_keysym_text(KeyCode::Char(c)) is None,
        forall|n: u8| special_keysym_text(KeyCode::F(n)) is None,
        special_keysym_text(KeyCode::BackTab) is None,
        special_keysym_text(KeyCode::Other) is None,
{
    reveal_strlit("Up");
    reveal_strlit("Down");
    reveal_strlit("Left");
    reveal_strlit("Right");
    reveal_strlit("Home");
    reveal_strlit("End");
    reveal_strlit("Page_Up");
    reveal_strlit("Page_Down");
    reveal_strlit("Tab");
    reveal_strlit("Return");
    reveal_strlit("Escape");
    reveal_strlit("BackSpace");
    reveal_strlit("Delete");
    reveal_strlit("Insert");
    assert("Up"@ =~= seq!['U', 'p']);
    assert("Down"@ =~= seq!['D', 'o', 'w', 'n']);
    assert("Left"@ =~= seq!['L', 'e', 'f', 't']);
    assert("Right"@ =~= seq!['R', 'i', 'g', 'h', 't']);
    assert("Home"@ =~= seq!['H', 'o', 'm', 'e']);
    assert("End"@ =~= seq!['E', 'n', 'd']);
    assert("Page_Up"@ =~= seq!['P', 'a', 'g', 'e', '_', 'U', 'p']);
    assert("Page_Down"@ =~= seq!['P', 'a', 'g', 'e', '_', 'D', 'o', 'w', 'n']);
    assert("Tab"@ =~= seq!['T', 'a', 'b']);
    assert("Return"@ =~= seq!['R', 'e', 't', 'u', 'r', 'n']);
    assert("Escape"@ =~= seq!['E', 's', 'c', 'a', 'p', 'e']);
    assert("BackSpace"@ =~= seq!['B', 'a', 'c', 'k', 'S', 'p', 'a', 'c', 'e']);
    assert("Delete"@ =~= seq!['D', 'e', 'l', 'e', 't', 'e']);
    assert("Insert"@ =~= seq!['I', 'n', 's', 'e', 'r', 't']);
}

/// No two special keys are sent as the same keysym.
pub proof fn lemma_special_keysym_distinct(a: KeyCode, b: KeyCode)
    requires
        special_keysym_text(a) is Some,
        special_keysym_text(a) == special_keysym_text(b),
    ensures
        a == b,
{
    lemma_special_keysym_table();
    let s = special_keysym_text(a)->0;
    let t = special_keysym_text(b)->0;
    assert(s.len() == t.len() && forall|i: int| 0 <= i < s.len() ==> s[i] == t[i]);
}

/// X keysym name for a special key forwarded with or without modifiers.
pub fn special_keysym(code: KeyCode) -> (r: Option<&'static str>)
    ensures
        match r {
            Some(s) => special_keysym_text(code) == Some(s@),
            None => special_keysym_text(code) is None,
        },
{
    match code {
        KeyCode::Up => Some("Up"),
        KeyCode::Down => Some("Down"),
        KeyCode::Left => Some("Left"),
        KeyCode::Right => Some("Right"),
        KeyCode::Home => Some("Home"),
        KeyCode::End => Some("End"),
        KeyCode::PageUp => Some("Page_Up"),
        KeyCode::PageDown => Some("Page_Down"),
        KeyCode::Tab => Some("Tab"),
        KeyCode::Enter => Some("Return"),
        KeyCode::Esc => Some("Escape"),
        KeyCode::Backspace => Some("BackSpace"),
        KeyCode::Delete => Some("Delete"),
        KeyCode::Insert => Some("Insert"),
        _ => None,
    }
}

/// The X keysym name of a punctuation character, when it has one.
pub open spec fn punctuation_name(c: char) -> Option<Seq<char>> {
    if c == '/' { Some("slash"@) }
    else if c == '\\' { Some("backslash"@) }
    else if c == '.' { Some("period"@) }
    else if c == ',' { Some("comma"@) }
    else if c == ';' { Some("semicolon"@) }
    else if c == ':' { Some("colon"@) }
    else if c == '\'' { Some("apostrophe"@) }
    else if c == '"' { Some("quotedbl"@) }
    else if c == '`' { Some("grave"@) }
    else if c == '~' { Some("asciitilde"@) }
    else if c == '-' { Some("minus"@) }
    else if c == '_' { Some("underscore"@) }
    else if c == '=' { Some("equal"@) }
    else if c == '+' { Some("plus"@) }
    else if c == '[' { Some("bracketleft"@) }
    else if c == ']' { Some("bracketright"@) }
    else if c == '{' { Some("braceleft"@) }
    else if c == '}' { Some("braceright"@) }
    else if c == '(' { Some("parenleft"@) }
    else if c == ')' { Some("parenright"@) }
    else if c == '<' { Some("less"@) }
    else if c == '>' { Some("greater"@) }
    else if c == '!' { Some("exclam"@) }
    else if c == '@' { Some("at"@) }
    else if c == '#' { Some("numbersign"@) }
    else if c == '$' { Some("dollar"@) }
    else if c == '%' { Some("percent"@) }
    else if c == '^' { Some("asciicircum"@) }
    else if c == '&' { Some("ampersand"@) }
    else if c == '*' { Some("asterisk"@) }
    else if c == '?' { Some("question"@) }
    else if c == '|' { Some("bar"@) }
    else { None }
}

/// Different punctuation characters are sent as different keysyms.
pub proof fn lemma_punctuation_names_distinct(a: char, b: char)
    requires
        punctuation_name(a) is Some,
        punctuation_name(a) == punctuation_name(b),
    ensures
        a == b,
{
    reveal_strlit("slash");
    reveal_strlit("backslash");
    reveal_strlit("period");
    reveal_strlit("comma");
    reveal_strlit("semicolon");
    reveal_strlit("colon");
    reveal_strlit("apostrophe");
    reveal_strlit("quotedbl");
    reveal_strlit("grave");
    reveal_strlit("asciitilde");
    reveal_strlit("minus");
    reveal_strlit("underscore");
    reveal_strlit("equal");
    reveal_strlit("plus");
    reveal_strlit("bracketleft");
    reveal_strlit("bracketright");
    reveal_strlit("braceleft");
    reveal_strlit("braceright");
    reveal_strlit("parenleft");
    reveal_strlit("parenright");
    reveal_strlit("less");
    reveal_strlit("greater");
    reveal_strlit("exclam");
    reveal_strlit("at");
    reveal_strlit("numbersign");
    reveal_strlit("dollar");
    reveal_strlit("percent");
    reveal_strlit("asciicircum");
    reveal_strlit("ampersand");
    reveal_strlit("asterisk");
    reveal_strlit("question");
    reveal_strlit("bar");
    assert("slash"@ =~= seq!['s', 'l', 'a', 's', 'h']);
    assert("backslash"@ =~= seq!['b', 'a', 'c', 'k', 's', 'l', 'a', 's', 'h']);
    assert("period"@ =~= seq!['p', 'e', 'r', 'i', 'o', 'd']);
    assert("comma"@ =~= seq!['c', 'o', 'm', 'm', 'a']);
    assert("semicolon"@ =~= seq!['s', 'e', 'm', 'i', 'c', 'o', 'l', 'o', 'n']);
    assert("colon"@ =~= seq!['c', 'o', 'l', 'o', 'n']);
    assert("apostrophe"@ =~= seq!['a', 'p', 'o', 's', 't', 'r', 'o', 'p', 'h', 'e']);
    assert("quotedbl"@ =~= seq!['q', 'u', 'o', 't', 'e', 'd', 'b', 'l']);
    assert("grave"@ =~= seq!['g', 'r', 'a', 'v', 'e']);
    assert("asciitilde"@ =~= seq!['a', 's', 'c', 'i', 'i', 't', 'i', 'l', 'd', 'e']);
    assert("minus"@ =~= seq!['m', 'i', 'n', 'u', 's']);
    assert("underscore"@ =~= seq!['u', 'n', 'd', 'e', 'r', 's', 'c', 'o', 'r', 'e']);
    assert("equal"@ =~= seq!['e', 'q', 'u', 'a', 'l']);
    assert("plus"@ =~= seq!['p', 'l', 'u', 's']);
    assert("bracketleft"@ =~= seq!['b', 'r', 'a', 'c', 'k', 'e', 't', 'l', 'e', 'f', 't']);
    assert("bracketright"@ =~= seq!['b', 'r', 'a', 'c', 'k', 'e', 't', 'r', 'i', 'g', 'h', 't']);
    assert("braceleft"@ =~= seq!['b', 'r', 'a', 'c', 'e', 'l', 'e', 'f', 't']);
    assert("braceright"@ =~= seq!['b', 'r', 'a', 'c', 'e', 'r', 'i', 'g', 'h', 't']);
    assert("parenleft"@ =~= seq!['p', 'a', 'r', 'e', 'n', 'l', 'e', 'f', 't']);
    assert("parenright"@ =~= seq!['p', 'a', 'r', 'e', 'n', 'r', 'i', 'g', 'h', 't']);
    assert("less"@ =~= seq!['l', 'e', 's', 's']);
    assert("greater"@ =~= seq!['g', 'r', 'e', 'a', 't', 'e', 'r']);
    assert("exclam"@ =~= seq!['e', 'x', 'c', 'l', 'a', 'm']);
    assert("at"@ =~= seq!['a', 't']);
    assert("numbersign"@ =~= seq!['n', 'u', 'm', 'b', 'e', 'r', 's', 'i', 'g', 'n']);
    assert("dollar"@ =~= seq!['d', 'o', 'l', 'l', 'a', 'r']);
    assert("percent"@ =~= seq!['p', 'e', 'r', 'c', 'e', 'n', 't']);
    assert("asciicircum"@ =~= seq!['a', 's', 'c', 'i', 'i', 'c', 'i', 'r', 'c', 'u', 'm']);
    assert("ampersand"@ =~= seq!['a', 'm', 'p', 'e', 'r', 's', 'a', 'n', 'd']);
    assert("asterisk"@ =~= seq!['a', 's', 't', 'e', 'r', 'i', 's', 'k']);
    assert("question"@ =~= seq!['q', 'u', 'e', 's', 't', 'i', 'o', 'n']);
    assert("bar"@ =~= seq!['b', 'a', 'r']);
    let s = punctuation_name(a)->0;
    let t = punctuation_name(b)->0;
    assert(s.len() == t.len() && forall|i: int| 0 <= i < s.len() ==> s[i] == t[i]);
}

fn punctuation_name_str(c: char) -> (r: Option<&'static str>)
    ensures
        match r {
            Some(s) => punctuation_name(c) == Some(s@),
            None => punctuation_name(c) is None,
        },
{
    if c == '/' { Some("slash") }
    else if c == '\\' { Some("backslash") }
    else if c == '.' { Some("period") }
    else if c == ',' { Some("comma") }
    else if c == ';' { Some("semicolon") }
    else if c == ':' { Some("colon") }
    else if c == '\'' { Some("apostrophe") }
    else if c == '"' { Some("quotedbl") }
    else if c == '`' { Some("grave") }
    else if c == '~' { Some("asciitilde") }
    else if c == '-' { Some("minus") }
    else if c == '_' { Some("underscore") }
    else if c == '=' { Some("equal") }
    else if c == '+' { Some("plus") }
    else if c == '[' { Some("bracketleft") }
    else if c == ']' { Some("bracketright") }
    else if c == '{' { Some("braceleft") }
    else if c == '}' { Some("braceright") }
    else if c == '(' { Some("parenleft") }
    else if c == ')' { Some("parenright") }
    else if c == '<' { Some("less") }
    else if c == '>' { Some("greater") }
    else if c == '!' { Some("exclam") }
    else if c == '@' { Some("at") }
    else if c == '#' { Some("numbersign") }
    else if c == '$' { Some("dollar") }
    else if c == '%' { Some("percent") }
    else if c == '^' { Some("asciicircum") }
    else if c == '&' { Some("ampersand") }
    else if c == '*' { Some("asterisk") }
    else if c == '?' { Some("question") }
    else if c == '|' { Some("bar") }
    else { None }
}

/// The base keysym of a character inside a modifier chord: `space` for the
/// space bar, ASCII letters lowercased (the chord carries Shift separately),
/// punctuation by its X name, anything else the character itself.
pub open spec fn char_keysym_text(c: char) -> Seq<char> {
    if c == ' ' {
        "space"@
    } else if 'A' <= c <= 'Z' {
        seq![((c as u32) + 32) as char]
    } else if 'a' <= c <= 'z' {
        seq![c]
    } else {
        match punctuation_name(c) {
            Some(n) => n,
            None => seq![c],
        }
    }
}

/// Base keysym for a character used inside a modifier chord.
pub fn char_keysym(c: char) -> (s: String)
    ensures
        s@ == char_keysym_text(c),
{
    let mut v: Vec<char> = Vec::new();
    if c == ' ' {
        push_str(&mut v, "space");
    } else if 'A' <= c && c <= 'Z' {
        let lower: char = lower_ascii(c);
        v.push(lower);
    } else if 'a' <= c && c <= 'z' {
        v.push(c);
    } else {
        match punctuation_name_str(c) {
            Some(n) => push_str(&mut v, n),
            None => v.push(c),
        }
    }
    assert(v@ =~= char_keysym_text(c));
    string_from_chars(&v)
}

fn lower_ascii(c: char) -> (l: char)
    requires
        'A' <= c <= 'Z',
    ensures
        l == ((c as u32) + 32) as char,
{
    let u: u32 = c as u32 + 32;
    if u == 97 { 'a' } else if u == 98 { 'b' } else if u == 99 { 'c' } else if u == 100 { 'd' }
    else if u == 101 { 'e' } else if u == 102 { 'f' } else if u == 103 { 'g' } else if u == 104 { 'h' }
    else if u == 105 { 'i' } else if u == 106 { 'j' } else if u == 107 { 'k' } else if u == 108 { 'l' }
    else if u == 109 { 'm' } else if u == 110 { 'n' } else if u == 111 { 'o' } else if u == 112 { 'p' }
    else if u == 113 { 'q' } else if u == 114 { 'r' } else if u == 115 { 's' } else if u == 116 { 't' }
    else if u == 117 { 'u' } else if u == 118 { 'v' } else if u == 119 { 'w' } else if u == 120 { 'x' }
    else if u == 121 { 'y' } else { 'z' }
}

// ----------------------------------------------------------------------------
// Forwarding
// ----------------------------------------------------------------------------

/// What forwarding a key does to the inner window.
pub enum Forward {
    /// Type this text literally.
    Type(String),
    /// Send this key chord.
    Chord(String),
}

/// The meaning of a [`Forward`].
pub enum ForwardModel {
    Type(Seq<char>),
    Chord(Seq<char>),
}

impl Forward {
    pub open spec fn model(&self) -> ForwardModel {
        match self {
            Forward::Type(s) => ForwardModel::Type(s@),
            Forward::Chord(s) => ForwardModel::Chord(s@),
        }
    }
}

/// How a key reaches the inner window: a character with no Ctrl, Alt or
/// Super is typed literally (Shift is already in the character); other
/// characters, function keys and special keys become chords with their
/// modifier prefix; Shift+Tab is `shift+Tab`; other keys are dropped.
pub open spec fn forward_of(key: Key) -> Option<ForwardModel> {
    let chord = key.mods.ctrl || key.mods.alt || key.mods.logo;
    match key.code {
        KeyCode::Char(c) => if !chord {
            Some(ForwardModel::Type(seq![c]))
        } else {
            Some(ForwardModel::Chord(modifier_prefix_text(key.mods) + char_keysym_text(c)))
        },
        KeyCode::F(n) => Some(ForwardModel::Chord(modifier_prefix_text(key.mods) + "F"@ + decimal(n as nat))),
        KeyCode::BackTab => Some(ForwardModel::Chord("shift+Tab"@)),
        other => match special_keysym_text(other) {
            Some(sym) => Some(ForwardModel::Chord(modifier_prefix_text(key.mods) + sym)),
            None => None,
        },
    }
}

/// Translates a key for the focused inner window.
pub fn forward_key(key: &Key) -> (r: Option<Forward>)
    ensures
        match r {
            Some(f) => forward_of(*key) == Some(f.model()),
            None => forward_of(*key) is None,
        },
{
    let chord: bool = key.mods.ctrl || key.mods.alt || key.mods.logo;
    match key.code {
        KeyCode::Char(c) => {
            if !chord {
                let mut v: Vec<char> = Vec::new();
                v.push(c);
                assert(v@ =~= seq![c]);
                Some(Forward::Type(string_from_chars(&v)))
            } else {
                let mut v = modifier_prefix(key.mods);
                let k = char_keysym(c);
                let kc = chars_of(k.as_str());
                push_chars(&mut v, &kc);
                Some(Forward::Chord(string_from_chars(&v)))
            }
        },
        KeyCode::F(n) => {
            let mut v = modifier_prefix(key.mods);
            v.push('F');
            push_decimal(&mut v, n as u64);
            proof {
                reveal_strlit("F");
            }
            assert(v@ =~= modifier_prefix_text(key.mods) + "F"@ + decimal(n as nat));
            Some(Forward::Chord(string_from_chars(&v)))
        },
        KeyCode::BackTab => {
            let mut v: Vec<char> = Vec::new();
            push_str(&mut v, "shift+Tab");
            Some(Forward::Chord(string_from_chars(&v)))
        },
        other => {
            match special_keysym(other) {
                Some(sym) => {
                    let mut v = modifier_prefix(key.mods);
                    push_str(&mut v, sym);
                    Some(Forward::Chord(string_from_chars(&v)))
                },
                None => None,
            }
        },
    }
}

// ----------------------------------------------------------------------------
// The leader
// ----------------------------------------------------------------------------

/// The local command selected by the key after the leader.
#[derive(Debug, Clone, Copy, PartialEq, Eq, Structural)]
pub enum LeaderCommand {
    /// Leader pressed twice: send a literal Ctrl+B to the app.
    SendLeader,
    Quit,
    /// Only bound in session mode.
    Detach,
    /// Prompt for a command to run on the display.
    PromptRun,
    /// Prompt for text to type into the focused window.
    PromptInput,
    ToggleMute,
    VolumeBy(i32),
    /// Unbound key: the leader is simply cancelled.
    Ignore,
}

/// The command bound to `key` after the leader (modifiers other than the
/// leader's own do not matter).
pub open spec fn leader_command_of(key: Key, session_mode: bool) -> LeaderCommand {
    if leader(key) {
        LeaderCommand::SendLeader
    } else {
        match key.code {
            KeyCode::Char(c) => if c == 'q' {
                LeaderCommand::Quit
            } else if c == 'd' && session_mode {
                LeaderCommand::Detach
            } else if c == 'r' {
                LeaderCommand::PromptRun
            } else if c == 'i' {
                LeaderCommand::PromptInput
            } else if c == 'm' {
                LeaderCommand::ToggleMute
            } else if c == '+' || c == '=' {
                LeaderCommand::VolumeBy(5i32)
            } else if c == '-' {
                LeaderCommand::VolumeBy(-5i32)
            } else {
                LeaderCommand::Ignore
            },
            _ => LeaderCommand::Ignore,
        }
    }
}

/// The leader's bindings, whatever modifiers are held: `q` quits, `d`
/// detaches in session mode only, `r` opens the run prompt, `i` the typing
/// prompt, `m` toggles mute, `+` and `=` raise the volume by five points
/// and `-` lowers it by as many; the leader again sends a literal Ctrl+B.
/// No key detaches outside session mode.
pub proof fn lemma_leader_bindings(m: KeyMods, session_mode: bool, key: Key)
    ensures
        leader_command_of(Key { code: KeyCode::Char('q'), mods: m }, session_mode) == LeaderCommand::Quit,
        leader_command_of(Key { code: KeyCode::Char('d'), mods: m }, true) == LeaderCommand::Detach,
        leader_command_of(key, false) != LeaderCommand::Detach,
        leader_command_of(Key { code: KeyCode::Char('r'), mods: m }, session_mode) == LeaderCommand::PromptRun,
        leader_command_of(Key { code: KeyCode::Char('i'), mods: m }, session_mode) == LeaderCommand::PromptInput,
        leader_command_of(Key { code: KeyCode::Char('m'), mods: m }, session_mode) == LeaderCommand::ToggleMute,
        leader_command_of(Key { code: KeyCode::Char('+'), mods: m }, session_mode) == LeaderCommand::VolumeBy(5i32),
        leader_command_of(Key { code: KeyCode::Char('='), mods: m }, session_mode) == LeaderCommand::VolumeBy(5i32),
        leader_command_of(Key { code: KeyCode::Char('-'), mods: m }, session_mode) == LeaderCommand::VolumeBy(-5i32),
        m.ctrl ==> leader_command_of(Key { code: KeyCode::Char('b'), mods: m }, session_mode)
            == LeaderCommand::SendLeader,
        forall|d: i32| #[trigger] leader_command_of(key, session_mode) == LeaderCommand::VolumeBy(d) ==> d == 5 || d
            == -5,
{
}

/// The local command bound to `key` after the leader was pressed.
pub fn handle_leader_command(key: &Key, session_mode: bool) -> (c: LeaderCommand)
    ensures
        c == leader_command_of(*key, session_mode),
{
    if is_leader(key) {
        return LeaderCommand::SendLeader;
    }
    match key.code {
        KeyCode::Char(c) => {
            if c == 'q' {
                LeaderCommand::Quit
            } else if c == 'd' && session_mode {
                LeaderCommand::Detach
            } else if c == 'r' {
                LeaderCommand::PromptRun
            } else if c == 'i' {
                LeaderCommand::PromptInput
            } else if c == 'm' {
                LeaderCommand::ToggleMute
            } else if c == '+' || c == '=' {
                LeaderCommand::VolumeBy(5)
            } else if c == '-' {
                LeaderCommand::VolumeBy(-5)
            } else {
                LeaderCommand::Ignore
            }
        },
        _ => LeaderCommand::Ignore,
    }
}

/// Whether the leader is armed after a key press, given whether it was
/// before: a pending leader is always consumed by the next key; otherwise
/// only the leader arms it.
pub open spec fn leader_step(pending: bool, key: Key) -> bool {
    !pending && leader(key)
}

/// Whether the leader is armed after the key presses `keys`, starting from
/// `pending`.
pub open spec fn pending_after(pending: bool, keys: Seq<Key>) -> bool
    decreases keys.len(),
{
    if keys.len() == 0 {
        pending
    } else {
        leader_step(pending_after(pending, keys.drop_last()), keys.last())
    }
}

/// Over any run of key presses from a fresh state, the leader takes exactly
/// one following key: the key after an armed leader is taken as a command
/// and leaves nothing armed, and any other key arms the leader only when it
/// is the leader itself.
pub proof fn lemma_leader_takes_one_key(keys: Seq<Key>, i: int)
    requires
        0 <= i < keys.len(),
    ensures
        pending_after(false, keys.take(i)) ==> !pending_after(false, keys.take(i + 1)),
        !pending_after(false, keys.take(i)) ==> pending_after(false, keys.take(i + 1)) == leader(keys[i]),
{
    assert(keys.take(i + 1).drop_last() =~= keys.take(i));
    assert(keys.take(i + 1).last() == keys[i]);
}

/// What a key press leads to.
pub enum KeyAction {
    /// The key after the leader selected this command.
    Command(LeaderCommand),
    /// Forward the key to the inner window.
    Forward(Forward),
    /// The leader was pressed; the next key selects a command.
    LeaderArmed,
    /// Nothing to do.
    Nothing,
}

/// The key-handling state: whether the last key was the leader.
pub struct InputState {
    pub leader_pending: bool,
}

impl InputState {
    pub fn new() -> (s: InputState)
        ensures
            !s.leader_pending,
    {
        InputState { leader_pending: false }
    }

    /// Handles one key press. After the leader, exactly the next key selects
    /// a command; otherwise the leader arms and any other key is forwarded.
    pub fn on_key(&mut self, key: &Key, session_mode: bool) -> (a: KeyAction)
        ensures
            final(self).leader_pending == leader_step(old(self).leader_pending, *key),
            old(self).leader_pending ==> !final(self).leader_pending && a == KeyAction::Command(
                leader_command_of(*key, session_mode),
            ),
            !old(self).leader_pending && leader(*key) ==> final(self).leader_pending && a
                == KeyAction::LeaderArmed,
            !old(self).leader_pending && !leader(*key) ==> !final(self).leader_pending && match a {
                KeyAction::Forward(f) => forward_of(*key) == Some(f.model()),
                KeyAction::Nothing => forward_of(*key) is None,
                _ => false,
            },
    {
        if self.leader_pending {
            self.leader_pending = false;
            KeyAction::Command(handle_leader_command(key, session_mode))
        } else if is_leader(key) {
            self.leader_pending = true;
            KeyAction::LeaderArmed
        } else {
            match forward_key(key) {
                Some(f) => KeyAction::Forward(f),
                None => KeyAction::Nothing,
            }
        }
    }
}

// ----------------------------------------------------------------------------
// Mouse
// ----------------------------------------------------------------------------

/// A mouse button.
#[derive(Debug, Clone, Copy, PartialEq, Eq, Structural)]
pub enum MouseButton {
    Left,
    Middle,
    Right,
}

/// The X button number of a mouse button.
pub fn mouse_button_number(button: MouseButton) -> (n: u8)
    ensures
        n == match button {
            MouseButton::Left => 1u8,
            MouseButton::Middle => 2u8,
            MouseButton::Right => 3u8,
        },
{
    match button {
        MouseButton::Left => 1,
        MouseButton::Middle => 2,
        MouseButton::Right => 3,
    }
}

/// A mouse event.
#[derive(Debug, Clone, Copy, PartialEq, Eq, Structural)]
pub enum MouseKind {
    Down(MouseButton),
    ScrollUp,
    ScrollDown,
    ScrollLeft,
    ScrollRight,
    /// Motion, drag, release: not forwarded.
    Other,
}

/// What a mouse event does on the inner display.
#[derive(Debug, Clone, Copy, PartialEq, Eq, Structural)]
pub enum MouseAction {
    /// Click this X button at the pixel under the cursor.
    Click(u8),
    /// Vertical scroll: 1 up, -1 down.
    Scroll(i8),
    /// Horizontal scroll: 1 left, -1 right.
    ScrollHorizontal(i8),
    Ignore,
}

/// Clicks and wheel turns are forwarded; motion and drags are not.
pub fn mouse_action(kind: MouseKind) -> (a: MouseAction)
    ensures
        a == match kind {
            MouseKind::Down(MouseButton::Left) => MouseAction::Click(1),
            MouseKind::Down(MouseButton::Middle) => MouseAction::Click(2),
            MouseKind::Down(MouseButton::Right) => MouseAction::Click(3),
            MouseKind::ScrollUp => MouseAction::Scroll(1i8),
            MouseKind::ScrollDown => MouseAction::Scroll(-1i8),
            MouseKind::ScrollLeft => MouseAction::ScrollHorizontal(1i8),
            MouseKind::ScrollRight => MouseAction::ScrollHorizontal(-1i8),
            MouseKind::Other => MouseAction::Ignore,
        },
{
    match kind {
        MouseKind::Down(b) => MouseAction::Click(mouse_button_number(b)),
        MouseKind::ScrollUp => MouseAction::Scroll(1),
        MouseKind::ScrollDown => MouseAction::Scroll(-1),
        MouseKind::ScrollLeft => MouseAction::ScrollHorizontal(1),
        MouseKind::ScrollRight => MouseAction::ScrollHorizontal(-1),
        MouseKind::Other => MouseAction::Ignore,
    }
}

/// The source pixel a click at `(column, row)` aims at, in a terminal of
/// `terminal_rows` rows whose bottom row is the status bar and whose image
/// area shows `p`: `None` for an empty source, a terminal with no image
/// rows, a click on the status bar, or a click outside the image.
pub open spec fn click_target_of(
    src_width: nat,
    src_height: nat,
    terminal_rows: nat,
    p: Placement,
    column: nat,
    row: nat,
) -> Option<(nat, nat)> {
    if src_width == 0 || src_height == 0 || terminal_rows <= 1 || row >= terminal_rows - 1 {
        None
    } else {
        source_pixel(p, column, row, src_width, src_height)
    }
}

/// Only the status bar swallows clicks: with a non-empty source and a
/// terminal of at least two rows, a click on any row above the bottom one
/// goes to the source pixel under it (or nowhere, in a margin), and a click
/// on the bottom row goes nowhere.
pub proof fn lemma_click_dropped_only_on_status_bar(
    src_width: nat,
    src_height: nat,
    terminal_rows: nat,
    p: Placement,
    column: nat,
    row: nat,
)
    requires
        src_width > 0,
        src_height > 0,
        terminal_rows >= 2,
    ensures
        row + 1 < terminal_rows ==> click_target_of(src_width, src_height, terminal_rows, p, column, row)
            == source_pixel(p, column, row, src_width, src_height),
        row + 1 >= terminal_rows ==> click_target_of(src_width, src_height, terminal_rows, p, column, row) is None,
{
}

/// Maps a click to the source pixel under it.
pub fn click_target(
    src_width: u32,
    src_height: u32,
    terminal_rows: u16,
    p: Placement,
    column: u16,
    row: u16,
) -> (r: Option<(u32, u32)>)
    ensures
        r matches Some((x, y)) ==> click_target_of(src_width as nat, src_height as nat, terminal_rows as nat, p, column as nat, row as nat) == Some((x as nat, y as nat)),
        r is None ==> click_target_of(src_width as nat, src_height as nat, terminal_rows as nat, p, column as nat, row as nat) is None,
{
    if src_width == 0 || src_height == 0 {
        return None;
    }
    if terminal_rows < 1 {
        return None;
    }
    let render_rows: u16 = terminal_rows - 1;
    if render_rows == 0 || row >= render_rows {
        return None;
    }
    cell_to_source(p, column, row, src_width, src_height)
}

// ----------------------------------------------------------------------------
// The line prompt
// ----------------------------------------------------------------------------

/// What a key does to an open prompt.
#[derive(Debug, Clone, Copy, PartialEq, Eq, Structural)]
pub enum PromptStep {
    /// Enter: submit the line.
    Submit,
    /// Esc: discard the line and close.
    Cancel,
    /// The line changed; redraw it.
    Edited,
    /// The key does nothing.
    Ignored,
}

/// The text typed into an open prompt.
pub struct PromptState {
    pub input: Vec<char>,
}

impl PromptState {
    pub fn new() -> (s: PromptState)
        ensures
            s.input@ == Seq::<char>::empty(),
    {
        PromptState { input: Vec::new() }
    }

    /// Handles one key press: Enter submits, Esc clears and cancels,
    /// Backspace removes the last character, a character without Ctrl or
    /// Alt is appended; other keys are ignored.
    pub fn on_key(&mut self, key: &Key) -> (step: PromptStep)
        ensures
            key.code == KeyCode::Enter ==> step == PromptStep::Submit && final(self).input@ == old(self).input@,
            key.code == KeyCode::Esc ==> step == PromptStep::Cancel && final(self).input@ == Seq::<char>::empty(),
            key.code == KeyCode::Backspace ==> step == PromptStep::Edited && final(self).input@ == (if old(self).input@.len() > 0 {
                old(self).input@.drop_last()
            } else {
                old(self).input@
            }),
            key.code matches KeyCode::Char(c) ==> if key.mods.ctrl || key.mods.alt {
                step == PromptStep::Ignored && final(self).input@ == old(self).input@
            } else {
                step == PromptStep::Edited && final(self).input@ == old(self).input@.push(c)
            },
            !(key.code is Enter || key.code is Esc || key.code is Backspace || key.code is Char) ==> step
                == PromptStep::Ignored && final(self).input@ == old(self).input@,
    {
        match key.code {
            KeyCode::Enter => PromptStep::Submit,
            KeyCode::Esc => {
                self.input.clear();
                PromptStep::Cancel
            },
            KeyCode::Backspace => {
                self.input.pop();
                PromptStep::Edited
            },
            KeyCode::Char(c) => {
                if key.mods.ctrl || key.mods.alt {
                    PromptStep::Ignored
                } else {
                    self.input.push(c);
                    PromptStep::Edited
                }
            },
            _ => PromptStep::Ignored,
        }
    }

    /// The prompt's result once it closed: the line, when it was submitted
    /// and is not empty.
    pub fn result(&self, submitted: bool) -> (r: Option<String>)
        ensures
            match r {
                Some(s) => submitted && self.input@.len() > 0 && s@ == self.input@,
                None => !submitted || self.input@.len() == 0,
            },
    {
        if submitted && self.input.len() > 0 {
            Some(string_from_chars(&self.input))
        } else {
            None
        }
    }
}

/// `char::escape_default` of `c`: the usual backslash escapes for tab,
/// carriage return, line feed, quotes and backslash, printable ASCII as is,
/// and `\u{..}` with lowercase hex digits for everything else.
pub open spec fn escape_char(c: char) -> Seq<char> {
    if c == '\t' {
        seq!['\\', 't']
    } else if c == '\r' {
        seq!['\\', 'r']
    } else if c == '\n' {
        seq!['\\', 'n']
    } else if c == '\'' {
        seq!['\\', '\'']
    } else if c == '"' {
        seq!['\\', '"']
    } else if c == '\\' {
        seq!['\\', '\\']
    } else if ' ' <= c <= '~' {
        seq![c]
    } else {
        seq!['\\', 'u', '{'] + hex(c as nat) + seq!['}']
    }
}

/// The escaped form of `s`, one character after another.
pub open spec fn escape_text(s: Seq<char>) -> Seq<char>
    decreases s.len(),
{
    if s.len() == 0 {
        Seq::empty()
    } else {
        escape_text(s.drop_last()) + escape_char(s.last())
    }
}

fn push_escaped(out: &mut Vec<char>, c: char)
    ensures
        final(out)@ == old(out)@ + escape_char(c),
{
    if c == '\t' {
        out.push('\\');
        out.push('t');
    } else if c == '\r' {
        out.push('\\');
        out.push('r');
    } else if c == '\n' {
        out.push('\\');
        out.push('n');
    } else if c == '\'' {
        out.push('\\');
        out.push('\'');
    } else if c == '"' {
        out.push('\\');
        out.push('"');
    } else if c == '\\' {
        out.push('\\');
        out.push('\\');
    } else if ' ' <= c && c <= '~' {
        out.push(c);
    } else {
        out.push('\\');
        out.push('u');
        out.push('{');
        push_hex(out, c as u32);
        out.push('}');
    }
    assert(out@ =~= old(out)@ + escape_char(c));
}

/// The status line while a prompt is open: the label, a space, then the
/// typed text with every character escaped.
pub fn prompt_status_text(label: &str, input: &Vec<char>) -> (s: String)
    ensures
        s@ == label@ + seq![' '] + escape_text(input@),
{
    let mut v = chars_of(label);
    v.push(' ');
    let ghost head = v@;
    let mut i: usize = 0;
    while i < input.len()
        invariant
            i <= input.len(),
            v@ == head + escape_text(input@.take(i as int)),
        decreases input.len() - i,
    {
        push_escaped(&mut v, input[i]);
        i = i + 1;
        assert(input@.take(i as int).drop_last() == input@.take(i - 1));
    }
    assert(input@.take(input.len() as int) == input@);
    string_from_chars(&v)
}

/// The redrawn prompt row: the label in reverse video, then as much of the
/// typed text as fits in `cols` columns after it.
pub open spec fn prompt_row_text(cols: nat, label: Seq<char>, input: Seq<char>) -> Seq<char> {
    let used = label.len() + 3 + 1;
    let available = if cols > used { (cols - used) as nat } else { 0 };
    let shown = if input.len() <= available { input } else { input.take(available as int) };
    "\u{1b}[7m "@ + label + " \u{1b}[0m "@ + shown
}

/// The text drawn on the bottom row for an open prompt.
pub fn prompt_row(cols: u16, label: &str, input: &Vec<char>) -> (s: String)
    ensures
        s@ == prompt_row_text(cols as nat, label@, input@),
{
    let lv = chars_of(label);
    let c: usize = cols as usize;
    let available: usize = if c > lv.len() && c - lv.len() > 4 { c - lv.len() - 4 } else { 0 };
    let mut v: Vec<char> = Vec::new();
    push_str(&mut v, "\u{1b}[7m ");
    push_chars(&mut v, &lv);
    push_str(&mut v, " \u{1b}[0m ");
    let n: usize = if input.len() <= available { input.len() } else { available };
    let mut i: usize = 0;
    let ghost head = v@;
    while i < n
        invariant
            n <= input.len(),
            i <= n,
            v@ == head + input@.take(i as int),
        decreases n - i,
    {
        v.push(input[i]);
        i = i + 1;
        assert(v@ =~= head + input@.take(i as int));
    }
    assert(input@.take(input.len() as int) == input@);
    assert(v@ =~= prompt_row_text(cols as nat, label@, input@));
    string_from_chars(&v)
}

} // verus!
